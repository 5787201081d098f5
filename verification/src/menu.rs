//! Menus: a tree of items, separators and submenus, and what activating an
//! item sends.
use vstd::prelude::*;

use crate::command::{defaulted, Command, Target};
use crate::id::WindowId;

verus! {

/// Uniquely identifies a menu item.
///
/// The platform represents the id as a `u32` and reserves `0` as a
/// placeholder; here the placeholder is `None`.
#[derive(Debug, Clone, Copy, PartialEq, Eq, Structural)]
pub struct MenuItemId(pub Option<u32>);

impl MenuItemId {
    /// The id for the platform's number `id`; `0` is the placeholder.
    pub fn new(id: u32) -> (m: MenuItemId)
        ensures
            m.0 == if id == 0 {
                None::<u32>
            } else {
                Some(id)
            },
    {
        if id == 0 {
            MenuItemId(None)
        } else {
            MenuItemId(Some(id))
        }
    }

    /// The platform's number for this id: `0` for the placeholder.
    pub fn raw(&self) -> (n: u32)
        ensures
            n == match self.0 {
                Some(x) => x,
                None => 0,
            },
    {
        match self.0 {
            Some(x) => x,
            None => 0,
        }
    }
}

/// Where the commands of a menu go when they do not say: the menu's
/// window, or every window for a menu with no window.
pub open spec fn menu_target(window: Option<WindowId>) -> Target {
    match window {
        Some(w) => Target::Window(w),
        None => Target::Global,
    }
}

/// The context of a menu item's activation: the menu's window and the
/// queue of commands to run.
pub struct MenuEventCtx {
    pub window: Option<WindowId>,
    pub queue: Vec<Command>,
}

impl MenuEventCtx {
    /// A context for the menu of `window`, appending to `queue`.
    pub fn new(window: Option<WindowId>, queue: Vec<Command>) -> (ctx: MenuEventCtx)
        ensures
            ctx.window == window,
            ctx.queue@ == queue@,
    {
        MenuEventCtx { window, queue }
    }

    /// Submits a command to be handled by the widget tree.
    ///
    /// A command whose target is `Auto` is sent to the menu's window if the
    /// menu belongs to a window, and to every window otherwise.
    pub fn submit_command(&mut self, cmd: Command)
        ensures
            final(self).window == old(self).window,
            final(self).queue@ == old(self).queue@.push(defaulted(cmd, menu_target(old(self).window))),
    {
        let target = match self.window {
            Some(w) => Target::Window(w),
            None => Target::Global,
        };
        self.queue.push(cmd.default_to(target));
    }

    /// The queue, with the commands submitted.
    pub fn into_queue(self) -> (queue: Vec<Command>)
        ensures
            queue@ == self.queue@,
    {
        self.queue
    }
}

/// An item of a menu: its id, its title and the command that choosing it
/// sends, if any.
pub struct MenuItem {
    pub id: MenuItemId,
    pub title: String,
    pub command: Option<Command>,
}

/// The low 32 bits of a counter value: the platform's number for it.
pub open spec fn low_bits(n: u64) -> u64 {
    n % 0x1_0000_0000
}

/// The counter value after `n`, wrapping around as an atomic add does.
pub open spec fn after(n: u64) -> u64 {
    if n == u64::MAX {
        0
    } else {
        (n + 1) as u64
    }
}

/// The number of the menu item made when the counter stands at `n`: the low
/// 32 bits of `n`, or of the next value when those are the placeholder 0.
pub open spec fn item_number(n: u64) -> u32 {
    if low_bits(n) != 0 {
        low_bits(n) as u32
    } else {
        low_bits(after(n)) as u32
    }
}

/// The counter after making a menu item from `n`: one step on, or two when
/// the first value was skipped.
pub open spec fn item_counter_after(n: u64) -> u64 {
    if low_bits(n) != 0 {
        after(n)
    } else {
        after(after(n))
    }
}

/// The counter that hands out menu item ids: it starts at 1 and goes up by
/// one for each value handed out.
pub struct MenuIdCounter {
    pub next: u64,
}

impl MenuIdCounter {
    /// A counter at 1, the first id.
    pub fn new() -> (c: MenuIdCounter)
        ensures
            c.next == 1,
    {
        MenuIdCounter { next: 1 }
    }

    /// Hands out the current value and moves on by one, wrapping around at
    /// the top.
    pub fn take(&mut self) -> (v: u64)
        ensures
            v == old(self).next,
            final(self).next == after(old(self).next),
    {
        let v = self.next;
        self.next = if v == u64::MAX {
            0
        } else {
            v + 1
        };
        v
    }

    /// The id of a new menu item: the low 32 bits of the next value, taking
    /// one more value when those are 0, which the platform reserves.
    pub fn next_item_id(&mut self) -> (id: MenuItemId)
        ensures
            id == MenuItemId(Some(item_number(old(self).next))),
            item_number(old(self).next) != 0,
            final(self).next == item_counter_after(old(self).next),
    {
        let first = self.take();
        let low = first % 0x1_0000_0000;
        if low != 0 {
            MenuItemId(Some(low as u32))
        } else {
            let second = self.take();
            assert(low_bits(after(first)) == 1) by {
                if first == u64::MAX {
                    assert(false);
                }
            }
            MenuItemId(Some((second % 0x1_0000_0000) as u32))
        }
    }
}

/// Menu items made one after the other get different ids while the counter
/// stays below 2^32: the counter starts at 1 and only goes up, and the id
/// made at counter value `a` differs from the one made at any later value
/// `b`.
pub proof fn lemma_item_ids_differ(a: u64, b: u64)
    requires
        1 <= a < b < 0x1_0000_0000,
    ensures
        item_number(a) != item_number(b),
        item_counter_after(a) == a + 1,
        a < item_counter_after(a),
{
}

impl MenuItem {
    /// A new item with the given title that does nothing yet; its id is
    /// the next one of `counter`, never the placeholder.
    pub fn new(counter: &mut MenuIdCounter, title: String) -> (item: MenuItem)
        ensures
            item.id == MenuItemId(Some(item_number(old(counter).next))),
            item.id.0 != Some(0u32),
            final(counter).next == item_counter_after(old(counter).next),
            item.title@ == title@,
            item.command is None,
    {
        let id = counter.next_item_id();
        MenuItem { id, title, command: None }
    }

    /// An item with the given id and title that does nothing yet.
    pub fn with_id(id: MenuItemId, title: String) -> (item: MenuItem)
        ensures
            item.id == id,
            item.title@ == title@,
            item.command is None,
    {
        MenuItem { id, title, command: None }
    }

    /// The item, sending `cmd` when it is chosen.
    pub fn command(self, cmd: Command) -> (item: MenuItem)
        ensures
            item.id == self.id,
            item.title == self.title,
            item.command == Some(cmd),
    {
        MenuItem { id: self.id, title: self.title, command: Some(cmd) }
    }
}

/// An entry of a menu.
pub enum MenuEntry {
    Item(MenuItem),
    Separator,
    Submenu(Menu),
}

/// A menu: its own item (title) and its entries. Menus nest.
pub struct Menu {
    pub item: MenuItem,
    pub children: Vec<MenuEntry>,
}

/// The commands that activating `id` sends from an entry, in order, each
/// sent to `target` where it does not say.
pub open spec fn entry_commands(e: MenuEntry, id: MenuItemId, target: Target) -> Seq<Command>
    decreases e, 0nat,
{
    match e {
        MenuEntry::Item(item) => if item.id == id && item.command is Some {
            seq![defaulted(item.command->0, target)]
        } else {
            Seq::empty()
        },
        MenuEntry::Separator => Seq::empty(),
        MenuEntry::Submenu(m) => entries_commands(m.children@, id, target),
    }
}

/// The commands that activating `id` sends from a list of entries, in
/// order.
pub open spec fn entries_commands(es: Seq<MenuEntry>, id: MenuItemId, target: Target) -> Seq<
    Command,
>
    decreases es, es.len(),
{
    if es.len() == 0 {
        Seq::empty()
    } else {
        entries_commands(es.drop_last(), id, target) + entry_commands(es.last(), id, target)
    }
}

impl MenuEntry {
    /// Activates the item `id` among this entry.
    pub fn activate(&self, ctx: &mut MenuEventCtx, id: MenuItemId)
        ensures
            final(ctx).window == old(ctx).window,
            final(ctx).queue@ == old(ctx).queue@ + entry_commands(*self, id, menu_target(old(ctx).window)),
        decreases self, 0nat,
    {
        match self {
            MenuEntry::Item(item) => {
                if item.id == id {
                    match item.command {
                        Some(cmd) => {
                            ctx.submit_command(cmd);
                        },
                        None => {
                            assert(old(ctx).queue@ + Seq::empty() =~= old(ctx).queue@);
                        },
                    }
                } else {
                    assert(old(ctx).queue@ + Seq::empty() =~= old(ctx).queue@);
                }
            },
            MenuEntry::Separator => {
                assert(old(ctx).queue@ + Seq::empty() =~= old(ctx).queue@);
            },
            MenuEntry::Submenu(m) => {
                m.activate(ctx, id);
            },
        }
    }
}

impl Menu {
    /// An empty menu with the given title item.
    pub fn new(item: MenuItem) -> (m: Menu)
        ensures
            m.item == item,
            m.children@.len() == 0,
    {
        Menu { item, children: Vec::new() }
    }

    /// The menu with `entry` appended.
    pub fn entry(self, entry: MenuEntry) -> (m: Menu)
        ensures
            m.item == self.item,
            m.children@ == self.children@.push(entry),
    {
        let mut children = self.children;
        children.push(entry);
        Menu { item: self.item, children }
    }

    /// The menu with a separator appended.
    pub fn separator(self) -> (m: Menu)
        ensures
            m.item == self.item,
            m.children@ == self.children@.push(MenuEntry::Separator),
    {
        self.entry(MenuEntry::Separator)
    }

    /// Activates the item `id` among the entries of this menu: every item
    /// with that id, in order, sends its command.
    pub fn activate(&self, ctx: &mut MenuEventCtx, id: MenuItemId)
        ensures
            final(ctx).window == old(ctx).window,
            final(ctx).queue@ == old(ctx).queue@ + entries_commands(
                self.children@,
                id,
                menu_target(old(ctx).window),
            ),
        decreases self, 1nat,
    {
        let ghost target = menu_target(ctx.window);
        let n = self.children.len();
        let mut i: usize = 0;
        while i < n
            invariant
                n == self.children@.len(),
                i <= n,
                ctx.window == old(ctx).window,
                target == menu_target(old(ctx).window),
                ctx.queue@ == old(ctx).queue@ + entries_commands(self.children@.take(i as int), id, target),
            decreases n - i,
        {
            assert(self.children@.take(i + 1).drop_last() =~= self.children@.take(i as int));
            self.children[i].activate(ctx, id);
            assert(old(ctx).queue@ + entries_commands(self.children@.take(i as int), id, target)
                + entry_commands(self.children@[i as int], id, target) =~= old(ctx).queue@
                + entries_commands(self.children@.take(i + 1), id, target));
            i += 1;
        }
        assert(self.children@.take(n as int) =~= self.children@);
    }
}

/// The menu of a window or of the application, once built.
pub struct MenuManager {
    /// Whether this is a context menu.
    pub popup: bool,
    pub menu: Option<Menu>,
}

impl MenuManager {
    /// A manager for a context menu.
    pub fn new_for_popup(menu: Menu) -> (m: MenuManager)
        ensures
            m.popup,
            m.menu == Some(menu),
    {
        MenuManager { popup: true, menu: Some(menu) }
    }

    /// Handles the choice of the item `id` in the menu of `window`: the
    /// commands that it sends are appended to `queue`. A manager with no
    /// menu yet sends nothing.
    pub fn event(&self, queue: Vec<Command>, window: Option<WindowId>, id: MenuItemId) -> (q: Vec<
        Command,
    >)
        ensures
            q@ == match self.menu {
                Some(m) => queue@ + entries_commands(m.children@, id, menu_target(window)),
                None => queue@,
            },
    {
        match &self.menu {
            Some(m) => {
                let mut ctx = MenuEventCtx::new(window, queue);
                m.activate(&mut ctx, id);
                ctx.into_queue()
            },
            None => queue,
        }
    }
}

} // verus!
