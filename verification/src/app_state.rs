//! Application-wide state: whether events were handled, where commands go,
//! and the registry of open and pending windows.
use vstd::prelude::*;

use crate::command::{Command, Selector, Target};
use crate::id::WindowId;

verus! {

/// An enum for specifying whether an event was handled.
#[derive(Clone, Copy, Debug, PartialEq, Eq, Structural, Hash)]
pub enum Handled {
    /// An event was already handled, and shouldn't be propagated to other event handlers.
    Yes,
    /// An event has not yet been handled.
    No,
}

impl Handled {
    /// Has the event been handled yet?
    pub fn is_handled(self) -> (res: bool)
        ensures
            res <==> self == Handled::Yes,
    {
        self == Handled::Yes
    }
}

/// The `Handled` value that corresponds to a boolean.
pub open spec fn handled_of(handled: bool) -> Handled {
    if handled {
        Handled::Yes
    } else {
        Handled::No
    }
}

impl From<bool> for Handled {
    /// Returns `Handled::Yes` if `handled` is true, and `Handled::No` otherwise.
    fn from(handled: bool) -> (res: Handled) {
        if handled {
            Handled::Yes
        } else {
            Handled::No
        }
    }
}

impl vstd::std_specs::convert::FromSpecImpl<bool> for Handled {
    open spec fn obeys_from_spec() -> bool {
        true
    }

    open spec fn from_spec(handled: bool) -> Handled {
        handled_of(handled)
    }
}

/// Converting a boolean into `Handled` and asking whether it is handled gives
/// the boolean back, and every `Handled` comes from exactly one boolean.
pub proof fn lemma_handled_roundtrip(b: bool, h: Handled)
    ensures
        (handled_of(b) == Handled::Yes) == b,
        handled_of(h == Handled::Yes) == h,
{
}

/// What the application does with a command taken from its queue.
#[derive(Clone, Copy, Debug, PartialEq, Eq, Structural)]
pub enum CommandAction {
    Quit,
    HideApplication,
    HideOthers,
    CloseAllWindows,
    InvalidateIme(WindowId),
    /// Dispatch the close request to the window; close the window unless it
    /// handled the request.
    CloseWindowUnlessHandled(WindowId),
    ShowWindow(WindowId),
    Paste(WindowId),
    /// The command has to target a window and is dropped with a warning.
    NeedsWindow,
    /// Dispatch the command to the windows.
    Dispatch,
}

/// Where the application sends a command. Quitting, hiding (on macOS) and
/// closing every window are handled wherever they come from; IME,
/// window-closing, showing and pasting commands are handled for their
/// window; closing, showing and open-panel commands that reach no such rule
/// are dropped; everything else is dispatched.
pub open spec fn command_action(cmd: Command, on_mac: bool) -> CommandAction {
    if cmd.selector is QuitApp {
        CommandAction::Quit
    } else if on_mac && cmd.selector is HideApplication {
        CommandAction::HideApplication
    } else if on_mac && cmd.selector is HideOthers {
        CommandAction::HideOthers
    } else if cmd.selector is CloseAllWindows {
        CommandAction::CloseAllWindows
    } else if cmd.target is Window && cmd.selector is InvalidateIme {
        CommandAction::InvalidateIme(cmd.target->Window_0)
    } else if cmd.target is Window && cmd.selector is CloseWindow {
        CommandAction::CloseWindowUnlessHandled(cmd.target->Window_0)
    } else if cmd.target is Window && cmd.selector is ShowWindow {
        CommandAction::ShowWindow(cmd.target->Window_0)
    } else if cmd.target is Window && cmd.selector is Paste {
        CommandAction::Paste(cmd.target->Window_0)
    } else if cmd.selector is CloseWindow || cmd.selector is ShowWindow || cmd.selector is ShowOpenPanel {
        CommandAction::NeedsWindow
    } else {
        CommandAction::Dispatch
    }
}

/// Where each command goes. Quitting and closing every window are done
/// whatever the target; hiding the application or the other applications
/// is done on macOS and dispatched elsewhere. For a command that targets a
/// window, invalidating the IME, closing, showing and pasting are done for
/// that very window. Closing and showing need a window target and are
/// dropped without one; the open panel is dropped whatever the target (it
/// is not handled here yet); pasting and invalidating the IME
/// without a window target, and every other command (the application's
/// own, the context menu, about, preferences, show all), are dispatched.
pub proof fn lemma_command_routes(cmd: Command, on_mac: bool)
    ensures
        ({
            let a = command_action(cmd, on_mac);
            &&& cmd.selector is QuitApp ==> a == CommandAction::Quit
            &&& cmd.selector is CloseAllWindows ==> a == CommandAction::CloseAllWindows
            &&& cmd.selector is HideApplication ==> a == if on_mac {
                CommandAction::HideApplication
            } else {
                CommandAction::Dispatch
            }
            &&& cmd.selector is HideOthers ==> a == if on_mac {
                CommandAction::HideOthers
            } else {
                CommandAction::Dispatch
            }
            &&& match cmd.target {
                Target::Window(id) => {
                    &&& cmd.selector is InvalidateIme ==> a == CommandAction::InvalidateIme(id)
                    &&& cmd.selector is CloseWindow ==> a == CommandAction::CloseWindowUnlessHandled(id)
                    &&& cmd.selector is ShowWindow ==> a == CommandAction::ShowWindow(id)
                    &&& cmd.selector is Paste ==> a == CommandAction::Paste(id)
                    &&& cmd.selector is ShowOpenPanel ==> a == CommandAction::NeedsWindow
                },
                _ => {
                    &&& cmd.selector is CloseWindow || cmd.selector is ShowWindow || cmd.selector is ShowOpenPanel
                        ==> a == CommandAction::NeedsWindow
                    &&& cmd.selector is Paste || cmd.selector is InvalidateIme ==> a == CommandAction::Dispatch
                },
            }
            &&& cmd.selector is Custom || cmd.selector is ShowContextMenu || cmd.selector is ShowAbout
                || cmd.selector is ShowPreferences || cmd.selector is ShowAll ==> a == CommandAction::Dispatch
        }),
{
}

/// Decides what the application does with `cmd`; `on_mac` tells whether
/// the hiding commands exist on this platform.
pub fn route_command(cmd: &Command, on_mac: bool) -> (a: CommandAction)
    ensures
        a == command_action(*cmd, on_mac),
        cmd.selector is QuitApp ==> a == CommandAction::Quit,
        cmd.selector is CloseAllWindows ==> a == CommandAction::CloseAllWindows,
        ({
            match cmd.target {
                Target::Window(id) => {
                    &&& cmd.selector is InvalidateIme ==> a == CommandAction::InvalidateIme(id)
                    &&& cmd.selector is CloseWindow ==> a == CommandAction::CloseWindowUnlessHandled(id)
                    &&& cmd.selector is ShowWindow ==> a == CommandAction::ShowWindow(id)
                    &&& cmd.selector is Paste ==> a == CommandAction::Paste(id)
                },
                _ => cmd.selector is CloseWindow || cmd.selector is ShowWindow || cmd.selector is ShowOpenPanel
                    ==> a == CommandAction::NeedsWindow,
            }
        }),
{
    proof {
        lemma_command_routes(*cmd, on_mac);
    }
    if cmd.is(Selector::QuitApp) {
        return CommandAction::Quit;
    }
    if on_mac && cmd.is(Selector::HideApplication) {
        return CommandAction::HideApplication;
    }
    if on_mac && cmd.is(Selector::HideOthers) {
        return CommandAction::HideOthers;
    }
    if cmd.is(Selector::CloseAllWindows) {
        return CommandAction::CloseAllWindows;
    }
    match cmd.target() {
        Target::Window(id) => {
            if cmd.is(Selector::InvalidateIme) {
                return CommandAction::InvalidateIme(id);
            }
            if cmd.is(Selector::CloseWindow) {
                return CommandAction::CloseWindowUnlessHandled(id);
            }
            if cmd.is(Selector::ShowWindow) {
                return CommandAction::ShowWindow(id);
            }
            if cmd.is(Selector::Paste) {
                return CommandAction::Paste(id);
            }
        },
        _ => {},
    }
    if cmd.is(Selector::CloseWindow) || cmd.is(Selector::ShowWindow) || cmd.is(Selector::ShowOpenPanel) {
        CommandAction::NeedsWindow
    } else {
        CommandAction::Dispatch
    }
}

/// How a dispatched command reaches the windows.
#[derive(Clone, Debug, PartialEq, Eq)]
pub enum DispatchPlan {
    /// Nothing is sent; the answer is already known.
    Done(Handled),
    /// The window gets a close request; if it does not handle it, it is
    /// told that it is disconnected. The answer is the close request's.
    CloseRequest(WindowId),
    /// The window gets the command; the answer is the window's.
    ToWindow(WindowId),
    /// Each window in turn gets the command until one handles it.
    ToEach(Vec<WindowId>),
}

/// What a window is sent while a command is dispatched.
#[derive(Clone, Copy, Debug, PartialEq, Eq, Structural)]
pub enum WindowEvent {
    /// The command itself.
    Command,
    /// A request to close the window.
    CloseRequested,
    /// The notice that the window is disconnected.
    Disconnected,
}

/// The next step of a dispatch.
#[derive(Clone, Copy, Debug, PartialEq, Eq, Structural)]
pub enum DispatchStep {
    /// Send the event to the window, then ask for the next step with the
    /// window's answer.
    Send(WindowId, WindowEvent),
    /// The dispatch is over, with this answer.
    Finish(Handled),
}

/// The first step of the dispatch that `plan` describes.
pub open spec fn first_step_of(plan: DispatchPlan) -> DispatchStep {
    match plan {
        DispatchPlan::Done(h) => DispatchStep::Finish(h),
        DispatchPlan::CloseRequest(id) => DispatchStep::Send(id, WindowEvent::CloseRequested),
        DispatchPlan::ToWindow(id) => DispatchStep::Send(id, WindowEvent::Command),
        DispatchPlan::ToEach(ids) => if ids@.len() > 0 {
            DispatchStep::Send(ids@[0], WindowEvent::Command)
        } else {
            DispatchStep::Finish(Handled::No)
        },
    }
}

/// Whether `sent` events of the dispatch that `plan` describes can have
/// been sent, the last one answered.
pub open spec fn can_follow(plan: DispatchPlan, sent: nat) -> bool {
    match plan {
        DispatchPlan::Done(_) => false,
        DispatchPlan::CloseRequest(_) => 1 <= sent <= 2,
        DispatchPlan::ToWindow(_) => sent == 1,
        DispatchPlan::ToEach(ids) => 1 <= sent <= ids@.len(),
    }
}

/// The step of the dispatch that `plan` describes once `sent` events went
/// out and the last one got `answer`.
///
/// A close request that the window handles ends the dispatch with `Yes`;
/// one that it does not handle is followed by the notice that the window is
/// disconnected, and the dispatch ends with `No`. A command for one window
/// ends with that window's answer. A command for every window goes to one
/// window after the other until one handles it, and ends with `Yes` then,
/// with `No` when none does.
pub open spec fn next_step_of(plan: DispatchPlan, sent: nat, answer: Handled) -> DispatchStep {
    match plan {
        DispatchPlan::Done(h) => DispatchStep::Finish(h),
        DispatchPlan::CloseRequest(id) => if sent == 1 && answer == Handled::No {
            DispatchStep::Send(id, WindowEvent::Disconnected)
        } else if sent == 1 {
            DispatchStep::Finish(Handled::Yes)
        } else {
            DispatchStep::Finish(Handled::No)
        },
        DispatchPlan::ToWindow(_) => DispatchStep::Finish(answer),
        DispatchPlan::ToEach(ids) => if answer == Handled::Yes {
            DispatchStep::Finish(Handled::Yes)
        } else if sent < ids@.len() {
            DispatchStep::Send(ids@[sent as int], WindowEvent::Command)
        } else {
            DispatchStep::Finish(Handled::No)
        },
    }
}

impl DispatchPlan {
    /// The first step of the dispatch.
    pub fn first_step(&self) -> (step: DispatchStep)
        ensures
            step == first_step_of(*self),
    {
        match self {
            DispatchPlan::Done(h) => DispatchStep::Finish(*h),
            DispatchPlan::CloseRequest(id) => DispatchStep::Send(*id, WindowEvent::CloseRequested),
            DispatchPlan::ToWindow(id) => DispatchStep::Send(*id, WindowEvent::Command),
            DispatchPlan::ToEach(ids) => if ids.len() > 0 {
                DispatchStep::Send(ids[0], WindowEvent::Command)
            } else {
                DispatchStep::Finish(Handled::No)
            },
        }
    }

    /// The step that follows once `sent` events went out and the last one
    /// got `answer`.
    pub fn next_step(&self, sent: usize, answer: Handled) -> (step: DispatchStep)
        requires
            can_follow(*self, sent as nat),
        ensures
            step == next_step_of(*self, sent as nat, answer),
    {
        match self {
            DispatchPlan::Done(h) => DispatchStep::Finish(*h),
            DispatchPlan::CloseRequest(id) => if sent == 1 && answer == Handled::No {
                DispatchStep::Send(*id, WindowEvent::Disconnected)
            } else if sent == 1 {
                DispatchStep::Finish(Handled::Yes)
            } else {
                DispatchStep::Finish(Handled::No)
            },
            DispatchPlan::ToWindow(_) => DispatchStep::Finish(answer),
            DispatchPlan::ToEach(ids) => if answer == Handled::Yes {
                DispatchStep::Finish(Handled::Yes)
            } else if sent < ids.len() {
                DispatchStep::Send(ids[sent], WindowEvent::Command)
            } else {
                DispatchStep::Finish(Handled::No)
            },
        }
    }
}

/// The steps of the dispatch that `plan` describes when the windows answer
/// `answers` in turn: the events sent, in order, and the final answer.
/// `None` when the answers run out before the dispatch ends.
pub open spec fn dispatch_run(plan: DispatchPlan, answers: Seq<Handled>) -> Option<(Seq<(WindowId, WindowEvent)>, Handled)> {
    run_from(plan, first_step_of(plan), 0, answers)
}

/// The rest of a dispatch from `step`, after `sent` events went out.
pub open spec fn run_from(
    plan: DispatchPlan,
    step: DispatchStep,
    sent: nat,
    answers: Seq<Handled>,
) -> Option<(Seq<(WindowId, WindowEvent)>, Handled)>
    decreases answers.len() - sent,
{
    match step {
        DispatchStep::Finish(h) => Some((Seq::empty(), h)),
        DispatchStep::Send(id, e) => if sent < answers.len() {
            match run_from(plan, next_step_of(plan, sent + 1, answers[sent as int]), sent + 1, answers) {
                Some((rest, h)) => Some((seq![(id, e)] + rest, h)),
                None => None,
            }
        } else {
            None
        },
    }
}

/// A close request that the window handles ends the dispatch with `Yes` and
/// nothing more is sent; one that it does not handle is followed by the
/// disconnection notice, and the dispatch answers `No`.
pub proof fn lemma_close_request_run(id: WindowId, close_answer: Handled, later: Handled)
    ensures
        close_answer == Handled::Yes ==> dispatch_run(
            DispatchPlan::CloseRequest(id),
            seq![close_answer],
        ) == Some((seq![(id, WindowEvent::CloseRequested)], Handled::Yes)),
        close_answer == Handled::No ==> dispatch_run(
            DispatchPlan::CloseRequest(id),
            seq![close_answer, later],
        ) == Some(
            (
                seq![(id, WindowEvent::CloseRequested), (id, WindowEvent::Disconnected)],
                Handled::No,
            ),
        ),
{
    let plan = DispatchPlan::CloseRequest(id);
    if close_answer == Handled::Yes {
        let a = seq![close_answer];
        assert(run_from(plan, DispatchStep::Finish(Handled::Yes), 1, a) == Some((Seq::<(WindowId, WindowEvent)>::empty(), Handled::Yes)));
        assert(seq![(id, WindowEvent::CloseRequested)] + Seq::<(WindowId, WindowEvent)>::empty() =~= seq![(id, WindowEvent::CloseRequested)]);
    } else {
        let a = seq![close_answer, later];
        let empty = Seq::<(WindowId, WindowEvent)>::empty();
        assert(run_from(plan, DispatchStep::Finish(Handled::No), 2, a) == Some((empty, Handled::No)));
        assert(next_step_of(plan, 2, a[1]) == DispatchStep::Finish(Handled::No));
        assert(seq![(id, WindowEvent::Disconnected)] + empty =~= seq![(id, WindowEvent::Disconnected)]);
        assert(run_from(plan, DispatchStep::Send(id, WindowEvent::Disconnected), 1, a) == Some(
            (seq![(id, WindowEvent::Disconnected)], Handled::No),
        ));
        assert(next_step_of(plan, 1, a[0]) == DispatchStep::Send(id, WindowEvent::Disconnected));
        assert(seq![(id, WindowEvent::CloseRequested)] + seq![(id, WindowEvent::Disconnected)] =~= seq![(id, WindowEvent::CloseRequested), (id, WindowEvent::Disconnected)]);
        assert(run_from(plan, DispatchStep::Send(id, WindowEvent::CloseRequested), 0, a) == Some(
            (seq![(id, WindowEvent::CloseRequested), (id, WindowEvent::Disconnected)], Handled::No),
        ));
    }
}

/// The events that a command for every window sends to the windows `ids`:
/// the command to each, in order.
pub open spec fn commands_to(ids: Seq<WindowId>) -> Seq<(WindowId, WindowEvent)> {
    ids.map_values(|w: WindowId| (w, WindowEvent::Command))
}

/// A command for every window reaches the windows in order up to the first
/// one that handles it, and no further: when the first `k` windows do not
/// handle it and the next one does, exactly those `k + 1` windows get it and
/// the answer is `Yes`; when none handles it, every window gets it and the
/// answer is `No`.
pub proof fn lemma_global_run(ids: Vec<WindowId>, answers: Seq<Handled>, k: int)
    requires
        0 <= k <= ids@.len(),
        k <= answers.len(),
        forall|j: int| 0 <= j < k ==> answers[j] == Handled::No,
        k < ids@.len() ==> k < answers.len() && answers[k] == Handled::Yes,
    ensures
        dispatch_run(DispatchPlan::ToEach(ids), answers) == if k < ids@.len() {
            Some((commands_to(ids@.take(k + 1)), Handled::Yes))
        } else {
            Some((commands_to(ids@), Handled::No))
        },
{
    let end = if k < ids@.len() { k + 1 } else { ids@.len() as int };
    let fin = if k < ids@.len() { Handled::Yes } else { Handled::No };
    if ids@.len() == 0 {
        assert(commands_to(ids@) =~= Seq::<(WindowId, WindowEvent)>::empty());
    } else {
        lemma_global_from(ids, answers, k, end, fin, 0);
        assert(ids@.subrange(0, end) =~= if k < ids@.len() { ids@.take(k + 1) } else { ids@ });
    }
}

/// The run of a command for every window from the window at position `i`,
/// in the setting of `lemma_global_run`.
proof fn lemma_global_from(
    ids: Vec<WindowId>,
    answers: Seq<Handled>,
    k: int,
    end: int,
    fin: Handled,
    i: int,
)
    requires
        0 <= k <= ids@.len(),
        k <= answers.len(),
        forall|j: int| 0 <= j < k ==> answers[j] == Handled::No,
        k < ids@.len() ==> k < answers.len() && answers[k] == Handled::Yes,
        end == if k < ids@.len() { k + 1 } else { ids@.len() as int },
        fin == if k < ids@.len() { Handled::Yes } else { Handled::No },
        0 <= i < end,
    ensures
        run_from(
            DispatchPlan::ToEach(ids),
            DispatchStep::Send(ids@[i], WindowEvent::Command),
            i as nat,
            answers,
        ) == Some((commands_to(ids@.subrange(i, end)), fin)),
    decreases end - i,
{
    let plan = DispatchPlan::ToEach(ids);
    let next = next_step_of(plan, (i + 1) as nat, answers[i]);
    assert(i < answers.len());
    if i + 1 < end {
        assert(answers[i] == Handled::No);
        assert(next == DispatchStep::Send(ids@[i + 1], WindowEvent::Command));
        lemma_global_from(ids, answers, k, end, fin, i + 1);
    } else {
        assert(next == DispatchStep::Finish(fin));
        assert(ids@.subrange(i + 1, end) =~= Seq::<WindowId>::empty());
        assert(commands_to(ids@.subrange(i + 1, end)) =~= Seq::<(WindowId, WindowEvent)>::empty());
    }
    assert(run_from(plan, next, (i + 1) as nat, answers) == Some(
        (commands_to(ids@.subrange(i + 1, end)), fin),
    ));
    assert(commands_to(ids@.subrange(i, end)) =~= seq![(ids@[i], WindowEvent::Command)] + commands_to(
        ids@.subrange(i + 1, end),
    ));
}

/// Whether `id` is among the windows of `entries`.
pub open spec fn has_window<W>(entries: Seq<(WindowId, W)>, id: WindowId) -> bool {
    exists|i: int| 0 <= i < entries.len() && (#[trigger] entries[i]).0 == id
}

/// The ids of `entries`, in order.
pub open spec fn window_ids<W>(entries: Seq<(WindowId, W)>) -> Seq<WindowId> {
    entries.map_values(|e: (WindowId, W)| e.0)
}

/// The registry of windows: those waiting for their platform handle and
/// those open, each id at most once in each list; and the open window, if
/// any, that wakes the application when external events arrive.
pub struct Windows<P, W> {
    pub pending: Vec<(WindowId, P)>,
    pub windows: Vec<(WindowId, W)>,
    pub ext_window: Option<WindowId>,
}

/// Whether the ids of `entries` are distinct.
pub open spec fn distinct_ids<W>(entries: Seq<(WindowId, W)>) -> bool {
    forall|i: int, j: int|
        0 <= i < entries.len() && 0 <= j < entries.len() && i != j ==> (#[trigger] entries[i]).0
            != (#[trigger] entries[j]).0
}

/// What closing a window leaves for the application to do.
pub struct ClosedWindow<W> {
    /// The window that was open under that id, if any.
    pub window: Option<W>,
    /// Whether that was the last open window (the application menu then
    /// takes over the window's menu).
    pub last_open: bool,
    /// Whether no window is left at all, open or pending.
    pub none_left: bool,
    /// Another open window to wake the application for external events,
    /// when the closed window did that.
    pub ext_candidate: Option<WindowId>,
}

impl<P, W> Windows<P, W> {
    /// Ids are unique in each list, and the window that wakes the
    /// application is open.
    pub open spec fn wf(&self) -> bool {
        &&& distinct_ids(self.pending@)
        &&& distinct_ids(self.windows@)
        &&& match self.ext_window {
            Some(id) => has_window(self.windows@, id),
            None => true,
        }
    }

    /// No window at all.
    pub fn new() -> (w: Self)
        ensures
            w.wf(),
            w.pending@.len() == 0,
            w.windows@.len() == 0,
            w.ext_window is None,
    {
        Windows { pending: Vec::new(), windows: Vec::new(), ext_window: None }
    }

    /// The number of windows, open or pending.
    pub fn count(&self) -> (n: usize)
        requires
            self.pending@.len() + self.windows@.len() <= usize::MAX,
        ensures
            n == self.pending@.len() + self.windows@.len(),
    {
        self.windows.len() + self.pending.len()
    }

    /// Registers a window that waits for its platform handle; its id must
    /// not be pending already.
    pub fn add(&mut self, id: WindowId, pending: P)
        requires
            old(self).wf(),
            !has_window(old(self).pending@, id),
        ensures
            final(self).wf(),
            final(self).pending@ == old(self).pending@.push((id, pending)),
            final(self).windows@ == old(self).windows@,
            final(self).ext_window == old(self).ext_window,
    {
        self.pending.push((id, pending));
        proof {
            assert forall|i: int| 0 <= i < old(self).pending@.len() implies (#[trigger] self.pending@[i]).0 != id by {
                assert(self.pending@[i] == old(self).pending@[i]);
            }
            assert(has_window(old(self).pending@, id) == false);
            match self.ext_window {
                Some(e) => {
                    let k = choose|k: int| 0 <= k < self.windows@.len() && (#[trigger] self.windows@[k]).0 == e;
                    assert(self.windows@[k].0 == e);
                },
                None => {},
            }
        }
    }

    fn find(entries: &Vec<(WindowId, W)>, id: WindowId) -> (r: Option<usize>)
        ensures
            match r {
                Some(i) => i < entries@.len() && entries@[i as int].0 == id,
                None => !has_window(entries@, id),
            },
    {
        let mut i: usize = 0;
        while i < entries.len()
            invariant
                i <= entries@.len(),
                forall|j: int| 0 <= j < i ==> (#[trigger] entries@[j]).0 != id,
            decreases entries@.len() - i,
        {
            if entries[i].0 == id {
                return Some(i);
            }
            i += 1;
        }
        None
    }

    fn find_pending(entries: &Vec<(WindowId, P)>, id: WindowId) -> (r: Option<usize>)
        ensures
            match r {
                Some(i) => i < entries@.len() && entries@[i as int].0 == id,
                None => !has_window(entries@, id),
            },
    {
        let mut i: usize = 0;
        while i < entries.len()
            invariant
                i <= entries@.len(),
                forall|j: int| 0 <= j < i ==> (#[trigger] entries@[j]).0 != id,
            decreases entries@.len() - i,
        {
            if entries[i].0 == id {
                return Some(i);
            }
            i += 1;
        }
        None
    }

    /// Takes the pending window `id` out of the pending list, when its
    /// platform handle arrives; `None` if no such window waits.
    pub fn take_pending(&mut self, id: WindowId) -> (p: Option<P>)
        requires
            old(self).wf(),
        ensures
            final(self).wf(),
            final(self).windows@ == old(self).windows@,
            final(self).ext_window == old(self).ext_window,
            has_window(old(self).pending@, id) ==> exists|i: int|
                0 <= i < old(self).pending@.len() && old(self).pending@[i].0 == id && p == Some(
                    old(self).pending@[i].1,
                ) && final(self).pending@ == old(self).pending@.remove(i),
            !has_window(old(self).pending@, id) ==> p is None && final(self).pending@ == old(
                self,
            ).pending@,
            !has_window(final(self).pending@, id),
    {
        match Self::find_pending(&self.pending, id) {
            Some(i) => {
                let (_, p) = self.pending.remove(i);
                proof {
                    assert forall|a: int, b: int|
                        0 <= a < self.pending@.len() && 0 <= b < self.pending@.len() && a != b implies (
                    #[trigger] self.pending@[a]).0 != (#[trigger] self.pending@[b]).0 by {
                        let oa = if a < i { a } else { a + 1 };
                        let ob = if b < i { b } else { b + 1 };
                        assert(self.pending@[a] == old(self).pending@[oa]);
                        assert(self.pending@[b] == old(self).pending@[ob]);
                    }
                    assert forall|k: int| 0 <= k < self.pending@.len() implies (#[trigger] self.pending@[k]).0 != id by {
                        let ok = if k < i { k } else { k + 1 };
                        assert(self.pending@[k] == old(self).pending@[ok]);
                    }
                    match self.ext_window {
                        Some(e) => {
                            let k = choose|k: int| 0 <= k < self.windows@.len() && (#[trigger] self.windows@[k]).0 == e;
                            assert(self.windows@[k].0 == e);
                        },
                        None => {},
                    }
                }
                Some(p)
            },
            None => None,
        }
    }

    /// Opens the window `id`; no open window may have that id.
    pub fn insert_window(&mut self, id: WindowId, window: W)
        requires
            old(self).wf(),
            !has_window(old(self).windows@, id),
        ensures
            final(self).wf(),
            final(self).windows@ == old(self).windows@.push((id, window)),
            final(self).pending@ == old(self).pending@,
            final(self).ext_window == old(self).ext_window,
    {
        self.windows.push((id, window));
        proof {
            assert forall|i: int| 0 <= i < old(self).windows@.len() implies (#[trigger] self.windows@[i]).0 != id by {
                assert(self.windows@[i] == old(self).windows@[i]);
            }
            match self.ext_window {
                Some(e) => {
                    let k = choose|k: int| 0 <= k < old(self).windows@.len() && (#[trigger] old(self).windows@[k]).0 == e;
                    assert(self.windows@[k] == old(self).windows@[k]);
                },
                None => {},
            }
        }
    }

    /// Whether the window `id` is open.
    pub fn is_open(&self, id: WindowId) -> (b: bool)
        ensures
            b == has_window(self.windows@, id),
    {
        Self::find(&self.windows, id).is_some()
    }

    /// Makes the window `id` the one that wakes the application for external
    /// events, when it is open; nothing changes when it is not. Returns
    /// whether it was open.
    pub fn set_ext_window(&mut self, id: WindowId) -> (set: bool)
        requires
            old(self).wf(),
        ensures
            final(self).wf(),
            set == has_window(old(self).windows@, id),
            final(self).pending@ == old(self).pending@,
            final(self).windows@ == old(self).windows@,
            final(self).ext_window == if set {
                Some(id)
            } else {
                old(self).ext_window
            },
    {
        if self.is_open(id) {
            self.ext_window = Some(id);
            true
        } else {
            false
        }
    }

    /// Closes the open window `id`, after the platform destroyed it.
    ///
    /// The window leaves the registry. When it was the one that woke the
    /// application for external events, nobody does that any more and the
    /// first other open window is proposed instead.
    pub fn remove_window(&mut self, id: WindowId) -> (c: ClosedWindow<W>)
        requires
            old(self).wf(),
        ensures
            final(self).wf(),
            final(self).pending@ == old(self).pending@,
            !has_window(final(self).windows@, id),
            has_window(old(self).windows@, id) ==> exists|i: int|
                0 <= i < old(self).windows@.len() && old(self).windows@[i].0 == id && c.window == Some(
                    old(self).windows@[i].1,
                ) && final(self).windows@ == old(self).windows@.remove(i),
            !has_window(old(self).windows@, id) ==> c.window is None && final(self).windows@ == old(
                self,
            ).windows@,
            c.last_open == (c.window is Some && final(self).windows@.len() == 0),
            c.none_left == (c.last_open && final(self).pending@.len() == 0),
            old(self).ext_window == Some(id) ==> final(self).ext_window is None && c.ext_candidate
                == (if final(self).windows@.len() > 0 {
                Some(final(self).windows@[0].0)
            } else {
                None
            }),
            old(self).ext_window != Some(id) ==> final(self).ext_window == old(self).ext_window
                && c.ext_candidate is None,
    {
        let window = match Self::find(&self.windows, id) {
            Some(i) => {
                let (_, w) = self.windows.remove(i);
                proof {
                    assert forall|a: int, b: int|
                        0 <= a < self.windows@.len() && 0 <= b < self.windows@.len() && a != b implies (
                    #[trigger] self.windows@[a]).0 != (#[trigger] self.windows@[b]).0 by {
                        let oa = if a < i { a } else { a + 1 };
                        let ob = if b < i { b } else { b + 1 };
                        assert(self.windows@[a] == old(self).windows@[oa]);
                        assert(self.windows@[b] == old(self).windows@[ob]);
                    }
                    assert forall|k: int| 0 <= k < self.windows@.len() implies (#[trigger] self.windows@[k]).0 != id by {
                        let ok = if k < i { k } else { k + 1 };
                        assert(self.windows@[k] == old(self).windows@[ok]);
                    }
                    match self.ext_window {
                        Some(e) => {
                            if e != id {
                                let k = choose|k: int| 0 <= k < old(self).windows@.len() && (#[trigger] old(self).windows@[k]).0 == e;
                                let nk = if k < i { k } else { k - 1 };
                                assert(self.windows@[nk] == old(self).windows@[k]);
                            }
                        },
                        None => {},
                    }
                }
                Some(w)
            },
            None => None,
        };
        let last_open = window.is_some() && self.windows.len() == 0;
        let none_left = last_open && self.pending.len() == 0;
        let mut ext_candidate = None;
        let was_ext = match self.ext_window {
            Some(e) => e == id,
            None => false,
        };
        if was_ext {
            self.ext_window = None;
            if self.windows.len() > 0 {
                ext_candidate = Some(self.windows[0].0);
            }
        }
        ClosedWindow { window, last_open, none_left, ext_candidate }
    }

    /// Plans the dispatch of `cmd` to the windows. A command for a widget
    /// cannot be dispatched, and the context menu of an open window cannot be
    /// shown.
    ///
    /// A context-menu command for a window that is not open is handled. A
    /// command for an open window goes to it (a close request as such); one
    /// for a window that is not open is not handled. A global command goes to
    /// each open window in turn. A command with an unresolved target is not
    /// handled.
    pub fn plan_dispatch(&self, cmd: &Command) -> (p: DispatchPlan)
        requires
            !(cmd.target is Widget),
            cmd.target is Window && cmd.selector is ShowContextMenu ==> !has_window(
                self.windows@,
                cmd.target->Window_0,
            ),
        ensures
            match cmd.target {
                Target::Window(id) => p == if cmd.selector is ShowContextMenu {
                    DispatchPlan::Done(Handled::Yes)
                } else if has_window(self.windows@, id) {
                    if cmd.selector is CloseWindow {
                        DispatchPlan::CloseRequest(id)
                    } else {
                        DispatchPlan::ToWindow(id)
                    }
                } else {
                    DispatchPlan::Done(Handled::No)
                },
                Target::Global => p is ToEach && p->ToEach_0@ == window_ids(self.windows@),
                _ => p == DispatchPlan::Done(Handled::No),
            },
    {
        match cmd.target() {
            Target::Window(id) => {
                if cmd.is(Selector::ShowContextMenu) {
                    return DispatchPlan::Done(Handled::Yes);
                }
                if self.is_open(id) {
                    if cmd.is(Selector::CloseWindow) {
                        DispatchPlan::CloseRequest(id)
                    } else {
                        DispatchPlan::ToWindow(id)
                    }
                } else {
                    DispatchPlan::Done(Handled::No)
                }
            },
            Target::Global => {
                let mut ids: Vec<WindowId> = Vec::new();
                let mut i: usize = 0;
                while i < self.windows.len()
                    invariant
                        i <= self.windows@.len(),
                        ids@ == window_ids(self.windows@.take(i as int)),
                    decreases self.windows@.len() - i,
                {
                    assert(window_ids(self.windows@.take(i + 1)) =~= window_ids(self.windows@.take(i as int)).push(self.windows@[i as int].0));
                    ids.push(self.windows[i].0);
                    i += 1;
                }
                assert(self.windows@.take(i as int) =~= self.windows@);
                DispatchPlan::ToEach(ids)
            },
            _ => DispatchPlan::Done(Handled::No),
        }
    }
}


} // verus!
