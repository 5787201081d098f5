use rui::app_state::{route_command, CommandAction, DispatchPlan, DispatchStep, Handled, WindowEvent, Windows};
use rui::command::{Command, Selector, Target};
use rui::constraints::Constraints;
use rui::id::{decimal_string, ChildId, WindowId};
use rui::key::Key;
use rui::live_style::{live_style, StyleCache, StyleCenter, StyleId, StylePos};
use rui::memo_attr::{memo_arg, memo_call_arg, FnParam, MemoArg};
use rui::menu::{Menu, MenuEntry, MenuEventCtx, MenuIdCounter, MenuItem, MenuItemId, MenuManager};
use rui::mixin::MyStruct;
use rui::object::{invoke_layout_callback, parent_data_changed};
use rui::state::{GenericState, StateObject};
use rui::style::layout::{
    Axis, CrossAxisAlignment, MainAxisAlignment, MainAxisSize, TextDirection, VerticalDirection,
};
use rui::tree::{Children, Element, ElementId, ElementState, EventKind, StateHandle};
use rui::ui::{RenderAction, Ui};
use rui::widgets::button::{button_event, Button};
use rui::widgets::flex::{Flex, RenderFlex, Share};
use rui::widgets::sized_box::SizedBox;

#[test]
fn test_it() {
    let my_struct = MyStruct {
        name: "MixIn Works".to_string(),
    };
    assert_eq!(my_struct.name(), "MixIn Works");
}

#[test]
fn handled_from_bool() {
    assert!(Handled::from(true).is_handled());
    assert!(!Handled::from(false).is_handled());
    assert_eq!(Handled::from(true), Handled::Yes);
}

#[test]
fn state_pass_reuses_cells() {
    let mut ui: Ui<u64> = Ui::new(Children::new(), true, 1);
    let (a, new_a) = ui.state_node(Key::new(10));
    let (b, new_b) = ui.state_node(Key::new(20));
    assert!(new_a && new_b);
    assert_ne!(a, b);
    let tree = ui.into_tree();
    let mut ui = Ui::new(tree, true, 3);
    let (a2, fresh_a) = ui.state_node(Key::new(10));
    let (b2, fresh_b) = ui.state_node(Key::new(20));
    assert!(!fresh_a && !fresh_b);
    assert_eq!(a2, a);
    assert_eq!(b2, b);
    assert!(!ui.cleanup_tree());
    assert_eq!(ui.tree.states.len(), 2);
}

#[test]
fn state_pass_drops_skipped_cells() {
    let mut ui: Ui<u64> = Ui::new(Children::new(), true, 1);
    ui.state_node(Key::new(1));
    ui.state_node(Key::new(2));
    ui.state_node(Key::new(3));
    let tree = ui.into_tree();
    let mut ui = Ui::new(tree, true, 4);
    let (h, fresh) = ui.state_node(Key::new(3));
    assert!(!fresh);
    assert_eq!(h, StateHandle::new(3));
    ui.cleanup_tree();
    assert_eq!(ui.tree.states.len(), 1);
    assert_eq!(ui.tree.states[0].key, Key::new(3));
}

#[test]
fn render_pass_reconciles_elements() {
    let mut ui: Ui<u64> = Ui::new(Children::new(), true, 100);
    let v1 = ui.render_element(Key::new(1), String::new(), RenderAction::Auto);
    let v2 = ui.render_element(Key::new(2), String::from("k"), RenderAction::Auto);
    assert!(v1.inserted && v2.inserted);
    assert_eq!((v1.index, v2.index), (0, 1));
    assert!(v1.update);
    assert!(!ui.cleanup_tree());
    let tree = ui.into_tree();
    assert_eq!(tree.renders[0].state.id, ElementId(100));
    assert_eq!(tree.renders[1].state.id, ElementId(101));

    let mut ui = Ui::new(tree, false, 102);
    let v = ui.render_element(Key::new(2), String::from("k"), RenderAction::Auto);
    assert!(!v.inserted);
    assert_eq!(v.index, 1);
    assert!(ui.tree.renders[0].dead);
    assert!(ui.cleanup_tree());
    assert_eq!(ui.tree.renders.len(), 1);
    assert_eq!(ui.tree.renders[0].key, Key::new(2));
}

#[test]
fn memo_params_decide_updates() {
    let mut ui: Ui<u64> = Ui::new(Children::new(), true, 1);
    assert!(ui.memoize_component(Key::new(7), 5));
    ui.finish_memoized();
    let tree = ui.into_tree();
    let mut ui = Ui::new(tree, true, 1);
    assert!(!ui.memoize_component(Key::new(7), 5));
    assert!(!ui.need_update);
    ui.finish_memoized();
    assert!(ui.need_update);
    let tree = ui.into_tree();
    let mut ui = Ui::new(tree, true, 1);
    assert!(ui.memoize_component(Key::new(7), 6));
    assert_eq!(ui.tree.memoizees[0].val, 6);
}

#[test]
fn element_needs_update_rules() {
    let mut ui: Ui<u64> = Ui::new(Children::new(), false, 1);
    assert!(ui.element_needs_update(0));
    ui.render_element(Key::new(1), String::new(), RenderAction::Auto);
    assert!(!ui.element_needs_update(0));
}

fn state(id: u64) -> ElementState {
    ElementState::new(ElementId(id))
}

#[test]
fn pointer_events_follow_hover() {
    let mut s = state(1);
    let r = s.begin_event(false, EventKind::MouseMove, true);
    assert!(r.recurse && r.hot_changed && r.translate);
    assert!(s.is_hot);
    let r = s.begin_event(false, EventKind::MouseDown, false);
    assert!(!r.recurse);
    assert!(r.hot_changed);
    assert!(!s.is_hot);
    let r = s.begin_event(false, EventKind::MouseMove, false);
    assert!(!r.recurse && !r.hot_changed);
}

#[test]
fn handled_events_change_nothing() {
    let mut s = state(1);
    let before = s;
    let r = s.begin_event(true, EventKind::WindowSize, true);
    assert!(!r.recurse);
    assert_eq!(s, before);
}

#[test]
fn window_size_asks_for_layout_and_timers_stop() {
    let mut s = state(1);
    s.needs_layout = false;
    let r = s.begin_event(false, EventKind::WindowSize, false);
    assert!(r.recurse && s.needs_layout && !r.translate);
    let r = s.begin_event(false, EventKind::Timer, false);
    assert!(!r.recurse);
    let r = s.begin_event(false, EventKind::KeyDown, false);
    assert!(r.recurse);
}

#[test]
fn active_child_reaches_parent() {
    let mut parent = state(1);
    parent.has_active = false;
    let mut child = state(2);
    child.is_active = true;
    child.has_active = true;
    let r = child.begin_event(false, EventKind::KeyUp, false);
    assert!(r.recurse);
    assert!(!child.has_active);
    assert!(child.finish_event(r.recurse, true, &mut parent, false));
    assert!(child.has_active);
    assert!(parent.has_active);
}

#[test]
fn handled_flag_follows_render_object() {
    let mut parent = state(1);
    let mut child = state(2);
    let r = child.begin_event(false, EventKind::KeyDown, false);
    assert!(!child.finish_event(r.recurse, false, &mut parent, false));
    let r = child.begin_event(false, EventKind::Timer, false);
    assert!(!r.recurse);
    assert!(!child.finish_event(r.recurse, true, &mut parent, false));
    assert!(child.finish_event(false, false, &mut parent, true));
}

#[test]
fn handled_event_leaves_parent_alone() {
    let mut parent = state(1);
    parent.has_active = false;
    let mut child = state(2);
    child.is_active = true;
    child.has_active = true;
    let before_parent = parent;
    let before_child = child;
    let r = child.begin_event(true, EventKind::KeyDown, false);
    assert!(!r.recurse);
    assert!(child.finish_event(r.recurse, false, &mut parent, true));
    assert_eq!(parent, before_parent);
    assert_eq!(child, before_child);
    assert!(!parent.has_active);
}

#[test]
fn merge_up_respects_layout_callback() {
    let mut parent = state(1);
    parent.needs_layout = false;
    parent.doing_this_layout_with_callback = true;
    let child = state(2);
    parent.merge_up(&child);
    assert!(!parent.needs_layout);
    assert!(parent.request_update);
    parent.doing_this_layout_with_callback = false;
    parent.merge_up(&child);
    assert!(parent.needs_layout);
    let mut s = state(3);
    s.needs_layout = false;
    s.doing_this_layout_with_callback = true;
    s.mark_needs_layout();
    assert!(!s.needs_layout);
}

fn leaf(id: u64) -> Element<u64> {
    Element::new(Key::new(id), String::new(), ElementId(id))
}

#[test]
fn cleaning_relayout_boundaries() {
    let mut root = leaf(1);
    let mut own = leaf(2);
    own.state.relayout_boundary = Some(ElementId(2));
    own.state.needs_layout = false;
    let mut other = leaf(3);
    other.state.relayout_boundary = Some(ElementId(1));
    other.state.needs_layout = false;
    let mut grandchild = leaf(4);
    grandchild.state.relayout_boundary = Some(ElementId(1));
    grandchild.state.needs_layout = false;
    other.children.renders.push(grandchild);
    root.children.renders.push(own);
    root.children.renders.push(other);
    root.state.relayout_boundary = Some(ElementId(9));
    root.clean_relayout_boundary();
    assert_eq!(root.state.relayout_boundary, None);
    assert_eq!(root.children.renders[0].state.relayout_boundary, Some(ElementId(2)));
    assert!(!root.children.renders[0].state.needs_layout);
    assert_eq!(root.children.renders[1].state.relayout_boundary, None);
    assert!(root.children.renders[1].state.needs_layout);
    assert_eq!(root.children.renders[1].children.renders[0].state.relayout_boundary, None);
}

#[test]
fn should_do_layout_decisions() {
    let mut e = leaf(5);
    e.state.needs_layout = false;
    e.state.relayout_boundary = Some(ElementId(1));
    assert!(!e.should_do_layout(Some(ElementId(1)), true, false, false, true));
    assert!(e.should_do_layout(Some(ElementId(1)), true, false, false, false));
    assert!(e.should_do_layout(Some(ElementId(1)), false, false, false, true));
    assert_eq!(e.state.relayout_boundary, Some(ElementId(5)));
    e.state.needs_layout = false;
    assert!(!e.should_do_layout(None, true, true, false, true));
}

#[test]
fn merge_children_up() {
    let mut root = leaf(1);
    root.state.needs_layout = false;
    root.state.request_update = false;
    let mut a = leaf(2);
    a.state.needs_layout = false;
    a.state.request_update = false;
    let mut b = leaf(3);
    b.state.has_active = true;
    b.state.needs_layout = false;
    b.state.request_update = false;
    root.children.renders.push(a);
    root.children.renders.push(b);
    root.merge_child_states_up();
    assert!(root.state.has_active);
    assert!(!root.state.needs_layout);
    assert!(!root.state.request_update);
}

#[test]
fn layout_callback_marks_state() {
    let mut s = state(1);
    let seen = invoke_layout_callback(&mut s, |mut st: ElementState| {
        let flag = st.doing_this_layout_with_callback;
        st.needs_layout = false;
        (st, flag)
    });
    assert!(seen);
    assert!(!s.doing_this_layout_with_callback);
    assert!(!s.needs_layout);
}

#[test]
fn parent_data_change_detection() {
    assert!(!parent_data_changed::<u32>(&None, &None));
    assert!(parent_data_changed(&None, &Some(1u32)));
    assert!(parent_data_changed(&Some(1u32), &None));
    assert!(!parent_data_changed(&Some(1u32), &Some(1u32)));
    assert!(parent_data_changed(&Some(1u32), &Some(2u32)));
}

#[test]
fn generic_state_subscribers() {
    let mut s = GenericState::new(10u32);
    assert_eq!(*s.get(), 10);
    s.add_subscriber(1);
    s.add_subscriber(2);
    s.add_subscriber(1);
    assert_eq!(s.subscribers, vec![1, 2]);
    let notified = s.set(11, &vec![2, 3]);
    assert_eq!(notified, vec![2]);
    assert_eq!(*s.get(), 11);
    let (ret, notified) = s.update(|v| (v + 1, v * 2), &vec![2]);
    assert_eq!(ret, 22);
    assert_eq!(notified, vec![2]);
    assert_eq!(*s.get(), 12);
    s.clear_subscribers();
    assert!(s.notify_subscribers(&vec![1, 2]).is_empty());
    assert_eq!(StateObject::new(5u8).object, 5);
}

#[test]
fn commands_default_to_menu_window() {
    let cmd = Command::new(Selector::Custom(3), Target::Auto);
    assert_eq!(cmd.default_to(Target::Global).target, Target::Global);
    let cmd2 = Command::new(Selector::Custom(3), Target::Widget(4));
    assert_eq!(cmd2.default_to(Target::Global).target, Target::Widget(4));
    let mut ctx = MenuEventCtx::new(Some(WindowId(7)), Vec::new());
    ctx.submit_command(cmd);
    ctx.submit_command(cmd2);
    let q = ctx.into_queue();
    assert_eq!(q[0].target, Target::Window(WindowId(7)));
    assert_eq!(q[1].target, Target::Widget(4));
    let mut ctx = MenuEventCtx::new(None, Vec::new());
    ctx.submit_command(cmd);
    assert_eq!(ctx.queue[0].target, Target::Global);
    assert_eq!(cmd.to(WindowId(2)).target, Target::Window(WindowId(2)));
}

#[test]
fn menu_item_ids() {
    assert_eq!(MenuItemId::new(0), MenuItemId(None));
    assert_eq!(MenuItemId::new(4), MenuItemId(Some(4)));
    assert_eq!(MenuItemId::new(4).raw(), 4);
    assert_eq!(MenuItemId::new(0).raw(), 0);
}

#[test]
fn menu_items_get_fresh_ids() {
    let mut counter = MenuIdCounter::new();
    let a = MenuItem::new(&mut counter, "a".to_string());
    let b = MenuItem::new(&mut counter, "b".to_string());
    assert_eq!(a.id, MenuItemId(Some(1)));
    assert_eq!(b.id, MenuItemId(Some(2)));
    assert_eq!(a.title, "a");
    assert!(a.command.is_none());
    let mut wrapped = MenuIdCounter { next: 0x1_0000_0000 };
    let c = MenuItem::new(&mut wrapped, "c".to_string());
    assert_eq!(c.id, MenuItemId(Some(1)));
    assert_eq!(wrapped.next, 0x1_0000_0002);
    let mut top = MenuIdCounter { next: u64::MAX };
    assert_eq!(top.take(), u64::MAX);
    assert_eq!(top.next, 0);
    assert_eq!(top.next_item_id(), MenuItemId(Some(1)));
    assert_eq!(top.next, 2);
}

#[test]
fn menu_activation_sends_commands() {
    let quit = Command::new(Selector::QuitApp, Target::Auto);
    let about = Command::new(Selector::ShowAbout, Target::Global);
    let sub = Menu::new(MenuItem::with_id(MenuItemId::new(10), "app".to_string()))
        .entry(MenuEntry::Item(
            MenuItem::with_id(MenuItemId::new(11), "quit".to_string()).command(quit),
        ))
        .separator();
    let menu = Menu::new(MenuItem::with_id(MenuItemId::new(1), String::new()))
        .entry(MenuEntry::Submenu(sub))
        .entry(MenuEntry::Item(
            MenuItem::with_id(MenuItemId::new(12), "about".to_string()).command(about),
        ));
    let manager = MenuManager::new_for_popup(menu);
    let q = manager.event(Vec::new(), Some(WindowId(3)), MenuItemId::new(11));
    assert_eq!(q, vec![Command::new(Selector::QuitApp, Target::Window(WindowId(3)))]);
    let q = manager.event(q, None, MenuItemId::new(12));
    assert_eq!(q.len(), 2);
    assert_eq!(q[1], about);
    let q = manager.event(Vec::new(), None, MenuItemId::new(99));
    assert!(q.is_empty());
    let empty = MenuManager { popup: false, menu: None };
    assert!(empty.event(Vec::new(), None, MenuItemId::new(11)).is_empty());
}

#[test]
fn command_routing() {
    let w = WindowId(1);
    let c = |s, t| Command::new(s, t);
    assert_eq!(route_command(&c(Selector::QuitApp, Target::Window(w)), false), CommandAction::Quit);
    assert_eq!(
        route_command(&c(Selector::HideApplication, Target::Global), true),
        CommandAction::HideApplication
    );
    assert_eq!(
        route_command(&c(Selector::HideApplication, Target::Global), false),
        CommandAction::Dispatch
    );
    assert_eq!(
        route_command(&c(Selector::CloseWindow, Target::Window(w)), false),
        CommandAction::CloseWindowUnlessHandled(w)
    );
    assert_eq!(
        route_command(&c(Selector::CloseWindow, Target::Global), false),
        CommandAction::NeedsWindow
    );
    assert_eq!(
        route_command(&c(Selector::ShowOpenPanel, Target::Window(w)), false),
        CommandAction::NeedsWindow
    );
    assert_eq!(route_command(&c(Selector::Paste, Target::Window(w)), false), CommandAction::Paste(w));
    assert_eq!(
        route_command(&c(Selector::Custom(1), Target::Window(w)), false),
        CommandAction::Dispatch
    );
    assert_eq!(
        route_command(&c(Selector::CloseAllWindows, Target::Auto), false),
        CommandAction::CloseAllWindows
    );
}

#[test]
fn window_registry() {
    let mut ws: Windows<&str, u32> = Windows::new();
    ws.add(WindowId(1), "first");
    ws.add(WindowId(2), "second");
    assert_eq!(ws.count(), 2);
    assert_eq!(ws.take_pending(WindowId(1)), Some("first"));
    assert_eq!(ws.take_pending(WindowId(1)), None);
    ws.insert_window(WindowId(1), 10);
    assert!(!ws.set_ext_window(WindowId(3)));
    assert_eq!(ws.ext_window, None);
    assert!(ws.set_ext_window(WindowId(1)));
    assert!(ws.is_open(WindowId(1)));
    let cmd = Command::new(Selector::Custom(0), Target::Global);
    assert_eq!(ws.plan_dispatch(&cmd), DispatchPlan::ToEach(vec![WindowId(1)]));
    let close = Command::new(Selector::CloseWindow, Target::Window(WindowId(1)));
    assert_eq!(ws.plan_dispatch(&close), DispatchPlan::CloseRequest(WindowId(1)));
    let gone = Command::new(Selector::Custom(0), Target::Window(WindowId(5)));
    assert_eq!(ws.plan_dispatch(&gone), DispatchPlan::Done(Handled::No));
    let auto = Command::new(Selector::Custom(0), Target::Auto);
    assert_eq!(ws.plan_dispatch(&auto), DispatchPlan::Done(Handled::No));
    let closed = ws.remove_window(WindowId(1));
    assert_eq!(closed.window, Some(10));
    assert!(closed.last_open);
    assert!(!closed.none_left);
    assert_eq!(closed.ext_candidate, None);
    assert_eq!(ws.ext_window, None);
    let again = ws.remove_window(WindowId(1));
    assert_eq!(again.window, None);
    assert!(!again.last_open);
}

#[test]
fn closing_the_waking_window_proposes_another() {
    let mut ws: Windows<(), u32> = Windows::new();
    ws.insert_window(WindowId(1), 1);
    ws.insert_window(WindowId(2), 2);
    ws.set_ext_window(WindowId(1));
    let closed = ws.remove_window(WindowId(1));
    assert_eq!(closed.ext_candidate, Some(WindowId(2)));
    assert!(!closed.last_open);
    let closed = ws.remove_window(WindowId(2));
    assert!(closed.last_open && closed.none_left);
    assert_eq!(closed.ext_candidate, None);
}

#[test]
fn flex_decisions() {
    let flex = Flex::new(
        Axis::Horizontal,
        MainAxisSize::Max,
        MainAxisAlignment::SpaceBetween,
        CrossAxisAlignment::Start,
        TextDirection::Rtl,
        VerticalDirection::Down,
    );
    let mut r = RenderFlex::create(flex);
    assert!(r.flip_main_axis());
    assert!(r.cross_at_top_left());
    assert_eq!(r.start_is_top_left(Axis::Vertical, None, Some(VerticalDirection::Up)), Some(false));
    assert_eq!(r.start_is_top_left(Axis::Horizontal, None, Some(VerticalDirection::Up)), None);
    let s = r.main_axis_spacing(3);
    assert_eq!(s.leading, Share { num: 0, den: 1 });
    assert_eq!(s.between, Share { num: 1, den: 2 });
    assert!(!r.update(flex));
    let centered = Flex { main_axis_alignment: MainAxisAlignment::Center, ..flex };
    assert!(r.update(centered));
    assert_eq!(r.main_axis_spacing(3).leading, Share { num: 1, den: 2 });
    let around = Flex { main_axis_alignment: MainAxisAlignment::SpaceAround, ..flex };
    r.update(around);
    let s = r.main_axis_spacing(4);
    assert_eq!((s.leading, s.between), (Share { num: 1, den: 8 }, Share { num: 1, den: 4 }));
    let evenly = Flex { main_axis_alignment: MainAxisAlignment::SpaceEvenly, ..flex };
    r.update(evenly);
    assert_eq!(r.main_axis_spacing(0).between, Share { num: 0, den: 1 });
    assert_eq!(r.main_axis_spacing(2).leading, Share { num: 1, den: 3 });
    assert_eq!(Axis::Horizontal.flip(), Axis::Vertical);
}

#[test]
fn button_clicks_on_release_over_itself() {
    let b: Button<fn()> = Button::new();
    assert!(!b.disabled && b.handler.is_none());
    let b = b.disabled(true);
    assert!(b.same_props(&Button::new().disabled(true)));
    assert!(!b.same_props(&Button::new()));
    let mut s = state(1);
    s.is_hot = true;
    s.request_update = false;
    let down = button_event(&mut s, EventKind::MouseDown, true);
    assert!(down.repaint && !down.clicked && s.is_active);
    let up = button_event(&mut s, EventKind::MouseUp, true);
    assert!(up.clicked && up.handled && !s.is_active && s.request_update);
    let again = button_event(&mut s, EventKind::MouseUp, true);
    assert!(!again.clicked);
    let right = button_event(&mut s, EventKind::MouseDown, false);
    assert!(!right.repaint && !s.is_active);
}

#[test]
fn sized_box_clips() {
    let b = SizedBox::new(1u8, 2, 3, 4, 5, 6);
    assert!(b.clip);
    assert_eq!((b.width, b.height), (None, None));
    assert_eq!((b.min_width, b.max_width, b.min_height, b.max_height), (3, 4, 5, 6));
    let b = SizedBox { clip: false, ..b }.clip();
    assert!(b.clip);
}

#[test]
fn constraints_of_either_kind() {
    let c: Constraints<u8, String> = Constraints::BoxConstraints(3);
    assert_eq!(c.to_box(), 3);
    let s: Constraints<u8, String> = Constraints::SliverConstraints("s".to_string());
    assert_eq!(s.to_sliver(), "s");
}

#[test]
fn ids_and_text() {
    assert_eq!(ChildId(42).to_string(), "42");
    assert_eq!(ChildId(0).to_string(), "0");
    assert_eq!(ChildId::default(), ChildId(0));
}

#[test]
fn memo_arguments() {
    let ui = FnParam::Typed("ui".to_string());
    assert!(matches!(memo_arg(&vec![ui.clone()]), MemoArg::Unit));
    assert!(matches!(
        memo_arg(&vec![ui.clone(), FnParam::Typed("count".to_string())]),
        MemoArg::Single(p) if p == "count"
    ));
    assert!(matches!(memo_arg(&vec![ui.clone(), FnParam::Receiver]), MemoArg::Invalid));
    assert!(matches!(
        memo_arg(&vec![ui.clone(), FnParam::Typed("a".to_string()), FnParam::Receiver, FnParam::Typed("b".to_string())]),
        MemoArg::Tuple(v) if v == vec!["a".to_string(), "b".to_string()]
    ));
    assert!(matches!(
        memo_call_arg("fn comp(ui: &mut Ui, _count: usize) {}"),
        Some((ps, MemoArg::Single(p))) if p == "_count" && ps.len() == 2
    ));
    assert!(matches!(memo_call_arg("fn comp2(ui: &mut Ui) {}"), Some((_, MemoArg::Unit))));
    assert!(matches!(
        memo_call_arg("fn comp3(ui: &mut Ui, a: u8, (b, c): (u8, u8)) {}"),
        Some((ps, MemoArg::Tuple(v))) if v.len() == 2 && v[0] == "a" && ps.len() == 3
    ));
    assert!(matches!(
        memo_call_arg("fn m(&self) {}"),
        Some((ps, MemoArg::Unit)) if matches!(ps[0], FnParam::Receiver)
    ));
    assert!(memo_call_arg("fn none() {}").is_none());
    assert!(memo_call_arg("struct S;").is_none());
}

#[test]
fn live_styles_through_the_registry() {
    let file = "/src/main.rs".to_string();
    let center = StyleCenter::new(vec![
        StylePos::new(30, file.clone()),
        StylePos::new(10, file.clone()),
        StylePos::new(5, "/src/other.rs".to_string()),
    ]);
    let id = center.get_id(&StylePos::new(30, file.clone())).unwrap();
    assert_eq!(id.file, file);
    assert_eq!(id.id, 1);
    assert_eq!(center.get_id(&StylePos::new(10, file.clone())).unwrap().id, 0);
    assert_eq!(center.get_id(&StylePos::new(5, "/src/other.rs".to_string())).unwrap().id, 0);
    assert!(center.get_id(&StylePos::new(11, file.clone())).is_none());

    let mut cache: StyleCache<u32> = StyleCache::new("/src".to_string());
    let pos = StylePos::new(30, file.clone());
    assert_eq!(live_style(&center, &mut cache, &pos, 7), 7);
    assert_eq!(live_style(&center, &mut cache, &pos, 8), 7);
    let key = StyleId { file: file.clone(), id: 1 };
    assert_eq!(cache.init_style(&key, 9), None);
    assert!(cache.contains(&key));
    cache.refresh_styles(file.clone(), vec![100, 200]);
    assert_eq!(cache.get_style(&key), Some(200));
    assert_eq!(live_style(&center, &mut cache, &pos, 1), 200);
    assert_eq!(cache.get_style(&StyleId { file: file.clone(), id: 2 }), None);
}

use rui::debug_state::{DebugState, InspectDebugState};
use rui::debug_text::sort_values;
use rui::window::{invalidation, window_event_answer, window_event_steps, Invalidation, WindowSizePolicy};

fn debug_node(id: u64, name: &str, children: Vec<DebugState>) -> DebugState {
    DebugState {
        id: ElementId(id),
        display_name: name.to_string(),
        main_value: String::new(),
        other_values: vec![("size".to_string(), "1x1".to_string())],
        children,
    }
}

fn sample_tree() -> DebugState {
    debug_node(
        1,
        "root",
        vec![
            debug_node(2, "a", vec![debug_node(4, "a1", vec![])]),
            debug_node(3, "b", vec![]),
        ],
    )
}

#[test]
fn debug_state_search() {
    let tree = sample_tree();
    assert!(tree.has_children());
    assert_eq!(tree.debug_state_for_id(ElementId(4)).unwrap().display_name, "a1");
    assert_eq!(tree.debug_state_for_id(ElementId(3)).unwrap().display_name, "b");
    assert_eq!(tree.debug_state_for_id(ElementId(1)).unwrap().display_name, "root");
    assert!(tree.debug_state_for_id(ElementId(9)).is_none());
}

#[test]
fn inspector_lines_follow_expansion() {
    let tree = sample_tree();
    let mut inspect = InspectDebugState::new(&tree);
    assert!(inspect.has_children());
    let line = |d: &InspectDebugState| (d.id, d.level);
    let lines = inspect.flatten(&line);
    assert_eq!(
        lines,
        vec![(ElementId(1), 0), (ElementId(2), 1), (ElementId(4), 2), (ElementId(3), 1)]
    );
    assert_eq!(inspect.children[0].other_values, tree.children[0].other_values);
    inspect.toggle(ElementId(2));
    let lines = inspect.flatten(&line);
    assert_eq!(lines, vec![(ElementId(1), 0), (ElementId(2), 1), (ElementId(3), 1)]);
    inspect.toggle(ElementId(2));
    assert_eq!(inspect.flatten(&line).len(), 4);
    inspect.toggle(ElementId(1));
    assert_eq!(inspect.flatten(&line), vec![(ElementId(1), 0)]);
}

#[test]
fn swapping_elements() {
    let mut c: Children<u64> = Children::new();
    c.insert(0, leaf(10));
    c.insert(1, leaf(11));
    c.insert(2, leaf(12));
    c.swap_elements(vec![(2, 0), (0, 1)]);
    assert_eq!(c.len(), 2);
    assert_eq!(c.get(0).unwrap().key, Key::new(12));
    assert_eq!(c.get(1).unwrap().key, Key::new(10));
    assert!(c.get(2).is_none());
    let removed = c.remove_element(0).unwrap();
    assert_eq!(removed.key, Key::new(12));
    let mut d: Children<u64> = Children::new();
    d.insert(0, leaf(20));
    d.insert(1, leaf(21));
    d.insert(2, leaf(22));
    d.swap_elements(vec![(0, 0), (1, 0)]);
    assert_eq!(d.len(), 2);
    assert_eq!(d.get(0).unwrap().key, Key::new(21));
    assert_eq!(d.get(1).unwrap().key, Key::new(20));
    d.swap_elements(vec![(1, 1), (0, 0)]);
    assert_eq!(d.get(0).unwrap().key, Key::new(21));
    assert_eq!(d.get(1).unwrap().key, Key::new(20));
    assert!(c.remove_element(5).is_none());
    assert!(!c.is_empty());
}

#[test]
fn window_steps() {
    let s = window_event_steps(EventKind::WindowSize, WindowSizePolicy::Content);
    assert!(s.record_size && s.layout_after && !s.lifecycle_first);
    let s = window_event_steps(EventKind::WindowSize, WindowSizePolicy::User);
    assert!(s.record_size && !s.layout_after);
    let s = window_event_steps(EventKind::WindowConnected, WindowSizePolicy::Content);
    assert!(s.lifecycle_first && !s.record_size && !s.layout_after);
    assert_eq!(invalidation(true, true), Invalidation::Whole);
    assert_eq!(invalidation(false, true), Invalidation::Nothing);
    assert_eq!(invalidation(false, false), Invalidation::Rect);
}

#[test]
fn element_accessors() {
    let mut e = leaf(8);
    assert_eq!(e.id(), ElementId(8));
    assert!(e.needs_layout() && e.needs_update());
    e.clear_needs_update();
    assert!(!e.needs_update());
    e.state.needs_layout = false;
    e.request_layout();
    assert!(e.needs_layout());
    e.set_local_key("x".to_string());
    assert_eq!(e.local_key, "x");
    e.set_visible(false);
    assert!(!e.state.visible);
    e.mark_dead();
    assert!(e.dead);
}

use rui::widgets::sliver::{find_child_with_index, KeepAliveBucket, SliverItem, SliverListParentData};

fn item(key: u64, index: usize, keep_alive: bool) -> SliverItem<&'static str> {
    SliverItem {
        key: Key::new(key),
        element: "item",
        parent_data: Some(SliverListParentData { keep_alive, kept_alive: false, index }),
    }
}

#[test]
fn keep_alive_round_trip() {
    let mut bucket: KeepAliveBucket<&'static str> = KeepAliveBucket::new();
    let mut children = vec![item(1, 0, true), item(2, 1, false), item(3, 2, true), item(4, 3, false)];
    bucket.collect_garbage(&mut children, 1, 2);
    assert_eq!(children.len(), 1);
    assert_eq!(children[0].key, Key::new(2));
    assert_eq!(bucket.entries.len(), 2);
    assert!(bucket.obtain_child(&mut children, 0, None));
    assert_eq!(children[0].key, Key::new(1));
    assert_eq!(
        children[0].parent_data,
        Some(SliverListParentData { keep_alive: true, kept_alive: false, index: 0 })
    );
    assert!(!bucket.obtain_child(&mut children, 3, Some(1)));
    assert!(bucket.obtain_child(&mut children, 2, Some(2)));
    assert_eq!(children[2].key, Key::new(3));
    assert!(bucket.entries.is_empty());
    assert_eq!(find_child_with_index(&children, Some(2)), Some(2));
    assert_eq!(find_child_with_index(&children, Some(9)), None);
    assert_eq!(find_child_with_index(&children, None), None);
}

#[test]
fn dropping_children_that_are_not_kept() {
    let mut bucket: KeepAliveBucket<&'static str> = KeepAliveBucket::new();
    let mut children = vec![item(1, 0, false), item(2, 1, true)];
    bucket.destroy_or_cache_child(&mut children, 0);
    assert_eq!(children.len(), 1);
    assert!(bucket.entries.is_empty());
    bucket.destroy_or_cache_child(&mut children, 0);
    assert!(children.is_empty());
    assert!(bucket.take(1).is_some());
    assert!(bucket.take(1).is_none());
}

#[test]
fn marked_child_not_to_keep_leaves_bucket_entry() {
    let mut bucket: KeepAliveBucket<&'static str> = KeepAliveBucket::new();
    let mut children = vec![item(1, 5, true)];
    bucket.destroy_or_cache_child(&mut children, 0);
    assert_eq!(bucket.entries.len(), 1);
    let mut stray = item(2, 5, false);
    stray.parent_data = Some(SliverListParentData { keep_alive: false, kept_alive: true, index: 5 });
    let mut children = vec![stray];
    bucket.destroy_or_cache_child(&mut children, 0);
    assert_eq!(children.len(), 1);
    assert_eq!(children[0].key, Key::new(2));
    assert!(children[0].parent_data.is_none());
    assert!(bucket.entries.is_empty());
}

#[test]
fn reading_state_subscribes_reader() {
    let mut s = GenericState::new("v");
    assert_eq!(*s.get_subscribed(Some(4)), "v");
    assert_eq!(*s.get_subscribed(None), "v");
    assert_eq!(*s.get_subscribed(Some(4)), "v");
    assert_eq!(s.subscribers, vec![4]);
}

use rui::debug_state::DebugShape;

#[test]
fn debug_state_shapes_and_visit() {
    let tree = sample_tree();
    assert_eq!(tree.debug_shape(), DebugShape::Struct);
    let bare = DebugState {
        id: ElementId(1),
        display_name: "x".to_string(),
        main_value: String::new(),
        other_values: vec![],
        children: vec![],
    };
    assert_eq!(bare.debug_shape(), DebugShape::Name);
    let valued = DebugState { main_value: "v".to_string(), ..bare };
    assert_eq!(valued.debug_shape(), DebugShape::NameAndValue);
    let parent = DebugState {
        id: ElementId(2),
        display_name: "p".to_string(),
        main_value: String::new(),
        other_values: vec![],
        children: vec![valued],
    };
    assert_eq!(parent.debug_shape(), DebugShape::Children);
    let visitor = |d: &DebugState, level: usize| (d.display_name.clone(), level);
    let order = tree.visit(&visitor, 0);
    assert_eq!(
        order,
        vec![
            ("root".to_string(), 0),
            ("a".to_string(), 1),
            ("a1".to_string(), 2),
            ("b".to_string(), 1)
        ]
    );
}

#[test]
fn update_requests_climb_to_first_requesting_ancestor() {
    let mut a = state(1);
    a.request_update = false;
    let mut b = state(2);
    b.request_update = false;
    let c = state(3);
    let mut d = state(4);
    d.request_update = false;
    let mut path = vec![a, b, c, d];
    rui::tree::request_update(&mut path);
    assert!(path[0].request_update && path[1].request_update && path[2].request_update);
    assert!(!path[3].request_update);
    let mut all_quiet = vec![a, b];
    rui::tree::request_update(&mut all_quiet);
    assert!(all_quiet[0].request_update && all_quiet[1].request_update);
}

#[test]
fn nested_pass_builds_children() {
    let mut ui: Ui<u64> = Ui::new(Children::new(), true, 1);
    let v = ui.render_element(Key::new(1), String::new(), RenderAction::Auto);
    assert!(v.update);
    let children = ui.take_children(v.index);
    let mut child_ui = Ui::new(children, true, ui.next_id);
    let c = child_ui.render_element(Key::new(2), String::new(), RenderAction::Auto);
    assert!(c.inserted);
    let changed = child_ui.cleanup_tree();
    let next = child_ui.next_id;
    ui.next_id = next;
    let child_tree = child_ui.into_tree();
    ui.tree.renders[v.index].state.needs_layout = false;
    ui.complete_element(v.index, false, Some((child_tree, changed)));
    let parent = &ui.tree.renders[v.index];
    assert_eq!(parent.children.renders.len(), 1);
    assert_eq!(parent.children.renders[0].state.id, ElementId(2));
    assert!(parent.state.needs_layout);
    assert!(!ui.cleanup_tree());

    let tree = ui.into_tree();
    let mut ui = Ui::new(tree, false, next);
    let v = ui.render_element(Key::new(1), String::new(), RenderAction::Auto);
    assert!(!v.inserted);
    ui.tree.renders[v.index].state.needs_layout = false;
    ui.complete_element(v.index, true, None);
    assert!(ui.tree.renders[v.index].state.needs_layout);
    assert_eq!(ui.tree.renders[v.index].children.renders.len(), 1);
}

#[test]
fn inspector_row_labels() {
    let tree = sample_tree();
    let mut inspect = InspectDebugState::new(&tree);
    assert_eq!(inspect.label(), " - root(id: 1, len: 2)");
    assert_eq!(inspect.children[1].label(), "      b(id: 3, len: 0)");
    inspect.toggle(ElementId(2));
    let rows = inspect.rows();
    assert_eq!(
        rows,
        vec![
            (ElementId(1), " - root(id: 1, len: 2)".to_string()),
            (ElementId(2), "    + a(id: 2, len: 1)".to_string()),
            (ElementId(3), "      b(id: 3, len: 0)".to_string()),
        ]
    );
    inspect.toggle(ElementId(2));
    assert_eq!(inspect.rows()[2].1, "          a1(id: 4, len: 0)");
}

#[test]
fn decimal_numbers() {
    assert_eq!(decimal_string(0), "0");
    assert_eq!(decimal_string(7), "7");
    assert_eq!(decimal_string(10), "10");
    assert_eq!(decimal_string(4096), "4096");
    assert_eq!(decimal_string(u64::MAX), u64::MAX.to_string());
    assert_eq!(ChildId(305).to_string(), "305");
}

#[test]
fn window_answers_as_its_tree() {
    assert_eq!(window_event_answer(true), Handled::Yes);
    assert_eq!(window_event_answer(false), Handled::No);
}

#[test]
fn dispatch_follow_up() {
    let w = WindowId(4);
    let close = DispatchPlan::CloseRequest(w);
    assert_eq!(close.first_step(), DispatchStep::Send(w, WindowEvent::CloseRequested));
    assert_eq!(close.next_step(1, Handled::Yes), DispatchStep::Finish(Handled::Yes));
    assert_eq!(close.next_step(1, Handled::No), DispatchStep::Send(w, WindowEvent::Disconnected));
    assert_eq!(close.next_step(2, Handled::Yes), DispatchStep::Finish(Handled::No));
    let one = DispatchPlan::ToWindow(w);
    assert_eq!(one.first_step(), DispatchStep::Send(w, WindowEvent::Command));
    assert_eq!(one.next_step(1, Handled::Yes), DispatchStep::Finish(Handled::Yes));
    assert_eq!(one.next_step(1, Handled::No), DispatchStep::Finish(Handled::No));
    let all = DispatchPlan::ToEach(vec![WindowId(1), WindowId(2), WindowId(3)]);
    assert_eq!(all.first_step(), DispatchStep::Send(WindowId(1), WindowEvent::Command));
    assert_eq!(all.next_step(1, Handled::No), DispatchStep::Send(WindowId(2), WindowEvent::Command));
    assert_eq!(all.next_step(2, Handled::Yes), DispatchStep::Finish(Handled::Yes));
    assert_eq!(all.next_step(3, Handled::No), DispatchStep::Finish(Handled::No));
    let none = DispatchPlan::ToEach(vec![]);
    assert_eq!(none.first_step(), DispatchStep::Finish(Handled::No));
    assert_eq!(DispatchPlan::Done(Handled::Yes).first_step(), DispatchStep::Finish(Handled::Yes));
}

#[test]
fn memoized_component_runs_once() {
    let mut ui: Ui<u64> = Ui::new(Children::new(), true, 1);
    let mut seen = Vec::new();
    ui = ui.run_memoized(
        Key::new(7),
        |u: Ui<u64>, p: u64| {
            seen.push((u.need_update, p));
            u
        },
        5,
    );
    assert!(ui.need_update);
    assert_eq!(ui.memoizee_index, 1);
    let tree = ui.into_tree();
    let ui = Ui::new(tree, true, 1);
    let ui = ui.run_memoized(
        Key::new(7),
        |u: Ui<u64>, p: u64| {
            seen.push((u.need_update, p));
            u
        },
        5,
    );
    assert!(ui.need_update);
    assert_eq!(seen, vec![(true, 5), (false, 5)]);
}

#[test]
fn debug_state_printed_text() {
    let w = DebugState {
        id: ElementId(0),
        display_name: "W".to_string(),
        main_value: String::new(),
        other_values: vec![
            ("c".to_string(), "3".to_string()),
            ("a".to_string(), "1".to_string()),
            ("b".to_string(), "2".to_string()),
        ],
        children: vec![],
    };
    assert_eq!(w.debug_string(), r#"W { child_len: 0, a: "1", b: "2", c: "3" }"#);
    let bare = DebugState {
        id: ElementId(1),
        display_name: "x".to_string(),
        main_value: String::new(),
        other_values: vec![],
        children: vec![],
    };
    assert_eq!(bare.debug_string(), "x");
    let valued = DebugState { main_value: "say \"hi\"".to_string(), ..bare };
    assert_eq!(valued.debug_string(), r#"x("say \"hi\"")"#);
    let parent = DebugState {
        id: ElementId(2),
        display_name: "p".to_string(),
        main_value: String::new(),
        other_values: vec![],
        children: vec![valued, DebugState {
            id: ElementId(3),
            display_name: "y".to_string(),
            main_value: String::new(),
            other_values: w.other_values.clone(),
            children: vec![],
        }],
    };
    assert_eq!(
        parent.debug_string(),
        r#"p(x("say \"hi\""), y { child_len: 0, a: "1", b: "2", c: "3" })"#
    );
    let full = DebugState { main_value: "m".to_string(), ..parent };
    assert_eq!(
        full.debug_string(),
        r#"p { _main_value_: "m", child_len: 2, children: [x("say \"hi\""), y { child_len: 0, a: "1", b: "2", c: "3" }] }"#
    );
    assert_eq!(
        sample_tree().debug_string(),
        r#"root { child_len: 2, size: "1x1", children: [a { child_len: 1, size: "1x1", children: [a1 { child_len: 0, size: "1x1" }] }, b { child_len: 0, size: "1x1" }] }"#
    );
}

#[test]
fn values_sorted_by_name() {
    let vs = vec![
        ("zeta".to_string(), "1".to_string()),
        ("alpha".to_string(), "2".to_string()),
        ("al".to_string(), "3".to_string()),
    ];
    let sorted = sort_values(&vs);
    let names: Vec<&str> = sorted.iter().map(|(k, _)| k.as_str()).collect();
    assert_eq!(names, vec!["al", "alpha", "zeta"]);
}
