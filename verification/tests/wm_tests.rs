use bunnuafeth::atoms::Atoms;
use bunnuafeth::layout::{Layout, LayoutManager, ReservedEdges, TiledLayout};
use bunnuafeth::windows::Windows;
use bunnuafeth::wm::{WmEvent, WmRequest, WM};
use bunnuafeth::{
    Config, Geometry, Hotkey, MouseHotkey, PropertyAction, WMCommand, WindowState,
    WindowType, XlibError, RGBA,
};

fn mk_atoms() -> Atoms {
    Atoms {
        net_active_window: 1,
        net_supported: 2,
        net_supporting_wm_check: 3,
        net_wm_allowed_actions: 4,
        net_wm_pid: 5,
        net_wm_state: 6,
        net_wm_state_modal: 7,
        net_wm_state_sticky: 8,
        net_wm_state_maximized_vert: 9,
        net_wm_state_maximized_horz: 10,
        net_wm_state_shaded: 11,
        net_wm_state_skip_taskbar: 12,
        net_wm_state_skip_pager: 13,
        net_wm_state_hidden: 14,
        net_wm_state_fullscreen: 15,
        net_wm_state_above: 16,
        net_wm_state_below: 17,
        net_wm_state_demands_attention: 18,
        net_wm_action_move: 19,
        net_wm_action_resize: 20,
        net_wm_action_minimize: 21,
        net_wm_action_shade: 22,
        net_wm_action_stick: 23,
        net_wm_action_maximize_horz: 24,
        net_wm_action_maximize_vert: 25,
        net_wm_action_fullscreen: 26,
        net_wm_action_change_desktop: 27,
        net_wm_action_close: 28,
        net_wm_window_type: 29,
        net_wm_window_type_desktop: 30,
        net_wm_window_type_dock: 31,
        net_wm_window_type_toolbar: 32,
        net_wm_window_type_menu: 33,
        net_wm_window_type_utility: 34,
        net_wm_window_type_splash: 35,
        net_wm_window_type_dialog: 36,
        net_wm_window_type_normal: 37,
        net_client_list: 38,
        net_desktop_viewport: 39,
        net_desktop_geometry: 40,
        net_number_of_desktops: 41,
        net_current_desktop: 42,
        net_desktop_names: 43,
        net_workarea: 44,
        net_wm_desktop: 45,
        net_wm_strut: 46,
        net_wm_strut_partial: 47,
        net_frame_extents: 48,
        net_wm_name: 49,
        wm_protocols: 50,
        wm_delete_window: 51,
    }
}

const ROOT: u32 = 1;
const W1: u32 = 101;
const W2: u32 = 102;
const DOCK: u32 = 99;

fn mk_wm(config: Config) -> WM {
    WM::new(1920, 1080, ROOT, mk_atoms(), config)
}

fn empty_config() -> Config {
    Config { hotkeys: Vec::new(), mouse_hotkeys: Vec::new() }
}

fn map_request(window: u32) -> WmEvent {
    WmEvent::MapRequest {
        window,
        geom: Geometry { x: 5, y: 5, width: 100, height: 100 },
        type_atoms: Vec::new(),
        strut_partial: Vec::new(),
    }
}

fn dock_map_request(window: u32, top_strut: u32) -> WmEvent {
    let mut strut = vec![0u32; 12];
    strut[2] = top_strut;
    WmEvent::MapRequest {
        window,
        geom: Geometry { x: 0, y: 0, width: 1920, height: 30 },
        type_atoms: vec![31],
        strut_partial: strut,
    }
}

fn geometry_of(wm: &WM, window: u32) -> (i16, i16, u16, u16) {
    let st = wm.windows.get_window(window).expect("window managed");
    (st.x, st.y, st.width, st.height)
}

#[test]
fn manage_single_window() {
    let mut wm = mk_wm(empty_config());
    let reqs = wm.handle_event(None, &map_request(W1)).unwrap();
    assert_eq!(geometry_of(&wm, W1), (0, 0, 1910, 1070));
    let st = wm.windows.get_window(W1).unwrap();
    assert_eq!(st.window_type, WindowType::Normal);
    assert!(!st.is_floating);
    assert_eq!(wm.windows.focus_handle(), Some(W1));
    assert_eq!(wm.active_window, Some(W1));
    assert_eq!(wm.client_list, vec![W1]);
    assert!(reqs.contains(&WmRequest::MapWindow { window: W1 }));
    assert!(reqs.contains(&WmRequest::ChangeProperty32 {
        window: ROOT,
        property: 38,
        values: vec![W1],
        append: true,
    }));
    assert_eq!(reqs.last(), Some(&WmRequest::UngrabServer));
}

#[test]
fn manage_two_windows() {
    let mut wm = mk_wm(empty_config());
    wm.handle_event(None, &map_request(W1)).unwrap();
    wm.handle_event(None, &map_request(W2)).unwrap();
    assert_eq!(geometry_of(&wm, W1), (0, 0, 950, 1070));
    assert_eq!(geometry_of(&wm, W2), (960, 0, 950, 1070));
    assert_eq!(wm.windows.focus_handle(), Some(W2));
    assert_eq!(wm.client_list, vec![W1, W2]);
}

#[test]
fn dock_with_top_strut_reserves_edge() {
    let mut wm = mk_wm(empty_config());
    wm.handle_event(None, &dock_map_request(DOCK, 30)).unwrap();
    assert!(wm.windows.get_window(DOCK).is_none());
    assert_eq!(wm.windows.unmanaged_windows().len(), 1);
    assert_eq!(wm.layout_manager.reserved.top.width, 30);
    wm.handle_event(None, &map_request(W1)).unwrap();
    assert_eq!(geometry_of(&wm, W1), (0, 30, 1910, 1040));
}

#[test]
fn fullscreen_toggle_via_client_message() {
    let mut wm = mk_wm(empty_config());
    wm.handle_event(None, &map_request(W1)).unwrap();
    wm.handle_event(None, &map_request(W2)).unwrap();
    let msg = WmEvent::ClientMessage {
        window: W2,
        message_type: 6,
        data: vec![1, 15, 0, 0, 0],
    };
    let reqs = wm.handle_event(None, &msg).unwrap();
    let st = wm.windows.get_window(W2).unwrap();
    assert!(st.properties.is_fullscreen);
    assert!(st.properties.above);
    assert!(!wm.windows.get_window(W1).unwrap().properties.is_fullscreen);
    assert!(reqs.contains(&WmRequest::Configure {
        window: W2,
        x: Some(0),
        y: Some(0),
        width: Some(1920),
        height: Some(1080),
        border_width: Some(0),
        stack_above: true,
    }));
    let wrote_state = reqs.iter().any(|q| match q {
        WmRequest::ChangeProperty32 { window, property, values, append } => {
            *window == W2 && *property == 6 && values.contains(&15) && !*append
        },
        _ => false,
    });
    assert!(wrote_state);
}

#[test]
fn fullscreen_moves_between_windows() {
    let mut wm = mk_wm(empty_config());
    wm.handle_event(None, &map_request(W1)).unwrap();
    wm.handle_event(None, &map_request(W2)).unwrap();
    let add_fs = |w: u32| WmEvent::ClientMessage {
        window: w,
        message_type: 6,
        data: vec![1, 15, 0, 0, 0],
    };
    wm.handle_event(None, &add_fs(W2)).unwrap();
    let (x2, y2, w2, h2) = geometry_of(&wm, W2);
    let reqs = wm.handle_event(None, &add_fs(W1)).unwrap();
    assert!(wm.windows.get_window(W1).unwrap().properties.is_fullscreen);
    assert!(!wm.windows.get_window(W2).unwrap().properties.is_fullscreen);
    assert!(reqs.contains(&WmRequest::Configure {
        window: W2,
        x: Some(x2 as i32),
        y: Some(y2 as i32),
        width: Some(w2 as u32),
        height: Some(h2 as u32),
        border_width: Some(5),
        stack_above: false,
    }));
}

#[test]
fn invalid_client_message_action_is_an_error() {
    let mut wm = mk_wm(empty_config());
    wm.handle_event(None, &map_request(W1)).unwrap();
    let msg = WmEvent::ClientMessage {
        window: W1,
        message_type: 6,
        data: vec![9, 15, 0, 0, 0],
    };
    assert_eq!(wm.handle_event(None, &msg), Err(XlibError::InvalidAction));
    assert!(!wm.windows.get_window(W1).unwrap().properties.is_fullscreen);
}

#[test]
fn unmanage_reshuffles_focus_and_layout() {
    let mut wm = mk_wm(empty_config());
    wm.handle_event(None, &map_request(W1)).unwrap();
    wm.handle_event(None, &map_request(W2)).unwrap();
    let reqs = wm
        .handle_event(None, &WmEvent::DestroyNotify { window: W1 })
        .unwrap();
    assert!(wm.windows.get_window(W1).is_none());
    assert_eq!(wm.client_list, vec![W2]);
    assert_eq!(wm.windows.focus_handle(), Some(W2));
    assert_eq!(geometry_of(&wm, W2), (0, 0, 1910, 1070));
    assert_eq!(
        reqs[0],
        WmRequest::ChangeSaveSet { window: W1, insert: false }
    );
    assert!(matches!(reqs[1], WmRequest::ReparentToRoot { window: W1, .. }));
}

#[test]
fn hotkey_executes_program() {
    let hotkeys = vec![Hotkey::new(0x8, 0x71, WMCommand::Execute(String::from("xterm")))];
    let mut wm = mk_wm(Config { hotkeys, mouse_hotkeys: Vec::new() });
    // keycode 24 owns slot 16 of a one-keysym-per-keycode table starting at 8
    let mut keysyms = vec![0u32; 32];
    keysyms[16] = 0x71;
    let grabs = wm.setup_bindings(8, 1, &keysyms);
    assert!(grabs.contains(&WmRequest::GrabKey { code: 24, mods: 0x8 }));
    let press = WmEvent::KeyPress { detail: 24, state: 0x8, event: ROOT, event_x: 0, event_y: 0 };
    let reqs = wm.handle_event(None, &press).unwrap();
    assert_eq!(
        reqs,
        vec![WmRequest::Spawn { program: String::from("xterm"), args: Vec::new() }]
    );
}

#[test]
fn hotkey_execute_splits_arguments() {
    let hotkeys = vec![Hotkey::new(0x8, 0x71, WMCommand::Execute(String::from("xterm -e top")))];
    let mut wm = mk_wm(Config { hotkeys, mouse_hotkeys: Vec::new() });
    let mut keysyms = vec![0u32; 32];
    keysyms[0] = 0x71;
    wm.setup_bindings(8, 1, &keysyms);
    let press = WmEvent::KeyPress { detail: 8, state: 0x8, event: ROOT, event_x: 0, event_y: 0 };
    let reqs = wm.handle_event(None, &press).unwrap();
    assert_eq!(
        reqs,
        vec![WmRequest::Spawn {
            program: String::from("xterm"),
            args: vec![String::from("-e"), String::from("top")],
        }]
    );
}

#[test]
fn hotkey_registered_under_lock_variants() {
    let hotkeys = vec![Hotkey::new(0x8, 0x71, WMCommand::CloseWindow)];
    let mut wm = mk_wm(Config { hotkeys, mouse_hotkeys: Vec::new() });
    let mut keysyms = vec![0u32; 8];
    keysyms[0] = 0x71;
    let grabs = wm.setup_bindings(8, 1, &keysyms);
    assert_eq!(grabs.len(), 4);
    assert!(grabs.contains(&WmRequest::GrabKey { code: 8, mods: 0x8 }));
    assert!(grabs.contains(&WmRequest::GrabKey { code: 8, mods: 0x8 | 0x10 }));
    assert!(grabs.contains(&WmRequest::GrabKey { code: 8, mods: 0x8 | 0x2 }));
    assert!(grabs.contains(&WmRequest::GrabKey { code: 8, mods: 0x8 | 0x10 | 0x2 }));
}

#[test]
fn close_window_sends_one_delete_message() {
    let hotkeys = vec![Hotkey::new(0x8, 0x63, WMCommand::CloseWindow)];
    let mut wm = mk_wm(Config { hotkeys, mouse_hotkeys: Vec::new() });
    let mut keysyms = vec![0u32; 8];
    keysyms[0] = 0x63;
    wm.setup_bindings(8, 1, &keysyms);
    wm.handle_event(None, &map_request(W1)).unwrap();
    let press = WmEvent::KeyPress { detail: 8, state: 0x8, event: W1, event_x: 0, event_y: 0 };
    let reqs = wm.handle_event(None, &press).unwrap();
    assert_eq!(
        reqs,
        vec![WmRequest::SendEvent { window: W1, message_type: 50, data0: 51 }]
    );
}

#[test]
fn ignored_sequence_drops_the_event() {
    let mut wm = mk_wm(empty_config());
    wm.record_ignore_sequence(7);
    let reqs = wm.handle_event(Some(7), &map_request(W1)).unwrap();
    assert!(reqs.is_empty());
    assert!(wm.windows.get_window(W1).is_none());
    assert_eq!(wm.sequences_to_ignore, vec![7]);
}

#[test]
fn stale_sequences_are_dropped_and_event_handled() {
    let mut wm = mk_wm(empty_config());
    wm.record_ignore_sequence(3);
    let reqs = wm.handle_event(Some(10), &map_request(W1)).unwrap();
    assert!(!reqs.is_empty());
    assert!(wm.windows.get_window(W1).is_some());
    assert!(wm.sequences_to_ignore.is_empty());
}

#[test]
fn drag_and_resize_sessions_exclude_each_other() {
    let mouse_hotkeys = vec![
        MouseHotkey::new(0x8, 1, WMCommand::MoveWindow),
        MouseHotkey::new(0x8, 3, WMCommand::ResizeWindow(0)),
    ];
    let mut wm = mk_wm(Config { hotkeys: Vec::new(), mouse_hotkeys });
    wm.setup_bindings(8, 1, &vec![0u32; 8]);
    wm.handle_event(None, &map_request(W1)).unwrap();
    let resize = WmEvent::ButtonPress { detail: 3, state: 0x8, child: W1, event_x: 4, event_y: 4 };
    wm.handle_event(None, &resize).unwrap();
    assert!(wm.resize_window.is_some());
    assert!(wm.drag_window.is_none());
    let push = WmEvent::ButtonPress { detail: 1, state: 0x8, child: W1, event_x: 4, event_y: 4 };
    wm.handle_event(None, &push).unwrap();
    assert!(!(wm.drag_window.is_some() && wm.resize_window.is_some()));
    let reqs = wm.handle_event(None, &WmEvent::ButtonRelease).unwrap();
    assert!(wm.drag_window.is_none());
    assert!(wm.resize_window.is_none());
    assert_eq!(reqs.last(), Some(&WmRequest::UngrabPointer));
}

#[test]
fn motion_is_throttled() {
    let mut wm = mk_wm(empty_config());
    wm.last_timestamp = 1000;
    let motion = WmEvent::MotionNotify { time: 1010, root_x: 3, root_y: 3, event_x: 3, event_y: 3 };
    let reqs = wm.handle_event(None, &motion).unwrap();
    assert!(reqs.is_empty());
    assert_eq!(wm.last_timestamp, 1000);
    let later = WmEvent::MotionNotify { time: 1020, root_x: 3, root_y: 3, event_x: 3, event_y: 3 };
    wm.handle_event(None, &later).unwrap();
    assert_eq!(wm.last_timestamp, 1020);
}

#[test]
fn enter_focuses_managed_normal_window() {
    let mut wm = mk_wm(empty_config());
    wm.handle_event(None, &map_request(W1)).unwrap();
    wm.handle_event(None, &map_request(W2)).unwrap();
    wm.handle_event(None, &WmEvent::EnterNotify { window: W1 }).unwrap();
    assert_eq!(wm.windows.focus_handle(), Some(W1));
    wm.handle_event(None, &WmEvent::LeaveNotify { window: W1 }).unwrap();
    assert_eq!(wm.windows.focus_handle(), None);
    assert_eq!(wm.active_window, None);
}

#[test]
fn configure_request_forwards_without_stacking() {
    let mut wm = mk_wm(empty_config());
    let ev = WmEvent::ConfigureRequest {
        window: W1,
        x: Some(7),
        y: Some(8),
        width: Some(300),
        height: Some(200),
        border_width: None,
    };
    let reqs = wm.handle_event(None, &ev).unwrap();
    assert_eq!(
        reqs,
        vec![WmRequest::Configure {
            window: W1,
            x: Some(7),
            y: Some(8),
            width: Some(300),
            height: Some(200),
            border_width: None,
            stack_above: false,
        }]
    );
}

#[test]
fn layout_single_and_split() {
    let lm = LayoutManager {
        layout: Layout::Tiled(TiledLayout::MainStack),
        reserved: ReservedEdges::default(),
    };
    let geom = Geometry { x: 5, y: 5, width: 100, height: 100 };
    let one = vec![WindowState::new(W1, &geom, WindowType::Normal)];
    let diffs = lm.calculate_dimensions(&one, 1920, 1080).unwrap();
    assert_eq!(diffs.len(), 1);
    assert_eq!(diffs[0].x, Some(0));
    assert_eq!(diffs[0].y, Some(0));
    assert_eq!(diffs[0].width, Some(1910));
    assert_eq!(diffs[0].height, Some(1070));
    let two = vec![
        WindowState::new(W1, &geom, WindowType::Normal),
        WindowState::new(W2, &geom, WindowType::Normal),
    ];
    let diffs = lm.calculate_dimensions(&two, 1920, 1080).unwrap();
    assert_eq!(diffs.len(), 2);
    assert_eq!(diffs[1].x, Some(960));
    assert_eq!(diffs[1].y, Some(0));
    assert_eq!(diffs[1].width, Some(950));
    assert_eq!(diffs[1].height, Some(1070));
}

#[test]
fn layout_second_run_changes_nothing() {
    let mut wm = mk_wm(empty_config());
    wm.handle_event(None, &map_request(W1)).unwrap();
    wm.handle_event(None, &map_request(W2)).unwrap();
    let windows = wm.windows.windows();
    let diffs = wm
        .layout_manager
        .calculate_dimensions(&windows, 1920, 1080)
        .unwrap();
    for d in diffs {
        assert_eq!(d.x, None);
        assert_eq!(d.y, None);
        assert_eq!(d.width, None);
        assert_eq!(d.height, None);
    }
}

#[test]
fn floating_window_is_left_out_of_tiling() {
    let lm = LayoutManager {
        layout: Layout::Tiled(TiledLayout::MainStack),
        reserved: ReservedEdges::default(),
    };
    let geom = Geometry { x: 5, y: 5, width: 100, height: 100 };
    let mut floating = WindowState::new(W2, &geom, WindowType::Normal);
    floating.is_floating = true;
    let ws = vec![WindowState::new(W1, &geom, WindowType::Normal), floating];
    let diffs = lm.calculate_dimensions(&ws, 1920, 1080).unwrap();
    assert_eq!(diffs.len(), 1);
    assert_eq!(diffs[0].window, W1);
    assert_eq!(diffs[0].width, Some(1910));
}

#[test]
fn registry_remove_moves_focus_to_next() {
    let geom = Geometry { x: 0, y: 0, width: 10, height: 10 };
    let mut reg = Windows::new();
    reg.add_window(1, WindowState::new(1, &geom, WindowType::Normal));
    reg.add_window(2, WindowState::new(2, &geom, WindowType::Normal));
    reg.add_window(3, WindowState::new(3, &geom, WindowType::Normal));
    reg.focus_window(2).unwrap();
    let removed = reg.remove_window(2).unwrap();
    assert_eq!(removed.0, 2);
    assert_eq!(reg.focus_handle(), Some(3));
    let removed = reg.remove_window(3).unwrap();
    assert_eq!(removed.0, 3);
    assert_eq!(reg.focus_handle(), Some(1));
    assert!(reg.remove_window(9).is_none());
}

#[test]
fn registry_next_window_wraps() {
    let geom = Geometry { x: 0, y: 0, width: 10, height: 10 };
    let mut reg = Windows::new();
    reg.add_window(1, WindowState::new(1, &geom, WindowType::Normal));
    reg.add_window(2, WindowState::new(2, &geom, WindowType::Normal));
    assert_eq!(reg.next_window(1).unwrap().0, 2);
    assert_eq!(reg.next_window(2).unwrap().0, 1);
    assert!(reg.next_window(5).is_none());
}

#[test]
fn registry_move_to_top_and_swap() {
    let geom = Geometry { x: 0, y: 0, width: 10, height: 10 };
    let mut reg = Windows::new();
    reg.add_window(1, WindowState::new(1, &geom, WindowType::Normal));
    reg.add_window(2, WindowState::new(2, &geom, WindowType::Normal));
    reg.add_window(3, WindowState::new(3, &geom, WindowType::Normal));
    reg.move_to_top(3);
    assert_eq!(reg.managed_handles(), vec![3, 1, 2]);
    reg.swap_windows(1, 2);
    assert_eq!(reg.managed_handles(), vec![3, 2, 1]);
    reg.swap_windows(1, 9);
    assert_eq!(reg.managed_handles(), vec![3, 2, 1]);
}

#[test]
fn registry_focus_rejects_unknown_handle() {
    let mut reg = Windows::new();
    assert!(reg.focus_window(4).is_err());
    let geom = Geometry { x: 0, y: 0, width: 10, height: 10 };
    reg.add_window(4, WindowState::new(4, &geom, WindowType::Normal));
    assert!(reg.focus_window(4).is_ok());
    assert_eq!(reg.focused().unwrap().window, 4);
    reg.unfocus();
    assert!(reg.focused().is_none());
    assert_eq!(reg.previos_focus().unwrap().window, 4);
}

#[test]
fn rgba_packs_both_orders() {
    let c = RGBA::new(0x12, 0x34, 0x56, 0x78);
    assert_eq!(c.as_argb_u32(), 0x7812_3456);
    assert_eq!(c.as_rgba_u32(), 0x1234_5678);
}

#[test]
fn property_actions_map_and_reject() {
    assert_eq!(WindowState::get_property_action(0), Ok(PropertyAction::Remove));
    assert_eq!(WindowState::get_property_action(1), Ok(PropertyAction::Add));
    assert_eq!(WindowState::get_property_action(2), Ok(PropertyAction::Toggle));
    assert_eq!(
        WindowState::get_property_action(3),
        Err(XlibError::InvalidAction)
    );
}

#[test]
fn window_property_add_remove_toggle() {
    let atoms = mk_atoms();
    let mut props = bunnuafeth::WindowProperties::all_unset();
    WindowState::set_window_property(&atoms, atoms.net_wm_state_sticky, &PropertyAction::Add, &mut props);
    assert!(props.is_sticky);
    WindowState::set_window_property(
        &atoms,
        atoms.net_wm_state_sticky,
        &PropertyAction::Toggle,
        &mut props,
    );
    assert!(!props.is_sticky);
    WindowState::set_window_property(
        &atoms,
        atoms.net_wm_state_hidden,
        &PropertyAction::Toggle,
        &mut props,
    );
    assert!(props.is_hidden);
    WindowState::set_window_property(
        &atoms,
        atoms.net_wm_state_hidden,
        &PropertyAction::Remove,
        &mut props,
    );
    assert!(!props.is_hidden);
}

#[test]
fn builder_shaded_sets_only_the_shaded_flag() {
    let mut b = bunnuafeth::WindowPropertiesBuilder::new();
    b.is_shaded(true);
    let p = b.build();
    assert!(p.is_shaded);
    assert!(!p.is_maximized_vert);
}

#[test]
fn properties_builder_defaults_to_false() {
    let mut b = bunnuafeth::WindowPropertiesBuilder::new();
    b.is_fullscreen(true);
    b.above(true);
    let p = b.build();
    assert!(p.is_fullscreen);
    assert!(p.above);
    assert!(!p.is_sticky);
    assert!(!p.is_modal);
    assert!(!p.demands_attention);
}

#[test]
fn net_supported_lists_the_vocabulary() {
    let atoms = mk_atoms();
    let list = atoms.net_supported();
    assert_eq!(list.len(), 46);
    assert_eq!(list[0], atoms.net_wm_state);
    assert!(list.contains(&atoms.net_wm_state_fullscreen));
    assert!(list.contains(&atoms.net_client_list));
    assert!(list.contains(&atoms.net_active_window));
}

#[test]
fn strut_parsing_reads_all_edges() {
    let values = vec![1, 2, 3, 4, 5, 6, 7, 8, 9, 10, 11, 12];
    let r = bunnuafeth::wm::parse_strut(&values);
    assert_eq!((r.left.width, r.left.start, r.left.end), (1, 5, 6));
    assert_eq!((r.right.width, r.right.start, r.right.end), (2, 7, 8));
    assert_eq!((r.top.width, r.top.start, r.top.end), (3, 9, 10));
    assert_eq!((r.bottom.width, r.bottom.start, r.bottom.end), (4, 11, 12));
    let short = vec![1, 2, 3];
    assert_eq!(bunnuafeth::wm::parse_strut(&short), ReservedEdges::default());
}

#[test]
fn window_type_resolution() {
    let atoms = mk_atoms();
    let none: Vec<u32> = Vec::new();
    assert_eq!(bunnuafeth::wm::get_window_type(&atoms, &none, &none), None);
    assert_eq!(
        bunnuafeth::wm::get_window_type(&atoms, &vec![atoms.net_wm_window_type_dialog], &none),
        Some(WindowType::Dialog)
    );
    let mut strut = vec![0u32; 12];
    strut[2] = 42;
    match bunnuafeth::wm::get_window_type(&atoms, &vec![atoms.net_wm_window_type_dock], &strut) {
        Some(WindowType::Dock(r)) => assert_eq!(r.top.width, 42),
        other => panic!("expected a dock, got {:?}", other),
    }
}

#[test]
fn dock_removal_recomputes_reserved_edges() {
    let mut wm = mk_wm(empty_config());
    wm.handle_event(None, &dock_map_request(DOCK, 30)).unwrap();
    assert_eq!(wm.layout_manager.reserved.top.width, 30);
    wm.handle_event(None, &WmEvent::UnmapNotify { window: DOCK }).unwrap();
    assert_eq!(wm.layout_manager.reserved.top.width, 0);
    assert!(wm.windows.unmanaged_windows().is_empty());
}

#[test]
fn bar_strut_reserves_the_top() {
    let v = bunnuafeth::wm::bar_strut_values(30, 1920);
    assert_eq!(v, vec![0, 0, 30, 0, 0, 0, 0, 0, 0, 1920, 0, 0]);
}

#[test]
fn ewmh_setup_advertises_the_surface() {
    let wm = mk_wm(empty_config());
    let reqs = wm.ewmh_setup_requests(500);
    assert_eq!(reqs.len(), 12);
    assert_eq!(
        reqs[0],
        WmRequest::ChangeProperty32 { window: 500, property: 3, values: vec![500], append: false }
    );
    assert_eq!(
        reqs[3],
        WmRequest::ChangeProperty32 {
            window: ROOT,
            property: 2,
            values: wm.atoms.net_supported(),
            append: false,
        }
    );
    assert_eq!(
        reqs[9],
        WmRequest::ChangeProperty32 {
            window: ROOT,
            property: 44,
            values: vec![0, 0, 1920, 1080],
            append: false,
        }
    );
    assert_eq!(reqs[11], WmRequest::MapWindow { window: 500 });
}

#[test]
fn expose_and_refresh_drain_the_queue() {
    let mut wm = mk_wm(empty_config());
    wm.handle_event(None, &map_request(W1)).unwrap();
    wm.handle_event(None, &WmEvent::Expose { window: W1 }).unwrap();
    wm.handle_event(None, &WmEvent::Expose { window: W1 }).unwrap();
    assert_eq!(wm.pending_expose, vec![W1]);
    let reqs = wm.refresh();
    assert_eq!(reqs, vec![WmRequest::RedrawBar]);
    assert!(wm.pending_expose.is_empty());
}

#[test]
fn toggle_floating_raises_the_window() {
    let hotkeys = vec![Hotkey::new(0x8, 0x66, WMCommand::ToggleFloating)];
    let mut wm = mk_wm(Config { hotkeys, mouse_hotkeys: Vec::new() });
    let mut keysyms = vec![0u32; 8];
    keysyms[0] = 0x66;
    wm.setup_bindings(8, 1, &keysyms);
    wm.handle_event(None, &map_request(W1)).unwrap();
    wm.handle_event(None, &map_request(W2)).unwrap();
    let press = WmEvent::KeyPress { detail: 8, state: 0x8, event: W2, event_x: 0, event_y: 0 };
    wm.handle_event(None, &press).unwrap();
    assert!(wm.windows.get_window(W2).unwrap().is_floating);
    // the floating window is raised to the front and the client list mirrors it
    assert_eq!(wm.client_list, vec![W2, W1]);
    assert_eq!(geometry_of(&wm, W1), (0, 0, 1910, 1070));
}
