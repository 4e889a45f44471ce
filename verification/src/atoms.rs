use vstd::prelude::*;

verus! {

/// The interned X11 atoms the manager uses. The values are handed in at
/// construction (the display server assigns them); the core only compares
/// and lists them.
#[derive(Clone, Copy, Debug, PartialEq, Eq, Structural)]
pub struct Atoms {
    pub net_active_window: u32,
    pub net_supported: u32,
    pub net_supporting_wm_check: u32,
    pub net_wm_allowed_actions: u32,
    pub net_wm_pid: u32,
    pub net_wm_state: u32,
    pub net_wm_state_modal: u32,
    pub net_wm_state_sticky: u32,
    pub net_wm_state_maximized_vert: u32,
    pub net_wm_state_maximized_horz: u32,
    pub net_wm_state_shaded: u32,
    pub net_wm_state_skip_taskbar: u32,
    pub net_wm_state_skip_pager: u32,
    pub net_wm_state_hidden: u32,
    pub net_wm_state_fullscreen: u32,
    pub net_wm_state_above: u32,
    pub net_wm_state_below: u32,
    pub net_wm_state_demands_attention: u32,
    pub net_wm_action_move: u32,
    pub net_wm_action_resize: u32,
    pub net_wm_action_minimize: u32,
    pub net_wm_action_shade: u32,
    pub net_wm_action_stick: u32,
    pub net_wm_action_maximize_horz: u32,
    pub net_wm_action_maximize_vert: u32,
    pub net_wm_action_fullscreen: u32,
    pub net_wm_action_change_desktop: u32,
    pub net_wm_action_close: u32,
    pub net_wm_window_type: u32,
    pub net_wm_window_type_desktop: u32,
    pub net_wm_window_type_dock: u32,
    pub net_wm_window_type_toolbar: u32,
    pub net_wm_window_type_menu: u32,
    pub net_wm_window_type_utility: u32,
    pub net_wm_window_type_splash: u32,
    pub net_wm_window_type_dialog: u32,
    pub net_wm_window_type_normal: u32,
    pub net_client_list: u32,
    pub net_desktop_viewport: u32,
    pub net_desktop_geometry: u32,
    pub net_number_of_desktops: u32,
    pub net_current_desktop: u32,
    pub net_desktop_names: u32,
    pub net_workarea: u32,
    pub net_wm_desktop: u32,
    pub net_wm_strut: u32,
    pub net_wm_strut_partial: u32,
    pub net_frame_extents: u32,
    pub net_wm_name: u32,
    pub wm_protocols: u32,
    pub wm_delete_window: u32,
}

impl Atoms {
    /// The atoms advertised in the root window's `_NET_SUPPORTED` property.
    pub open spec fn spec_net_supported(&self) -> Seq<u32> {
        seq![
            self.net_wm_state,
            self.net_wm_state_modal,
            self.net_wm_state_sticky,
            self.net_wm_state_maximized_vert,
            self.net_wm_state_maximized_horz,
            self.net_wm_state_shaded,
            self.net_wm_state_skip_taskbar,
            self.net_wm_state_skip_pager,
            self.net_wm_state_hidden,
            self.net_wm_state_fullscreen,
            self.net_wm_state_above,
            self.net_wm_state_below,
            self.net_wm_state_demands_attention,
            self.net_wm_action_move,
            self.net_wm_action_resize,
            self.net_wm_action_minimize,
            self.net_wm_action_shade,
            self.net_wm_action_stick,
            self.net_wm_action_maximize_horz,
            self.net_wm_action_maximize_vert,
            self.net_wm_action_fullscreen,
            self.net_wm_action_change_desktop,
            self.net_wm_action_close,
            self.net_wm_window_type,
            self.net_wm_window_type_desktop,
            self.net_wm_window_type_dock,
            self.net_wm_window_type_toolbar,
            self.net_wm_window_type_menu,
            self.net_wm_window_type_utility,
            self.net_wm_window_type_splash,
            self.net_wm_window_type_dialog,
            self.net_supporting_wm_check,
            self.net_desktop_viewport,
            self.net_number_of_desktops,
            self.net_current_desktop,
            self.net_desktop_names,
            self.net_wm_desktop,
            self.net_wm_desktop,
            self.net_wm_strut,
            self.net_client_list,
            self.net_active_window,
            self.net_desktop_geometry,
            self.net_supported,
            self.net_wm_name,
            self.net_wm_allowed_actions,
            self.net_wm_pid,
        ]
    }

    pub fn net_supported(&self) -> (r: Vec<u32>)
        ensures
            r@ == self.spec_net_supported(),
    {
        let mut r: Vec<u32> = Vec::new();
        r.push(self.net_wm_state);
        r.push(self.net_wm_state_modal);
        r.push(self.net_wm_state_sticky);
        r.push(self.net_wm_state_maximized_vert);
        r.push(self.net_wm_state_maximized_horz);
        r.push(self.net_wm_state_shaded);
        r.push(self.net_wm_state_skip_taskbar);
        r.push(self.net_wm_state_skip_pager);
        r.push(self.net_wm_state_hidden);
        r.push(self.net_wm_state_fullscreen);
        r.push(self.net_wm_state_above);
        r.push(self.net_wm_state_below);
        r.push(self.net_wm_state_demands_attention);
        r.push(self.net_wm_action_move);
        r.push(self.net_wm_action_resize);
        r.push(self.net_wm_action_minimize);
        r.push(self.net_wm_action_shade);
        r.push(self.net_wm_action_stick);
        r.push(self.net_wm_action_maximize_horz);
        r.push(self.net_wm_action_maximize_vert);
        r.push(self.net_wm_action_fullscreen);
        r.push(self.net_wm_action_change_desktop);
        r.push(self.net_wm_action_close);
        r.push(self.net_wm_window_type);
        r.push(self.net_wm_window_type_desktop);
        r.push(self.net_wm_window_type_dock);
        r.push(self.net_wm_window_type_toolbar);
        r.push(self.net_wm_window_type_menu);
        r.push(self.net_wm_window_type_utility);
        r.push(self.net_wm_window_type_splash);
        r.push(self.net_wm_window_type_dialog);
        r.push(self.net_supporting_wm_check);
        r.push(self.net_desktop_viewport);
        r.push(self.net_number_of_desktops);
        r.push(self.net_current_desktop);
        r.push(self.net_desktop_names);
        r.push(self.net_wm_desktop);
        r.push(self.net_wm_desktop);
        r.push(self.net_wm_strut);
        r.push(self.net_client_list);
        r.push(self.net_active_window);
        r.push(self.net_desktop_geometry);
        r.push(self.net_supported);
        r.push(self.net_wm_name);
        r.push(self.net_wm_allowed_actions);
        r.push(self.net_wm_pid);
        proof {
            assert(r@ =~= self.spec_net_supported());
        }
        r
    }
}

} // verus!
