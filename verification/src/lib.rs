use vstd::prelude::*;

pub mod atoms;
pub mod layout;
pub mod windows;
pub mod wm;

use layout::ReservedEdges;

verus! {

/// Server-side border width of a managed window, in pixels.
pub const BORDER_WIDTH: u32 = 5;

/// Height of the status bar dock, in pixels.
pub const BAR_HEIGHT: u16 = 30;

/// A colour with 8-bit red, green, blue and alpha channels.
#[derive(Clone, Copy)]
pub struct RGBA {
    pub red: u8,
    pub green: u8,
    pub blue: u8,
    pub alpha: u8,
}

impl RGBA {
    /// The packed 0xAARRGGBB form of the colour.
    pub open spec fn spec_argb(&self) -> u32 {
        ((self.alpha as u32) << 24) | ((self.red as u32) << 16) | ((self.green as u32) << 8) | (
        self.blue as u32)
    }

    pub fn new(red: u8, green: u8, blue: u8, alpha: u8) -> (c: Self)
        ensures
            c == (RGBA { red, green, blue, alpha }),
    {
        Self { red, green, blue, alpha }
    }

    /// Packs the channels as 0xAARRGGBB.
    pub fn as_argb_u32(&self) -> (r: u32)
        ensures
            r == self.spec_argb(),
    {
        ((self.alpha as u32) << 24) | ((self.red as u32) << 16) | ((self.green as u32) << 8) | (
        self.blue as u32)
    }

    /// Packs the channels as 0xRRGGBBAA.
    pub fn as_rgba_u32(&self) -> (r: u32)
        ensures
            r == ((self.red as u32) << 24) | ((self.green as u32) << 16) | (
            (self.blue as u32) << 8) | (self.alpha as u32),
    {
        ((self.red as u32) << 24) | ((self.green as u32) << 16) | ((self.blue as u32) << 8) | (
        self.alpha as u32)
    }
}

/// An action a hotkey or mouse binding can trigger.
#[derive(Debug)]
pub enum WMCommand {
    Execute(String),
    CloseWindow,
    MoveWindow,
    /// The parameter is not needed for mouse resizing.
    ResizeWindow(i16),
    ToggleFullscreen,
    ToggleFloating,
}

/// User configuration handed to the window manager at construction.
#[derive(Clone)]
pub struct Config {
    pub hotkeys: Vec<Hotkey>,
    pub mouse_hotkeys: Vec<MouseHotkey>,
}

/// A keyboard binding: modifier mask and keysym resolved at setup time.
#[derive(Clone, Debug)]
pub struct Hotkey {
    pub modmask: u16,
    pub keysym: u32,
    pub command: WMCommand,
}

impl Hotkey {
    pub fn new(modmask: u16, keysym: u32, command: WMCommand) -> (h: Self)
        ensures
            h == (Hotkey { modmask, keysym, command }),
    {
        Self { modmask, keysym, command }
    }
}

/// A resolved key binding: server keycode plus modifier mask.
#[derive(Clone, Copy, Debug, PartialEq, Eq, Structural)]
pub struct KeyMapping {
    pub code: u8,
    pub mods: u16,
}

impl KeyMapping {
    pub fn new(code: u8, mods: u16) -> (k: Self)
        ensures
            k == (KeyMapping { code, mods }),
    {
        KeyMapping { code, mods }
    }
}

/// A mouse binding: modifier mask and button number.
#[derive(Clone, Debug)]
pub struct MouseHotkey {
    pub command: WMCommand,
    pub mods: u16,
    pub button: u8,
}

impl MouseHotkey {
    pub fn new(mods: u16, button: u8, command: WMCommand) -> (m: Self)
        ensures
            m == (MouseHotkey { mods, button, command }),
    {
        Self { mods, button, command }
    }
}

/// A resolved button binding: button number plus modifier mask.
#[derive(Clone, Copy, Debug, PartialEq, Eq, Structural)]
pub struct ButtonMapping {
    pub button: u8,
    pub mods: u16,
}

impl ButtonMapping {
    pub fn new(button: u8, mods: u16) -> (b: Self)
        ensures
            b == (ButtonMapping { button, mods }),
    {
        ButtonMapping { button, mods }
    }
}

/// The twelve EWMH `_NET_WM_STATE` flags of one window.
#[derive(Clone, Copy, Debug, PartialEq, Eq, Structural)]
pub struct WindowProperties {
    pub is_fullscreen: bool,
    pub is_sticky: bool,
    pub is_modal: bool,
    pub is_maximized_horz: bool,
    pub is_maximized_vert: bool,
    pub is_shaded: bool,
    pub skip_taskbar: bool,
    pub skip_pager: bool,
    pub is_hidden: bool,
    pub above: bool,
    pub below: bool,
    pub demands_attention: bool,
}

impl WindowProperties {
    /// All twelve flags unset.
    pub open spec fn spec_default() -> WindowProperties {
        WindowProperties {
            is_fullscreen: false,
            is_sticky: false,
            is_modal: false,
            is_maximized_horz: false,
            is_maximized_vert: false,
            is_shaded: false,
            skip_taskbar: false,
            skip_pager: false,
            is_hidden: false,
            above: false,
            below: false,
            demands_attention: false,
        }
    }

    pub fn all_unset() -> (p: WindowProperties)
        ensures
            p == WindowProperties::spec_default(),
    {
        WindowProperties {
            is_fullscreen: false,
            is_sticky: false,
            is_modal: false,
            is_maximized_horz: false,
            is_maximized_vert: false,
            is_shaded: false,
            skip_taskbar: false,
            skip_pager: false,
            is_hidden: false,
            above: false,
            below: false,
            demands_attention: false,
        }
    }
}

/// Builder for [`WindowProperties`]; unset fields default to `false`.
#[derive(Clone, Debug)]
pub struct WindowPropertiesBuilder {
    pub is_fullscreen: Option<bool>,
    pub is_sticky: Option<bool>,
    pub is_modal: Option<bool>,
    pub is_maximized_horz: Option<bool>,
    pub is_maximized_vert: Option<bool>,
    pub is_shaded: Option<bool>,
    pub skip_taskbar: Option<bool>,
    pub skip_pager: Option<bool>,
    pub is_hidden: Option<bool>,
    pub above: Option<bool>,
    pub below: Option<bool>,
    pub demands_attention: Option<bool>,
}

/// What an `Option<bool>` builder field contributes to the built value.
pub open spec fn built_flag(f: Option<bool>) -> bool {
    match f {
        Some(b) => b,
        None => false,
    }
}

impl WindowPropertiesBuilder {
    pub fn new() -> (b: Self)
        ensures
            b.is_fullscreen is None,
            b.is_sticky is None,
            b.is_modal is None,
            b.is_maximized_horz is None,
            b.is_maximized_vert is None,
            b.is_shaded is None,
            b.skip_taskbar is None,
            b.skip_pager is None,
            b.is_hidden is None,
            b.above is None,
            b.below is None,
            b.demands_attention is None,
    {
        Self {
            is_fullscreen: None,
            is_sticky: None,
            is_modal: None,
            is_maximized_horz: None,
            is_maximized_vert: None,
            is_shaded: None,
            skip_taskbar: None,
            skip_pager: None,
            is_hidden: None,
            above: None,
            below: None,
            demands_attention: None,
        }
    }

    pub fn is_fullscreen(&mut self, is_fullscreen: bool)
        ensures
            *final(self) == (WindowPropertiesBuilder {
                is_fullscreen: Some(is_fullscreen),
                ..*old(self)
            }),
    {
        self.is_fullscreen = Some(is_fullscreen);
    }

    pub fn is_modal(&mut self, is_modal: bool)
        ensures
            *final(self) == (WindowPropertiesBuilder { is_modal: Some(is_modal), ..*old(self) }),
    {
        self.is_modal = Some(is_modal);
    }

    pub fn is_sticky(&mut self, is_sticky: bool)
        ensures
            *final(self) == (WindowPropertiesBuilder { is_sticky: Some(is_sticky), ..*old(self) }),
    {
        self.is_sticky = Some(is_sticky);
    }

    pub fn is_maximized_horz(&mut self, is_maximized_horz: bool)
        ensures
            *final(self) == (WindowPropertiesBuilder {
                is_maximized_horz: Some(is_maximized_horz),
                ..*old(self)
            }),
    {
        self.is_maximized_horz = Some(is_maximized_horz);
    }

    pub fn is_maximized_vert(&mut self, is_maximized_vert: bool)
        ensures
            *final(self) == (WindowPropertiesBuilder {
                is_maximized_vert: Some(is_maximized_vert),
                ..*old(self)
            }),
    {
        self.is_maximized_vert = Some(is_maximized_vert);
    }

    pub fn is_shaded(&mut self, is_shaded: bool)
        ensures
            *final(self) == (WindowPropertiesBuilder { is_shaded: Some(is_shaded), ..*old(self) }),
    {
        self.is_shaded = Some(is_shaded);
    }

    pub fn skip_taskbar(&mut self, skip_taskbar: bool)
        ensures
            *final(self) == (WindowPropertiesBuilder {
                skip_taskbar: Some(skip_taskbar),
                ..*old(self)
            }),
    {
        self.skip_taskbar = Some(skip_taskbar);
    }

    pub fn skip_pager(&mut self, skip_pager: bool)
        ensures
            *final(self) == (WindowPropertiesBuilder { skip_pager: Some(skip_pager), ..*old(self) }),
    {
        self.skip_pager = Some(skip_pager);
    }

    pub fn is_hidden(&mut self, is_hidden: bool)
        ensures
            *final(self) == (WindowPropertiesBuilder { is_hidden: Some(is_hidden), ..*old(self) }),
    {
        self.is_hidden = Some(is_hidden);
    }

    pub fn above(&mut self, above: bool)
        ensures
            *final(self) == (WindowPropertiesBuilder { above: Some(above), ..*old(self) }),
    {
        self.above = Some(above);
    }

    pub fn below(&mut self, below: bool)
        ensures
            *final(self) == (WindowPropertiesBuilder { below: Some(below), ..*old(self) }),
    {
        self.below = Some(below);
    }

    pub fn demands_attention(&mut self, demands_attention: bool)
        ensures
            *final(self) == (WindowPropertiesBuilder {
                demands_attention: Some(demands_attention),
                ..*old(self)
            }),
    {
        self.demands_attention = Some(demands_attention);
    }

    pub fn build(self) -> (p: WindowProperties)
        ensures
            p == (WindowProperties {
                is_fullscreen: built_flag(self.is_fullscreen),
                is_sticky: built_flag(self.is_sticky),
                is_modal: built_flag(self.is_modal),
                is_maximized_horz: built_flag(self.is_maximized_horz),
                is_maximized_vert: built_flag(self.is_maximized_vert),
                is_shaded: built_flag(self.is_shaded),
                skip_taskbar: built_flag(self.skip_taskbar),
                skip_pager: built_flag(self.skip_pager),
                is_hidden: built_flag(self.is_hidden),
                above: built_flag(self.above),
                below: built_flag(self.below),
                demands_attention: built_flag(self.demands_attention),
            }),
    {
        WindowProperties {
            is_fullscreen: self.is_fullscreen.unwrap_or(false),
            is_sticky: self.is_sticky.unwrap_or(false),
            is_modal: self.is_modal.unwrap_or(false),
            is_maximized_horz: self.is_maximized_horz.unwrap_or(false),
            is_maximized_vert: self.is_maximized_vert.unwrap_or(false),
            is_shaded: self.is_shaded.unwrap_or(false),
            skip_taskbar: self.skip_taskbar.unwrap_or(false),
            skip_pager: self.skip_pager.unwrap_or(false),
            is_hidden: self.is_hidden.unwrap_or(false),
            above: self.above.unwrap_or(false),
            below: self.below.unwrap_or(false),
            demands_attention: self.demands_attention.unwrap_or(false),
        }
    }
}

/// Geometry of a window as the server reports it.
#[derive(Clone, Copy, Debug, PartialEq, Eq, Structural)]
pub struct Geometry {
    pub x: i16,
    pub y: i16,
    pub width: u16,
    pub height: u16,
}

/// The per-window record kept for every window the manager tracks.
#[derive(Clone, Copy, Debug, PartialEq, Eq, Structural)]
pub struct WindowState {
    pub x: i16,
    pub y: i16,
    pub width: u16,
    pub height: u16,
    pub window: u32,
    pub window_type: WindowType,
    pub properties: WindowProperties,
    pub is_floating: bool,
}

impl WindowState {
    pub fn new(window: u32, geom: &Geometry, window_type: WindowType) -> (w: WindowState)
        ensures
            w == (WindowState {
                window,
                x: geom.x,
                y: geom.y,
                width: geom.width,
                height: geom.height,
                window_type,
                properties: WindowProperties::spec_default(),
                is_floating: false,
            }),
    {
        WindowState {
            window,
            x: geom.x,
            y: geom.y,
            width: geom.width,
            height: geom.height,
            window_type,
            properties: WindowProperties::all_unset(),
            is_floating: false,
        }
    }

    /// A window may be moved by the pointer unless it is fullscreen.
    pub fn can_move(&self) -> (r: bool)
        ensures
            r == !self.properties.is_fullscreen,
    {
        !self.properties.is_fullscreen
    }

    /// A window may be resized by the pointer unless it is fullscreen.
    pub fn can_resize(&self) -> (r: bool)
        ensures
            r == !self.properties.is_fullscreen,
    {
        !self.properties.is_fullscreen
    }

    /// Maps the numeric `_NET_WM_STATE` client-message action to its variant:
    /// 0 removes, 1 adds, 2 toggles; anything else is an invalid action.
    pub fn get_property_action(action: u32) -> (r: Result<PropertyAction, XlibError>)
        ensures
            action == 0 ==> r == Ok::<PropertyAction, XlibError>(PropertyAction::Remove),
            action == 1 ==> r == Ok::<PropertyAction, XlibError>(PropertyAction::Add),
            action == 2 ==> r == Ok::<PropertyAction, XlibError>(PropertyAction::Toggle),
            action > 2 ==> r == Err::<PropertyAction, XlibError>(XlibError::InvalidAction),
    {
        if action == 0 {
            Ok(PropertyAction::Remove)
        } else if action == 1 {
            Ok(PropertyAction::Add)
        } else if action == 2 {
            Ok(PropertyAction::Toggle)
        } else {
            Err(XlibError::InvalidAction)
        }
    }

    /// Applies one `_NET_WM_STATE` property atom with the given action to a
    /// set of window flags.
    #[verifier::rlimit(100)]
    pub fn set_window_property(
        atoms: &atoms::Atoms,
        property: u32,
        action: &PropertyAction,
        window_props: &mut WindowProperties,
    )
        ensures
            *final(window_props) == spec_set_window_property(
                *atoms,
                property,
                *action,
                *old(window_props),
            ),
    {
        if property == atoms.net_wm_state_modal {
            window_props.is_modal = apply_action(action, window_props.is_modal);
        } else if property == atoms.net_wm_state_sticky {
            window_props.is_sticky = apply_action(action, window_props.is_sticky);
        } else if property == atoms.net_wm_state_maximized_vert {
            window_props.is_maximized_vert = apply_action(action, window_props.is_maximized_vert);
        } else if property == atoms.net_wm_state_maximized_horz {
            window_props.is_maximized_horz = apply_action(action, window_props.is_maximized_horz);
        } else if property == atoms.net_wm_state_shaded {
            window_props.is_shaded = apply_action(action, window_props.is_shaded);
        } else if property == atoms.net_wm_state_skip_taskbar {
            window_props.skip_taskbar = apply_action(action, window_props.skip_taskbar);
        } else if property == atoms.net_wm_state_skip_pager {
            window_props.skip_pager = apply_action(action, window_props.skip_pager);
        } else if property == atoms.net_wm_state_hidden {
            window_props.is_hidden = apply_action(action, window_props.is_hidden);
        } else if property == atoms.net_wm_state_fullscreen {
            window_props.is_fullscreen = apply_action(action, window_props.is_fullscreen);
        } else if property == atoms.net_wm_state_above {
            window_props.above = apply_action(action, window_props.above);
        } else if property == atoms.net_wm_state_below {
            window_props.below = apply_action(action, window_props.below);
        } else if property == atoms.net_wm_state_demands_attention {
            window_props.demands_attention = apply_action(action, window_props.demands_attention);
        }
    }
}

/// Remove clears a flag, Add sets it, Toggle flips it.
pub open spec fn spec_apply_action(action: PropertyAction, current: bool) -> bool {
    match action {
        PropertyAction::Remove => false,
        PropertyAction::Add => true,
        PropertyAction::Toggle => !current,
    }
}

pub fn apply_action(action: &PropertyAction, current: bool) -> (r: bool)
    ensures
        r == spec_apply_action(*action, current),
{
    match action {
        PropertyAction::Remove => false,
        PropertyAction::Add => true,
        PropertyAction::Toggle => !current,
    }
}

/// The flag addressed by a `_NET_WM_STATE` property atom, updated per the
/// action; an atom matching none of the twelve leaves the flags unchanged.
/// The first matching atom field wins, as in the set routine itself.
pub open spec fn spec_set_window_property(
    atoms: atoms::Atoms,
    property: u32,
    action: PropertyAction,
    p: WindowProperties,
) -> WindowProperties {
    if property == atoms.net_wm_state_modal {
        WindowProperties { is_modal: spec_apply_action(action, p.is_modal), ..p }
    } else if property == atoms.net_wm_state_sticky {
        WindowProperties { is_sticky: spec_apply_action(action, p.is_sticky), ..p }
    } else if property == atoms.net_wm_state_maximized_vert {
        WindowProperties {
            is_maximized_vert: spec_apply_action(action, p.is_maximized_vert),
            ..p
        }
    } else if property == atoms.net_wm_state_maximized_horz {
        WindowProperties {
            is_maximized_horz: spec_apply_action(action, p.is_maximized_horz),
            ..p
        }
    } else if property == atoms.net_wm_state_shaded {
        WindowProperties { is_shaded: spec_apply_action(action, p.is_shaded), ..p }
    } else if property == atoms.net_wm_state_skip_taskbar {
        WindowProperties { skip_taskbar: spec_apply_action(action, p.skip_taskbar), ..p }
    } else if property == atoms.net_wm_state_skip_pager {
        WindowProperties { skip_pager: spec_apply_action(action, p.skip_pager), ..p }
    } else if property == atoms.net_wm_state_hidden {
        WindowProperties { is_hidden: spec_apply_action(action, p.is_hidden), ..p }
    } else if property == atoms.net_wm_state_fullscreen {
        WindowProperties { is_fullscreen: spec_apply_action(action, p.is_fullscreen), ..p }
    } else if property == atoms.net_wm_state_above {
        WindowProperties { above: spec_apply_action(action, p.above), ..p }
    } else if property == atoms.net_wm_state_below {
        WindowProperties { below: spec_apply_action(action, p.below), ..p }
    } else if property == atoms.net_wm_state_demands_attention {
        WindowProperties {
            demands_attention: spec_apply_action(action, p.demands_attention),
            ..p
        }
    } else {
        p
    }
}

/// What a `_NET_WM_STATE` client message asks for.
#[derive(Clone, Copy, Debug, PartialEq, Eq, Structural)]
pub enum PropertyAction {
    Remove,
    Add,
    Toggle,
}

/// The `_NET_WM_WINDOW_TYPE` of a window; a dock carries the screen edges
/// it reserves.
#[derive(Clone, Copy, Debug, PartialEq, Eq, Structural)]
pub enum WindowType {
    Desktop,
    Dialog,
    Dock(ReservedEdges),
    Menu,
    Normal,
    Splash,
    Toolbar,
    Utility,
}

/// A rectangle on the screen.
#[derive(Clone, Copy, Debug, PartialEq, Eq, Structural)]
pub struct BoundingBox {
    pub x: i16,
    pub y: i16,
    pub height: u16,
    pub width: u16,
}

impl BoundingBox {
    pub fn new(x: i16, y: i16, width: u16, height: u16) -> (b: Self)
        ensures
            b == (BoundingBox { x, y, height, width }),
    {
        Self { x, y, height, width }
    }
}

/// Where the status bar sits on the screen.
#[derive(Clone, Copy, Debug, PartialEq, Eq, Structural)]
pub enum BarPosition {
    Top,
    Bottom,
}

/// Errors of the window-manager core.
#[derive(Clone, Copy, Debug, PartialEq, Eq, Structural)]
pub enum XlibError {
    FailedStatus,
    NoFontLoaded,
    WindowNotFound,
    PropertyMissing,
    InvalidAction,
}

impl XlibError {
    /// A short description of the error.
    pub fn message(&self) -> (r: &'static str)
        ensures
            self is FailedStatus ==> r@ == "failed to get status"@,
            self is NoFontLoaded ==> r@ == "no font loaded"@,
            self is WindowNotFound ==> r@ == "window not found"@,
            self is PropertyMissing ==> r@ == "first property is missing"@,
            self is InvalidAction ==> r@ == "invalid property action"@,
    {
        match self {
            XlibError::FailedStatus => "failed to get status",
            XlibError::NoFontLoaded => "no font loaded",
            XlibError::WindowNotFound => "window not found",
            XlibError::PropertyMissing => "first property is missing",
            XlibError::InvalidAction => "invalid property action",
        }
    }
}

} // verus!
