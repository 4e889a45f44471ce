use vstd::prelude::*;

use crate::atoms::Atoms;
use crate::layout::{
    EdgeDimensions, Layout, LayoutManager, ReservedEdges, TiledLayout, WindowStateDiff,
};
use crate::windows::{at_most_one_fullscreen, has_key, keys_of, vals_of, Windows};
use crate::{ButtonMapping, Config, Geometry, Hotkey, KeyMapping, MouseHotkey, WMCommand,
    WindowState, WindowType, XlibError};

mod events;

verus! {

/// Cursor glyph identifiers of the standard X cursor font.
pub const LEFT_PTR: u16 = 68;

pub const SIZING: u16 = 120;

pub const FLEUR: u16 = 52;

pub const HAND: u16 = 60;

/// The `Mod2` (num-lock) modifier bit.
pub const MOD_NUMLOCK: u16 = 0x10;

/// The `Lock` (caps-lock) modifier bit.
pub const MOD_CAPSLOCK: u16 = 0x02;

/// A cursor shape the manager asks the server to show.
#[derive(Clone, Copy, Debug, PartialEq, Eq, Structural)]
pub enum CursorKind {
    Normal,
    Move,
    Resize,
    Hand,
}

/// An incoming display-server event, reduced to the plain values the core
/// decides on. Property reads the manager would issue at event time (the
/// window type and strut of a mapped window) arrive with the event.
#[derive(Clone, Debug, PartialEq, Eq)]
pub enum WmEvent {
    MapRequest { window: u32, geom: Geometry, type_atoms: Vec<u32>, strut_partial: Vec<u32> },
    MapNotify { window: u32 },
    Expose { window: u32 },
    ConfigureRequest {
        window: u32,
        x: Option<i32>,
        y: Option<i32>,
        width: Option<u32>,
        height: Option<u32>,
        border_width: Option<u32>,
    },
    DestroyNotify { window: u32 },
    UnmapNotify { window: u32 },
    EnterNotify { window: u32 },
    LeaveNotify { window: u32 },
    ButtonPress { detail: u8, state: u16, child: u32, event_x: i16, event_y: i16 },
    ButtonRelease,
    MotionNotify { time: u32, root_x: i16, root_y: i16, event_x: i16, event_y: i16 },
    KeyPress { detail: u8, state: u16, event: u32, event_x: i16, event_y: i16 },
    ClientMessage { window: u32, message_type: u32, data: Vec<u32> },
    Other,
}

/// An outgoing request the core asks the driver to issue, as plain values.
#[derive(Clone, Debug, PartialEq, Eq)]
pub enum WmRequest {
    Configure {
        window: u32,
        x: Option<i32>,
        y: Option<i32>,
        width: Option<u32>,
        height: Option<u32>,
        border_width: Option<u32>,
        stack_above: bool,
    },
    ChangeProperty32 { window: u32, property: u32, values: Vec<u32>, append: bool },
    ChangeTextProperty { window: u32, property: u32, text: String },
    DeleteProperty { window: u32, property: u32 },
    MapWindow { window: u32 },
    SendEvent { window: u32, message_type: u32, data0: u32 },
    SetInputFocus { window: u32 },
    SetBorderPixel { window: u32, pixel: u32 },
    SetCursor { window: u32, cursor: CursorKind },
    GrabPointer { window: u32 },
    UngrabPointer,
    GrabServer,
    UngrabServer,
    ChangeSaveSet { window: u32, insert: bool },
    ReparentToRoot { window: u32, x: i16, y: i16 },
    /// Select the client events the manager tracks on a managed window; the
    /// driver records the request's sequence number into the ignore heap.
    SelectClientEvents { window: u32 },
    GrabKey { code: u8, mods: u16 },
    GrabButton { button: u8, mods: u16 },
    Spawn { program: String, args: Vec<String> },
    RedrawBar,
}

/// The border colour of the focused window, packed 0xAARRGGBB.
pub open spec fn focused_border_pixel() -> u32 {
    (crate::RGBA { red: 0x00, green: 0x55, blue: 0x77, alpha: 0xff }).spec_argb()
}

/// The border colour of unfocused windows, packed 0xAARRGGBB.
pub open spec fn unfocused_border_pixel() -> u32 {
    (crate::RGBA { red: 0x00, green: 0x00, blue: 0x00, alpha: 0xff }).spec_argb()
}

/// The largest width a dock has reserved on the given edge, taken over all
/// unmanaged windows; zero when no dock reserves it.
pub open spec fn spec_max_edge(s: Seq<WindowState>, f: spec_fn(ReservedEdges) -> u32) -> u32
    decreases s.len(),
{
    if s.len() == 0 {
        0u32
    } else {
        let rest = spec_max_edge(s.drop_last(), f);
        match s.last().window_type {
            WindowType::Dock(r) => if f(r) > rest {
                f(r)
            } else {
                rest
            },
            _ => rest,
        }
    }
}

pub proof fn lemma_max_edge_push(s: Seq<WindowState>, w: WindowState, f: spec_fn(ReservedEdges) -> u32)
    ensures
        spec_max_edge(s.push(w), f) == (match w.window_type {
            WindowType::Dock(r) => if f(r) > spec_max_edge(s, f) {
                f(r)
            } else {
                spec_max_edge(s, f)
            },
            _ => spec_max_edge(s, f),
        }),
{
    assert(s.push(w).drop_last() =~= s);
    assert(s.push(w).last() == w);
}

/// The reserved edges equal, width by width, the maximum the present docks
/// ask for.
pub open spec fn reserved_matches(res: ReservedEdges, s: Seq<WindowState>) -> bool {
    &&& res.top.width == spec_max_edge(s, |r: ReservedEdges| r.top.width)
    &&& res.bottom.width == spec_max_edge(s, |r: ReservedEdges| r.bottom.width)
    &&& res.left.width == spec_max_edge(s, |r: ReservedEdges| r.left.width)
    &&& res.right.width == spec_max_edge(s, |r: ReservedEdges| r.right.width)
}

/// The reserved edges parsed from a `_NET_WM_STRUT_PARTIAL` reply: the
/// twelve cardinals are the four widths followed by the four start/end
/// pairs; anything shorter reserves nothing.
pub open spec fn spec_parse_strut(values: Seq<u32>) -> ReservedEdges {
    if values.len() >= 12 {
        ReservedEdges {
            left: EdgeDimensions { width: values[0], start: values[4], end: values[5] },
            right: EdgeDimensions { width: values[1], start: values[6], end: values[7] },
            top: EdgeDimensions { width: values[2], start: values[8], end: values[9] },
            bottom: EdgeDimensions { width: values[3], start: values[10], end: values[11] },
        }
    } else {
        ReservedEdges::spec_default()
    }
}

pub fn parse_strut(values: &Vec<u32>) -> (r: ReservedEdges)
    ensures
        r == spec_parse_strut(values@),
{
    if values.len() >= 12 {
        ReservedEdges {
            left: EdgeDimensions { width: values[0], start: values[4], end: values[5] },
            right: EdgeDimensions { width: values[1], start: values[6], end: values[7] },
            top: EdgeDimensions { width: values[2], start: values[8], end: values[9] },
            bottom: EdgeDimensions { width: values[3], start: values[10], end: values[11] },
        }
    } else {
        ReservedEdges::default()
    }
}

/// The window type named by the first `_NET_WM_WINDOW_TYPE` atom, if it is
/// one the manager knows; a dock carries the parsed strut.
pub open spec fn spec_window_type(atoms: Atoms, type_atoms: Seq<u32>, strut: Seq<u32>) -> Option<
    WindowType,
> {
    if type_atoms.len() == 0 {
        None
    } else {
        let v = type_atoms[0];
        if v == atoms.net_wm_window_type_desktop {
            Some(WindowType::Desktop)
        } else if v == atoms.net_wm_window_type_dock {
            Some(WindowType::Dock(spec_parse_strut(strut)))
        } else if v == atoms.net_wm_window_type_toolbar {
            Some(WindowType::Toolbar)
        } else if v == atoms.net_wm_window_type_menu {
            Some(WindowType::Menu)
        } else if v == atoms.net_wm_window_type_utility {
            Some(WindowType::Utility)
        } else if v == atoms.net_wm_window_type_splash {
            Some(WindowType::Splash)
        } else if v == atoms.net_wm_window_type_dialog {
            Some(WindowType::Dialog)
        } else if v == atoms.net_wm_window_type_normal {
            Some(WindowType::Normal)
        } else {
            None
        }
    }
}

pub fn get_window_type(atoms: &Atoms, type_atoms: &Vec<u32>, strut: &Vec<u32>) -> (r: Option<
    WindowType,
>)
    ensures
        r == spec_window_type(*atoms, type_atoms@, strut@),
{
    if type_atoms.len() == 0 {
        None
    } else {
        let v = type_atoms[0];
        if v == atoms.net_wm_window_type_desktop {
            Some(WindowType::Desktop)
        } else if v == atoms.net_wm_window_type_dock {
            Some(WindowType::Dock(parse_strut(strut)))
        } else if v == atoms.net_wm_window_type_toolbar {
            Some(WindowType::Toolbar)
        } else if v == atoms.net_wm_window_type_menu {
            Some(WindowType::Menu)
        } else if v == atoms.net_wm_window_type_utility {
            Some(WindowType::Utility)
        } else if v == atoms.net_wm_window_type_splash {
            Some(WindowType::Splash)
        } else if v == atoms.net_wm_window_type_dialog {
            Some(WindowType::Dialog)
        } else if v == atoms.net_wm_window_type_normal {
            Some(WindowType::Normal)
        } else {
            None
        }
    }
}

/// The `_NET_WM_STATE` atom list of a window's current flags, in the order
/// the manager writes it.
pub open spec fn spec_net_wm_state(atoms: Atoms, p: crate::WindowProperties) -> Seq<u32> {
    let s = Seq::<u32>::empty();
    let s = if p.is_fullscreen {
        s.push(atoms.net_wm_state_fullscreen)
    } else {
        s
    };
    let s = if p.is_sticky {
        s.push(atoms.net_wm_state_sticky)
    } else {
        s
    };
    let s = if p.is_modal {
        s.push(atoms.net_wm_state_modal)
    } else {
        s
    };
    let s = if p.is_maximized_horz {
        s.push(atoms.net_wm_state_maximized_horz)
    } else {
        s
    };
    let s = if p.is_maximized_vert {
        s.push(atoms.net_wm_state_maximized_vert)
    } else {
        s
    };
    let s = if p.is_shaded {
        s.push(atoms.net_wm_state_shaded)
    } else {
        s
    };
    let s = if p.skip_taskbar {
        s.push(atoms.net_wm_state_skip_taskbar)
    } else {
        s
    };
    let s = if p.skip_pager {
        s.push(atoms.net_wm_state_skip_pager)
    } else {
        s
    };
    let s = if p.is_hidden {
        s.push(atoms.net_wm_state_hidden)
    } else {
        s
    };
    let s = if p.above {
        s.push(atoms.net_wm_state_above)
    } else {
        s
    };
    let s = if p.below {
        s.push(atoms.net_wm_state_below)
    } else {
        s
    };
    let s = if p.demands_attention {
        s.push(atoms.net_wm_state_demands_attention)
    } else {
        s
    };
    s
}

/// Builds the `_NET_WM_STATE` value list for a window's flags.
pub fn net_wm_state_values(atoms: &Atoms, p: &crate::WindowProperties) -> (r: Vec<u32>)
    ensures
        r@ == spec_net_wm_state(*atoms, *p),
{
    let mut r: Vec<u32> = Vec::new();
    if p.is_fullscreen {
        r.push(atoms.net_wm_state_fullscreen);
    }
    if p.is_sticky {
        r.push(atoms.net_wm_state_sticky);
    }
    if p.is_modal {
        r.push(atoms.net_wm_state_modal);
    }
    if p.is_maximized_horz {
        r.push(atoms.net_wm_state_maximized_horz);
    }
    if p.is_maximized_vert {
        r.push(atoms.net_wm_state_maximized_vert);
    }
    if p.is_shaded {
        r.push(atoms.net_wm_state_shaded);
    }
    if p.skip_taskbar {
        r.push(atoms.net_wm_state_skip_taskbar);
    }
    if p.skip_pager {
        r.push(atoms.net_wm_state_skip_pager);
    }
    if p.is_hidden {
        r.push(atoms.net_wm_state_hidden);
    }
    if p.above {
        r.push(atoms.net_wm_state_above);
    }
    if p.below {
        r.push(atoms.net_wm_state_below);
    }
    if p.demands_attention {
        r.push(atoms.net_wm_state_demands_attention);
    }
    r
}

/// The strut-partial value list a top bar of the given height publishes: it
/// reserves the top edge over the whole screen width.
pub open spec fn spec_bar_strut(bar_height: u16, screen_width: u16) -> Seq<u32> {
    seq![
        0u32,
        0u32,
        bar_height as u32,
        0u32,
        0u32,
        0u32,
        0u32,
        0u32,
        0u32,
        screen_width as u32,
        0u32,
        0u32,
    ]
}

pub fn bar_strut_values(bar_height: u16, screen_width: u16) -> (r: Vec<u32>)
    ensures
        r@ == spec_bar_strut(bar_height, screen_width),
{
    let mut r: Vec<u32> = Vec::new();
    r.push(0);
    r.push(0);
    r.push(bar_height as u32);
    r.push(0);
    r.push(0);
    r.push(0);
    r.push(0);
    r.push(0);
    r.push(0);
    r.push(screen_width as u32);
    r.push(0);
    r.push(0);
    proof {
        assert(r@ =~= spec_bar_strut(bar_height, screen_width));
    }
    r
}

/// The difference `a - b` on wrapping 16-bit sequence numbers.
pub open spec fn wrap_diff(a: u16, b: u16) -> int {
    if a >= b {
        a - b
    } else {
        a - b + 0x10000
    }
}

/// Walking the ignore heap for an event's sequence number: entries strictly
/// older than the event are dropped from the front; the event is ignored
/// exactly when the first remaining entry equals its sequence number.
pub open spec fn spec_ignore_scan(heap: Seq<u16>, seq_no: u16) -> (Seq<u16>, bool)
    decreases heap.len(),
{
    if heap.len() == 0 {
        (heap, false)
    } else if wrap_diff(heap[0], seq_no) <= 0x7fff {
        (heap, heap[0] == seq_no)
    } else {
        spec_ignore_scan(heap.drop_first(), seq_no)
    }
}

/// Sequence-ignore exactness: when the top of the heap equals the event's
/// sequence number, the scan keeps the heap as it is and asks to ignore.
pub proof fn lemma_ignore_top_match(heap: Seq<u16>, seq_no: u16)
    requires
        heap.len() > 0,
        heap[0] == seq_no,
    ensures
        spec_ignore_scan(heap, seq_no) == (heap, true),
{
    assert(wrap_diff(seq_no, seq_no) == 0);
}

/// The first lock-state variants of a modifier mask a binding is registered
/// under: as given, with num lock, with caps lock, and with both.
pub open spec fn spec_lock_variants(mods: u16) -> Seq<u16> {
    seq![mods, mods | MOD_NUMLOCK, mods | MOD_CAPSLOCK, mods | MOD_NUMLOCK | MOD_CAPSLOCK]
}

/// The index of the first occurrence of `sym` in the keysym table, or -1.
pub open spec fn spec_first_keysym_index(syms: Seq<u32>, sym: u32) -> int
    decreases syms.len(),
{
    if syms.len() == 0 {
        -1
    } else if syms[0] == sym {
        0
    } else {
        let r = spec_first_keysym_index(syms.drop_first(), sym);
        if r < 0 {
            -1
        } else {
            1 + r
        }
    }
}

proof fn lemma_first_keysym_found(syms: Seq<u32>, sym: u32, i: int)
    requires
        0 <= i < syms.len(),
        syms[i] == sym,
        forall|j: int| 0 <= j < i ==> syms[j] != sym,
    ensures
        spec_first_keysym_index(syms, sym) == i,
    decreases i,
{
    if i == 0 {
    } else {
        assert(syms[0] != sym);
        let rest = syms.drop_first();
        assert(rest[i - 1] == syms[i]);
        assert forall|j: int| 0 <= j < i - 1 implies rest[j] != sym by {
            assert(rest[j] == syms[j + 1]);
        }
        lemma_first_keysym_found(rest, sym, i - 1);
    }
}

proof fn lemma_first_keysym_absent(syms: Seq<u32>, sym: u32)
    requires
        forall|j: int| 0 <= j < syms.len() ==> syms[j] != sym,
    ensures
        spec_first_keysym_index(syms, sym) == -1,
    decreases syms.len(),
{
    if syms.len() > 0 {
        let rest = syms.drop_first();
        assert forall|j: int| 0 <= j < rest.len() implies rest[j] != sym by {
            assert(rest[j] == syms[j + 1]);
        }
        lemma_first_keysym_absent(rest, sym);
    }
}

/// The keycode a keysym resolves to: the keycode owning the first keysym
/// table slot holding it, or `None` when the keyboard lacks the symbol.
pub open spec fn spec_keycode_for(min_keycode: u8, keysyms_per_keycode: u8, syms: Seq<u32>, sym: u32) -> Option<u8> {
    let i = spec_first_keysym_index(syms, sym);
    if i < 0 {
        None
    } else {
        Some((min_keycode + i / (keysyms_per_keycode as int)) as u8)
    }
}

/// Scans the keyboard mapping for a keysym and derives its keycode.
pub fn find_keycode(min_keycode: u8, keysyms_per_keycode: u8, syms: &Vec<u32>, sym: u32) -> (r:
    Option<u8>)
    requires
        keysyms_per_keycode >= 1,
        syms@.len() <= (keysyms_per_keycode as int) * (256 - min_keycode as int),
    ensures
        r == spec_keycode_for(min_keycode, keysyms_per_keycode, syms@, sym),
{
    let mut i: usize = 0;
    while i < syms.len()
        invariant
            keysyms_per_keycode >= 1,
            syms@.len() <= (keysyms_per_keycode as int) * (256 - min_keycode as int),
            0 <= i <= syms@.len(),
            forall|j: int| 0 <= j < i ==> syms@[j] != sym,
        decreases syms@.len() - i,
    {
        if syms[i] == sym {
            proof {
                lemma_first_keysym_found(syms@, sym, i as int);
                let kpc = keysyms_per_keycode as int;
                let mn = min_keycode as int;
                assert(i as int <= kpc * (256 - mn) - 1);
                assert(i as int / kpc <= (kpc * (256 - mn) - 1) / kpc) by {
                    vstd::arithmetic::div_mod::lemma_div_is_ordered(
                        i as int,
                        kpc * (256 - mn) - 1,
                        kpc,
                    );
                }
                assert((kpc * (256 - mn) - 1) / kpc == 256 - mn - 1) by {
                    assert(kpc * (256 - mn) - 1 == kpc * (256 - mn - 1) + (kpc - 1))
                        by (nonlinear_arith);
                    vstd::arithmetic::div_mod::lemma_div_multiples_vanish_fancy(
                        256 - mn - 1,
                        kpc - 1,
                        kpc,
                    );
                }
            }
            let code: u8 = min_keycode + (i / (keysyms_per_keycode as usize)) as u8;
            return Some(code);
        }
        i += 1;
    }
    proof {
        lemma_first_keysym_absent(syms@, sym);
    }
    None
}

/// The key-mapping entries one hotkey contributes: nothing when its keysym
/// is not on the keyboard, else its command under the resolved keycode and
/// each lock-state variant of its modifier mask.
pub open spec fn spec_hotkey_entries(
    hk: Hotkey,
    min_keycode: u8,
    keysyms_per_keycode: u8,
    syms: Seq<u32>,
) -> Seq<(KeyMapping, WMCommand)> {
    match spec_keycode_for(min_keycode, keysyms_per_keycode, syms, hk.keysym) {
        None => Seq::empty(),
        Some(code) => Seq::new(
            4,
            |i: int| (KeyMapping { code, mods: spec_lock_variants(hk.modmask)[i] }, hk.command),
        ),
    }
}

/// The whole key mapping, hotkey by hotkey in configuration order.
pub open spec fn spec_key_mappings(
    hks: Seq<Hotkey>,
    min_keycode: u8,
    keysyms_per_keycode: u8,
    syms: Seq<u32>,
) -> Seq<(KeyMapping, WMCommand)>
    decreases hks.len(),
{
    if hks.len() == 0 {
        Seq::empty()
    } else {
        spec_key_mappings(hks.drop_last(), min_keycode, keysyms_per_keycode, syms)
            + spec_hotkey_entries(hks.last(), min_keycode, keysyms_per_keycode, syms)
    }
}

/// Resolves the configured hotkeys against the server keyboard mapping,
/// registering each under its plain and lock-state modifier masks.
pub fn resolve_key_mappings(
    hotkeys: &Vec<Hotkey>,
    min_keycode: u8,
    keysyms_per_keycode: u8,
    syms: &Vec<u32>,
) -> (r: Vec<(KeyMapping, WMCommand)>)
    requires
        keysyms_per_keycode >= 1,
        syms@.len() <= (keysyms_per_keycode as int) * (256 - min_keycode as int),
    ensures
        r@ == spec_key_mappings(hotkeys@, min_keycode, keysyms_per_keycode, syms@),
{
    let mut r: Vec<(KeyMapping, WMCommand)> = Vec::new();
    let mut i: usize = 0;
    while i < hotkeys.len()
        invariant
            keysyms_per_keycode >= 1,
            syms@.len() <= (keysyms_per_keycode as int) * (256 - min_keycode as int),
            0 <= i <= hotkeys@.len(),
            r@ == spec_key_mappings(hotkeys@.take(i as int), min_keycode, keysyms_per_keycode,
                syms@),
        decreases hotkeys@.len() - i,
    {
        let hk = &hotkeys[i];
        proof {
            assert(hotkeys@.take(i as int + 1).drop_last() =~= hotkeys@.take(i as int));
            assert(hotkeys@.take(i as int + 1).last() == hotkeys@[i as int]);
        }
        match find_keycode(min_keycode, keysyms_per_keycode, syms, hk.keysym) {
            None => {},
            Some(code) => {
                r.push((KeyMapping { code, mods: hk.modmask }, hk.command.clone()));
                r.push((KeyMapping { code, mods: hk.modmask | MOD_NUMLOCK }, hk.command.clone()));
                r.push((KeyMapping { code, mods: hk.modmask | MOD_CAPSLOCK }, hk.command.clone()));
                r.push(
                    (
                        KeyMapping { code, mods: hk.modmask | MOD_NUMLOCK | MOD_CAPSLOCK },
                        hk.command.clone(),
                    ),
                );
                proof {
                    assert(r@ =~= spec_key_mappings(hotkeys@.take(i as int + 1), min_keycode,
                        keysyms_per_keycode, syms@));
                }
            },
        }
        i += 1;
    }
    proof {
        assert(hotkeys@.take(hotkeys@.len() as int) =~= hotkeys@);
    }
    r
}

/// The button-mapping entries one mouse hotkey contributes: its command
/// under each lock-state variant of its modifier mask.
pub open spec fn spec_mouse_entries(m: MouseHotkey) -> Seq<(ButtonMapping, WMCommand)> {
    Seq::new(
        4,
        |i: int| (ButtonMapping { button: m.button, mods: spec_lock_variants(m.mods)[i] }, m.command),
    )
}

/// The whole button mapping, mouse hotkey by mouse hotkey.
pub open spec fn spec_button_mappings(ms: Seq<MouseHotkey>) -> Seq<(ButtonMapping, WMCommand)>
    decreases ms.len(),
{
    if ms.len() == 0 {
        Seq::empty()
    } else {
        spec_button_mappings(ms.drop_last()) + spec_mouse_entries(ms.last())
    }
}

pub fn resolve_button_mappings(mouse_hotkeys: &Vec<MouseHotkey>) -> (r: Vec<
    (ButtonMapping, WMCommand),
>)
    ensures
        r@ == spec_button_mappings(mouse_hotkeys@),
{
    let mut r: Vec<(ButtonMapping, WMCommand)> = Vec::new();
    let mut i: usize = 0;
    while i < mouse_hotkeys.len()
        invariant
            0 <= i <= mouse_hotkeys@.len(),
            r@ == spec_button_mappings(mouse_hotkeys@.take(i as int)),
        decreases mouse_hotkeys@.len() - i,
    {
        let m = &mouse_hotkeys[i];
        proof {
            assert(mouse_hotkeys@.take(i as int + 1).drop_last() =~= mouse_hotkeys@.take(i as int));
            assert(mouse_hotkeys@.take(i as int + 1).last() == mouse_hotkeys@[i as int]);
        }
        r.push((ButtonMapping { button: m.button, mods: m.mods }, m.command.clone()));
        r.push((ButtonMapping { button: m.button, mods: m.mods | MOD_NUMLOCK }, m.command.clone()));
        r.push(
            (ButtonMapping { button: m.button, mods: m.mods | MOD_CAPSLOCK }, m.command.clone()),
        );
        r.push(
            (
                ButtonMapping { button: m.button, mods: m.mods | MOD_NUMLOCK | MOD_CAPSLOCK },
                m.command.clone(),
            ),
        );
        proof {
            assert(r@ =~= spec_button_mappings(mouse_hotkeys@.take(i as int + 1)));
        }
        i += 1;
    }
    proof {
        assert(mouse_hotkeys@.take(mouse_hotkeys@.len() as int) =~= mouse_hotkeys@);
    }
    r
}

/// The command of the first mapping entry matching a key, if any; when two
/// configured bindings resolve to the same key, the earlier one wins.
pub open spec fn spec_lookup_key(s: Seq<(KeyMapping, WMCommand)>, code: u8, mods: u16) -> Option<
    WMCommand,
>
    decreases s.len(),
{
    if s.len() == 0 {
        None
    } else if s[0].0 == (KeyMapping { code, mods }) {
        Some(s[0].1)
    } else {
        spec_lookup_key(s.drop_first(), code, mods)
    }
}

pub fn lookup_key_command(map: &Vec<(KeyMapping, WMCommand)>, code: u8, mods: u16) -> (r: Option<
    WMCommand,
>)
    ensures
        r == spec_lookup_key(map@, code, mods),
{
    let mut i: usize = 0;
    proof {
        assert(map@.skip(0) =~= map@);
    }
    while i < map.len()
        invariant
            0 <= i <= map@.len(),
            spec_lookup_key(map@, code, mods) == spec_lookup_key(map@.skip(i as int), code, mods),
        decreases map@.len() - i,
    {
        proof {
            assert(map@.skip(i as int)[0] == map@[i as int]);
            assert(map@.skip(i as int).drop_first() =~= map@.skip(i as int + 1));
        }
        if map[i].0.code == code && map[i].0.mods == mods {
            return Some(map[i].1.clone());
        }
        i += 1;
    }
    proof {
        assert(map@.skip(map@.len() as int) =~= Seq::<(KeyMapping, WMCommand)>::empty());
    }
    None
}

/// The command of the first mapping entry matching a button, if any; when
/// two configured bindings share a button and mask, the earlier one wins.
pub open spec fn spec_lookup_button(s: Seq<(ButtonMapping, WMCommand)>, button: u8, mods: u16) -> Option<WMCommand>
    decreases s.len(),
{
    if s.len() == 0 {
        None
    } else if s[0].0 == (ButtonMapping { button, mods }) {
        Some(s[0].1)
    } else {
        spec_lookup_button(s.drop_first(), button, mods)
    }
}

pub fn lookup_button_command(map: &Vec<(ButtonMapping, WMCommand)>, button: u8, mods: u16) -> (r:
    Option<WMCommand>)
    ensures
        r == spec_lookup_button(map@, button, mods),
{
    let mut i: usize = 0;
    proof {
        assert(map@.skip(0) =~= map@);
    }
    while i < map.len()
        invariant
            0 <= i <= map@.len(),
            spec_lookup_button(map@, button, mods) == spec_lookup_button(
                map@.skip(i as int),
                button,
                mods,
            ),
        decreases map@.len() - i,
    {
        proof {
            assert(map@.skip(i as int)[0] == map@[i as int]);
            assert(map@.skip(i as int).drop_first() =~= map@.skip(i as int + 1));
        }
        if map[i].0.button == button && map[i].0.mods == mods {
            return Some(map[i].1.clone());
        }
        i += 1;
    }
    proof {
        assert(map@.skip(map@.len() as int) =~= Seq::<(ButtonMapping, WMCommand)>::empty());
    }
    None
}

impl Clone for WMCommand {
    /// A clone of a command equals the command.
    fn clone(&self) -> (r: Self)
        ensures
            r == *self,
    {
        match self {
            WMCommand::Execute(s) => WMCommand::Execute(s.clone()),
            WMCommand::CloseWindow => WMCommand::CloseWindow,
            WMCommand::MoveWindow => WMCommand::MoveWindow,
            WMCommand::ResizeWindow(f) => WMCommand::ResizeWindow(*f),
            WMCommand::ToggleFullscreen => WMCommand::ToggleFullscreen,
            WMCommand::ToggleFloating => WMCommand::ToggleFloating,
        }
    }
}

/// The index of the first space in a command line, or -1.
pub open spec fn spec_first_space(s: Seq<char>) -> int
    decreases s.len(),
{
    if s.len() == 0 {
        -1
    } else if s[0] == ' ' {
        0
    } else {
        let r = spec_first_space(s.drop_first(), );
        if r < 0 {
            -1
        } else {
            1 + r
        }
    }
}

proof fn lemma_first_space_bounds(s: Seq<char>)
    ensures
        spec_first_space(s) >= 0 ==> spec_first_space(s) < s.len() && s[spec_first_space(s)] == ' ',
        spec_first_space(s) < 0 ==> forall|j: int| 0 <= j < s.len() ==> s[j] != ' ',
    decreases s.len(),
{
    if s.len() > 0 && s[0] != ' ' {
        lemma_first_space_bounds(s.drop_first());
        let rest = s.drop_first();
        if spec_first_space(rest) < 0 {
            assert forall|j: int| 0 <= j < s.len() implies s[j] != ' ' by {
                if j > 0 {
                    assert(rest[j - 1] == s[j]);
                }
            }
        }
    }
}

proof fn lemma_first_space_found(s: Seq<char>, i: int)
    requires
        0 <= i < s.len(),
        s[i] == ' ',
        forall|j: int| 0 <= j < i ==> s[j] != ' ',
    ensures
        spec_first_space(s) == i,
    decreases i,
{
    if i > 0 {
        let rest = s.drop_first();
        assert(rest[i - 1] == s[i]);
        assert forall|j: int| 0 <= j < i - 1 implies rest[j] != ' ' by {
            assert(rest[j] == s[j + 1]);
        }
        lemma_first_space_found(rest, i - 1);
    }
}

proof fn lemma_first_space_absent(s: Seq<char>)
    requires
        forall|j: int| 0 <= j < s.len() ==> s[j] != ' ',
    ensures
        spec_first_space(s) == -1,
    decreases s.len(),
{
    if s.len() > 0 {
        let rest = s.drop_first();
        assert forall|j: int| 0 <= j < rest.len() implies rest[j] != ' ' by {
            assert(rest[j] == s[j + 1]);
        }
        lemma_first_space_absent(rest);
    }
}

/// A command line split on every single space, in order; a line without a
/// space is one piece.
pub open spec fn spec_split_spaces(s: Seq<char>) -> Seq<Seq<char>>
    decreases s.len(),
{
    let i = spec_first_space(s);
    if 0 <= i < s.len() {
        seq![s.take(i)] + spec_split_spaces(s.skip(i + 1))
    } else {
        seq![s]
    }
}

/// Splits a command line on single spaces.
pub fn split_spaces(s: &str) -> (r: Vec<String>)
    ensures
        r@.map_values(|t: String| t@) == spec_split_spaces(s@),
    decreases s@.len(),
{
    let len = s.unicode_len();
    let mut i: usize = 0;
    let mut space: Option<usize> = None;
    while i < len && space.is_none()
        invariant
            len == s@.len(),
            0 <= i <= len,
            match space {
                Some(k) => k == i && i < len && s@[k as int] == ' ' && (forall|j: int|
                    0 <= j < k ==> s@[j] != ' '),
                None => forall|j: int| 0 <= j < i ==> s@[j] != ' ',
            },
        decreases len - i + (if space is None {
            1int
        } else {
            0int
        }),
    {
        if s.get_char(i) == ' ' {
            space = Some(i);
        } else {
            i += 1;
        }
    }
    match space {
        Some(k) => {
            proof {
                lemma_first_space_found(s@, k as int);
            }
            let piece = s.substring_char(0, k);
            let rest = s.substring_char(k + 1, len);
            let mut out = split_spaces(rest);
            let mut r: Vec<String> = Vec::new();
            r.push(String::from_str(piece));
            let mut j: usize = 0;
            while j < out.len()
                invariant
                    0 <= j <= out@.len(),
                    r@.len() == j + 1,
                    r@[0]@ == piece@,
                    forall|t: int| 0 <= t < j ==> r@[t + 1]@ == (#[trigger] out@[t])@,
                decreases out@.len() - j,
            {
                let item = out[j].clone();
                r.push(item);
                j += 1;
            }
            proof {
                assert(piece@ == s@.subrange(0, k as int));
                assert(s@.take(k as int) =~= s@.subrange(0, k as int));
                assert(rest@ == s@.subrange(k as int + 1, len as int));
                assert(s@.skip(k as int + 1) =~= s@.subrange(k as int + 1, len as int));
                assert(r@.map_values(|t: String| t@) =~= seq![s@.take(k as int)]
                    + spec_split_spaces(s@.skip(k as int + 1)));
            }
            r
        },
        None => {
            proof {
                lemma_first_space_absent(s@);
            }
            let mut r: Vec<String> = Vec::new();
            r.push(String::from_str(s));
            proof {
                assert(r@.map_values(|t: String| t@) =~= seq![s@]);
            }
            r
        },
    }
}

/// The ignore heap keeps its sequence numbers in ascending order, smallest
/// first.
pub open spec fn sorted_u16(s: Seq<u16>) -> bool {
    forall|i: int, j: int| 0 <= i < j < s.len() ==> s[i] <= s[j]
}

/// The window-manager core: the registry, the layout engine, the resolved
/// bindings, the drag and resize sessions, the sequence-ignore heap, and the
/// mirrors of the root properties the manager maintains.
pub struct WM {
    pub screen_width: u16,
    pub screen_height: u16,
    pub root: u32,
    pub atoms: Atoms,
    pub config: Config,
    pub windows: Windows,
    pub layout_manager: LayoutManager,
    pub key_mapping: Vec<(KeyMapping, WMCommand)>,
    pub button_mapping: Vec<(ButtonMapping, WMCommand)>,
    pub sequences_to_ignore: Vec<u16>,
    pub pending_expose: Vec<u32>,
    pub drag_window: Option<(u32, (i16, i16))>,
    pub resize_window: Option<(u32, ((u16, u16), (i16, i16)))>,
    pub pointer_grabbed: bool,
    pub last_timestamp: u32,
    /// The value last written to the root's `_NET_CLIENT_LIST`.
    pub client_list: Vec<u32>,
    /// The value last written to the root's `_NET_ACTIVE_WINDOW`.
    pub active_window: Option<u32>,
}

impl WM {
    /// The invariants the core maintains across every event: a well-formed
    /// registry, at most one fullscreen window, the root-property mirrors in
    /// step with it, the reserved edges the maximum over the present docks,
    /// never a drag and a resize session at once, and an ordered ignore
    /// heap.
    pub open spec fn wf(&self) -> bool {
        &&& self.windows.wf()
        &&& at_most_one_fullscreen(self.windows.managed_seq())
        &&& self.atoms.net_client_list != self.atoms.net_active_window
        &&& self.atoms.net_client_list != self.atoms.net_frame_extents
        &&& self.client_list@ == keys_of(self.windows.managed_seq())
        &&& self.active_window == self.windows.spec_focus()
        &&& reserved_matches(self.layout_manager.reserved, self.windows.unmanaged_seq())
        &&& !(self.drag_window is Some && self.resize_window is Some)
        &&& sorted_u16(self.sequences_to_ignore@)
    }

    pub fn new(screen_width: u16, screen_height: u16, root: u32, atoms: Atoms, config: Config) -> (wm: WM)
        requires
            atoms.net_client_list != atoms.net_active_window,
            atoms.net_client_list != atoms.net_frame_extents,
        ensures
            wm.wf(),
            wm.screen_width == screen_width,
            wm.screen_height == screen_height,
            wm.root == root,
            wm.atoms == atoms,
            wm.config == config,
            wm.windows.managed_seq() == Seq::<(u32, WindowState)>::empty(),
            wm.windows.unmanaged_seq() == Seq::<WindowState>::empty(),
            wm.windows.spec_focus() is None,
            wm.layout_manager.layout == Layout::Tiled(TiledLayout::MainStack),
            wm.layout_manager.reserved == ReservedEdges::spec_default(),
            wm.sequences_to_ignore@ == Seq::<u16>::empty(),
            wm.pending_expose@ == Seq::<u32>::empty(),
            wm.drag_window is None,
            wm.resize_window is None,
            !wm.pointer_grabbed,
            wm.client_list@ == Seq::<u32>::empty(),
            wm.active_window is None,
            wm.key_mapping@ == Seq::<(KeyMapping, WMCommand)>::empty(),
            wm.button_mapping@ == Seq::<(ButtonMapping, WMCommand)>::empty(),
    {
        let wm = WM {
            screen_width,
            screen_height,
            root,
            atoms,
            config,
            windows: Windows::new(),
            layout_manager: LayoutManager {
                layout: Layout::Tiled(TiledLayout::MainStack),
                reserved: ReservedEdges::default(),
            },
            key_mapping: Vec::new(),
            button_mapping: Vec::new(),
            sequences_to_ignore: Vec::new(),
            pending_expose: Vec::new(),
            drag_window: None,
            resize_window: None,
            pointer_grabbed: false,
            last_timestamp: 0,
            client_list: Vec::new(),
            active_window: None,
        };
        proof {
            assert(keys_of(wm.windows.managed_seq()) =~= Seq::<u32>::empty());
        }
        wm
    }

    /// Records the sequence number of a request whose echo events must be
    /// suppressed, keeping the heap ordered.
    pub fn record_ignore_sequence(&mut self, seq_no: u16)
        requires
            old(self).wf(),
        ensures
            final(self).wf(),
            exists|i: int|
                0 <= i <= old(self).sequences_to_ignore@.len()
                    && final(self).sequences_to_ignore@ == #[trigger] old(
                    self,
                ).sequences_to_ignore@.insert(i, seq_no),
            *final(self) == (WM { sequences_to_ignore: final(self).sequences_to_ignore, ..*old(self) }),
    {
        let ghost s = self.sequences_to_ignore@;
        let mut i: usize = 0;
        while i < self.sequences_to_ignore.len() && self.sequences_to_ignore[i] <= seq_no
            invariant
                *self == *old(self),
                s == self.sequences_to_ignore@,
                0 <= i <= s.len(),
                forall|j: int| 0 <= j < i ==> (#[trigger] s[j]) <= seq_no,
            decreases s.len() - i,
        {
            i += 1;
        }
        proof {
            s.insert_ensures(i as int, seq_no);
        }
        self.sequences_to_ignore.insert(i, seq_no);
        proof {
            let s2 = self.sequences_to_ignore@;
            assert(s2 == s.insert(i as int, seq_no));
            assert forall|a: int, b: int| 0 <= a < b < s2.len() implies (#[trigger] s2[a]) <= (
            #[trigger] s2[b]) by {
                let wi = i as int;
                if a < wi && b == wi {
                } else if a == wi && b > wi {
                    assert(s2[b] == s[b - 1]);
                    assert(s[b - 1] > seq_no || s[b - 1] >= s[wi]);
                    if b - 1 == wi {
                        assert(s[wi] > seq_no);
                    } else {
                        assert(s[wi] <= s[b - 1]);
                        assert(s[wi] > seq_no);
                    }
                } else if a < wi && b > wi {
                    assert(s2[a] == s[a] && s2[b] == s[b - 1]);
                } else if a > wi && b > wi {
                    assert(s2[a] == s[a - 1] && s2[b] == s[b - 1]);
                } else if a < wi && b < wi {
                    assert(s2[a] == s[a] && s2[b] == s[b]);
                }
            }
        }
    }
}

} // verus!
