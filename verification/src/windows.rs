use vstd::prelude::*;

use crate::WindowState;

verus! {

/// A server-issued window handle.
pub type WindowHandle = u32;

#[verifier::external_type_specification]
#[verifier::external_body]
#[verifier::reject_recursive_types(K)]
#[verifier::reject_recursive_types(V)]
#[verifier::reject_recursive_types(S)]
pub struct ExIndexMap<K, V, S>(indexmap::IndexMap<K, V, S>);

/// The key-value pairs an insertion-ordered window map holds, in order.
pub uninterp spec fn window_map_entries(m: indexmap::IndexMap<u32, WindowState>) -> Seq<
    (u32, WindowState),
>;

/// Relies on indexmap::IndexMap::new: a freshly created map holds nothing.
#[verifier::external_body]
fn map_new() -> (m: indexmap::IndexMap<u32, WindowState>)
    ensures
        window_map_entries(m) == Seq::<(u32, WindowState)>::empty(),
{
    indexmap::IndexMap::new()
}

/// Relies on indexmap::IndexMap::iter: it yields the key-value pairs in
/// their insertion order.
#[verifier::external_body]
fn map_entries(m: &indexmap::IndexMap<u32, WindowState>) -> (r: Vec<(u32, WindowState)>)
    ensures
        r@ == window_map_entries(*m),
{
    m.iter().map(|(k, v)| (*k, *v)).collect()
}

/// Relies on indexmap::IndexMap::insert: a key already present keeps its
/// place in the order and only its value is replaced, the old value being
/// returned; a fresh key is appended last and `None` is returned.
#[verifier::external_body]
fn map_insert(m: &mut indexmap::IndexMap<u32, WindowState>, key: u32, value: WindowState) -> (r:
    Option<WindowState>)
    ensures
        ({
            let s = window_map_entries(*old(m));
            let s2 = window_map_entries(*final(m));
            if has_key(s, key) {
                s2 == s.update(key_index(s, key), (key, value)) && r == Some(
                    s[key_index(s, key)].1,
                )
            } else {
                s2 == s.push((key, value)) && r == None::<WindowState>
            }
        }),
{
    m.insert(key, value)
}

/// Relies on indexmap::IndexMap::shift_remove_entry: the pair of the key is
/// removed and returned, the pairs after it shifting down with their order
/// kept; an absent key changes nothing.
#[verifier::external_body]
fn map_shift_remove(m: &mut indexmap::IndexMap<u32, WindowState>, key: u32) -> (r: Option<
    (u32, WindowState),
>)
    ensures
        ({
            let s = window_map_entries(*old(m));
            let s2 = window_map_entries(*final(m));
            if has_key(s, key) {
                s2 == s.remove(key_index(s, key)) && r == Some(s[key_index(s, key)])
            } else {
                s2 == s && r == None::<(u32, WindowState)>
            }
        }),
{
    m.shift_remove_entry(&key)
}

/// Relies on indexmap::IndexMap::move_index: the pair at `from` ends up at
/// index `to` and the other pairs keep their relative order.
#[verifier::external_body]
fn map_move_index(m: &mut indexmap::IndexMap<u32, WindowState>, from: usize, to: usize)
    requires
        from < window_map_entries(*old(m)).len(),
        to < window_map_entries(*old(m)).len(),
    ensures
        ({
            let s = window_map_entries(*old(m));
            window_map_entries(*final(m)) == s.remove(from as int).insert(to as int, s[from as int])
        }),
{
    m.move_index(from, to)
}

/// Relies on indexmap::IndexMap::swap_indices: the pairs at the two indices
/// exchange places and nothing else moves.
#[verifier::external_body]
fn map_swap_indices(m: &mut indexmap::IndexMap<u32, WindowState>, a: usize, b: usize)
    requires
        a < window_map_entries(*old(m)).len(),
        b < window_map_entries(*old(m)).len(),
    ensures
        ({
            let s = window_map_entries(*old(m));
            window_map_entries(*final(m)) == s.update(a as int, s[b as int]).update(
                b as int,
                s[a as int],
            )
        }),
{
    m.swap_indices(a, b)
}

/// The handles of an entry list, in order.
pub open spec fn keys_of(s: Seq<(u32, WindowState)>) -> Seq<u32> {
    s.map_values(|p: (u32, WindowState)| p.0)
}

/// The window records of an entry list, in order.
pub open spec fn vals_of(s: Seq<(u32, WindowState)>) -> Seq<WindowState> {
    s.map_values(|p: (u32, WindowState)| p.1)
}

pub open spec fn has_key(s: Seq<(u32, WindowState)>, k: u32) -> bool {
    exists|i: int| 0 <= i < s.len() && (#[trigger] s[i]).0 == k
}

/// The index of the entry with handle `k`; meaningful only when the handle
/// is present and the handles are distinct.
pub open spec fn key_index(s: Seq<(u32, WindowState)>, k: u32) -> int {
    choose|i: int| 0 <= i < s.len() && (#[trigger] s[i]).0 == k
}

/// The record stored under handle `k`.
pub open spec fn value_at(s: Seq<(u32, WindowState)>, k: u32) -> WindowState {
    s[key_index(s, k)].1
}

pub open spec fn keys_distinct(s: Seq<(u32, WindowState)>) -> bool {
    forall|i: int, j: int|
        0 <= i < j < s.len() ==> (#[trigger] s[i]).0 != (#[trigger] s[j]).0
}

/// Every record is stored under its own window handle.
pub open spec fn entry_keys_match(s: Seq<(u32, WindowState)>) -> bool {
    forall|i: int| 0 <= i < s.len() ==> (#[trigger] s[i]).1.window == s[i].0
}

pub open spec fn handles_distinct(s: Seq<WindowState>) -> bool {
    forall|i: int, j: int|
        0 <= i < j < s.len() ==> (#[trigger] s[i]).window != (#[trigger] s[j]).window
}

pub open spec fn unmanaged_has(s: Seq<WindowState>, h: u32) -> bool {
    exists|i: int| 0 <= i < s.len() && (#[trigger] s[i]).window == h
}

/// The index of the unmanaged record with handle `h`.
pub open spec fn uw_index(s: Seq<WindowState>, h: u32) -> int {
    choose|i: int| 0 <= i < s.len() && (#[trigger] s[i]).window == h
}

/// The floating windows of a list, in order.
pub open spec fn spec_floating(s: Seq<WindowState>) -> Seq<WindowState>
    decreases s.len(),
{
    if s.len() == 0 {
        Seq::empty()
    } else {
        let rest = spec_floating(s.drop_last());
        if s.last().is_floating {
            rest.push(s.last())
        } else {
            rest
        }
    }
}

/// The authoritative registry: the insertion-ordered map of managed windows,
/// the unmanaged (dock and desktop) windows, and the focus pointers.
pub struct Windows {
    managed: indexmap::IndexMap<u32, WindowState>,
    unmanaged_windows: Vec<WindowState>,
    focus: Option<WindowHandle>,
    previous_focus: Option<WindowHandle>,
}

impl Windows {
    pub closed spec fn managed_seq(&self) -> Seq<(u32, WindowState)> {
        window_map_entries(self.managed)
    }

    pub closed spec fn unmanaged_seq(&self) -> Seq<WindowState> {
        self.unmanaged_windows@
    }

    pub closed spec fn spec_focus(&self) -> Option<WindowHandle> {
        self.focus
    }

    pub closed spec fn spec_previous_focus(&self) -> Option<WindowHandle> {
        self.previous_focus
    }

    /// Registry well-formedness: a handle appears at most once across the
    /// managed and unmanaged windows, records sit under their own handle,
    /// and the focus (when set) names a managed window.
    pub open spec fn wf(&self) -> bool {
        &&& keys_distinct(self.managed_seq())
        &&& entry_keys_match(self.managed_seq())
        &&& handles_distinct(self.unmanaged_seq())
        &&& (forall|i: int|
            0 <= i < self.unmanaged_seq().len() ==> !has_key(
                self.managed_seq(),
                (#[trigger] self.unmanaged_seq()[i]).window,
            ))
        &&& match self.spec_focus() {
            Some(f) => has_key(self.managed_seq(), f),
            None => true,
        }
    }

    pub fn new() -> (w: Windows)
        ensures
            w.managed_seq() == Seq::<(u32, WindowState)>::empty(),
            w.unmanaged_seq() == Seq::<WindowState>::empty(),
            w.spec_focus() is None,
            w.spec_previous_focus() is None,
            w.wf(),
    {
        let w = Windows {
            managed: map_new(),
            unmanaged_windows: Vec::new(),
            focus: None,
            previous_focus: None,
        };
        w
    }

    pub fn get_window(&self, window_handle: WindowHandle) -> (r: Option<WindowState>)
        requires
            self.wf(),
        ensures
            match r {
                Some(v) => has_key(self.managed_seq(), window_handle) && v == value_at(
                    self.managed_seq(),
                    window_handle,
                ),
                None => !has_key(self.managed_seq(), window_handle),
            },
    {
        let entries = map_entries(&self.managed);
        let ghost s = self.managed_seq();
        let mut i: usize = 0;
        while i < entries.len()
            invariant
                entries@ == s,
                s == self.managed_seq(),
                self.wf(),
                0 <= i <= s.len(),
                forall|j: int| 0 <= j < i ==> (#[trigger] s[j]).0 != window_handle,
            decreases s.len() - i,
        {
            if entries[i].0 == window_handle {
                proof {
                    assert(s[i as int].0 == window_handle);
                    assert(has_key(s, window_handle));
                    let j = key_index(s, window_handle);
                    assert(0 <= j < s.len() && s[j].0 == window_handle);
                    assert(keys_distinct(s));
                    let wi = i as int;
                    if j < wi {
                        assert(s[j].0 != s[wi].0);
                    } else if j > wi {
                        assert(s[wi].0 != s[j].0);
                    }
                    assert(j == wi);
                }
                return Some(entries[i].1);
            }
            i += 1;
        }
        None
    }

    /// The position of a handle in the managed order, if it is managed.
    pub fn get_index_of(&self, window_handle: WindowHandle) -> (r: Option<usize>)
        requires
            self.wf(),
        ensures
            match r {
                Some(i) => has_key(self.managed_seq(), window_handle) && i == key_index(
                    self.managed_seq(),
                    window_handle,
                ),
                None => !has_key(self.managed_seq(), window_handle),
            },
    {
        let entries = map_entries(&self.managed);
        let ghost s = self.managed_seq();
        let mut i: usize = 0;
        while i < entries.len()
            invariant
                entries@ == s,
                s == self.managed_seq(),
                self.wf(),
                0 <= i <= s.len(),
                forall|j: int| 0 <= j < i ==> (#[trigger] s[j]).0 != window_handle,
            decreases s.len() - i,
        {
            if entries[i].0 == window_handle {
                proof {
                    assert(s[i as int].0 == window_handle);
                    assert(has_key(s, window_handle));
                    let j = key_index(s, window_handle);
                    assert(0 <= j < s.len() && s[j].0 == window_handle);
                    assert(keys_distinct(s));
                    let wi = i as int;
                    if j < wi {
                        assert(s[j].0 != s[wi].0);
                    } else if j > wi {
                        assert(s[wi].0 != s[j].0);
                    }
                    assert(j == wi);
                }
                return Some(i);
            }
            i += 1;
        }
        None
    }

    /// Inserts or replaces the record of `window_handle`: a managed handle
    /// keeps its place and gets the new record, a fresh one is appended.
    pub fn add_window(&mut self, window_handle: WindowHandle, win_state: WindowState)
        requires
            old(self).wf(),
            win_state.window == window_handle,
            !unmanaged_has(old(self).unmanaged_seq(), window_handle),
        ensures
            final(self).wf(),
            final(self).managed_seq() == (if has_key(old(self).managed_seq(), window_handle) {
                old(self).managed_seq().update(
                    key_index(old(self).managed_seq(), window_handle),
                    (window_handle, win_state),
                )
            } else {
                old(self).managed_seq().push((window_handle, win_state))
            }),
            final(self).unmanaged_seq() == old(self).unmanaged_seq(),
            final(self).spec_focus() == old(self).spec_focus(),
            final(self).spec_previous_focus() == old(self).spec_previous_focus(),
    {
        let ghost s = self.managed_seq();
        let _ = map_insert(&mut self.managed, window_handle, win_state);
        proof {
            let s2 = self.managed_seq();
            if has_key(s, window_handle) {
                let i = key_index(s, window_handle);
                assert(s[i].0 == window_handle);
                assert forall|a: int, b: int| 0 <= a < b < s2.len() implies (
                #[trigger] s2[a]).0 != (#[trigger] s2[b]).0 by {
                    assert(s2[a].0 == s[a].0 && s2[b].0 == s[b].0);
                }
                assert forall|a: int|
                    0 <= a < s2.len() implies (#[trigger] s2[a]).1.window == s2[a].0 by {
                    if a != i {
                        assert(s2[a] == s[a]);
                    }
                }
                assert forall|a: int| 0 <= a < s2.len() implies (#[trigger] s2[a]).0 == s[a].0 by {
                    if a != i {
                        assert(s2[a] == s[a]);
                    }
                }
                assert forall|a: int|
                    0 <= a < self.unmanaged_seq().len() implies !has_key(
                    s2,
                    (#[trigger] self.unmanaged_seq()[a]).window,
                ) by {
                    let h = self.unmanaged_seq()[a].window;
                    assert(!has_key(s, h));
                    if has_key(s2, h) {
                        let j = key_index(s2, h);
                        assert(s2[j].0 == h);
                        assert(s[j].0 == h);
                    }
                }
                match self.spec_focus() {
                    Some(f) => {
                        let j = key_index(s, f);
                        assert(s2[j].0 == s[j].0);
                    },
                    None => {},
                }
            } else {
                assert forall|a: int, b: int| 0 <= a < b < s2.len() implies (
                #[trigger] s2[a]).0 != (#[trigger] s2[b]).0 by {
                    if b < s.len() {
                        assert(s2[a] == s[a] && s2[b] == s[b]);
                    } else {
                        assert(s2[b].0 == window_handle);
                        assert(s2[a] == s[a]);
                        assert(!has_key(s, window_handle));
                    }
                }
                assert forall|a: int|
                    0 <= a < self.unmanaged_seq().len() implies !has_key(
                    s2,
                    (#[trigger] self.unmanaged_seq()[a]).window,
                ) by {
                    let h = self.unmanaged_seq()[a].window;
                    assert(!has_key(s, h));
                    assert(h != window_handle);
                    if has_key(s2, h) {
                        let j = key_index(s2, h);
                        assert(s2[j].0 == h);
                        assert(j < s.len() && s[j].0 == h);
                    }
                }
                match self.spec_focus() {
                    Some(f) => {
                        let j = key_index(s, f);
                        assert(s2[j].0 == s[j].0);
                    },
                    None => {},
                }
            }
        }
    }

    /// Appends a dock or desktop window to the unmanaged list.
    pub fn add_unmanaged_window(&mut self, win_state: WindowState)
        requires
            old(self).wf(),
            !has_key(old(self).managed_seq(), win_state.window),
            !unmanaged_has(old(self).unmanaged_seq(), win_state.window),
        ensures
            final(self).wf(),
            final(self).unmanaged_seq() == old(self).unmanaged_seq().push(win_state),
            final(self).managed_seq() == old(self).managed_seq(),
            final(self).spec_focus() == old(self).spec_focus(),
            final(self).spec_previous_focus() == old(self).spec_previous_focus(),
    {
        self.unmanaged_windows.push(win_state);
        proof {
            let u = old(self).unmanaged_seq();
            let u2 = self.unmanaged_seq();
            assert forall|i: int, j: int| 0 <= i < j < u2.len() implies (
            #[trigger] u2[i]).window != (#[trigger] u2[j]).window by {
                if j < u.len() {
                    assert(u2[i] == u[i] && u2[j] == u[j]);
                } else {
                    assert(u2[j] == win_state && u2[i] == u[i]);
                    assert(!unmanaged_has(u, win_state.window));
                }
            }
        }
    }

    /// Removes a managed window, shifting the ones after it down, and moves
    /// the focus to the next window in insertion order, wrapping around; the
    /// previous focus becomes the old focus. Returns the removed entry.
    pub fn remove_window(&mut self, window_handle: WindowHandle) -> (r: Option<
        (WindowHandle, WindowState),
    >)
        requires
            old(self).wf(),
        ensures
            final(self).wf(),
            !has_key(old(self).managed_seq(), window_handle) ==> r is None && *final(self) == *old(
                self,
            ),
            has_key(old(self).managed_seq(), window_handle) ==> ({
                let s = old(self).managed_seq();
                let i = key_index(s, window_handle);
                let s2 = s.remove(i);
                &&& r == Some(s[i])
                &&& final(self).managed_seq() == s2
                &&& final(self).unmanaged_seq() == old(self).unmanaged_seq()
                &&& final(self).spec_previous_focus() == old(self).spec_focus()
                &&& final(self).spec_focus() == (if s2.len() == 0 {
                    None::<WindowHandle>
                } else {
                    Some(s2[i % s2.len() as int].0)
                })
            }),
    {
        let ghost s = self.managed_seq();
        let index = match self.get_index_of(window_handle) {
            Some(i) => i,
            None => {
                return None;
            },
        };
        let entries = map_entries(&self.managed);
        proof {
            s.remove_ensures(index as int);
        }
        let removed = map_shift_remove(&mut self.managed, window_handle);
        let ghost s2 = self.managed_seq();
        self.previous_focus = self.focus;
        if entries.len() <= 1 {
            self.focus = None;
        } else {
            let j = index % (entries.len() - 1);
            let next = if j < index {
                entries[j].0
            } else {
                entries[j + 1].0
            };
            self.focus = Some(next);
            proof {
                assert(s2[j as int].0 == next);
                assert(has_key(s2, next));
            }
        }
        proof {
            let i = index as int;
            assert forall|a: int, b: int| 0 <= a < b < s2.len() implies (
            #[trigger] s2[a]).0 != (#[trigger] s2[b]).0 by {
                let pa = if a < i {
                    a
                } else {
                    a + 1
                };
                let pb = if b < i {
                    b
                } else {
                    b + 1
                };
                assert(s2[a] == s[pa] && s2[b] == s[pb]);
            }
            assert forall|a: int| 0 <= a < s2.len() implies (#[trigger] s2[a]).1.window
                == s2[a].0 by {
                let pa = if a < i {
                    a
                } else {
                    a + 1
                };
                assert(s2[a] == s[pa]);
            }
            assert forall|a: int|
                0 <= a < self.unmanaged_seq().len() implies !has_key(
                s2,
                (#[trigger] self.unmanaged_seq()[a]).window,
            ) by {
                let h = self.unmanaged_seq()[a].window;
                assert(!has_key(s, h));
                if has_key(s2, h) {
                    let j = key_index(s2, h);
                    assert(s2[j].0 == h);
                    let pj = if j < i {
                        j
                    } else {
                        j + 1
                    };
                    assert(s[pj].0 == h);
                }
            }
        }
        removed
    }

    /// Removes the unmanaged window with the given handle, keeping the order
    /// of the rest; returns the removed record.
    pub fn remove_unmanaged_window(&mut self, window_handle: WindowHandle) -> (r: Option<
        WindowState,
    >)
        requires
            old(self).wf(),
        ensures
            final(self).wf(),
            !unmanaged_has(old(self).unmanaged_seq(), window_handle) ==> r is None && *final(self)
                == *old(self),
            unmanaged_has(old(self).unmanaged_seq(), window_handle) ==> ({
                let u = old(self).unmanaged_seq();
                let i = uw_index(u, window_handle);
                &&& r == Some(u[i])
                &&& final(self).unmanaged_seq() == u.remove(i)
                &&& final(self).managed_seq() == old(self).managed_seq()
                &&& final(self).spec_focus() == old(self).spec_focus()
                &&& final(self).spec_previous_focus() == old(self).spec_previous_focus()
            }),
    {
        let ghost u = self.unmanaged_seq();
        let mut i: usize = 0;
        while i < self.unmanaged_windows.len()
            invariant
                *self == *old(self),
                u == self.unmanaged_seq(),
                old(self).wf(),
                0 <= i <= u.len(),
                forall|j: int| 0 <= j < i ==> (#[trigger] u[j]).window != window_handle,
            decreases u.len() - i,
        {
            if self.unmanaged_windows[i].window == window_handle {
                proof {
                    assert(u[uw_index(u, window_handle)].window == window_handle);
                    assert(uw_index(u, window_handle) == i as int);
                    u.remove_ensures(i as int);
                }
                let removed = self.unmanaged_windows.remove(i);
                proof {
                    let u2 = self.unmanaged_seq();
                    assert forall|a: int, b: int| 0 <= a < b < u2.len() implies (
                    #[trigger] u2[a]).window != (#[trigger] u2[b]).window by {
                        let pa = if a < i as int {
                            a
                        } else {
                            a + 1
                        };
                        let pb = if b < i as int {
                            b
                        } else {
                            b + 1
                        };
                        assert(u2[a] == u[pa] && u2[b] == u[pb]);
                    }
                    assert forall|a: int|
                        0 <= a < u2.len() implies !has_key(
                        self.managed_seq(),
                        (#[trigger] u2[a]).window,
                    ) by {
                        let pa = if a < i as int {
                            a
                        } else {
                            a + 1
                        };
                        assert(u2[a] == u[pa]);
                    }
                }
                return Some(removed);
            }
            i += 1;
        }
        None
    }

    /// The window after the given one in insertion order, wrapping around at
    /// the end; `None` when the handle is not managed.
    pub fn next_window(&self, window_handle: WindowHandle) -> (r: Option<(WindowHandle, WindowState)>)
        requires
            self.wf(),
        ensures
            match r {
                Some(p) => ({
                    let s = self.managed_seq();
                    has_key(s, window_handle) && p == s[(key_index(s, window_handle) + 1) % (
                    s.len() as int)]
                }),
                None => !has_key(self.managed_seq(), window_handle),
            },
    {
        let index = match self.get_index_of(window_handle) {
            Some(i) => i,
            None => {
                return None;
            },
        };
        let entries = map_entries(&self.managed);
        proof {
            let s = self.managed_seq();
            let j = key_index(s, window_handle);
            assert(0 <= j < s.len() && s[j].0 == window_handle);
            assert(entries@.len() > 0);
            assert(index < entries@.len());
        }
        let next_index = (index + 1) % entries.len();
        Some(entries[next_index])
    }

    /// Focuses the given window, remembering the old focus; returns the
    /// record of the previously focused window. Fails when the handle is
    /// not managed, leaving the registry unchanged.
    pub fn focus_window(&mut self, window_handle: WindowHandle) -> (r: Result<
        Option<WindowState>,
        WindowError,
    >)
        requires
            old(self).wf(),
        ensures
            final(self).wf(),
            !has_key(old(self).managed_seq(), window_handle) ==> r == Err::<
                Option<WindowState>,
                WindowError,
            >(WindowError::InvalidWindowFocus) && *final(self) == *old(self),
            has_key(old(self).managed_seq(), window_handle) ==> ({
                &&& final(self).managed_seq() == old(self).managed_seq()
                &&& final(self).unmanaged_seq() == old(self).unmanaged_seq()
                &&& final(self).spec_focus() == Some(window_handle)
                &&& final(self).spec_previous_focus() == old(self).spec_focus()
                &&& r == Ok::<Option<WindowState>, WindowError>(
                    match old(self).spec_focus() {
                        Some(p) => Some(value_at(old(self).managed_seq(), p)),
                        None => None,
                    },
                )
            }),
    {
        let present = self.get_window(window_handle);
        if present.is_none() {
            return Err(WindowError::InvalidWindowFocus);
        }
        self.previous_focus = self.focus;
        self.focus = Some(window_handle);
        match self.previous_focus {
            Some(p) => Ok(self.get_window(p)),
            None => Ok(None),
        }
    }

    /// Clears the focus, remembering it as the previous focus.
    pub fn unfocus(&mut self)
        requires
            old(self).wf(),
        ensures
            final(self).wf(),
            final(self).managed_seq() == old(self).managed_seq(),
            final(self).unmanaged_seq() == old(self).unmanaged_seq(),
            final(self).spec_focus() is None,
            final(self).spec_previous_focus() == old(self).spec_focus(),
    {
        self.previous_focus = self.focus;
        self.focus = None;
    }

    /// Swaps the order of two managed windows; does nothing when one or the
    /// other is absent.
    pub fn swap_windows(&mut self, first_window: WindowHandle, second_window: WindowHandle)
        requires
            old(self).wf(),
        ensures
            final(self).wf(),
            final(self).unmanaged_seq() == old(self).unmanaged_seq(),
            final(self).spec_focus() == old(self).spec_focus(),
            final(self).spec_previous_focus() == old(self).spec_previous_focus(),
            ({
                let s = old(self).managed_seq();
                if has_key(s, first_window) && has_key(s, second_window) {
                    let a = key_index(s, first_window);
                    let b = key_index(s, second_window);
                    final(self).managed_seq() == s.update(a, s[b]).update(b, s[a])
                } else {
                    final(self).managed_seq() == s
                }
            }),
    {
        let ghost s = self.managed_seq();
        let first = match self.get_index_of(first_window) {
            Some(i) => i,
            None => {
                return ;
            },
        };
        let second = match self.get_index_of(second_window) {
            Some(i) => i,
            None => {
                return ;
            },
        };
        map_swap_indices(&mut self.managed, first, second);
        proof {
            let a = first as int;
            let b = second as int;
            let s2 = self.managed_seq();
            assert forall|i: int, j: int| 0 <= i < j < s2.len() implies (
            #[trigger] s2[i]).0 != (#[trigger] s2[j]).0 by {
                let pi = if i == a {
                    b
                } else if i == b {
                    a
                } else {
                    i
                };
                let pj = if j == a {
                    b
                } else if j == b {
                    a
                } else {
                    j
                };
                assert(s2[i] == s[pi] && s2[j] == s[pj]);
            }
            assert forall|i: int| 0 <= i < s2.len() implies (#[trigger] s2[i]).1.window
                == s2[i].0 by {
                let pi = if i == a {
                    b
                } else if i == b {
                    a
                } else {
                    i
                };
                assert(s2[i] == s[pi]);
            }
            assert forall|i: int|
                0 <= i < self.unmanaged_seq().len() implies !has_key(
                s2,
                (#[trigger] self.unmanaged_seq()[i]).window,
            ) by {
                let h = self.unmanaged_seq()[i].window;
                if has_key(s2, h) {
                    let j = key_index(s2, h);
                    let pj = if j == a {
                        b
                    } else if j == b {
                        a
                    } else {
                        j
                    };
                    assert(s2[j] == s[pj]);
                    assert(s[pj].0 == h);
                }
            }
            match self.spec_focus() {
                Some(f) => {
                    let j = key_index(s, f);
                    let qj = if j == a {
                        b
                    } else if j == b {
                        a
                    } else {
                        j
                    };
                    assert(s2[qj] == s[j]);
                },
                None => {},
            }
        }
    }

    /// Moves the given managed window to the front of the order, keeping the
    /// relative order of the rest; does nothing when it is absent.
    pub fn move_to_top(&mut self, window_handle: WindowHandle)
        requires
            old(self).wf(),
        ensures
            final(self).wf(),
            final(self).unmanaged_seq() == old(self).unmanaged_seq(),
            final(self).spec_focus() == old(self).spec_focus(),
            final(self).spec_previous_focus() == old(self).spec_previous_focus(),
            ({
                let s = old(self).managed_seq();
                if has_key(s, window_handle) {
                    let i = key_index(s, window_handle);
                    final(self).managed_seq() == s.remove(i).insert(0, s[i])
                } else {
                    final(self).managed_seq() == s
                }
            }),
    {
        let ghost s = self.managed_seq();
        let index = match self.get_index_of(window_handle) {
            Some(i) => i,
            None => {
                return ;
            },
        };
        if index == 0 {
            proof {
                assert(s.remove(0).insert(0, s[0]) =~= s);
            }
            return ;
        }
        proof {
            s.remove_ensures(index as int);
            s.remove(index as int).insert_ensures(0, s[index as int]);
        }
        map_move_index(&mut self.managed, index, 0);
        proof {
            let i = index as int;
            let s2 = self.managed_seq();
            let sr = s.remove(i);
            assert forall|a: int, b: int| 0 <= a < b < s2.len() implies (
            #[trigger] s2[a]).0 != (#[trigger] s2[b]).0 by {
                let pa = if a == 0 {
                    i
                } else if a <= i {
                    a - 1
                } else {
                    a
                };
                let pb = if b <= i {
                    b - 1
                } else {
                    b
                };
                assert(s2[a] == s[pa] && s2[b] == s[pb]);
            }
            assert forall|a: int| 0 <= a < s2.len() implies (#[trigger] s2[a]).1.window
                == s2[a].0 by {
                let pa = if a == 0 {
                    i
                } else if a <= i {
                    a - 1
                } else {
                    a
                };
                assert(s2[a] == s[pa]);
            }
            assert forall|a: int|
                0 <= a < self.unmanaged_seq().len() implies !has_key(
                s2,
                (#[trigger] self.unmanaged_seq()[a]).window,
            ) by {
                let h = self.unmanaged_seq()[a].window;
                if has_key(s2, h) {
                    let j = key_index(s2, h);
                    let pj = if j == 0 {
                        i
                    } else if j <= i {
                        j - 1
                    } else {
                        j
                    };
                    assert(s2[j] == s[pj]);
                    assert(s[pj].0 == h);
                }
            }
            match self.spec_focus() {
                Some(f) => {
                    let j = key_index(s, f);
                    let qj = if j == i {
                        0
                    } else if j < i {
                        j + 1
                    } else {
                        j
                    };
                    assert(s2[qj] == s[j]);
                },
                None => {},
            }
        }
    }

    /// Whether an unmanaged window with this handle is tracked.
    pub fn has_unmanaged(&self, window_handle: WindowHandle) -> (r: bool)
        ensures
            r == unmanaged_has(self.unmanaged_seq(), window_handle),
    {
        let ghost u = self.unmanaged_seq();
        let mut i: usize = 0;
        while i < self.unmanaged_windows.len()
            invariant
                u == self.unmanaged_seq(),
                0 <= i <= u.len(),
                forall|j: int| 0 <= j < i ==> (#[trigger] u[j]).window != window_handle,
            decreases u.len() - i,
        {
            if self.unmanaged_windows[i].window == window_handle {
                proof {
                    assert(u[i as int].window == window_handle);
                }
                return true;
            }
            i += 1;
        }
        false
    }

    /// The handle of the focused window, if any.
    pub fn focus_handle(&self) -> (r: Option<WindowHandle>)
        ensures
            r == self.spec_focus(),
    {
        self.focus
    }

    /// The handle of the previously focused window, if any.
    pub fn previous_focus_handle(&self) -> (r: Option<WindowHandle>)
        ensures
            r == self.spec_previous_focus(),
    {
        self.previous_focus
    }

    /// The record of the focused window, if any.
    pub fn focused(&self) -> (r: Option<WindowState>)
        requires
            self.wf(),
        ensures
            r == (match self.spec_focus() {
                Some(f) => if has_key(self.managed_seq(), f) {
                    Some(value_at(self.managed_seq(), f))
                } else {
                    None
                },
                None => None::<WindowState>,
            }),
    {
        match self.focus {
            Some(f) => self.get_window(f),
            None => None,
        }
    }

    /// The record of the previously focused window, if it is still managed.
    pub fn previos_focus(&self) -> (r: Option<WindowState>)
        requires
            self.wf(),
        ensures
            r == (match self.spec_previous_focus() {
                Some(p) => if has_key(self.managed_seq(), p) {
                    Some(value_at(self.managed_seq(), p))
                } else {
                    None
                },
                None => None::<WindowState>,
            }),
    {
        match self.previous_focus {
            Some(p) => self.get_window(p),
            None => None,
        }
    }

    /// The managed window records, in insertion order.
    pub fn windows(&self) -> (r: Vec<WindowState>)
        ensures
            r@ == vals_of(self.managed_seq()),
    {
        let entries = map_entries(&self.managed);
        let ghost s = self.managed_seq();
        let mut r: Vec<WindowState> = Vec::new();
        let mut i: usize = 0;
        while i < entries.len()
            invariant
                entries@ == s,
                0 <= i <= s.len(),
                r@.len() == i,
                forall|j: int| 0 <= j < i ==> r@[j] == (#[trigger] s[j]).1,
            decreases s.len() - i,
        {
            r.push(entries[i].1);
            i += 1;
        }
        proof {
            assert(r@ =~= vals_of(s));
        }
        r
    }

    /// The unmanaged window records, in order of arrival.
    pub fn unmanaged_windows(&self) -> (r: Vec<WindowState>)
        ensures
            r@ == self.unmanaged_seq(),
    {
        let mut r: Vec<WindowState> = Vec::new();
        let mut i: usize = 0;
        while i < self.unmanaged_windows.len()
            invariant
                0 <= i <= self.unmanaged_seq().len(),
                r@ == self.unmanaged_seq().take(i as int),
            decreases self.unmanaged_seq().len() - i,
        {
            r.push(self.unmanaged_windows[i]);
            proof {
                assert(r@ =~= self.unmanaged_seq().take(i as int + 1));
            }
            i += 1;
        }
        proof {
            assert(self.unmanaged_seq().take(self.unmanaged_seq().len() as int)
                =~= self.unmanaged_seq());
        }
        r
    }

    /// The floating managed windows, in insertion order.
    pub fn floating_windows(&self) -> (r: Vec<WindowState>)
        ensures
            r@ == spec_floating(vals_of(self.managed_seq())),
    {
        let all = self.windows();
        let ghost vs = vals_of(self.managed_seq());
        let mut r: Vec<WindowState> = Vec::new();
        let mut i: usize = 0;
        while i < all.len()
            invariant
                all@ == vs,
                0 <= i <= vs.len(),
                r@ == spec_floating(vs.take(i as int)),
            decreases vs.len() - i,
        {
            proof {
                assert(vs.take(i as int + 1).drop_last() =~= vs.take(i as int));
                assert(vs.take(i as int + 1).last() == vs[i as int]);
            }
            if all[i].is_floating {
                r.push(all[i]);
            }
            i += 1;
        }
        proof {
            assert(vs.take(vs.len() as int) =~= vs);
        }
        r
    }

    /// The handles of the floating managed windows, in insertion order.
    pub fn floating_windows_handles(&self) -> (r: Vec<WindowHandle>)
        ensures
            r@ == spec_floating(vals_of(self.managed_seq())).map_values(
                |w: WindowState| w.window,
            ),
    {
        let floating = self.floating_windows();
        let mut r: Vec<WindowHandle> = Vec::new();
        let ghost fs = spec_floating(vals_of(self.managed_seq()));
        let mut i: usize = 0;
        while i < floating.len()
            invariant
                floating@ == fs,
                0 <= i <= fs.len(),
                r@.len() == i,
                forall|j: int| 0 <= j < i ==> r@[j] == (#[trigger] fs[j]).window,
            decreases fs.len() - i,
        {
            r.push(floating[i].window);
            i += 1;
        }
        proof {
            assert(r@ =~= fs.map_values(|w: WindowState| w.window));
        }
        r
    }

    /// The first managed window whose fullscreen flag is set, with its
    /// handle; `None` when no managed window is fullscreen.
    pub fn get_fullscreen_window(&self) -> (r: Option<(WindowHandle, WindowState)>)
        requires
            self.wf(),
        ensures
            match r {
                Some(p) => ({
                    let s = self.managed_seq();
                    exists|i: int|
                        0 <= i < s.len() && (#[trigger] s[i]) == p
                            && s[i].1.properties.is_fullscreen && (forall|j: int|
                            0 <= j < i ==> !(#[trigger] s[j]).1.properties.is_fullscreen)
                }),
                None => forall|j: int|
                    0 <= j < self.managed_seq().len() ==> !(
                    #[trigger] self.managed_seq()[j]).1.properties.is_fullscreen,
            },
    {
        let entries = map_entries(&self.managed);
        let ghost s = self.managed_seq();
        let mut i: usize = 0;
        while i < entries.len()
            invariant
                entries@ == s,
                s == self.managed_seq(),
                0 <= i <= s.len(),
                forall|j: int| 0 <= j < i ==> !(#[trigger] s[j]).1.properties.is_fullscreen,
            decreases s.len() - i,
        {
            if entries[i].1.properties.is_fullscreen {
                proof {
                    let wi = i as int;
                    assert(0 <= wi < s.len());
                    assert(s[wi] == entries@[wi]);
                    assert(s[wi].1.properties.is_fullscreen);
                    assert(forall|j: int| 0 <= j < wi ==> !(
                    #[trigger] s[j]).1.properties.is_fullscreen);
                    assert(exists|k: int|
                        0 <= k < s.len() && (#[trigger] s[k]) == entries@[wi]
                            && s[k].1.properties.is_fullscreen && (forall|j: int|
                            0 <= j < k ==> !(#[trigger] s[j]).1.properties.is_fullscreen));
                }
                return Some(entries[i]);
            }
            i += 1;
        }
        None
    }
}

/// Updating the entry at the index of a key leaves that key's index alone
/// and stores the new record under it.
pub proof fn lemma_value_at_update(s: Seq<(u32, WindowState)>, i: int, k: u32, v: WindowState)
    requires
        keys_distinct(s),
        0 <= i < s.len(),
        s[i].0 == k,
    ensures
        key_index(s, k) == i,
        has_key(s.update(i, (k, v)), k),
        key_index(s.update(i, (k, v)), k) == i,
        value_at(s.update(i, (k, v)), k) == v,
{
    assert(has_key(s, k));
    let j = key_index(s, k);
    assert(0 <= j < s.len() && s[j].0 == k);
    if j != i {
        assert(s[j].0 != s[i].0);
    }
    let s2 = s.update(i, (k, v));
    assert(s2[i].0 == k);
    assert(has_key(s2, k));
    let j2 = key_index(s2, k);
    assert(0 <= j2 < s2.len() && s2[j2].0 == k);
    if j2 != i {
        assert(s2[j2] == s[j2]);
        assert(s[j2].0 != s[i].0);
    }
}

/// Updating the entry at some other key's index leaves this key's record
/// alone.
pub proof fn lemma_value_at_update_other(
    s: Seq<(u32, WindowState)>,
    i: int,
    k2: u32,
    v: WindowState,
    k: u32,
)
    requires
        keys_distinct(s),
        0 <= i < s.len(),
        s[i].0 == k2,
        k2 != k,
        has_key(s, k),
    ensures
        has_key(s.update(i, (k2, v)), k),
        value_at(s.update(i, (k2, v)), k) == value_at(s, k),
        key_index(s.update(i, (k2, v)), k) == key_index(s, k),
{
    let j = key_index(s, k);
    assert(0 <= j < s.len() && s[j].0 == k);
    assert(j != i);
    let s2 = s.update(i, (k2, v));
    assert(s2[j] == s[j]);
    assert(has_key(s2, k));
    let j2 = key_index(s2, k);
    assert(0 <= j2 < s2.len() && s2[j2].0 == k);
    if j2 != j {
        if j2 == i {
            assert(s2[i].0 == k2);
        } else {
            assert(s2[j2] == s[j2]);
            assert(s[j2].0 != s[j].0);
        }
    }
}

/// Removing the entry at some other key's index leaves this key's record
/// alone.
pub proof fn lemma_value_at_remove(s: Seq<(u32, WindowState)>, i: int, k: u32)
    requires
        keys_distinct(s),
        0 <= i < s.len(),
        s[i].0 != k,
        has_key(s, k),
    ensures
        has_key(s.remove(i), k),
        value_at(s.remove(i), k) == value_at(s, k),
{
    let j = key_index(s, k);
    assert(0 <= j < s.len() && s[j].0 == k);
    assert(j != i);
    s.remove_ensures(i);
    let s2 = s.remove(i);
    let pj = if j < i {
        j
    } else {
        j - 1
    };
    assert(s2[pj] == s[j]);
    assert(has_key(s2, k));
    let j2 = key_index(s2, k);
    assert(0 <= j2 < s2.len() && s2[j2].0 == k);
    if j2 != pj {
        let qj = if j2 < i {
            j2
        } else {
            j2 + 1
        };
        assert(s2[j2] == s[qj]);
        assert(s[qj].0 != s[j].0);
    }
}

/// At most one entry has its fullscreen flag set.
pub open spec fn at_most_one_fullscreen(s: Seq<(u32, WindowState)>) -> bool {
    forall|i: int, j: int|
        0 <= i < j < s.len() ==> !((#[trigger] s[i]).1.properties.is_fullscreen && (
        #[trigger] s[j]).1.properties.is_fullscreen)
}

/// Two distinct-keyed entry lists that hold the same handles with the same
/// flags agree on having at most one fullscreen entry.
pub proof fn lemma_at_most_one_transfer(s1: Seq<(u32, WindowState)>, s2: Seq<(u32, WindowState)>)
    requires
        at_most_one_fullscreen(s1),
        keys_distinct(s1),
        keys_distinct(s2),
        forall|h: u32| has_key(s2, h) ==> has_key(s1, h),
        forall|h: u32|
            has_key(s2, h) ==> (#[trigger] value_at(s2, h)).properties.is_fullscreen == value_at(
                s1,
                h,
            ).properties.is_fullscreen,
    ensures
        at_most_one_fullscreen(s2),
{
    assert forall|i: int, j: int| 0 <= i < j < s2.len() implies !((
    #[trigger] s2[i]).1.properties.is_fullscreen && (
    #[trigger] s2[j]).1.properties.is_fullscreen) by {
        if s2[i].1.properties.is_fullscreen && s2[j].1.properties.is_fullscreen {
            let hi = s2[i].0;
            let hj = s2[j].0;
            assert(has_key(s2, hi) && has_key(s2, hj));
            assert(hi != hj);
            lemma_value_at_of_index(s2, i);
            lemma_value_at_of_index(s2, j);
            assert(value_at(s1, hi).properties.is_fullscreen);
            assert(value_at(s1, hj).properties.is_fullscreen);
            let a = key_index(s1, hi);
            let b = key_index(s1, hj);
            assert(0 <= a < s1.len() && s1[a].0 == hi);
            assert(0 <= b < s1.len() && s1[b].0 == hj);
            assert(a != b);
            if a < b {
                assert(!(s1[a].1.properties.is_fullscreen && s1[b].1.properties.is_fullscreen));
            } else {
                assert(!(s1[b].1.properties.is_fullscreen && s1[a].1.properties.is_fullscreen));
            }
        }
    }
}

/// In a distinct-keyed list, the record under an entry's own key is that
/// entry's record.
pub proof fn lemma_value_at_of_index(s: Seq<(u32, WindowState)>, i: int)
    requires
        keys_distinct(s),
        0 <= i < s.len(),
    ensures
        has_key(s, s[i].0),
        key_index(s, s[i].0) == i,
        value_at(s, s[i].0) == s[i].1,
{
    assert(has_key(s, s[i].0));
    let j = key_index(s, s[i].0);
    assert(0 <= j < s.len() && s[j].0 == s[i].0);
    if j != i {
        if j < i {
            assert(s[j].0 != s[i].0);
        } else {
            assert(s[i].0 != s[j].0);
        }
    }
}

/// Appending an entry without the fullscreen flag keeps at most one.
pub proof fn lemma_at_most_one_push(s: Seq<(u32, WindowState)>, k: u32, v: WindowState)
    requires
        at_most_one_fullscreen(s),
        !v.properties.is_fullscreen,
    ensures
        at_most_one_fullscreen(s.push((k, v))),
{
    let s2 = s.push((k, v));
    assert forall|i: int, j: int| 0 <= i < j < s2.len() implies !((
    #[trigger] s2[i]).1.properties.is_fullscreen && (
    #[trigger] s2[j]).1.properties.is_fullscreen) by {
        if j < s.len() {
            assert(s2[i] == s[i] && s2[j] == s[j]);
        } else {
            assert(s2[j].1 == v);
            assert(s2[i] == s[i]);
        }
    }
}

/// Removing an entry keeps at most one fullscreen entry.
pub proof fn lemma_at_most_one_remove(s: Seq<(u32, WindowState)>, i: int)
    requires
        at_most_one_fullscreen(s),
        0 <= i < s.len(),
    ensures
        at_most_one_fullscreen(s.remove(i)),
{
    s.remove_ensures(i);
    let s2 = s.remove(i);
    assert forall|a: int, b: int| 0 <= a < b < s2.len() implies !((
    #[trigger] s2[a]).1.properties.is_fullscreen && (
    #[trigger] s2[b]).1.properties.is_fullscreen) by {
        let pa = if a < i {
            a
        } else {
            a + 1
        };
        let pb = if b < i {
            b
        } else {
            b + 1
        };
        assert(s2[a] == s[pa] && s2[b] == s[pb]);
    }
}

/// Replacing an entry's record with one that is fullscreen only if the old
/// record was keeps at most one fullscreen entry.
pub proof fn lemma_at_most_one_update(s: Seq<(u32, WindowState)>, i: int, k: u32, v: WindowState)
    requires
        at_most_one_fullscreen(s),
        0 <= i < s.len(),
        v.properties.is_fullscreen ==> s[i].1.properties.is_fullscreen,
    ensures
        at_most_one_fullscreen(s.update(i, (k, v))),
{
    let s2 = s.update(i, (k, v));
    assert forall|a: int, b: int| 0 <= a < b < s2.len() implies !((
    #[trigger] s2[a]).1.properties.is_fullscreen && (
    #[trigger] s2[b]).1.properties.is_fullscreen) by {
        if s2[a].1.properties.is_fullscreen && s2[b].1.properties.is_fullscreen {
            if a != i {
                assert(s2[a] == s[a]);
            }
            if b != i {
                assert(s2[b] == s[b]);
            }
            assert(s[a].1.properties.is_fullscreen && s[b].1.properties.is_fullscreen);
        }
    }
}

/// A managed handle never sits in the unmanaged list.
pub proof fn lemma_managed_not_unmanaged(w: &Windows, h: u32)
    requires
        w.wf(),
        has_key(w.managed_seq(), h),
    ensures
        !unmanaged_has(w.unmanaged_seq(), h),
{
    if unmanaged_has(w.unmanaged_seq(), h) {
        let i = uw_index(w.unmanaged_seq(), h);
        assert(0 <= i < w.unmanaged_seq().len() && w.unmanaged_seq()[i].window == h);
        assert(!has_key(w.managed_seq(), w.unmanaged_seq()[i].window));
    }
}

/// Updating the value under a key leaves the key order untouched.
pub proof fn lemma_keys_of_update(s: Seq<(u32, WindowState)>, i: int, v: WindowState)
    requires
        0 <= i < s.len(),
    ensures
        keys_of(s.update(i, (s[i].0, v))) == keys_of(s),
{
    assert(keys_of(s.update(i, (s[i].0, v))) =~= keys_of(s));
}

/// Appending an entry appends its handle to the key order.
pub proof fn lemma_keys_of_push(s: Seq<(u32, WindowState)>, k: u32, v: WindowState)
    ensures
        keys_of(s.push((k, v))) == keys_of(s).push(k),
{
    assert(keys_of(s.push((k, v))) =~= keys_of(s).push(k));
}

impl Windows {
    /// The managed handles, in insertion order.
    pub fn managed_handles(&self) -> (r: Vec<WindowHandle>)
        ensures
            r@ == keys_of(self.managed_seq()),
    {
        let entries = map_entries(&self.managed);
        let ghost s = self.managed_seq();
        let mut r: Vec<WindowHandle> = Vec::new();
        let mut i: usize = 0;
        while i < entries.len()
            invariant
                entries@ == s,
                0 <= i <= s.len(),
                r@.len() == i,
                forall|j: int| 0 <= j < i ==> r@[j] == (#[trigger] s[j]).0,
            decreases s.len() - i,
        {
            r.push(entries[i].0);
            i += 1;
        }
        proof {
            assert(r@ =~= keys_of(s));
        }
        r
    }
}

/// The error of a focus request on a handle the registry does not manage.
#[derive(Clone, Copy, Debug, PartialEq, Eq, Structural)]
pub enum WindowError {
    InvalidWindowFocus,
}

impl WindowError {
    /// A short description of the error.
    pub fn message(&self) -> (r: &'static str)
        ensures
            r@ == "provided window can't be focused"@,
    {
        "provided window can't be focused"
    }
}

} // verus!
