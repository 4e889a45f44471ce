use vstd::prelude::*;

use crate::layout::{
    layout_feasible, spec_apply_diff_to, spec_has_change, spec_layout, EdgeDimensions,
    ReservedEdges, WindowStateDiff,
};
use crate::windows::{
    at_most_one_fullscreen, has_key, key_index, keys_distinct, keys_of, lemma_at_most_one_push,
    lemma_at_most_one_remove, lemma_at_most_one_transfer, lemma_at_most_one_update,
    lemma_keys_of_push, lemma_keys_of_update, lemma_managed_not_unmanaged, lemma_value_at_of_index,
    lemma_value_at_remove, lemma_value_at_update, lemma_value_at_update_other, unmanaged_has,
    uw_index, vals_of, value_at,
};
use crate::wm::{
    focused_border_pixel, lemma_max_edge_push, reserved_matches, spec_lookup_key, spec_max_edge,
    unfocused_border_pixel, WmEvent, WmRequest, WM,
};
use crate::{WindowState, BORDER_WIDTH};

verus! {

/// The configure request a geometry diff asks for.
pub open spec fn spec_configure_of(d: WindowStateDiff) -> WmRequest {
    WmRequest::Configure {
        window: d.window,
        x: match d.x {
            Some(v) => Some(v as i32),
            None => None,
        },
        y: match d.y {
            Some(v) => Some(v as i32),
            None => None,
        },
        width: match d.width {
            Some(v) => Some(v as u32),
            None => None,
        },
        height: match d.height {
            Some(v) => Some(v as u32),
            None => None,
        },
        border_width: None,
        stack_above: false,
    }
}

/// The configure requests of a diff list: one per diff that changes
/// something, in diff order.
pub open spec fn spec_configures(ds: Seq<WindowStateDiff>) -> Seq<WmRequest>
    decreases ds.len(),
{
    if ds.len() == 0 {
        Seq::empty()
    } else {
        spec_configures(ds.drop_last()) + (if spec_has_change(ds.last()) {
            seq![spec_configure_of(ds.last())]
        } else {
            Seq::empty()
        })
    }
}

/// The registry entries after one geometry diff lands: the addressed
/// window's geometry fields are updated in place; a diff that changes
/// nothing, or addresses an unmanaged handle, leaves the entries alone.
pub open spec fn spec_apply_one(
    s: Seq<(u32, WindowState)>,
    d: WindowStateDiff,
) -> Seq<(u32, WindowState)> {
    if spec_has_change(d) && has_key(s, d.window) {
        let i = key_index(s, d.window);
        s.update(i, (d.window, spec_apply_diff_to(s[i].1, d)))
    } else {
        s
    }
}

/// The registry entries after a whole diff list lands, first diff first.
pub open spec fn spec_apply_all(
    s: Seq<(u32, WindowState)>,
    ds: Seq<WindowStateDiff>,
) -> Seq<(u32, WindowState)>
    decreases ds.len(),
{
    if ds.len() == 0 {
        s
    } else {
        spec_apply_one(spec_apply_all(s, ds.drop_last()), ds.last())
    }
}

/// The registry entries after one handle moves to the front of the order.
pub open spec fn spec_move_top(s: Seq<(u32, WindowState)>, h: u32) -> Seq<(u32, WindowState)> {
    if has_key(s, h) {
        let i = key_index(s, h);
        s.remove(i).insert(0, s[i])
    } else {
        s
    }
}

/// The registry entries after each listed handle moves to the front in
/// turn: the last listed handle ends up first.
pub open spec fn spec_move_all(s: Seq<(u32, WindowState)>, hs: Seq<u32>) -> Seq<(u32, WindowState)>
    decreases hs.len(),
{
    if hs.len() == 0 {
        s
    } else {
        spec_move_top(spec_move_all(s, hs.drop_last()), hs.last())
    }
}

impl WM {
    /// The requests that hand the input focus to `window`: repaint the old
    /// focus border, paint the new one, move the input focus, and publish
    /// `_NET_ACTIVE_WINDOW`.
    pub fn focus_window(&mut self, window: u32) -> (r: Vec<WmRequest>)
        requires
            old(self).wf(),
            has_key(old(self).windows.managed_seq(), window),
        ensures
            final(self).wf(),
            (forall|init: Seq<u32>| #[trigger] clientlist_after(
                r@,
                old(self).atoms.net_client_list,
                init,
            ) == init),
            *final(self) == (WM {
                windows: final(self).windows,
                active_window: final(self).active_window,
                ..*old(self)
            }),
            final(self).windows.managed_seq() == old(self).windows.managed_seq(),
            final(self).windows.unmanaged_seq() == old(self).windows.unmanaged_seq(),
            final(self).windows.spec_focus() == Some(window),
            final(self).windows.spec_previous_focus() == old(self).windows.spec_focus(),
            final(self).active_window == Some(window),
            final(self).layout_manager == old(self).layout_manager,
            final(self).client_list == old(self).client_list,
            final(self).drag_window == old(self).drag_window,
            final(self).resize_window == old(self).resize_window,
            final(self).sequences_to_ignore@ == old(self).sequences_to_ignore@,
            ({
                let prefix = (match old(self).windows.spec_focus() {
                    Some(p) => if p != window {
                        seq![
                            WmRequest::SetBorderPixel { window: p, pixel: unfocused_border_pixel() },
                        ]
                    } else {
                        Seq::<WmRequest>::empty()
                    },
                    None => Seq::<WmRequest>::empty(),
                });
                &&& r@.take(prefix.len() as int + 2) == prefix + seq![
                    WmRequest::SetBorderPixel { window, pixel: focused_border_pixel() },
                    WmRequest::SetInputFocus { window },
                ]
                &&& active_window_tail(r@, prefix.len() as int + 2, old(self).root, old(
                    self,
                ).atoms.net_active_window, Some(window))
            }),
    {
        let mut r: Vec<WmRequest> = Vec::new();
        let previous = match self.windows.focus_window(window) {
            Ok(p) => p,
            Err(_) => None,
        };
        match previous {
            Some(p) => {
                if p.window != window {
                    let black = crate::RGBA::new(0x00, 0x00, 0x00, 0xff).as_argb_u32();
                    r.push(WmRequest::SetBorderPixel { window: p.window, pixel: black });
                }
            },
            None => {},
        }
        let cyan = crate::RGBA::new(0x00, 0x55, 0x77, 0xff).as_argb_u32();
        r.push(WmRequest::SetBorderPixel { window, pixel: cyan });
        r.push(WmRequest::SetInputFocus { window });
        let mut vals: Vec<u32> = Vec::new();
        vals.push(window);
        r.push(
            WmRequest::ChangeProperty32 {
                window: self.root,
                property: self.atoms.net_active_window,
                values: vals,
                append: false,
            },
        );
        r.push(WmRequest::RedrawBar);
        self.active_window = Some(window);
        proof {
            let prev = old(self).windows.spec_focus();
            match prev {
                Some(p) => {
                    assert(value_at(old(self).windows.managed_seq(), p).window == p);
                },
                None => {},
            }
            let prefix = (match prev {
                Some(p) => if p != window {
                    seq![WmRequest::SetBorderPixel { window: p, pixel: unfocused_border_pixel() }]
                } else {
                    Seq::<WmRequest>::empty()
                },
                None => Seq::<WmRequest>::empty(),
            });
            assert(r@.take(prefix.len() as int + 2) =~= prefix + seq![
                WmRequest::SetBorderPixel { window, pixel: focused_border_pixel() },
                WmRequest::SetInputFocus { window },
            ]);
            assert forall|init: Seq<u32>| #[trigger] clientlist_after(
                r@,
                old(self).atoms.net_client_list,
                init,
            ) == init by {
                assert forall|i: int|
                    0 <= i < r@.len() implies !is_prop_write(
                    #[trigger] r@[i],
                    old(self).atoms.net_client_list,
                ) by {}
                lemma_neutral_stream(r@, old(self).atoms.net_client_list, init);
            }
        }
        r
    }

    /// The requests that clear the focus: repaint the previously focused
    /// window's border, move the input focus to the root, and clear
    /// `_NET_ACTIVE_WINDOW`.
    pub fn unfocus(&mut self) -> (r: Vec<WmRequest>)
        requires
            old(self).wf(),
        ensures
            final(self).wf(),
            (forall|init: Seq<u32>| #[trigger] clientlist_after(
                r@,
                old(self).atoms.net_client_list,
                init,
            ) == init),
            *final(self) == (WM {
                windows: final(self).windows,
                active_window: final(self).active_window,
                ..*old(self)
            }),
            final(self).windows.managed_seq() == old(self).windows.managed_seq(),
            final(self).windows.unmanaged_seq() == old(self).windows.unmanaged_seq(),
            final(self).windows.spec_focus() is None,
            final(self).windows.spec_previous_focus() == old(self).windows.spec_focus(),
            final(self).active_window is None,
            final(self).layout_manager == old(self).layout_manager,
            final(self).client_list == old(self).client_list,
            final(self).drag_window == old(self).drag_window,
            final(self).resize_window == old(self).resize_window,
            final(self).sequences_to_ignore@ == old(self).sequences_to_ignore@,
            ({
                let prefix = (match old(self).windows.spec_previous_focus() {
                    Some(p) => if has_key(old(self).windows.managed_seq(), p) {
                        seq![
                            WmRequest::SetBorderPixel { window: p, pixel: unfocused_border_pixel() },
                        ]
                    } else {
                        Seq::<WmRequest>::empty()
                    },
                    None => Seq::<WmRequest>::empty(),
                });
                &&& r@.take(prefix.len() as int + 1) == prefix + seq![
                    WmRequest::SetInputFocus { window: old(self).root },
                ]
                &&& active_window_tail(r@, prefix.len() as int + 1, old(self).root, old(
                    self,
                ).atoms.net_active_window, None)
            }),
    {
        let mut r: Vec<WmRequest> = Vec::new();
        match self.windows.previos_focus() {
            Some(p) => {
                let black = crate::RGBA::new(0x00, 0x00, 0x00, 0xff).as_argb_u32();
                r.push(WmRequest::SetBorderPixel { window: p.window, pixel: black });
                proof {
                    let pp = old(self).windows.spec_previous_focus()->Some_0;
                    assert(value_at(old(self).windows.managed_seq(), pp).window == pp);
                }
            },
            None => {},
        }
        self.windows.unfocus();
        r.push(WmRequest::SetInputFocus { window: self.root });
        let vals: Vec<u32> = Vec::new();
        r.push(
            WmRequest::ChangeProperty32 {
                window: self.root,
                property: self.atoms.net_active_window,
                values: vals,
                append: false,
            },
        );
        r.push(WmRequest::RedrawBar);
        self.active_window = None;
        proof {
            let prefix = (match old(self).windows.spec_previous_focus() {
                Some(p) => if has_key(old(self).windows.managed_seq(), p) {
                    seq![WmRequest::SetBorderPixel { window: p, pixel: unfocused_border_pixel() }]
                } else {
                    Seq::<WmRequest>::empty()
                },
                None => Seq::<WmRequest>::empty(),
            });
            assert(r@.take(prefix.len() as int + 1) =~= prefix + seq![
                WmRequest::SetInputFocus { window: old(self).root },
            ]);
            assert forall|init: Seq<u32>| #[trigger] clientlist_after(
                r@,
                old(self).atoms.net_client_list,
                init,
            ) == init by {
                assert forall|i: int|
                    0 <= i < r@.len() implies !is_prop_write(
                    #[trigger] r@[i],
                    old(self).atoms.net_client_list,
                ) by {}
                lemma_neutral_stream(r@, old(self).atoms.net_client_list, init);
            }
        }
        r
    }

    /// The synthetic delete message the manager sends a client it wants
    /// closed.
    pub fn send_delete(&self, window: u32) -> (r: Vec<WmRequest>)
        ensures
            r@ == seq![
                WmRequest::SendEvent {
                    window,
                    message_type: self.atoms.wm_protocols,
                    data0: self.atoms.wm_delete_window,
                },
            ],
    {
        let mut r: Vec<WmRequest> = Vec::new();
        r.push(
            WmRequest::SendEvent {
                window,
                message_type: self.atoms.wm_protocols,
                data0: self.atoms.wm_delete_window,
            },
        );
        r
    }

    /// Grabs the pointer once per drag or resize session.
    pub fn conditionally_grab_pointer(&mut self, window: u32) -> (r: Vec<WmRequest>)
        requires
            old(self).wf(),
        ensures
            final(self).wf(),
            *final(self) == (WM { pointer_grabbed: true, ..*old(self) }),
            final(self).sequences_to_ignore@ == old(self).sequences_to_ignore@,
            r@ == (if old(self).pointer_grabbed {
                Seq::<WmRequest>::empty()
            } else {
                seq![WmRequest::GrabPointer { window }]
            }),
    {
        let mut r: Vec<WmRequest> = Vec::new();
        if !self.pointer_grabbed {
            r.push(WmRequest::GrabPointer { window });
            self.pointer_grabbed = true;
        }
        r
    }

    /// Applies a geometry diff list to the registry, emitting one configure
    /// request per diff that changes something.
    #[verifier::rlimit(100)]
    pub fn apply_diffs_to_registry(&mut self, diffs: &Vec<WindowStateDiff>) -> (r: Vec<WmRequest>)
        requires
            old(self).wf(),
        ensures
            final(self).wf(),
            clientlist_after(r@, old(self).atoms.net_client_list, old(self).client_list@)
                == final(self).client_list@,
            *final(self) == (WM { windows: final(self).windows, ..*old(self) }),
            final(self).windows.managed_seq() == spec_apply_all(
                old(self).windows.managed_seq(),
                diffs@,
            ),
            keys_of(final(self).windows.managed_seq()) == keys_of(old(self).windows.managed_seq()),
            final(self).windows.unmanaged_seq() == old(self).windows.unmanaged_seq(),
            final(self).windows.spec_focus() == old(self).windows.spec_focus(),
            final(self).windows.spec_previous_focus() == old(self).windows.spec_previous_focus(),
            final(self).client_list == old(self).client_list,
            final(self).active_window == old(self).active_window,
            final(self).layout_manager == old(self).layout_manager,
            final(self).drag_window == old(self).drag_window,
            final(self).resize_window == old(self).resize_window,
            final(self).sequences_to_ignore@ == old(self).sequences_to_ignore@,
            final(self).pending_expose == old(self).pending_expose,
            (forall|h: u32|
                has_key(final(self).windows.managed_seq(), h) == has_key(
                    old(self).windows.managed_seq(),
                    h,
                )),
            (forall|h: u32|
                has_key(old(self).windows.managed_seq(), h) ==> non_geometry_eq(
                    #[trigger] value_at(final(self).windows.managed_seq(), h),
                    value_at(old(self).windows.managed_seq(), h),
                )),
            r@ == spec_configures(diffs@),
    {
        let ghost s0 = self.windows.managed_seq();
        let mut r: Vec<WmRequest> = Vec::new();
        let mut i: usize = 0;
        while i < diffs.len()
            invariant
                old(self).wf(),
                self.windows.wf(),
                s0 == old(self).windows.managed_seq(),
                0 <= i <= diffs@.len(),
                self.windows.managed_seq() == spec_apply_all(s0, diffs@.take(i as int)),
                keys_of(self.windows.managed_seq()) == keys_of(s0),
                (forall|h: u32|
                    has_key(s0, h) ==> non_geometry_eq(
                        #[trigger] value_at(self.windows.managed_seq(), h),
                        value_at(s0, h),
                    )),
                self.windows.unmanaged_seq() == old(self).windows.unmanaged_seq(),
                self.windows.spec_focus() == old(self).windows.spec_focus(),
                self.windows.spec_previous_focus() == old(self).windows.spec_previous_focus(),
                self.client_list == old(self).client_list,
                self.active_window == old(self).active_window,
                self.layout_manager == old(self).layout_manager,
                self.drag_window == old(self).drag_window,
                self.resize_window == old(self).resize_window,
                self.sequences_to_ignore == old(self).sequences_to_ignore,
                self.pending_expose == old(self).pending_expose,
                self.screen_width == old(self).screen_width,
                self.screen_height == old(self).screen_height,
                self.root == old(self).root,
                self.atoms == old(self).atoms,
                self.config == old(self).config,
                self.key_mapping == old(self).key_mapping,
                self.button_mapping == old(self).button_mapping,
                self.pointer_grabbed == old(self).pointer_grabbed,
                self.last_timestamp == old(self).last_timestamp,
                r@ == spec_configures(diffs@.take(i as int)),
            decreases diffs@.len() - i,
        {
            let ghost s = self.windows.managed_seq();
            proof {
                assert(diffs@.take(i as int + 1).drop_last() =~= diffs@.take(i as int));
                assert(diffs@.take(i as int + 1).last() == diffs@[i as int]);
            }
            let d = &diffs[i];
            if crate::layout::has_change(d) {
                r.push(WmRequest::Configure {
                    window: d.window,
                    x: match d.x {
                        Some(v) => Some(v as i32),
                        None => None,
                    },
                    y: match d.y {
                        Some(v) => Some(v as i32),
                        None => None,
                    },
                    width: match d.width {
                        Some(v) => Some(v as u32),
                        None => None,
                    },
                    height: match d.height {
                        Some(v) => Some(v as u32),
                        None => None,
                    },
                    border_width: None,
                    stack_above: false,
                });
                match self.windows.get_window(d.window) {
                    Some(st) => {
                        let mut st2 = st;
                        match d.x {
                            Some(v) => {
                                st2.x = v;
                            },
                            None => {},
                        }
                        match d.y {
                            Some(v) => {
                                st2.y = v;
                            },
                            None => {},
                        }
                        match d.width {
                            Some(v) => {
                                st2.width = v;
                            },
                            None => {},
                        }
                        match d.height {
                            Some(v) => {
                                st2.height = v;
                            },
                            None => {},
                        }
                        proof {
                            assert(st.window == d.window);
                            assert(st2 == spec_apply_diff_to(
                                s[key_index(s, d.window)].1,
                                diffs@[i as int],
                            ));
                            lemma_managed_not_unmanaged(&self.windows, d.window);
                        }
                        self.windows.add_window(d.window, st2);
                        proof {
                            lemma_keys_of_update(s, key_index(s, d.window), st2);
                            lemma_has_key_from_keys(s, s0);
                            lemma_apply_step_values(
                                s0,
                                s,
                                self.windows.managed_seq(),
                                d.window,
                                st2,
                            );
                        }
                    },
                    None => {},
                }
            }
            i += 1;
        }
        proof {
            assert(diffs@.take(diffs@.len() as int) =~= diffs@);
            lemma_has_key_from_keys(self.windows.managed_seq(), s0);
            let s2 = self.windows.managed_seq();
            assert forall|h: u32|
                has_key(s2, h) implies (#[trigger] value_at(s2, h)).properties.is_fullscreen
                == value_at(s0, h).properties.is_fullscreen by {
                assert(has_key(s0, h));
                assert(non_geometry_eq(value_at(s2, h), value_at(s0, h)));
            }
            lemma_at_most_one_transfer(s0, s2);
            lemma_configures_neutral(diffs@, old(self).atoms.net_client_list, old(
                self,
            ).client_list@);
        }
        r
    }

    /// Raises the floating windows above the tiled ones, in registry order,
    /// and republishes `_NET_CLIENT_LIST` when the order changed.
    pub fn raise_floating(&mut self) -> (r: Vec<WmRequest>)
        requires
            old(self).wf(),
        ensures
            final(self).wf(),
            clientlist_after(r@, old(self).atoms.net_client_list, old(self).client_list@)
                == final(self).client_list@,
            *final(self) == (WM {
                windows: final(self).windows,
                client_list: final(self).client_list,
                ..*old(self)
            }),
            final(self).windows.managed_seq() == spec_move_all(
                old(self).windows.managed_seq(),
                spec_floating_handles(old(self).windows.managed_seq()),
            ),
            final(self).windows.unmanaged_seq() == old(self).windows.unmanaged_seq(),
            final(self).windows.spec_focus() == old(self).windows.spec_focus(),
            final(self).active_window == old(self).active_window,
            final(self).layout_manager == old(self).layout_manager,
            final(self).drag_window == old(self).drag_window,
            final(self).resize_window == old(self).resize_window,
            final(self).sequences_to_ignore@ == old(self).sequences_to_ignore@,
            (forall|h: u32|
                has_key(final(self).windows.managed_seq(), h) == has_key(
                    old(self).windows.managed_seq(),
                    h,
                )),
            (forall|h: u32|
                has_key(old(self).windows.managed_seq(), h) ==> #[trigger] value_at(
                    final(self).windows.managed_seq(),
                    h,
                ) == value_at(old(self).windows.managed_seq(), h)),
            final(self).windows.spec_previous_focus() == old(self).windows.spec_previous_focus(),
            ({
                let hs = spec_floating_handles(old(self).windows.managed_seq());
                let raises = Seq::new(
                    hs.len(),
                    |i: int| WmRequest::Configure {
                        window: hs[i],
                        x: None,
                        y: None,
                        width: None,
                        height: None,
                        border_width: None,
                        stack_above: true,
                    },
                );
                if hs.len() == 0 {
                    r@ == raises && final(self).client_list == old(self).client_list
                } else {
                    r@.len() == hs.len() + 1 && r@.take(hs.len() as int) == raises && (match r@.last() {
                        WmRequest::ChangeProperty32 { window, property, values, append } => {
                            &&& window == old(self).root
                            &&& property == old(self).atoms.net_client_list
                            &&& values@ == keys_of(final(self).windows.managed_seq())
                            &&& append == false
                        },
                        _ => false,
                    })
                }
            }),
    {
        let handles = self.windows.floating_windows_handles();
        let ghost hs = spec_floating_handles(old(self).windows.managed_seq());
        let mut r: Vec<WmRequest> = Vec::new();
        let mut i: usize = 0;
        while i < handles.len()
            invariant
                old(self).wf(),
                self.windows.wf(),
                handles@ == hs,
                0 <= i <= hs.len(),
                self.windows.managed_seq() == spec_move_all(
                    old(self).windows.managed_seq(),
                    hs.take(i as int),
                ),
                (forall|h: u32|
                    has_key(self.windows.managed_seq(), h) == has_key(
                        old(self).windows.managed_seq(),
                        h,
                    )),
                (forall|h: u32|
                    has_key(old(self).windows.managed_seq(), h) ==> #[trigger] value_at(
                        self.windows.managed_seq(),
                        h,
                    ) == value_at(old(self).windows.managed_seq(), h)),
                self.windows.unmanaged_seq() == old(self).windows.unmanaged_seq(),
                self.windows.spec_focus() == old(self).windows.spec_focus(),
                self.windows.spec_previous_focus() == old(self).windows.spec_previous_focus(),
                self.client_list == old(self).client_list,
                self.active_window == old(self).active_window,
                self.layout_manager == old(self).layout_manager,
                self.drag_window == old(self).drag_window,
                self.resize_window == old(self).resize_window,
                self.sequences_to_ignore == old(self).sequences_to_ignore,
                self.pending_expose == old(self).pending_expose,
                self.screen_width == old(self).screen_width,
                self.screen_height == old(self).screen_height,
                self.root == old(self).root,
                self.atoms == old(self).atoms,
                self.config == old(self).config,
                self.key_mapping == old(self).key_mapping,
                self.button_mapping == old(self).button_mapping,
                self.pointer_grabbed == old(self).pointer_grabbed,
                self.last_timestamp == old(self).last_timestamp,
                r@ == Seq::new(
                    i as nat,
                    |j: int| WmRequest::Configure {
                        window: hs[j],
                        x: None,
                        y: None,
                        width: None,
                        height: None,
                        border_width: None,
                        stack_above: true,
                    },
                ),
            decreases hs.len() - i,
        {
            proof {
                assert(hs.take(i as int + 1).drop_last() =~= hs.take(i as int));
                assert(hs.take(i as int + 1).last() == hs[i as int]);
            }
            let h = handles[i];
            let ghost pre = self.windows.managed_seq();
            r.push(WmRequest::Configure {
                window: h,
                x: None,
                y: None,
                width: None,
                height: None,
                border_width: None,
                stack_above: true,
            });
            self.windows.move_to_top(h);
            proof {
                lemma_move_top_has_key(pre, h);
                lemma_move_top_value(pre, h);
                assert(self.windows.managed_seq() == spec_move_top(pre, h));
            }
            proof {
                assert(r@ =~= Seq::new(
                    (i + 1) as nat,
                    |j: int| WmRequest::Configure {
                        window: hs[j],
                        x: None,
                        y: None,
                        width: None,
                        height: None,
                        border_width: None,
                        stack_above: true,
                    },
                ));
            }
            i += 1;
        }
        proof {
            assert(hs.take(hs.len() as int) =~= hs);
        }
        proof {
            let s2 = self.windows.managed_seq();
            let s0g = old(self).windows.managed_seq();
            assert forall|h: u32|
                has_key(s2, h) implies (#[trigger] value_at(s2, h)).properties.is_fullscreen
                == value_at(s0g, h).properties.is_fullscreen by {
                assert(has_key(s0g, h));
                assert(value_at(s2, h) == value_at(s0g, h));
            }
            lemma_at_most_one_transfer(s0g, s2);
            if hs.len() == 0 {
                assert(r@ =~= Seq::<WmRequest>::empty());
            }
        }
        if handles.len() > 0 {
            let keys = self.windows.managed_handles();
            self.client_list = self.windows.managed_handles();
            let ghost before = r@;
            r.push(
                WmRequest::ChangeProperty32 {
                    window: self.root,
                    property: self.atoms.net_client_list,
                    values: keys,
                    append: false,
                },
            );
            proof {
                lemma_clientlist_after_push(before, r@.last(), old(self).atoms.net_client_list,
                    old(self).client_list@);
                assert(r@ =~= before.push(r@.last()));
                assert(r@.take(hs.len() as int) =~= Seq::new(
                    hs.len(),
                    |j: int| WmRequest::Configure {
                        window: hs[j],
                        x: None,
                        y: None,
                        width: None,
                        height: None,
                        border_width: None,
                        stack_above: true,
                    },
                ));
            }
        }
        r
    }

    /// Recomputes the layout over the current windows and applies the
    /// resulting diff; a screen too small for the reserved edges or the row
    /// division is left as it is.
    pub fn do_layout(&mut self) -> (r: Vec<WmRequest>)
        requires
            old(self).wf(),
        ensures
            final(self).wf(),
            clientlist_after(r@, old(self).atoms.net_client_list, old(self).client_list@)
                == final(self).client_list@,
            *final(self) == (WM {
                windows: final(self).windows,
                client_list: final(self).client_list,
                ..*old(self)
            }),
            final(self).windows.unmanaged_seq() == old(self).windows.unmanaged_seq(),
            final(self).windows.spec_focus() == old(self).windows.spec_focus(),
            final(self).active_window == old(self).active_window,
            final(self).layout_manager == old(self).layout_manager,
            final(self).drag_window == old(self).drag_window,
            final(self).resize_window == old(self).resize_window,
            final(self).sequences_to_ignore@ == old(self).sequences_to_ignore@,
            (forall|h: u32|
                has_key(final(self).windows.managed_seq(), h) == has_key(
                    old(self).windows.managed_seq(),
                    h,
                )),
            (forall|h: u32|
                has_key(old(self).windows.managed_seq(), h) ==> non_geometry_eq(
                    #[trigger] value_at(final(self).windows.managed_seq(), h),
                    value_at(old(self).windows.managed_seq(), h),
                )),
            final(self).windows.spec_previous_focus() == old(self).windows.spec_previous_focus(),
            (forall|j: int|
                0 <= j < old(self).windows.managed_seq().len() ==> !(#[trigger] old(
                    self,
                ).windows.managed_seq()[j]).1.is_floating) ==> final(self).client_list == old(
                self,
            ).client_list && keys_of(final(self).windows.managed_seq()) == keys_of(
                old(self).windows.managed_seq(),
            ),
            !layout_feasible(
                old(self).layout_manager,
                vals_of(old(self).windows.managed_seq()),
                old(self).screen_width,
                old(self).screen_height,
            ) ==> *final(self) == *old(self) && r@ == Seq::<WmRequest>::empty(),
            (layout_feasible(
                old(self).layout_manager,
                vals_of(old(self).windows.managed_seq()),
                old(self).screen_width,
                old(self).screen_height,
            ) && spec_layout(
                old(self).layout_manager,
                vals_of(old(self).windows.managed_seq()),
                old(self).screen_width,
                old(self).screen_height,
            ) is None) ==> *final(self) == *old(self) && r@ == Seq::<WmRequest>::empty(),
            (layout_feasible(
                old(self).layout_manager,
                vals_of(old(self).windows.managed_seq()),
                old(self).screen_width,
                old(self).screen_height,
            ) && spec_layout(
                old(self).layout_manager,
                vals_of(old(self).windows.managed_seq()),
                old(self).screen_width,
                old(self).screen_height,
            ) matches Some(ds)) ==> ({
                let ds = spec_layout(
                    old(self).layout_manager,
                    vals_of(old(self).windows.managed_seq()),
                    old(self).screen_width,
                    old(self).screen_height,
                )->Some_0;
                let mid = spec_apply_all(old(self).windows.managed_seq(), ds);
                &&& final(self).windows.managed_seq() == spec_move_all(
                    mid,
                    spec_floating_handles(mid),
                )
                &&& spec_configures(ds).len() <= r@.len()
                &&& r@.take(spec_configures(ds).len() as int) == spec_configures(ds)
            }),
    {
        if !self.layout_ok() {
            return Vec::new();
        }
        let all = self.windows.windows();
        match self.layout_manager.calculate_dimensions(&all, self.screen_width, self.screen_height)
        {
            Some(diffs) => {
                let ghost s0 = self.windows.managed_seq();
                let mut r = self.apply_diffs_to_registry(&diffs);
                proof {
                    let mid = self.windows.managed_seq();
                    if forall|j: int|
                        0 <= j < s0.len() ==> !(#[trigger] s0[j]).1.is_floating {
                        assert forall|j: int|
                            0 <= j < vals_of(mid).len() implies !(
                        #[trigger] vals_of(mid)[j]).is_floating by {
                            lemma_value_at_of_index(mid, j);
                            let k = mid[j].0;
                            assert(has_key(s0, k));
                            lemma_value_at_of_index(s0, key_index(s0, k));
                            assert(vals_of(mid)[j] == mid[j].1);
                            assert(value_at(s0, k) == s0[key_index(s0, k)].1);
                            assert(!value_at(s0, k).is_floating);
                        }
                        lemma_floating_empty(vals_of(mid));
                        assert(spec_floating_handles(mid).len() == 0);
                    }
                }
                let more = self.raise_floating();
                let ghost rlen = r@.len();
                append_requests(&mut r, more);
                proof {
                    assert(r@.take(rlen as int) =~= spec_configures(
                        spec_layout(
                            old(self).layout_manager,
                            vals_of(old(self).windows.managed_seq()),
                            old(self).screen_width,
                            old(self).screen_height,
                        )->Some_0,
                    ));
                }
                r
            },
            None => Vec::new(),
        }
    }

    /// Whether the screen can hold the current layout arithmetic.
    pub fn layout_ok(&self) -> (b: bool)
        ensures
            b == layout_feasible(
                self.layout_manager,
                vals_of(self.windows.managed_seq()),
                self.screen_width,
                self.screen_height,
            ),
    {
        let all = self.windows.windows();
        let tiles = crate::layout::collect_tiles(&all);
        let n = tiles.len();
        let top = self.layout_manager.reserved.top.width as u64;
        let bottom = self.layout_manager.reserved.bottom.width as u64;
        let left = self.layout_manager.reserved.left.width as u64;
        let right = self.layout_manager.reserved.right.width as u64;
        let sw = self.screen_width as u64;
        let sh = self.screen_height as u64;
        let b: u64 = 5;
        if self.screen_width > 0x7fff || self.screen_height > 0x7fff {
            return false;
        }
        if top + bottom + 2 * b > sh {
            return false;
        }
        if left + right + 2 * b > sw {
            return false;
        }
        if 2 * b > sw / 2 {
            return false;
        }
        if n >= 2 {
            let avail = sh - top - bottom;
            if avail / ((n - 1) as u64) < 2 * b {
                return false;
            }
        }
        true
    }
}

/// The handles of the floating windows among the entries, in order.
pub open spec fn spec_floating_handles(s: Seq<(u32, WindowState)>) -> Seq<u32> {
    crate::windows::spec_floating(vals_of(s)).map_values(|w: WindowState| w.window)
}

/// Moves every request of `src`, in order, onto the end of `dst`.
pub fn append_requests(dst: &mut Vec<WmRequest>, src: Vec<WmRequest>)
    ensures
        final(dst)@ == old(dst)@ + src@,
{
    let mut src = src;
    let ghost s0 = src@;
    let ghost d0 = old(dst)@;
    let n = src.len();
    let mut i: usize = 0;
    while src.len() > 0
        invariant
            n == s0.len(),
            0 <= i <= n,
            src@ == s0.skip(i as int),
            dst@ == d0 + s0.take(i as int),
        decreases s0.len() - i,
    {
        let x = src.remove(0);
        proof {
            assert(s0.skip(i as int)[0] == s0[i as int]);
            assert(s0.skip(i as int).remove(0) =~= s0.skip(i as int + 1));
        }
        dst.push(x);
        proof {
            assert(dst@ =~= d0 + s0.take(i as int + 1));
            assert(i < s0.len());
        }
        i += 1;
    }
    proof {
        assert(s0.take(i as int) =~= s0);
        assert(dst@ =~= d0 + s0);
    }
}

/// Whether a request is the replace- or append-mode 32-bit property write
/// with the given value list.
pub open spec fn is_change_prop32(
    q: WmRequest,
    window: u32,
    property: u32,
    values: Seq<u32>,
    append: bool,
) -> bool {
    match q {
        WmRequest::ChangeProperty32 { window: w, property: p, values: v, append: a } => w == window
            && p == property && v@ == values && a == append,
        _ => false,
    }
}

/// The requests from index `i` on publish the active window on the root and
/// ask the bar to redraw: the property value is the focused handle, or empty
/// when none is.
pub open spec fn active_window_tail(
    r: Seq<WmRequest>,
    i: int,
    root: u32,
    property: u32,
    focus: Option<u32>,
) -> bool {
    &&& r.len() == i + 2
    &&& is_change_prop32(
        r[i],
        root,
        property,
        match focus {
            Some(f) => seq![f],
            None => Seq::<u32>::empty(),
        },
        false,
    )
    &&& r[i + 1] == WmRequest::RedrawBar
}

/// Two entry lists with the same key order hold the same handles.
pub proof fn lemma_has_key_from_keys(s1: Seq<(u32, WindowState)>, s2: Seq<(u32, WindowState)>)
    requires
        keys_of(s1) == keys_of(s2),
    ensures
        forall|h: u32| has_key(s1, h) == has_key(s2, h),
{
    assert(keys_of(s1).len() == s1.len());
    assert(keys_of(s2).len() == s2.len());
    assert forall|h: u32| has_key(s1, h) == has_key(s2, h) by {
        if has_key(s1, h) {
            let i = choose|i: int| 0 <= i < s1.len() && (#[trigger] s1[i]).0 == h;
            assert(keys_of(s1)[i] == s1[i].0);
            assert(keys_of(s2)[i] == s2[i].0);
            assert(s2[i].0 == h);
        }
        if has_key(s2, h) {
            let i = choose|i: int| 0 <= i < s2.len() && (#[trigger] s2[i]).0 == h;
            assert(keys_of(s2)[i] == s2[i].0);
            assert(keys_of(s1)[i] == s1[i].0);
            assert(s1[i].0 == h);
        }
    }
}

/// Moving an entry to the front changes no membership.
pub proof fn lemma_move_top_has_key(s: Seq<(u32, WindowState)>, h: u32)
    ensures
        forall|x: u32| has_key(#[trigger] spec_move_top(s, h), x) == has_key(s, x),
{
    if has_key(s, h) {
        let i = key_index(s, h);
        assert(0 <= i < s.len() && s[i].0 == h);
        s.remove_ensures(i);
        s.remove(i).insert_ensures(0, s[i]);
        let s2 = spec_move_top(s, h);
        assert forall|x: u32| has_key(s2, x) == has_key(s, x) by {
            if has_key(s, x) {
                let j = choose|j: int| 0 <= j < s.len() && (#[trigger] s[j]).0 == x;
                if j == i {
                    assert(s2[0] == s[i]);
                } else if j < i {
                    assert(s.remove(i)[j] == s[j]);
                    assert(s2[j + 1] == s.remove(i)[j]);
                } else {
                    assert(s.remove(i)[j - 1] == s[j]);
                    assert(s2[j] == s.remove(i)[j - 1]);
                }
                assert(has_key(s2, x));
            }
            if has_key(s2, x) {
                let j = choose|j: int| 0 <= j < s2.len() && (#[trigger] s2[j]).0 == x;
                if j == 0 {
                    assert(s2[0] == s[i]);
                    assert(s[i].0 == x);
                } else {
                    assert(s2[j] == s.remove(i)[j - 1]);
                    if j - 1 < i {
                        assert(s.remove(i)[j - 1] == s[j - 1]);
                    } else {
                        assert(s.remove(i)[j - 1] == s[j]);
                    }
                }
                assert(has_key(s, x));
            }
        }
    }
}

/// One in-place geometry update keeps every handle's non-geometry fields in
/// step with the starting list.
proof fn lemma_apply_step_values(
    s0: Seq<(u32, WindowState)>,
    s: Seq<(u32, WindowState)>,
    s2: Seq<(u32, WindowState)>,
    w: u32,
    st2: WindowState,
)
    requires
        keys_distinct(s),
        has_key(s, w),
        s2 == s.update(key_index(s, w), (w, st2)),
        non_geometry_eq(st2, value_at(s, w)),
        forall|h: u32| has_key(s0, h) ==> has_key(s, h),
        forall|h: u32|
            has_key(s0, h) ==> non_geometry_eq(#[trigger] value_at(s, h), value_at(s0, h)),
    ensures
        forall|h: u32|
            has_key(s0, h) ==> non_geometry_eq(#[trigger] value_at(s2, h), value_at(s0, h)),
{
    lemma_value_at_update(s, key_index(s, w), w, st2);
    assert forall|h: u32|
        has_key(s0, h) implies non_geometry_eq(#[trigger] value_at(s2, h), value_at(s0, h)) by {
        if h == w {
        } else {
            assert(has_key(s, h));
            lemma_value_at_update_other(s, key_index(s, w), w, st2, h);
        }
    }
}

/// The value the `_NET_CLIENT_LIST`-named property holds after a request
/// stream runs, starting from `init`: a replace-mode write sets it, an
/// append-mode write extends it, deleting it clears it, and every other
/// request leaves it alone.
pub open spec fn clientlist_after(r: Seq<WmRequest>, prop: u32, init: Seq<u32>) -> Seq<u32>
    decreases r.len(),
{
    if r.len() == 0 {
        init
    } else {
        let rest = clientlist_after(r.drop_last(), prop, init);
        match r.last() {
            WmRequest::ChangeProperty32 { window: _, property, values, append } => if property
                == prop {
                if append {
                    rest + values@
                } else {
                    values@
                }
            } else {
                rest
            },
            WmRequest::DeleteProperty { window: _, property } => if property == prop {
                Seq::empty()
            } else {
                rest
            },
            _ => rest,
        }
    }
}

/// Whether a request writes or deletes the given property.
pub open spec fn is_prop_write(q: WmRequest, prop: u32) -> bool {
    match q {
        WmRequest::ChangeProperty32 { window: _, property, values: _, append: _ } => property
            == prop,
        WmRequest::DeleteProperty { window: _, property } => property == prop,
        _ => false,
    }
}

/// A stream that never writes the property folds to its start value.
pub proof fn lemma_neutral_stream(r: Seq<WmRequest>, prop: u32, init: Seq<u32>)
    requires
        forall|i: int| 0 <= i < r.len() ==> !is_prop_write(#[trigger] r[i], prop),
    ensures
        clientlist_after(r, prop, init) == init,
    decreases r.len(),
{
    if r.len() > 0 {
        lemma_neutral_stream(r.drop_last(), prop, init);
    }
}

/// One appended request steps the fold.
pub proof fn lemma_clientlist_after_push(s: Seq<WmRequest>, x: WmRequest, prop: u32, init: Seq<u32>)
    ensures
        clientlist_after(s.push(x), prop, init) == (match x {
            WmRequest::ChangeProperty32 { window: _, property, values, append } => if property
                == prop {
                if append {
                    clientlist_after(s, prop, init) + values@
                } else {
                    values@
                }
            } else {
                clientlist_after(s, prop, init)
            },
            WmRequest::DeleteProperty { window: _, property } => if property == prop {
                Seq::<u32>::empty()
            } else {
                clientlist_after(s, prop, init)
            },
            _ => clientlist_after(s, prop, init),
        }),
{
    assert(s.push(x).drop_last() =~= s);
    assert(s.push(x).last() == x);
}

/// Splitting a stream splits the fold.
pub proof fn lemma_clientlist_after_concat(a: Seq<WmRequest>, b: Seq<WmRequest>, prop: u32, init: Seq<u32>)
    ensures
        clientlist_after(a + b, prop, init) == clientlist_after(b, prop, clientlist_after(a, prop, init)),
    decreases b.len(),
{
    if b.len() == 0 {
        assert(a + b =~= a);
    } else {
        lemma_clientlist_after_concat(a, b.drop_last(), prop, init);
        assert((a + b).drop_last() =~= a + b.drop_last());
        assert((a + b).last() == b.last());
    }
}

/// Configure requests never touch the property.
pub proof fn lemma_configures_neutral(ds: Seq<WindowStateDiff>, prop: u32, init: Seq<u32>)
    ensures
        clientlist_after(spec_configures(ds), prop, init) == init,
    decreases ds.len(),
{
    if ds.len() > 0 {
        lemma_configures_neutral(ds.drop_last(), prop, init);
        if spec_has_change(ds.last()) {
            lemma_clientlist_after_concat(
                spec_configures(ds.drop_last()),
                seq![spec_configure_of(ds.last())],
                prop,
                init,
            );
            let one = seq![spec_configure_of(ds.last())];
            let x = clientlist_after(spec_configures(ds.drop_last()), prop, init);
            assert(one.drop_last() =~= Seq::<WmRequest>::empty());
            assert(one.last() == spec_configure_of(ds.last()));
            assert(clientlist_after(Seq::<WmRequest>::empty(), prop, x) == x);
            assert(clientlist_after(one.drop_last(), prop, x) == x);
            assert(clientlist_after(one, prop, x) == x);
            assert(spec_configures(ds) =~= spec_configures(ds.drop_last()) + one);
        } else {
            assert(spec_configures(ds) =~= spec_configures(ds.drop_last()));
        }
    }
}

/// One bar redraw per queued window that is still managed, in queue order.
pub open spec fn spec_redraws(pending: Seq<u32>, managed: Seq<(u32, WindowState)>) -> Seq<WmRequest>
    decreases pending.len(),
{
    if pending.len() == 0 {
        Seq::empty()
    } else {
        spec_redraws(pending.drop_last(), managed) + (if has_key(managed, pending.last()) {
            seq![WmRequest::RedrawBar]
        } else {
            Seq::empty()
        })
    }
}

/// Everything the manage path promises beyond well-formedness, phrased over
/// the state before (`pre`) and after (`post`) and the emitted requests: the
/// window is recorded (a dock or desktop as unmanaged with its strut folded
/// in; anything else managed and focused unless a fullscreen window holds
/// the stage), the relayout transformation, the client-list append, and the
/// grab-server bracket around save-set insert and map.
pub open spec fn manage_post(
    pre: WM,
    post: WM,
    r: Seq<WmRequest>,
    window: u32,
    geom: crate::Geometry,
    type_atoms: Seq<u32>,
    strut_partial: Seq<u32>,
) -> bool {
    &&& ({
                let wt = (match crate::wm::spec_window_type(
                    pre.atoms,
                    type_atoms,
                    strut_partial,
                ) {
                    Some(t) => t,
                    None => crate::WindowType::Normal,
                });
                let st = (crate::WindowState {
                    window,
                    x: geom.x,
                    y: geom.y,
                    width: geom.width,
                    height: geom.height,
                    window_type: wt,
                    properties: crate::WindowProperties::spec_default(),
                    is_floating: false,
                });
                if wt matches crate::WindowType::Dock(_) || wt is Desktop {
                    &&& post.windows.unmanaged_seq() == pre.windows.unmanaged_seq().push(st)
                    &&& (forall|h: u32|
                        has_key(post.windows.managed_seq(), h) == has_key(
                            pre.windows.managed_seq(),
                            h,
                        ))
                    &&& post.windows.spec_focus() == pre.windows.spec_focus()
                    &&& (wt matches crate::WindowType::Dock(d) ==> ({
                        let res = post.layout_manager.reserved;
                        let res0 = pre.layout_manager.reserved;
                        &&& res.top.width == (if d.top.width > res0.top.width {
                            d.top.width
                        } else {
                            res0.top.width
                        })
                        &&& res.bottom.width == (if d.bottom.width > res0.bottom.width {
                            d.bottom.width
                        } else {
                            res0.bottom.width
                        })
                        &&& res.left.width == (if d.left.width > res0.left.width {
                            d.left.width
                        } else {
                            res0.left.width
                        })
                        &&& res.right.width == (if d.right.width > res0.right.width {
                            d.right.width
                        } else {
                            res0.right.width
                        })
                    }))
                } else {
                    &&& post.windows.unmanaged_seq() == pre.windows.unmanaged_seq()
                    &&& has_key(post.windows.managed_seq(), window)
                    &&& (forall|h: u32|
                        has_key(post.windows.managed_seq(), h) == (has_key(
                            pre.windows.managed_seq(),
                            h,
                        ) || h == window))
                    &&& ({
                        let s0 = pre.windows.managed_seq();
                        (forall|j: int|
                            0 <= j < s0.len() ==> !(#[trigger] s0[j]).1.properties.is_fullscreen)
                            ==> post.windows.spec_focus() == Some(window)
                    })
                    &&& ({
                        let mid = pre.windows.managed_seq().push((window, st));
                        let lm = pre.layout_manager;
                        let sw = pre.screen_width;
                        let sh = pre.screen_height;
                        if layout_feasible(lm, vals_of(mid), sw, sh) && spec_layout(
                            lm,
                            vals_of(mid),
                            sw,
                            sh,
                        ) is Some {
                            let ds = spec_layout(lm, vals_of(mid), sw, sh)->Some_0;
                            let applied = spec_apply_all(mid, ds);
                            post.windows.managed_seq() == spec_move_all(
                                applied,
                                spec_floating_handles(applied),
                            )
                        } else {
                            post.windows.managed_seq() == mid
                        }
                    })
                    &&& ({
                        let s0 = pre.windows.managed_seq();
                        (forall|j: int| 0 <= j < s0.len() ==> !(#[trigger] s0[j]).1.is_floating)
                            ==> post.client_list@ == pre.client_list@.push(window)
                    })
                    &&& ({
                        let s0 = pre.windows.managed_seq();
                        let head: int = 1 + (if exists|j: int|
                            0 <= j < s0.len() && (#[trigger] s0[j]).1.properties.is_fullscreen {
                            1int
                        } else {
                            (match pre.windows.spec_focus() {
                                Some(p) => if p != window {
                                    1int
                                } else {
                                    0int
                                },
                                None => 0int,
                            }) + 4
                        }) + 3;
                        let mid = s0.push((window, st));
                        let lm = pre.layout_manager;
                        let sw = pre.screen_width;
                        let sh = pre.screen_height;
                        &&& r.len() >= head + 4
                        &&& r[head - 3] == (WmRequest::SelectClientEvents { window })
                        &&& r[head - 2] == (WmRequest::Configure {
                            window,
                            x: None,
                            y: None,
                            width: None,
                            height: None,
                            border_width: Some(BORDER_WIDTH),
                            stack_above: false,
                        })
                        &&& is_change_prop32(
                            r[head - 1],
                            pre.root,
                            pre.atoms.net_client_list,
                            seq![window],
                            true,
                        )
                        &&& (if layout_feasible(lm, vals_of(mid), sw, sh) && spec_layout(
                            lm,
                            vals_of(mid),
                            sw,
                            sh,
                        ) is Some {
                            let ds = spec_layout(lm, vals_of(mid), sw, sh)->Some_0;
                            r.skip(head).take(spec_configures(ds).len() as int)
                                == spec_configures(ds)
                        } else {
                            r.len() == head + 4
                        })
                    })
                    &&& r[r.len() - 4] == WmRequest::GrabServer
                    &&& r[r.len() - 3] == (WmRequest::ChangeSaveSet { window, insert: true })
                    &&& r[r.len() - 2] == (WmRequest::MapWindow { window })
                    &&& r[r.len() - 1] == WmRequest::UngrabServer
                    &&& clientlist_after(r, pre.atoms.net_client_list, pre.client_list@)
                        == post.client_list@
                    &&& r.contains(WmRequest::MapWindow { window })
                }
            })
    &&& ({
                let wt = (match crate::wm::spec_window_type(
                    pre.atoms,
                    type_atoms,
                    strut_partial,
                ) {
                    Some(t) => t,
                    None => crate::WindowType::Normal,
                });
                (wt matches crate::WindowType::Dock(_) || wt is Desktop) ==> ({
                    &&& r.len() >= 4
                    &&& r[r.len() - 4] == WmRequest::GrabServer
                    &&& r[r.len() - 3] == (WmRequest::ChangeSaveSet { window, insert: true })
                    &&& r[r.len() - 2] == (WmRequest::MapWindow { window })
                    &&& r[r.len() - 1] == WmRequest::UngrabServer
                })
            })
}

/// Everything the unmanage path promises beyond well-formedness: the
/// window's entry is gone and only its entry, the save-set removal and
/// reparent lead the requests, the client list is republished as the
/// remaining keys, the focus moves to the next window in order, and the
/// relayout requests follow.
pub open spec fn unmanage_post(pre: WM, post: WM, r: Seq<WmRequest>, window: u32) -> bool {
    let s0 = pre.windows.managed_seq();
    let i0 = key_index(s0, window);
    let s2 = s0.remove(i0);
    let k: int = if s2.len() == 0 {
        6
    } else {
        7
    };
    &&& !has_key(post.windows.managed_seq(), window)
    &&& (forall|h: u32|
        h != window ==> has_key(post.windows.managed_seq(), h) == has_key(s0, h))
    &&& post.windows.unmanaged_seq() == pre.windows.unmanaged_seq()
    &&& (forall|h: u32|
        h != window && has_key(s0, h) ==> non_geometry_eq(
            #[trigger] value_at(post.windows.managed_seq(), h),
            value_at(s0, h),
        ))
    &&& r.take(2) == seq![
        WmRequest::ChangeSaveSet { window, insert: false },
        WmRequest::ReparentToRoot { window, x: value_at(s0, window).x, y: value_at(s0, window).y },
    ]
    &&& is_change_prop32(r[2], pre.root, pre.atoms.net_client_list, keys_of(s2), false)
    &&& post.windows.spec_previous_focus() == pre.windows.spec_focus()
    &&& post.windows.spec_focus() == (if s2.len() == 0 {
        None::<u32>
    } else {
        Some(s2[i0 % s2.len() as int].0)
    })
    &&& (if s2.len() == 0 {
        &&& r.len() >= 6
        &&& r[3] == (WmRequest::SetInputFocus { window: pre.root })
        &&& is_change_prop32(r[4], pre.root, pre.atoms.net_active_window, Seq::<u32>::empty(), false)
        &&& r[5] == WmRequest::RedrawBar
    } else {
        let f = s2[i0 % s2.len() as int].0;
        &&& r.len() >= 7
        &&& r[3] == (WmRequest::SetBorderPixel { window: f, pixel: focused_border_pixel() })
        &&& r[4] == (WmRequest::SetInputFocus { window: f })
        &&& is_change_prop32(r[5], pre.root, pre.atoms.net_active_window, seq![f], false)
        &&& r[6] == WmRequest::RedrawBar
    })
    &&& (if layout_feasible(pre.layout_manager, vals_of(s2), pre.screen_width, pre.screen_height)
        && spec_layout(pre.layout_manager, vals_of(s2), pre.screen_width, pre.screen_height)
        is Some {
        let ds = spec_layout(
            pre.layout_manager,
            vals_of(s2),
            pre.screen_width,
            pre.screen_height,
        )->Some_0;
        r.skip(k).take(spec_configures(ds).len() as int) == spec_configures(ds)
    } else {
        r.len() == k
    })
    &&& (s0.len() > 1 ==> post.windows.spec_focus() is Some)
    &&& (s0.len() == 1 ==> post.windows.spec_focus() is None)
}

/// The fields of a window record the layout never touches.
pub open spec fn non_geometry_eq(a: WindowState, b: WindowState) -> bool {
    &&& a.window == b.window
    &&& a.window_type == b.window_type
    &&& a.properties == b.properties
    &&& a.is_floating == b.is_floating
}

/// Moving an entry to the front keeps every handle's record.
pub proof fn lemma_move_top_value(s: Seq<(u32, WindowState)>, h: u32)
    requires
        keys_distinct(s),
    ensures
        forall|x: u32|
            has_key(s, x) ==> value_at(#[trigger] spec_move_top(s, h), x) == value_at(s, x),
{
    if has_key(s, h) {
        let i = key_index(s, h);
        assert(0 <= i < s.len() && s[i].0 == h);
        s.remove_ensures(i);
        s.remove(i).insert_ensures(0, s[i]);
        let s2 = spec_move_top(s, h);
        lemma_move_top_has_key(s, h);
        assert forall|x: u32|
            has_key(s, x) implies value_at(s2, x) == value_at(s, x) by {
            let j = key_index(s, x);
            assert(0 <= j < s.len() && s[j].0 == x);
            assert(keys_distinct(s2)) by {
                assert forall|a: int, b: int| 0 <= a < b < s2.len() implies (
                #[trigger] s2[a]).0 != (#[trigger] s2[b]).0 by {
                    let pa = if a == 0 {
                        i
                    } else if a <= i {
                        a - 1
                    } else {
                        a
                    };
                    let pb = if b <= i {
                        b - 1
                    } else {
                        b
                    };
                    assert(s2[a] == s[pa] && s2[b] == s[pb]);
                }
            }
            let qj = if j == i {
                0
            } else if j < i {
                j + 1
            } else {
                j
            };
            assert(s2[qj] == s[j]);
            lemma_value_at_of_index(s2, qj);
            lemma_value_at_of_index(s, j);
        }
    }
}

/// A list without a floating window yields no floating entries.
pub proof fn lemma_floating_empty(s: Seq<WindowState>)
    requires
        forall|i: int| 0 <= i < s.len() ==> !(#[trigger] s[i]).is_floating,
    ensures
        crate::windows::spec_floating(s).len() == 0,
    decreases s.len(),
{
    if s.len() > 0 {
        lemma_floating_empty(s.drop_last());
    }
}

impl WM {
    /// Recomputes the reserved edges as the width-wise maximum over the
    /// docks still present.
    pub fn recompute_reserved(&mut self)
        requires
            old(self).windows.wf(),
            at_most_one_fullscreen(old(self).windows.managed_seq()),
            old(self).atoms.net_client_list != old(self).atoms.net_active_window,
            old(self).atoms.net_client_list != old(self).atoms.net_frame_extents,
            old(self).client_list@ == keys_of(old(self).windows.managed_seq()),
            old(self).active_window == old(self).windows.spec_focus(),
            !(old(self).drag_window is Some && old(self).resize_window is Some),
            crate::wm::sorted_u16(old(self).sequences_to_ignore@),
        ensures
            final(self).wf(),
            *final(self) == (WM { layout_manager: final(self).layout_manager, ..*old(self) }),
            final(self).layout_manager.layout == old(self).layout_manager.layout,
            reserved_matches(
                final(self).layout_manager.reserved,
                final(self).windows.unmanaged_seq(),
            ),
    {
        let unmanaged = self.windows.unmanaged_windows();
        let ghost u = self.windows.unmanaged_seq();
        let mut top: u32 = 0;
        let mut bottom: u32 = 0;
        let mut left: u32 = 0;
        let mut right: u32 = 0;
        let mut i: usize = 0;
        while i < unmanaged.len()
            invariant
                unmanaged@ == u,
                0 <= i <= u.len(),
                top == spec_max_edge(u.take(i as int), |r: ReservedEdges| r.top.width),
                bottom == spec_max_edge(u.take(i as int), |r: ReservedEdges| r.bottom.width),
                left == spec_max_edge(u.take(i as int), |r: ReservedEdges| r.left.width),
                right == spec_max_edge(u.take(i as int), |r: ReservedEdges| r.right.width),
            decreases u.len() - i,
        {
            proof {
                assert(u.take(i as int + 1).drop_last() =~= u.take(i as int));
                assert(u.take(i as int + 1).last() == u[i as int]);
                lemma_max_edge_push(u.take(i as int), u[i as int], |r: ReservedEdges| r.top.width);
                lemma_max_edge_push(
                    u.take(i as int),
                    u[i as int],
                    |r: ReservedEdges| r.bottom.width,
                );
                lemma_max_edge_push(u.take(i as int), u[i as int], |r: ReservedEdges| r.left.width);
                lemma_max_edge_push(
                    u.take(i as int),
                    u[i as int],
                    |r: ReservedEdges| r.right.width,
                );
            }
            match &unmanaged[i].window_type {
                crate::WindowType::Dock(r) => {
                    if r.top.width > top {
                        top = r.top.width;
                    }
                    if r.bottom.width > bottom {
                        bottom = r.bottom.width;
                    }
                    if r.left.width > left {
                        left = r.left.width;
                    }
                    if r.right.width > right {
                        right = r.right.width;
                    }
                },
                _ => {},
            }
            i += 1;
        }
        proof {
            assert(u.take(u.len() as int) =~= u);
        }
        self.layout_manager.reserved = ReservedEdges {
            top: EdgeDimensions { width: top, start: 0, end: 0 },
            bottom: EdgeDimensions { width: bottom, start: 0, end: 0 },
            left: EdgeDimensions { width: left, start: 0, end: 0 },
            right: EdgeDimensions { width: right, start: 0, end: 0 },
        };
    }

    /// Brings a new top-level window under management: records it (a dock
    /// or desktop as unmanaged, with its strut folded into the reserved
    /// edges; anything else as a managed window that is focused unless a
    /// fullscreen window holds the stage), publishes its frame extents,
    /// relayouts, and maps it under a server grab.
    #[verifier::rlimit(100)]
    pub fn manage_window(
        &mut self,
        window: u32,
        geom: &crate::Geometry,
        type_atoms: &Vec<u32>,
        strut_partial: &Vec<u32>,
    ) -> (r: Vec<WmRequest>)
        requires
            old(self).wf(),
            !has_key(old(self).windows.managed_seq(), window),
            !unmanaged_has(old(self).windows.unmanaged_seq(), window),
        ensures
            final(self).wf(),
            final(self).sequences_to_ignore@ == old(self).sequences_to_ignore@,
            *final(self) == (WM {
                windows: final(self).windows,
                client_list: final(self).client_list,
                active_window: final(self).active_window,
                layout_manager: final(self).layout_manager,
                ..*old(self)
            }),
            manage_post(*old(self), *final(self), r@, window, *geom, type_atoms@, strut_partial@),
    {
        let mut r: Vec<WmRequest> = Vec::new();
        let mut fe: Vec<u32> = Vec::new();
        fe.push(BORDER_WIDTH);
        fe.push(BORDER_WIDTH);
        fe.push(BORDER_WIDTH);
        fe.push(BORDER_WIDTH);
        r.push(
            WmRequest::ChangeProperty32 {
                window,
                property: self.atoms.net_frame_extents,
                values: fe,
                append: false,
            },
        );
        let wt = match crate::wm::get_window_type(&self.atoms, type_atoms, strut_partial) {
            Some(t) => t,
            None => crate::WindowType::Normal,
        };
        let st = crate::WindowState::new(window, geom, wt);
        let ghost managed0 = self.windows.managed_seq();
        let ghost unmanaged0 = self.windows.unmanaged_seq();
        let mut managed_case = false;
        match &st.window_type {
            crate::WindowType::Dock(d) => {
                let d = *d;
                let ghost u0 = self.windows.unmanaged_seq();
                if d.top.width > self.layout_manager.reserved.top.width {
                    self.layout_manager.reserved.top.width = d.top.width;
                }
                if d.bottom.width > self.layout_manager.reserved.bottom.width {
                    self.layout_manager.reserved.bottom.width = d.bottom.width;
                }
                if d.left.width > self.layout_manager.reserved.left.width {
                    self.layout_manager.reserved.left.width = d.left.width;
                }
                if d.right.width > self.layout_manager.reserved.right.width {
                    self.layout_manager.reserved.right.width = d.right.width;
                }
                self.windows.add_unmanaged_window(st);
                proof {
                    lemma_max_edge_push(u0, st, |q: ReservedEdges| q.top.width);
                    lemma_max_edge_push(u0, st, |q: ReservedEdges| q.bottom.width);
                    lemma_max_edge_push(u0, st, |q: ReservedEdges| q.left.width);
                    lemma_max_edge_push(u0, st, |q: ReservedEdges| q.right.width);
                }
            },
            crate::WindowType::Desktop => {
                let ghost u0 = self.windows.unmanaged_seq();
                self.windows.add_unmanaged_window(st);
                proof {
                    lemma_max_edge_push(u0, st, |q: ReservedEdges| q.top.width);
                    lemma_max_edge_push(u0, st, |q: ReservedEdges| q.bottom.width);
                    lemma_max_edge_push(u0, st, |q: ReservedEdges| q.left.width);
                    lemma_max_edge_push(u0, st, |q: ReservedEdges| q.right.width);
                }
            },
            _ => {
                managed_case = true;
                let fullscreen = self.windows.get_fullscreen_window();
                self.windows.add_window(window, st);
                self.client_list.push(window);
                proof {
                    lemma_keys_of_push(managed0, window, st);
                    lemma_at_most_one_push(managed0, window, st);
                    assert(self.client_list@ =~= keys_of(self.windows.managed_seq()));
                }
                let ghost prop = old(self).atoms.net_client_list;
                let ghost init0 = old(self).client_list@;
                let ghost had_fs = fullscreen is Some;
                proof {
                    match fullscreen {
                        Some(p) => {
                            let k = choose|k: int|
                                0 <= k < managed0.len() && (#[trigger] managed0[k]) == p
                                    && managed0[k].1.properties.is_fullscreen && (forall|j: int|
                                    0 <= j < k ==> !(
                                    #[trigger] managed0[j]).1.properties.is_fullscreen);
                            assert(managed0[k].1.properties.is_fullscreen);
                            assert(exists|j: int|
                                0 <= j < managed0.len() && (
                                #[trigger] managed0[j]).1.properties.is_fullscreen);
                        },
                        None => {
                            assert(!(exists|j: int|
                                0 <= j < managed0.len() && (
                                #[trigger] managed0[j]).1.properties.is_fullscreen));
                        },
                    }
                }
                match fullscreen {
                    Some(fsw) => {
                        let ghost pre_raise = r@;
                        r.push(
                            WmRequest::Configure {
                                window: fsw.0,
                                x: None,
                                y: None,
                                width: None,
                                height: None,
                                border_width: None,
                                stack_above: true,
                            },
                        );
                        proof {
                            assert forall|i: int|
                                0 <= i < r@.len() implies !is_prop_write(
                                #[trigger] r@[i],
                                prop,
                            ) by {}
                            lemma_neutral_stream(r@, prop, init0);
                        }
                    },
                    None => {
                        proof {
                            assert(self.windows.managed_seq()[managed0.len() as int].0 == window);
                            assert(has_key(self.windows.managed_seq(), window));
                        }
                        let ghost pre_focus = r@;
                        let focus_reqs = self.focus_window(window);
                        append_requests(&mut r, focus_reqs);
                        proof {
                            assert forall|i: int|
                                0 <= i < pre_focus.len() implies !is_prop_write(
                                #[trigger] pre_focus[i],
                                prop,
                            ) by {}
                            lemma_neutral_stream(pre_focus, prop, init0);
                            lemma_clientlist_after_concat(pre_focus, focus_reqs@, prop, init0);
                            assert(clientlist_after(r@, prop, init0) == init0);
                        }
                    },
                }
                let ghost pre_select = r@;
                r.push(WmRequest::SelectClientEvents { window });
                r.push(
                    WmRequest::Configure {
                        window,
                        x: None,
                        y: None,
                        width: None,
                        height: None,
                        border_width: Some(BORDER_WIDTH),
                        stack_above: false,
                    },
                );
                let ghost before_append = r@;
                proof {
                    lemma_clientlist_after_push(pre_select, WmRequest::SelectClientEvents { window },
                        prop, init0);
                    lemma_clientlist_after_push(
                        pre_select.push(WmRequest::SelectClientEvents { window }),
                        before_append.last(),
                        prop,
                        init0,
                    );
                    assert(before_append =~= pre_select.push(
                        WmRequest::SelectClientEvents { window },
                    ).push(before_append.last()));
                    assert(clientlist_after(before_append, prop, init0) == init0);
                }
                let mut one: Vec<u32> = Vec::new();
                one.push(window);
                r.push(
                    WmRequest::ChangeProperty32 {
                        window: self.root,
                        property: self.atoms.net_client_list,
                        values: one,
                        append: true,
                    },
                );
                proof {
                    lemma_clientlist_after_push(before_append, r@.last(), prop, init0);
                    assert(r@ =~= before_append.push(r@.last()));
                    assert(clientlist_after(r@, prop, init0) =~= init0.push(window));
                }
            },
        }
        proof {
            if managed_case {
                let mid = self.windows.managed_seq();
                assert(mid == managed0.push((window, st)));
                assert(mid[managed0.len() as int].0 == window);
                assert(has_key(mid, window));
                assert forall|h: u32|
                    has_key(mid, h) == (has_key(managed0, h) || h == window) by {
                    if has_key(managed0, h) {
                        let j = choose|j: int|
                            0 <= j < managed0.len() && (#[trigger] managed0[j]).0 == h;
                        assert(mid[j].0 == h);
                    }
                    if has_key(mid, h) {
                        let j = choose|j: int| 0 <= j < mid.len() && (#[trigger] mid[j]).0 == h;
                        if j < managed0.len() {
                            assert(managed0[j].0 == h);
                        }
                    }
                }
                if forall|j: int|
                    0 <= j < managed0.len() ==> !(#[trigger] managed0[j]).1.is_floating {
                    assert forall|j: int|
                        0 <= j < mid.len() implies !(#[trigger] mid[j]).1.is_floating by {
                        if j < managed0.len() {
                            assert(mid[j] == managed0[j]);
                        } else {
                            assert(mid[j].1 == st);
                        }
                    }
                }
            }
        }
        let ghost pre_layout = self.windows.managed_seq();
        let ghost pre_client = self.client_list@;
        let ghost pre_lm = self.layout_manager;
        let ghost head_req = r@;
        let layout_reqs = self.do_layout();
        proof {
            if layout_feasible(pre_lm, vals_of(pre_layout), old(self).screen_width, old(
                self,
            ).screen_height) && spec_layout(pre_lm, vals_of(pre_layout), old(self).screen_width,
                old(self).screen_height) is Some {
                let ds = spec_layout(pre_lm, vals_of(pre_layout), old(self).screen_width, old(
                    self,
                ).screen_height)->Some_0;
                let applied = spec_apply_all(pre_layout, ds);
                assert(self.windows.managed_seq() == spec_move_all(
                    applied,
                    spec_floating_handles(applied),
                ));
            } else {
                assert(self.windows.managed_seq() == pre_layout);
            }
        }
        append_requests(&mut r, layout_reqs);
        let ghost after_layout = r@;
        r.push(WmRequest::GrabServer);
        r.push(WmRequest::ChangeSaveSet { window, insert: true });
        r.push(WmRequest::MapWindow { window });
        r.push(WmRequest::UngrabServer);
        proof {
            assert(r@[r@.len() - 4] == WmRequest::GrabServer);
            assert(r@[r@.len() - 3] == WmRequest::ChangeSaveSet { window, insert: true });
            assert(r@[r@.len() - 2] == WmRequest::MapWindow { window });
            assert(r@[r@.len() - 1] == WmRequest::UngrabServer);
            assert(r@.contains(WmRequest::MapWindow { window }));
            if managed_case {
                let prop = old(self).atoms.net_client_list;
                let init0 = old(self).client_list@;
                let tail = seq![
                    WmRequest::GrabServer,
                    WmRequest::ChangeSaveSet { window, insert: true },
                    WmRequest::MapWindow { window },
                    WmRequest::UngrabServer,
                ];
                assert(r@ =~= after_layout + tail);
                assert(after_layout =~= head_req + layout_reqs@);
                assert(clientlist_after(head_req, prop, init0) =~= pre_client);
                lemma_clientlist_after_concat(head_req, layout_reqs@, prop, init0);
                assert(clientlist_after(after_layout, prop, init0) == self.client_list@);
                lemma_clientlist_after_concat(after_layout, tail, prop, init0);
                assert forall|i: int|
                    0 <= i < tail.len() implies !is_prop_write(#[trigger] tail[i], prop) by {}
                lemma_neutral_stream(tail, prop, clientlist_after(after_layout, prop, init0));
                assert(clientlist_after(r@, prop, init0) == self.client_list@);
                let head = head_req.len() as int;
                assert(r@[head - 3] == head_req[head - 3]);
                assert(r@[head - 2] == head_req[head - 2]);
                assert(r@[head - 1] == head_req[head - 1]);
                assert(r@.skip(head).take(layout_reqs@.len() as int) =~= layout_reqs@);
                let lm = pre_lm;
                let sw = old(self).screen_width;
                let sh = old(self).screen_height;
                if layout_feasible(lm, vals_of(pre_layout), sw, sh) && spec_layout(
                    lm,
                    vals_of(pre_layout),
                    sw,
                    sh,
                ) is Some {
                    let ds = spec_layout(lm, vals_of(pre_layout), sw, sh)->Some_0;
                    assert(layout_reqs@.take(spec_configures(ds).len() as int) == spec_configures(
                        ds,
                    ));
                    assert(spec_configures(ds).len() <= layout_reqs@.len());
                    assert(r@.skip(head).take(spec_configures(ds).len() as int)
                        =~= layout_reqs@.take(spec_configures(ds).len() as int));
                } else {
                    assert(layout_reqs@ =~= Seq::<WmRequest>::empty());
                    assert(r@.len() == head + 4);
                }
            }
            let wtg = (match crate::wm::spec_window_type(
                old(self).atoms,
                type_atoms@,
                strut_partial@,
            ) {
                Some(t) => t,
                None => crate::WindowType::Normal,
            });
            let stg = (crate::WindowState {
                window,
                x: geom.x,
                y: geom.y,
                width: geom.width,
                height: geom.height,
                window_type: wtg,
                properties: crate::WindowProperties::spec_default(),
                is_floating: false,
            });
            assert(wtg == wt);
            assert(stg == st);
            if wtg matches crate::WindowType::Dock(_) || wtg is Desktop {
                assert(self.windows.unmanaged_seq() == old(self).windows.unmanaged_seq().push(
                    stg,
                ));
                assert(forall|h: u32|
                    has_key(self.windows.managed_seq(), h) == has_key(
                        old(self).windows.managed_seq(),
                        h,
                    ));
                assert(self.windows.spec_focus() == old(self).windows.spec_focus());
            } else {
                assert(self.windows.unmanaged_seq() == old(self).windows.unmanaged_seq());
                assert(has_key(self.windows.managed_seq(), window));
                assert(forall|h: u32|
                    has_key(self.windows.managed_seq(), h) == (has_key(
                        old(self).windows.managed_seq(),
                        h,
                    ) || h == window));
                let s0 = old(self).windows.managed_seq();
                if (forall|j: int|
                    0 <= j < s0.len() ==> !(#[trigger] s0[j]).1.properties.is_fullscreen) {
                    assert(self.windows.spec_focus() == Some(window));
                }
                let mid = s0.push((window, stg));
                assert(pre_layout == mid);
                assert(pre_client == old(self).client_list@.push(window));
                let lm = old(self).layout_manager;
                let sw = old(self).screen_width;
                let sh = old(self).screen_height;
                if layout_feasible(lm, vals_of(mid), sw, sh) && spec_layout(lm, vals_of(mid), sw,
                    sh) is Some {
                    let ds = spec_layout(lm, vals_of(mid), sw, sh)->Some_0;
                    let applied = spec_apply_all(mid, ds);
                    assert(self.windows.managed_seq() == spec_move_all(
                        applied,
                        spec_floating_handles(applied),
                    ));
                } else {
                    assert(self.windows.managed_seq() == mid);
                }
                if (forall|j: int| 0 <= j < s0.len() ==> !(#[trigger] s0[j]).1.is_floating) {
                    assert(self.client_list@ == old(self).client_list@.push(window));
                }
            }
        }
        r
    }

    /// Stops managing a window the client unmapped or destroyed: removes it
    /// from the registry, hands it back to the root, republishes the client
    /// list, moves the focus along, and relayouts.
    pub fn unmanage_window(&mut self, window: u32) -> (r: Vec<WmRequest>)
        requires
            old(self).wf(),
            has_key(old(self).windows.managed_seq(), window),
        ensures
            final(self).wf(),
            *final(self) == (WM {
                windows: final(self).windows,
                client_list: final(self).client_list,
                active_window: final(self).active_window,
                ..*old(self)
            }),
            final(self).sequences_to_ignore@ == old(self).sequences_to_ignore@,
            unmanage_post(*old(self), *final(self), r@, window),
    {
        let removed = self.windows.remove_window(window);
        let ghost s0 = old(self).windows.managed_seq();
        let ghost i0 = key_index(s0, window);
        proof {
            lemma_at_most_one_remove(s0, i0);
        }
        let mut r: Vec<WmRequest> = Vec::new();
        let st = match removed {
            Some(p) => p.1,
            None => {
                proof {
                    assert(false);
                }
                crate::WindowState::new(
                    window,
                    &crate::Geometry { x: 0, y: 0, width: 0, height: 0 },
                    crate::WindowType::Normal,
                )
            },
        };
        r.push(WmRequest::ChangeSaveSet { window, insert: false });
        r.push(WmRequest::ReparentToRoot { window, x: st.x, y: st.y });
        let keys = self.windows.managed_handles();
        self.client_list = self.windows.managed_handles();
        r.push(
            WmRequest::ChangeProperty32 {
                window: self.root,
                property: self.atoms.net_client_list,
                values: keys,
                append: false,
            },
        );
        proof {
            s0.remove_ensures(i0);
            assert forall|h: u32|
                h != window implies has_key(self.windows.managed_seq(), h) == has_key(s0, h) by {
                let s2 = self.windows.managed_seq();
                if has_key(s0, h) {
                    let j = choose|j: int| 0 <= j < s0.len() && (#[trigger] s0[j]).0 == h;
                    if j < i0 {
                        assert(s2[j] == s0[j]);
                    } else if j > i0 {
                        assert(s2[j - 1] == s0[j]);
                    }
                }
                if has_key(s2, h) {
                    let j = choose|j: int| 0 <= j < s2.len() && (#[trigger] s2[j]).0 == h;
                    if j < i0 {
                        assert(s2[j] == s0[j]);
                    } else {
                        assert(s2[j] == s0[j + 1]);
                    }
                }
            }
            if !has_key(self.windows.managed_seq(), window) {
            } else {
                let s2 = self.windows.managed_seq();
                let j = key_index(s2, window);
                assert(s2[j].0 == window);
                if j < i0 {
                    assert(s2[j] == s0[j]);
                    assert(s0[j].0 != s0[i0].0);
                } else {
                    assert(s2[j] == s0[j + 1]);
                    assert(s0[i0].0 != s0[j + 1].0);
                }
                assert(false);
            }
        }
        match self.windows.focus_handle() {
            Some(f) => {
                let cyan = crate::RGBA::new(0x00, 0x55, 0x77, 0xff).as_argb_u32();
                r.push(WmRequest::SetBorderPixel { window: f, pixel: cyan });
                r.push(WmRequest::SetInputFocus { window: f });
                let mut vals: Vec<u32> = Vec::new();
                vals.push(f);
                r.push(
                    WmRequest::ChangeProperty32 {
                        window: self.root,
                        property: self.atoms.net_active_window,
                        values: vals,
                        append: false,
                    },
                );
                r.push(WmRequest::RedrawBar);
                self.active_window = Some(f);
            },
            None => {
                r.push(WmRequest::SetInputFocus { window: self.root });
                let vals: Vec<u32> = Vec::new();
                r.push(
                    WmRequest::ChangeProperty32 {
                        window: self.root,
                        property: self.atoms.net_active_window,
                        values: vals,
                        append: false,
                    },
                );
                r.push(WmRequest::RedrawBar);
                self.active_window = None;
            },
        }
        proof {
            let mid = self.windows.managed_seq();
            assert(mid == s0.remove(i0));
            assert forall|h: u32|
                h != window && has_key(s0, h) implies #[trigger] value_at(mid, h) == value_at(
                s0,
                h,
            ) by {
                lemma_value_at_of_index(s0, key_index(s0, h));
                lemma_value_at_remove(s0, i0, h);
            }
        }
        let ghost k = r@.len() as int;
        let layout_reqs = self.do_layout();
        append_requests(&mut r, layout_reqs);
        proof {
            assert(r@.take(2) =~= seq![
                WmRequest::ChangeSaveSet { window, insert: false },
                WmRequest::ReparentToRoot { window, x: st.x, y: st.y },
            ]);
            assert(r@.skip(k) =~= layout_reqs@);
        }
        r
    }
}

impl WM {
    /// Restores the incumbent fullscreen window, if any, to its stored
    /// geometry and border, clearing its flag and republishing its
    /// `_NET_WM_STATE`; returns its handle.
    fn restore_fullscreen_incumbent(&mut self) -> (res: (Vec<WmRequest>, Option<u32>))
        requires
            old(self).wf(),
        ensures
            final(self).wf(),
            *final(self) == (WM { windows: final(self).windows, ..*old(self) }),
            final(self).sequences_to_ignore@ == old(self).sequences_to_ignore@,
            final(self).windows.unmanaged_seq() == old(self).windows.unmanaged_seq(),
            final(self).windows.spec_focus() == old(self).windows.spec_focus(),
            final(self).active_window == old(self).active_window,
            final(self).drag_window == old(self).drag_window,
            final(self).resize_window == old(self).resize_window,
            final(self).client_list == old(self).client_list,
            final(self).layout_manager == old(self).layout_manager,
            final(self).screen_width == old(self).screen_width,
            final(self).screen_height == old(self).screen_height,
            final(self).atoms == old(self).atoms,
            (forall|h: u32|
                has_key(final(self).windows.managed_seq(), h) == has_key(
                    old(self).windows.managed_seq(),
                    h,
                )),
            (match res.1 {
                None => *final(self) == *old(self) && res.0@ == Seq::<WmRequest>::empty() && (
                forall|j: int|
                    0 <= j < old(self).windows.managed_seq().len() ==> !(#[trigger] old(
                        self,
                    ).windows.managed_seq()[j]).1.properties.is_fullscreen),
                Some(fsh) => ({
                    let s0 = old(self).windows.managed_seq();
                    let p = (fsh, value_at(s0, fsh));
                    &&& has_key(s0, fsh)
                    &&& p.1.properties.is_fullscreen
                    &&& final(self).windows.managed_seq() == s0.update(
                        key_index(s0, fsh),
                        (
                            fsh,
                            (WindowState {
                                properties: crate::WindowProperties {
                                    is_fullscreen: false,
                                    ..p.1.properties
                                },
                                ..p.1
                            }),
                        ),
                    )
                    &&& res.0@.len() == 2
                    &&& res.0@[0] == (WmRequest::Configure {
                        window: fsh,
                        x: Some(p.1.x as i32),
                        y: Some(p.1.y as i32),
                        width: Some(p.1.width as u32),
                        height: Some(p.1.height as u32),
                        border_width: Some(BORDER_WIDTH),
                        stack_above: false,
                    })
                    &&& is_change_prop32(
                        res.0@[1],
                        fsh,
                        old(self).atoms.net_wm_state,
                        crate::wm::spec_net_wm_state(
                            old(self).atoms,
                            (crate::WindowProperties { is_fullscreen: false, ..p.1.properties }),
                        ),
                        false,
                    )
                }),
            }),
    {
        let ghost s0 = self.windows.managed_seq();
        let mut r: Vec<WmRequest> = Vec::new();
        let fs = self.windows.get_fullscreen_window();
        match fs {
            Some((fsh, fss)) => {
                let mut st2 = fss;
                st2.properties.is_fullscreen = false;
                proof {
                    let p = fs->Some_0;
                    let k = choose|k: int|
                        0 <= k < s0.len() && (#[trigger] s0[k]) == p
                            && s0[k].1.properties.is_fullscreen && (forall|j: int|
                            0 <= j < k ==> !(#[trigger] s0[j]).1.properties.is_fullscreen);
                    assert(s0[k].0 == fsh);
                    assert(has_key(s0, fsh));
                    let fi = key_index(s0, fsh);
                    assert(s0[fi].0 == fsh);
                    if k != fi {
                        assert(s0[k].0 != s0[fi].0);
                    }
                    assert(value_at(s0, fsh) == fss);
                    assert(st2.window == fsh);
                    lemma_managed_not_unmanaged(&self.windows, fsh);
                }
                self.windows.add_window(fsh, st2);
                proof {
                    lemma_keys_of_update(s0, key_index(s0, fsh), st2);
                    lemma_has_key_from_keys(self.windows.managed_seq(), s0);
                    lemma_at_most_one_update(s0, key_index(s0, fsh), fsh, st2);
                }
                r.push(
                    WmRequest::Configure {
                        window: fsh,
                        x: Some(st2.x as i32),
                        y: Some(st2.y as i32),
                        width: Some(st2.width as u32),
                        height: Some(st2.height as u32),
                        border_width: Some(BORDER_WIDTH),
                        stack_above: false,
                    },
                );
                let vals = crate::wm::net_wm_state_values(&self.atoms, &st2.properties);
                r.push(
                    WmRequest::ChangeProperty32 {
                        window: fsh,
                        property: self.atoms.net_wm_state,
                        values: vals,
                        append: false,
                    },
                );
                (r, Some(fsh))
            },
            None => (r, None),
        }
    }

    /// Sizes `window`, if managed, to the whole screen at the origin with no
    /// border, stacks it above, sets its fullscreen and above flags, and
    /// republishes its `_NET_WM_STATE`.
    fn set_window_fullscreen(&mut self, window: u32) -> (r: Vec<WmRequest>)
        requires
            old(self).wf(),
            forall|j: int|
                0 <= j < old(self).windows.managed_seq().len() ==> !(#[trigger] old(
                    self,
                ).windows.managed_seq()[j]).1.properties.is_fullscreen,
        ensures
            final(self).wf(),
            *final(self) == (WM { windows: final(self).windows, ..*old(self) }),
            final(self).sequences_to_ignore@ == old(self).sequences_to_ignore@,
            final(self).windows.unmanaged_seq() == old(self).windows.unmanaged_seq(),
            final(self).windows.spec_focus() == old(self).windows.spec_focus(),
            final(self).active_window == old(self).active_window,
            final(self).drag_window == old(self).drag_window,
            final(self).resize_window == old(self).resize_window,
            final(self).client_list == old(self).client_list,
            final(self).layout_manager == old(self).layout_manager,
            (forall|h: u32|
                has_key(final(self).windows.managed_seq(), h) == has_key(
                    old(self).windows.managed_seq(),
                    h,
                )),
            ({
                let s1 = old(self).windows.managed_seq();
                if has_key(s1, window) {
                    final(self).windows.managed_seq() == s1.update(
                        key_index(s1, window),
                        (
                            window,
                            (WindowState {
                                properties: crate::WindowProperties {
                                    is_fullscreen: true,
                                    above: true,
                                    ..value_at(s1, window).properties
                                },
                                ..value_at(s1, window)
                            }),
                        ),
                    ) && r@.len() == 2 && r@[0] == (WmRequest::Configure {
                        window,
                        x: Some(0),
                        y: Some(0),
                        width: Some(old(self).screen_width as u32),
                        height: Some(old(self).screen_height as u32),
                        border_width: Some(0),
                        stack_above: true,
                    }) && is_change_prop32(
                        r@[1],
                        window,
                        old(self).atoms.net_wm_state,
                        crate::wm::spec_net_wm_state(
                            old(self).atoms,
                            (crate::WindowProperties {
                                is_fullscreen: true,
                                above: true,
                                ..value_at(s1, window).properties
                            }),
                        ),
                        false,
                    )
                } else {
                    *final(self) == *old(self) && r@ == Seq::<WmRequest>::empty()
                }
            }),
    {
        let ghost s1 = self.windows.managed_seq();
        let mut r: Vec<WmRequest> = Vec::new();
        match self.windows.get_window(window) {
            Some(st) => {
                let mut st2 = st;
                st2.properties.is_fullscreen = true;
                st2.properties.above = true;
                proof {
                    assert(st2.window == window);
                    lemma_managed_not_unmanaged(&self.windows, window);
                }
                self.windows.add_window(window, st2);
                proof {
                    lemma_keys_of_update(s1, key_index(s1, window), st2);
                    lemma_has_key_from_keys(self.windows.managed_seq(), s1);
                    let s2 = self.windows.managed_seq();
                    let ti = key_index(s1, window);
                    assert forall|a: int, b: int| 0 <= a < b < s2.len() implies !((
                    #[trigger] s2[a]).1.properties.is_fullscreen && (
                    #[trigger] s2[b]).1.properties.is_fullscreen) by {
                        if a != ti {
                            assert(s2[a] == s1[a]);
                        }
                        if b != ti {
                            assert(s2[b] == s1[b]);
                        }
                    }
                }
                r.push(
                    WmRequest::Configure {
                        window,
                        x: Some(0),
                        y: Some(0),
                        width: Some(self.screen_width as u32),
                        height: Some(self.screen_height as u32),
                        border_width: Some(0),
                        stack_above: true,
                    },
                );
                let vals = crate::wm::net_wm_state_values(&self.atoms, &st2.properties);
                r.push(
                    WmRequest::ChangeProperty32 {
                        window,
                        property: self.atoms.net_wm_state,
                        values: vals,
                        append: false,
                    },
                );
            },
            None => {},
        }
        r
    }

    /// Makes `window` the fullscreen window: a window already fullscreen is
    /// first restored to its stored geometry; then `window`, if managed,
    /// is sized to the whole screen with no border, stacked above, and its
    /// `_NET_WM_STATE` republished. Restoring the incumbent is all that
    /// happens when it is `window` itself.
    #[verifier::rlimit(100)]
    pub fn fullscreen_window(&mut self, window: u32) -> (r: Vec<WmRequest>)
        requires
            old(self).wf(),
        ensures
            final(self).wf(),
            *final(self) == (WM { windows: final(self).windows, ..*old(self) }),
            final(self).sequences_to_ignore@ == old(self).sequences_to_ignore@,
            final(self).windows.unmanaged_seq() == old(self).windows.unmanaged_seq(),
            final(self).windows.spec_focus() == old(self).windows.spec_focus(),
            final(self).active_window == old(self).active_window,
            final(self).drag_window == old(self).drag_window,
            final(self).resize_window == old(self).resize_window,
            (forall|h: u32|
                has_key(final(self).windows.managed_seq(), h) == has_key(
                    old(self).windows.managed_seq(),
                    h,
                )),
            at_most_one_fullscreen(old(self).windows.managed_seq()) ==> ({
                let s2 = final(self).windows.managed_seq();
                forall|i: int|
                    0 <= i < s2.len() ==> ((#[trigger] s2[i]).1.properties.is_fullscreen
                        ==> s2[i].0 == window)
            }),
            at_most_one_fullscreen(old(self).windows.managed_seq()) ==> at_most_one_fullscreen(
                final(self).windows.managed_seq(),
            ),
            (has_key(old(self).windows.managed_seq(), window) && !value_at(
                old(self).windows.managed_seq(),
                window,
            ).properties.is_fullscreen) ==> ({
                let st = value_at(old(self).windows.managed_seq(), window);
                value_at(final(self).windows.managed_seq(), window) == (WindowState {
                    properties: (crate::WindowProperties {
                        is_fullscreen: true,
                        above: true,
                        ..st.properties
                    }),
                    ..st
                })
            }),
            (exists|j: int|
                0 <= j < old(self).windows.managed_seq().len() && (#[trigger] old(
                    self,
                ).windows.managed_seq()[j]).1.properties.is_fullscreen) ==> ({
                let s0 = old(self).windows.managed_seq();
                let fi = choose|j: int|
                    0 <= j < s0.len() && (#[trigger] s0[j]).1.properties.is_fullscreen;
                let fst = s0[fi].1;
                &&& r@.len() >= 2
                &&& r@[0] == (WmRequest::Configure {
                    window: s0[fi].0,
                    x: Some(fst.x as i32),
                    y: Some(fst.y as i32),
                    width: Some(fst.width as u32),
                    height: Some(fst.height as u32),
                    border_width: Some(BORDER_WIDTH),
                    stack_above: false,
                })
                &&& is_change_prop32(
                    r@[1],
                    s0[fi].0,
                    old(self).atoms.net_wm_state,
                    crate::wm::spec_net_wm_state(
                        old(self).atoms,
                        (crate::WindowProperties { is_fullscreen: false, ..fst.properties }),
                    ),
                    false,
                )
            }),
            (has_key(old(self).windows.managed_seq(), window) && !value_at(
                old(self).windows.managed_seq(),
                window,
            ).properties.is_fullscreen) ==> ({
                let st = value_at(old(self).windows.managed_seq(), window);
                &&& r@.len() >= 2
                &&& r@[r@.len() - 2] == (WmRequest::Configure {
                    window,
                    x: Some(0),
                    y: Some(0),
                    width: Some(old(self).screen_width as u32),
                    height: Some(old(self).screen_height as u32),
                    border_width: Some(0),
                    stack_above: true,
                })
                &&& is_change_prop32(
                    r@[r@.len() - 1],
                    window,
                    old(self).atoms.net_wm_state,
                    crate::wm::spec_net_wm_state(
                        old(self).atoms,
                        (crate::WindowProperties {
                            is_fullscreen: true,
                            above: true,
                            ..st.properties
                        }),
                    ),
                    false,
                )
            }),
    {
        let ghost s0 = self.windows.managed_seq();
        let (mut r, incumbent) = self.restore_fullscreen_incumbent();
        let ghost s1 = self.windows.managed_seq();
        match incumbent {
            Some(fsh) => {
                if fsh == window {
                    proof {
                        if at_most_one_fullscreen(s0) {
                            lemma_step_unique(s0, s1, incumbent, window);
                            lemma_pairwise(s1, window);
                        }
                    }
                    return r;
                }
            },
            None => {},
        }
        proof {
            lemma_step_unique(s0, s1, incumbent, window);
        }
        let ghost restore_part = r@;
        let more = self.set_window_fullscreen(window);
        append_requests(&mut r, more);
        proof {
            if has_key(s1, window) {
                assert(r@[r@.len() - 2] == more@[0]);
                assert(r@[r@.len() - 1] == more@[1]);
            }
            match incumbent {
                Some(fsh) => {
                    if exists|j: int|
                        0 <= j < s0.len() && (#[trigger] s0[j]).1.properties.is_fullscreen {
                        let fi = choose|j: int|
                            0 <= j < s0.len() && (#[trigger] s0[j]).1.properties.is_fullscreen;
                        let ki = key_index(s0, fsh);
                        assert(s0[ki].0 == fsh);
                        assert(s0[ki].1 == value_at(s0, fsh));
                        assert(s0[ki].1.properties.is_fullscreen);
                        if fi != ki {
                            if fi < ki {
                                assert(!(s0[fi].1.properties.is_fullscreen
                                    && s0[ki].1.properties.is_fullscreen));
                            } else {
                                assert(!(s0[ki].1.properties.is_fullscreen
                                    && s0[fi].1.properties.is_fullscreen));
                            }
                        }
                        assert(r@[0] == restore_part[0]);
                        assert(r@[1] == restore_part[1]);
                    }
                },
                None => {},
            }
            if at_most_one_fullscreen(s0) {
                let s2 = self.windows.managed_seq();
                assert forall|i: int|
                    0 <= i < s2.len() implies ((#[trigger] s2[i]).1.properties.is_fullscreen
                    ==> s2[i].0 == window) by {
                    if s2[i].1.properties.is_fullscreen && s2[i].0 != window {
                        lemma_step_unique(s0, s1, incumbent, window);
                        if has_key(s1, window) {
                            let ti = key_index(s1, window);
                            assert(s1[ti].0 == window);
                            if i == ti {
                                assert(s2[i].0 == window);
                            } else {
                                assert(s2[i] == s1[i]);
                            }
                        } else {
                            assert(s2 == s1);
                        }
                        assert(false);
                    }
                }
                lemma_pairwise(s2, window);
            }
            if has_key(s0, window) && !value_at(s0, window).properties.is_fullscreen {
                let st = value_at(s0, window);
                match incumbent {
                    Some(fsh) => {
                        assert(value_at(s0, fsh).properties.is_fullscreen);
                        assert(fsh != window);
                        let fi = key_index(s0, fsh);
                        assert(s0[fi].0 == fsh);
                        crate::windows::lemma_value_at_update_other(
                            s0,
                            fi,
                            fsh,
                            s1[fi].1,
                            window,
                        );
                        assert(s1 =~= s0.update(fi, (fsh, s1[fi].1)));
                        assert(value_at(s1, window) == st);
                    },
                    None => {
                        assert(value_at(s1, window) == st);
                    },
                }
                assert(has_key(s1, window));
                let ti = key_index(s1, window);
                assert(s1[ti].0 == window);
                lemma_value_at_update(
                    s1,
                    ti,
                    window,
                    (WindowState {
                        properties: (crate::WindowProperties {
                            is_fullscreen: true,
                            above: true,
                            ..value_at(s1, window).properties
                        }),
                        ..value_at(s1, window)
                    }),
                );
            }
        }
        r
    }

    /// Restores `window` from fullscreen: its stored geometry and border
    /// come back and its `_NET_WM_STATE` is republished.
    #[verifier::rlimit(100)]
    pub fn unfullscreen_window(&mut self, window: u32) -> (r: Vec<WmRequest>)
        requires
            old(self).wf(),
        ensures
            final(self).wf(),
            *final(self) == (WM { windows: final(self).windows, ..*old(self) }),
            final(self).sequences_to_ignore@ == old(self).sequences_to_ignore@,
            final(self).windows.unmanaged_seq() == old(self).windows.unmanaged_seq(),
            final(self).windows.spec_focus() == old(self).windows.spec_focus(),
            final(self).active_window == old(self).active_window,
            final(self).drag_window == old(self).drag_window,
            final(self).resize_window == old(self).resize_window,
            (forall|h: u32|
                has_key(final(self).windows.managed_seq(), h) == has_key(
                    old(self).windows.managed_seq(),
                    h,
                )),
            has_key(old(self).windows.managed_seq(), window) ==> ({
                let s0 = old(self).windows.managed_seq();
                let st = value_at(s0, window);
                let st2 = (WindowState {
                    properties: crate::WindowProperties {
                        is_fullscreen: false,
                        ..st.properties
                    },
                    ..st
                });
                &&& final(self).windows.managed_seq() == s0.update(
                    key_index(s0, window),
                    (window, st2),
                )
                &&& r@.len() == 2
                &&& r@[0] == (WmRequest::Configure {
                    window,
                    x: Some(st.x as i32),
                    y: Some(st.y as i32),
                    width: Some(st.width as u32),
                    height: Some(st.height as u32),
                    border_width: Some(BORDER_WIDTH),
                    stack_above: false,
                })
                &&& is_change_prop32(
                    r@[1],
                    window,
                    old(self).atoms.net_wm_state,
                    crate::wm::spec_net_wm_state(old(self).atoms, st2.properties),
                    false,
                )
            }),
            !has_key(old(self).windows.managed_seq(), window) ==> *final(self) == *old(self) && r@
                == Seq::<WmRequest>::empty(),
    {
        let ghost s0 = self.windows.managed_seq();
        let mut r: Vec<WmRequest> = Vec::new();
        match self.windows.get_window(window) {
            Some(st) => {
                let mut st2 = st;
                st2.properties.is_fullscreen = false;
                proof {
                    assert(st2.window == window);
                    lemma_managed_not_unmanaged(&self.windows, window);
                }
                self.windows.add_window(window, st2);
                proof {
                    lemma_keys_of_update(s0, key_index(s0, window), st2);
                    lemma_has_key_from_keys(self.windows.managed_seq(), s0);
                    lemma_at_most_one_update(s0, key_index(s0, window), window, st2);
                }
                r.push(
                    WmRequest::Configure {
                        window,
                        x: Some(st.x as i32),
                        y: Some(st.y as i32),
                        width: Some(st.width as u32),
                        height: Some(st.height as u32),
                        border_width: Some(BORDER_WIDTH),
                        stack_above: false,
                    },
                );
                let vals = crate::wm::net_wm_state_values(&self.atoms, &st2.properties);
                r.push(
                    WmRequest::ChangeProperty32 {
                        window,
                        property: self.atoms.net_wm_state,
                        values: vals,
                        append: false,
                    },
                );
            },
            None => {},
        }
        r
    }
}

/// Clearing the lone fullscreen entry in place leaves no fullscreen entry.
proof fn lemma_cleared_unique(
    s0: Seq<(u32, WindowState)>,
    s2: Seq<(u32, WindowState)>,
    p: (u32, WindowState),
    window: u32,
)
    requires
        at_most_one_fullscreen(s0),
        keys_distinct(s0),
        p.0 == window,
        exists|k: int|
            0 <= k < s0.len() && (#[trigger] s0[k]) == p && s0[k].1.properties.is_fullscreen && (
            forall|j: int| 0 <= j < k ==> !(#[trigger] s0[j]).1.properties.is_fullscreen),
        s2 == s0.update(
            key_index(s0, window),
            (
                window,
                (WindowState {
                    properties: crate::WindowProperties { is_fullscreen: false, ..p.1.properties },
                    ..p.1
                }),
            ),
        ),
    ensures
        forall|i: int| 0 <= i < s2.len() ==> !(#[trigger] s2[i]).1.properties.is_fullscreen,
        at_most_one_fullscreen(s2),
        forall|i: int|
            0 <= i < s2.len() ==> ((#[trigger] s2[i]).1.properties.is_fullscreen ==> s2[i].0
                == window),
{
    let k = choose|k: int|
        0 <= k < s0.len() && (#[trigger] s0[k]) == p && s0[k].1.properties.is_fullscreen && (
        forall|j: int| 0 <= j < k ==> !(#[trigger] s0[j]).1.properties.is_fullscreen);
    let fi = key_index(s0, window);
    assert(s0[k].0 == window);
    assert(s0[fi].0 == window);
    if k != fi {
        assert(s0[k].0 != s0[fi].0);
    }
    assert forall|i: int| 0 <= i < s2.len() implies !(
    #[trigger] s2[i]).1.properties.is_fullscreen by {
        if i != fi {
            assert(s2[i] == s0[i]);
            if s0[i].1.properties.is_fullscreen {
                assert(false);
            }
        }
    }
}

/// After the incumbent is restored (or none existed), any fullscreen entry
/// not under `window` is impossible, given at most one existed before.
proof fn lemma_step_unique(
    s0: Seq<(u32, WindowState)>,
    s1: Seq<(u32, WindowState)>,
    incumbent: Option<u32>,
    window: u32,
)
    requires
        at_most_one_fullscreen(s0),
        keys_distinct(s0),
        (match incumbent {
            None => s1 == s0 && (forall|j: int|
                0 <= j < s0.len() ==> !(#[trigger] s0[j]).1.properties.is_fullscreen),
            Some(fsh) => ({
                let p = (fsh, value_at(s0, fsh));
                &&& has_key(s0, fsh)
                &&& p.1.properties.is_fullscreen
                &&& s1 == s0.update(
                    key_index(s0, fsh),
                    (
                        fsh,
                        (WindowState {
                            properties: crate::WindowProperties {
                                is_fullscreen: false,
                                ..p.1.properties
                            },
                            ..p.1
                        }),
                    ),
                )
            }),
        }),
    ensures
        forall|j: int| 0 <= j < s1.len() ==> !(#[trigger] s1[j]).1.properties.is_fullscreen,
{
    match incumbent {
        None => {},
        Some(fsh) => {
            let fi = key_index(s0, fsh);
            assert(s0[fi].0 == fsh);
            assert forall|j: int|
                0 <= j < s1.len() implies !(#[trigger] s1[j]).1.properties.is_fullscreen by {
                if j != fi {
                    assert(s1[j] == s0[j]);
                    if s0[j].1.properties.is_fullscreen {
                        assert(s0[fi].1.properties.is_fullscreen);
                        assert(false);
                    }
                }
            }
        },
    }
}

/// Entries that are fullscreen only under one handle are pairwise unique,
/// the handles being distinct.
proof fn lemma_pairwise(s2: Seq<(u32, WindowState)>, window: u32)
    requires
        keys_distinct(s2),
        forall|i: int|
            0 <= i < s2.len() ==> ((#[trigger] s2[i]).1.properties.is_fullscreen ==> s2[i].0
                == window),
    ensures
        at_most_one_fullscreen(s2),
{
    assert forall|i: int, j: int| 0 <= i < j < s2.len() implies !((
    #[trigger] s2[i]).1.properties.is_fullscreen && (
    #[trigger] s2[j]).1.properties.is_fullscreen) by {
        if s2[i].1.properties.is_fullscreen && s2[j].1.properties.is_fullscreen {
            assert(s2[i].0 == window && s2[j].0 == window);
            assert(s2[i].0 != s2[j].0);
        }
    }
}

/// Clamps a 32-bit coordinate into the signed 16-bit range.
pub open spec fn spec_clamp_i16(v: int) -> int {
    if v < -0x8000 {
        -0x8000
    } else if v > 0x7fff {
        0x7fff
    } else {
        v
    }
}

pub fn clamp_i16(v: i32) -> (r: i16)
    ensures
        r as int == spec_clamp_i16(v as int),
{
    if v < -0x8000 {
        -0x8000
    } else if v > 0x7fff {
        0x7fff
    } else {
        v as i16
    }
}

/// Clamps a 32-bit size into the unsigned 16-bit range.
pub open spec fn spec_clamp_u16(v: int) -> int {
    if v < 0 {
        0
    } else if v > 0xffff {
        0xffff
    } else {
        v
    }
}

pub fn clamp_u16(v: i32) -> (r: u16)
    ensures
        r as int == spec_clamp_u16(v as int),
{
    if v < 0 {
        0
    } else if v > 0xffff {
        0xffff
    } else {
        v as u16
    }
}

impl WM {
    /// One spawn request for a command line: the first space-separated token
    /// is the program, the rest are its arguments.
    pub fn spawn_command(&self, command: &String) -> (r: Vec<WmRequest>)
        ensures
            r@.len() == 1,
            (match r@[0] {
                WmRequest::Spawn { program, args } => {
                    let pieces = crate::wm::spec_split_spaces(command@);
                    program@ == pieces[0] && args@.map_values(|t: String| t@) == pieces.skip(1)
                },
                _ => false,
            }),
    {
        let mut parts = crate::wm::split_spaces(command.as_str());
        let ghost pieces = crate::wm::spec_split_spaces(command@);
        proof {
            assert(pieces.len() >= 1);
            assert(parts@.map_values(|t: String| t@)[0] == pieces[0]);
        }
        let program = parts.remove(0);
        let mut r: Vec<WmRequest> = Vec::new();
        r.push(WmRequest::Spawn { program, args: parts });
        proof {
            let f = |t: String| t@;
            assert(parts@.map_values(f) =~= pieces.skip(1));
        }
        r
    }

    /// Runs a bound command: spawn a program, ask the focused client to
    /// close, start a pointer move or resize session on `target`, toggle
    /// fullscreen, or toggle floating. `keyboard_move` restricts a move to
    /// windows that already float, as a keyboard-driven move does.
    fn run_command(
        &mut self,
        command: &crate::WMCommand,
        target: u32,
        event_x: i16,
        event_y: i16,
        keyboard_move: bool,
    ) -> (r: Vec<WmRequest>)
        requires
            old(self).wf(),
        ensures
            final(self).wf(),
            *final(self) == (WM {
                windows: final(self).windows,
                client_list: final(self).client_list,
                active_window: final(self).active_window,
                drag_window: final(self).drag_window,
                resize_window: final(self).resize_window,
                pointer_grabbed: final(self).pointer_grabbed,
                ..*old(self)
            }),
            final(self).sequences_to_ignore@ == old(self).sequences_to_ignore@,
            command is CloseWindow ==> ({
                match old(self).windows.spec_focus() {
                    Some(f) => if f != old(self).root {
                        *final(self) == *old(self) && r@ == seq![
                            WmRequest::SendEvent {
                                window: f,
                                message_type: old(self).atoms.wm_protocols,
                                data0: old(self).atoms.wm_delete_window,
                            },
                        ]
                    } else {
                        *final(self) == *old(self) && r@ == Seq::<WmRequest>::empty()
                    },
                    None => *final(self) == *old(self) && r@ == Seq::<WmRequest>::empty(),
                }
            }),
            (command matches crate::WMCommand::Execute(c)) ==> ({
                let c = command->Execute_0;
                let pieces = crate::wm::spec_split_spaces(c@);
                *final(self) == *old(self) && r@.len() == 1 && (match r@[0] {
                    WmRequest::Spawn { program, args } => program@ == pieces[0]
                        && args@.map_values(|t: String| t@) == pieces.skip(1),
                    _ => false,
                })
            }),
            command is MoveWindow ==> move_session_post(
                *old(self),
                *final(self),
                target,
                event_x,
                event_y,
                keyboard_move,
            ),
            command is ResizeWindow ==> resize_session_post(
                *old(self),
                *final(self),
                target,
                event_x,
                event_y,
            ),
    {
        match command {
            crate::WMCommand::Execute(c) => {
                let reqs = self.spawn_command(c);
                reqs
            },
            crate::WMCommand::CloseWindow => {
                match self.windows.focus_handle() {
                    Some(f) => {
                        proof {
                            assert(value_at(old(self).windows.managed_seq(), f).window == f);
                        }
                        if f != self.root {
                            self.send_delete(f)
                        } else {
                            Vec::new()
                        }
                    },
                    None => Vec::new(),
                }
            },
            crate::WMCommand::MoveWindow => {
                let mut r: Vec<WmRequest> = Vec::new();
                match self.windows.get_window(target) {
                    Some(st) => {
                        if (keyboard_move && !st.is_floating) || !st.can_move()
                            || self.resize_window.is_some() {
                            return r;
                        }
                        let ghost s0 = self.windows.managed_seq();
                        let mut st2 = st;
                        st2.is_floating = true;
                        proof {
                            assert(st2.window == target);
                            lemma_managed_not_unmanaged(&self.windows, target);
                        }
                        self.windows.add_window(target, st2);
                        proof {
                            lemma_keys_of_update(s0, key_index(s0, target), st2);
                            lemma_has_key_from_keys(self.windows.managed_seq(), s0);
                            lemma_at_most_one_update(s0, key_index(s0, target), target, st2);
                        }
                        let grab = self.conditionally_grab_pointer(target);
                        append_requests(&mut r, grab);
                        r.push(WmRequest::SetCursor { window: target, cursor: crate::wm::CursorKind::Move });
                        let ax = clamp_i16(st.x as i32 - event_x as i32);
                        let ay = clamp_i16(st.y as i32 - event_y as i32);
                        self.drag_window = Some((target, (ax, ay)));
                        let raise = self.raise_window(target);
                        append_requests(&mut r, raise);
                        proof {
                            assert(has_key(self.windows.managed_seq(), target));
                        }
                        let focus = self.focus_window(target);
                        append_requests(&mut r, focus);
                        let layout = self.do_layout();
                        append_requests(&mut r, layout);
                    },
                    None => {},
                }
                r
            },
            crate::WMCommand::ResizeWindow(_) => {
                let mut r: Vec<WmRequest> = Vec::new();
                match self.windows.get_window(target) {
                    Some(st) => {
                        if !st.can_resize() || self.drag_window.is_some() {
                            return r;
                        }
                        let grab = self.conditionally_grab_pointer(target);
                        append_requests(&mut r, grab);
                        r.push(WmRequest::SetCursor { window: target, cursor: crate::wm::CursorKind::Resize });
                        let ax = clamp_i16(st.x as i32 - event_x as i32);
                        let ay = clamp_i16(st.y as i32 - event_y as i32);
                        self.resize_window = Some((target, ((st.width, st.height), (ax, ay))));
                        let raise = self.raise_window(target);
                        append_requests(&mut r, raise);
                    },
                    None => {},
                }
                r
            },
            crate::WMCommand::ToggleFullscreen => {
                match self.windows.focused() {
                    Some(st) => {
                        if st.properties.is_fullscreen {
                            self.unfullscreen_window(st.window)
                        } else {
                            self.fullscreen_window(st.window)
                        }
                    },
                    None => Vec::new(),
                }
            },
            crate::WMCommand::ToggleFloating => {
                let mut r: Vec<WmRequest> = Vec::new();
                match self.windows.focused() {
                    Some(st) => {
                        let ghost s0 = self.windows.managed_seq();
                        let mut st2 = st;
                        st2.is_floating = !st2.is_floating;
                        proof {
                            let f = old(self).windows.spec_focus()->Some_0;
                            assert(st2.window == f);
                            lemma_managed_not_unmanaged(&self.windows, st.window);
                        }
                        self.windows.add_window(st.window, st2);
                        proof {
                            lemma_keys_of_update(s0, key_index(s0, st.window), st2);
                            lemma_has_key_from_keys(self.windows.managed_seq(), s0);
                            lemma_at_most_one_update(s0, key_index(s0, st.window), st.window, st2);
                        }
                        let layout = self.do_layout();
                        append_requests(&mut r, layout);
                    },
                    None => {},
                }
                r
            },
        }
    }

    /// Raises one window: configures it above its siblings and moves it to
    /// the front of the registry order, republishing the client list when
    /// the order changed.
    pub fn raise_window(&mut self, window: u32) -> (r: Vec<WmRequest>)
        requires
            old(self).wf(),
        ensures
            final(self).wf(),
            *final(self) == (WM {
                windows: final(self).windows,
                client_list: final(self).client_list,
                ..*old(self)
            }),
            final(self).windows.managed_seq() == spec_move_top(
                old(self).windows.managed_seq(),
                window,
            ),
            final(self).windows.unmanaged_seq() == old(self).windows.unmanaged_seq(),
            final(self).windows.spec_focus() == old(self).windows.spec_focus(),
            final(self).active_window == old(self).active_window,
            final(self).layout_manager == old(self).layout_manager,
            final(self).drag_window == old(self).drag_window,
            final(self).resize_window == old(self).resize_window,
            final(self).sequences_to_ignore@ == old(self).sequences_to_ignore@,
            (forall|h: u32|
                has_key(final(self).windows.managed_seq(), h) == has_key(
                    old(self).windows.managed_seq(),
                    h,
                )),
            r@[0] == (WmRequest::Configure {
                window,
                x: None,
                y: None,
                width: None,
                height: None,
                border_width: None,
                stack_above: true,
            }),
            r@.len() >= 1,
    {
        let ghost s0 = self.windows.managed_seq();
        let mut r: Vec<WmRequest> = Vec::new();
        r.push(
            WmRequest::Configure {
                window,
                x: None,
                y: None,
                width: None,
                height: None,
                border_width: None,
                stack_above: true,
            },
        );
        let present = self.windows.get_index_of(window);
        self.windows.move_to_top(window);
        proof {
            lemma_move_top_has_key(s0, window);
            assert(self.windows.managed_seq() == spec_move_top(s0, window));
        }
        if present.is_some() {
            let keys = self.windows.managed_handles();
            self.client_list = self.windows.managed_handles();
            r.push(
                WmRequest::ChangeProperty32 {
                    window: self.root,
                    property: self.atoms.net_client_list,
                    values: keys,
                    append: false,
                },
            );
        }
        r
    }

    /// Dispatches a bound key press.
    pub fn handle_key_press(&mut self, detail: u8, state: u16, event: u32, event_x: i16, event_y: i16) -> (r: Vec<WmRequest>)
        requires
            old(self).wf(),
        ensures
            final(self).wf(),
            final(self).sequences_to_ignore@ == old(self).sequences_to_ignore@,
            (spec_lookup_key(old(self).key_mapping@, detail, state) matches Some(
                crate::WMCommand::CloseWindow,
            )) ==> ({
                match old(self).windows.spec_focus() {
                    Some(f) => if f != old(self).root {
                        *final(self) == *old(self) && r@ == seq![
                            WmRequest::SendEvent {
                                window: f,
                                message_type: old(self).atoms.wm_protocols,
                                data0: old(self).atoms.wm_delete_window,
                            },
                        ]
                    } else {
                        *final(self) == *old(self) && r@ == Seq::<WmRequest>::empty()
                    },
                    None => *final(self) == *old(self) && r@ == Seq::<WmRequest>::empty(),
                }
            }),
            spec_lookup_key(old(self).key_mapping@, detail, state) matches Some(
                crate::WMCommand::Execute(cmd),
            ) ==> ({
                let pieces = crate::wm::spec_split_spaces(cmd@);
                *final(self) == *old(self) && r@.len() == 1 && (match r@[0] {
                    WmRequest::Spawn { program, args } => program@ == pieces[0]
                        && args@.map_values(|t: String| t@) == pieces.skip(1),
                    _ => false,
                })
            }),
            spec_lookup_key(old(self).key_mapping@, detail, state) is None ==> r@ == Seq::<
                WmRequest,
            >::empty() && *final(self) == *old(self),
            (spec_lookup_key(old(self).key_mapping@, detail, state) matches Some(
                crate::WMCommand::MoveWindow,
            )) ==> move_session_post(*old(self), *final(self), event, event_x, event_y, true),
            (spec_lookup_key(old(self).key_mapping@, detail, state) matches Some(
                crate::WMCommand::ResizeWindow(_),
            )) ==> resize_session_post(*old(self), *final(self), event, event_x, event_y),
    {
        let cmd = crate::wm::lookup_key_command(&self.key_mapping, detail, state);
        match cmd {
            Some(c) => self.run_command(&c, event, event_x, event_y, true),
            None => Vec::new(),
        }
    }

    /// Dispatches a bound button press; the pressed child window is the
    /// target of a move or resize.
    pub fn handle_button_press(&mut self, detail: u8, state: u16, child: u32, event_x: i16, event_y: i16) -> (r: Vec<WmRequest>)
        requires
            old(self).wf(),
        ensures
            final(self).wf(),
            final(self).sequences_to_ignore@ == old(self).sequences_to_ignore@,
            crate::wm::spec_lookup_button(old(self).button_mapping@, detail, state) is None
                ==> r@ == Seq::<WmRequest>::empty() && *final(self) == *old(self),
            (crate::wm::spec_lookup_button(old(self).button_mapping@, detail, state) matches Some(
                crate::WMCommand::MoveWindow,
            )) ==> move_session_post(*old(self), *final(self), child, event_x, event_y, false),
            (crate::wm::spec_lookup_button(old(self).button_mapping@, detail, state) matches Some(
                crate::WMCommand::ResizeWindow(_),
            )) ==> resize_session_post(*old(self), *final(self), child, event_x, event_y),
            (crate::wm::spec_lookup_button(old(self).button_mapping@, detail, state) matches Some(
                crate::WMCommand::CloseWindow,
            )) ==> ({
                match old(self).windows.spec_focus() {
                    Some(f) => if f != old(self).root {
                        *final(self) == *old(self) && r@ == seq![
                            WmRequest::SendEvent {
                                window: f,
                                message_type: old(self).atoms.wm_protocols,
                                data0: old(self).atoms.wm_delete_window,
                            },
                        ]
                    } else {
                        *final(self) == *old(self) && r@ == Seq::<WmRequest>::empty()
                    },
                    None => *final(self) == *old(self) && r@ == Seq::<WmRequest>::empty(),
                }
            }),
    {
        let cmd = crate::wm::lookup_button_command(&self.button_mapping, detail, state);
        match cmd {
            Some(c) => self.run_command(&c, child, event_x, event_y, false),
            None => Vec::new(),
        }
    }

    /// Ends any drag or resize session: restores the cursor, releases the
    /// pointer.
    pub fn handle_button_release(&mut self) -> (r: Vec<WmRequest>)
        requires
            old(self).wf(),
        ensures
            final(self).wf(),
            final(self).sequences_to_ignore@ == old(self).sequences_to_ignore@,
            final(self).drag_window is None,
            final(self).resize_window is None,
            !final(self).pointer_grabbed,
            final(self).windows == old(self).windows,
            final(self).client_list == old(self).client_list,
            final(self).active_window == old(self).active_window,
            final(self).layout_manager == old(self).layout_manager,
            r@ == (match old(self).drag_window {
                Some((w, _)) => seq![
                    WmRequest::SetCursor { window: w, cursor: crate::wm::CursorKind::Normal },
                ],
                None => Seq::<WmRequest>::empty(),
            }) + (match old(self).resize_window {
                Some((w, _)) => seq![
                    WmRequest::SetCursor { window: w, cursor: crate::wm::CursorKind::Normal },
                ],
                None => Seq::<WmRequest>::empty(),
            }) + seq![WmRequest::UngrabPointer],
    {
        let mut r: Vec<WmRequest> = Vec::new();
        match self.drag_window {
            Some((w, _)) => {
                r.push(WmRequest::SetCursor { window: w, cursor: crate::wm::CursorKind::Normal });
            },
            None => {},
        }
        match self.resize_window {
            Some((w, _)) => {
                r.push(WmRequest::SetCursor { window: w, cursor: crate::wm::CursorKind::Normal });
            },
            None => {},
        }
        self.drag_window = None;
        self.resize_window = None;
        self.pointer_grabbed = false;
        r.push(WmRequest::UngrabPointer);
        proof {
            assert(r@ =~= (match old(self).drag_window {
                Some((w, _)) => seq![
                    WmRequest::SetCursor { window: w, cursor: crate::wm::CursorKind::Normal },
                ],
                None => Seq::<WmRequest>::empty(),
            }) + (match old(self).resize_window {
                Some((w, _)) => seq![
                    WmRequest::SetCursor { window: w, cursor: crate::wm::CursorKind::Normal },
                ],
                None => Seq::<WmRequest>::empty(),
            }) + seq![WmRequest::UngrabPointer]);
        }
        r
    }

    /// Applies pointer motion to the active drag or resize session, at most
    /// sixty times a second.
    pub fn handle_motion_notify(&mut self, time: u32, root_x: i16, root_y: i16, event_x: i16, event_y: i16) -> (r: Vec<WmRequest>)
        requires
            old(self).wf(),
        ensures
            final(self).wf(),
            final(self).sequences_to_ignore@ == old(self).sequences_to_ignore@,
            time.wrapping_sub(old(self).last_timestamp) <= 16 ==> r@ == Seq::<
                WmRequest,
            >::empty() && *final(self) == *old(self),
            time.wrapping_sub(old(self).last_timestamp) > 16 ==> final(self).last_timestamp == time,
            (time.wrapping_sub(old(self).last_timestamp) > 16 && old(self).drag_window is None
                && old(self).resize_window is None) ==> ({
                &&& r@ == Seq::<WmRequest>::empty()
                &&& *final(self) == (WM { last_timestamp: time, ..*old(self) })
            }),
            old(self).drag_window matches Some((w, (ax, ay))) ==> (time.wrapping_sub(
                old(self).last_timestamp,
            ) > 16 ==> ({
                let x = spec_clamp_i16(ax + root_x);
                let y = spec_clamp_i16(ay + root_y);
                let s0 = old(self).windows.managed_seq();
                &&& r@ == seq![
                    WmRequest::Configure {
                        window: w,
                        x: Some(x as i32),
                        y: Some(y as i32),
                        width: None,
                        height: None,
                        border_width: None,
                        stack_above: false,
                    },
                ]
                &&& final(self).windows.managed_seq() == (if has_key(s0, w) {
                    s0.update(
                        key_index(s0, w),
                        (w, (WindowState { x: x as i16, y: y as i16, ..value_at(s0, w) })),
                    )
                } else {
                    s0
                })
                &&& final(self).drag_window == old(self).drag_window
                &&& final(self).resize_window == old(self).resize_window
                &&& final(self).windows.spec_focus() == old(self).windows.spec_focus()
                &&& final(self).windows.unmanaged_seq() == old(self).windows.unmanaged_seq()
            })),
            old(self).resize_window matches Some((w, ((w0, h0), (ax, ay)))) ==> ((
            time.wrapping_sub(old(self).last_timestamp) > 16 && old(self).drag_window is None)
                ==> ({
                let nw = spec_clamp_u16(w0 + ax + event_x);
                let nh = spec_clamp_u16(h0 + ay + event_y);
                let s0 = old(self).windows.managed_seq();
                &&& r@ == seq![
                    WmRequest::Configure {
                        window: w,
                        x: None,
                        y: None,
                        width: Some(nw as u32),
                        height: Some(nh as u32),
                        border_width: None,
                        stack_above: false,
                    },
                ]
                &&& final(self).windows.managed_seq() == (if has_key(s0, w) {
                    s0.update(
                        key_index(s0, w),
                        (
                            w,
                            (WindowState {
                                width: nw as u16,
                                height: nh as u16,
                                ..value_at(s0, w)
                            }),
                        ),
                    )
                } else {
                    s0
                })
                &&& final(self).drag_window == old(self).drag_window
                &&& final(self).resize_window == old(self).resize_window
                &&& final(self).windows.spec_focus() == old(self).windows.spec_focus()
                &&& final(self).windows.unmanaged_seq() == old(self).windows.unmanaged_seq()
            })),
    {
        if time.wrapping_sub(self.last_timestamp) <= 16 {
            return Vec::new();
        }
        self.last_timestamp = time;
        let mut r: Vec<WmRequest> = Vec::new();
        match self.drag_window {
            Some((win, (ax, ay))) => {
                let x = clamp_i16(ax as i32 + root_x as i32);
                let y = clamp_i16(ay as i32 + root_y as i32);
                r.push(
                    WmRequest::Configure {
                        window: win,
                        x: Some(x as i32),
                        y: Some(y as i32),
                        width: None,
                        height: None,
                        border_width: None,
                        stack_above: false,
                    },
                );
                let ghost s0 = self.windows.managed_seq();
                match self.windows.get_window(win) {
                    Some(st) => {
                        let mut st2 = st;
                        st2.x = x;
                        st2.y = y;
                        proof {
                            assert(st2.window == win);
                            lemma_managed_not_unmanaged(&self.windows, win);
                        }
                        self.windows.add_window(win, st2);
                        proof {
                            lemma_keys_of_update(s0, key_index(s0, win), st2);
                            lemma_at_most_one_update(s0, key_index(s0, win), win, st2);
                        }
                    },
                    None => {},
                }
            },
            None => {
                match self.resize_window {
                    Some((win, ((w0, h0), (ax, ay)))) => {
                        let w = clamp_u16(w0 as i32 + ax as i32 + event_x as i32);
                        let h = clamp_u16(h0 as i32 + ay as i32 + event_y as i32);
                        r.push(
                            WmRequest::Configure {
                                window: win,
                                x: None,
                                y: None,
                                width: Some(w as u32),
                                height: Some(h as u32),
                                border_width: None,
                                stack_above: false,
                            },
                        );
                        let ghost s0 = self.windows.managed_seq();
                        match self.windows.get_window(win) {
                            Some(st) => {
                                let mut st2 = st;
                                st2.width = w;
                                st2.height = h;
                                proof {
                                    assert(st2.window == win);
                                    lemma_managed_not_unmanaged(&self.windows, win);
                                }
                                self.windows.add_window(win, st2);
                                proof {
                                    lemma_keys_of_update(s0, key_index(s0, win), st2);
                                    lemma_at_most_one_update(s0, key_index(s0, win), win, st2);
                                }
                            },
                            None => {},
                        }
                    },
                    None => {},
                }
            },
        }
        r
    }

    /// Focuses the window the pointer entered, when it is a managed normal
    /// window.
    pub fn handle_enter(&mut self, window: u32) -> (r: Vec<WmRequest>)
        requires
            old(self).wf(),
        ensures
            final(self).wf(),
            final(self).sequences_to_ignore@ == old(self).sequences_to_ignore@,
            (has_key(old(self).windows.managed_seq(), window) && value_at(
                old(self).windows.managed_seq(),
                window,
            ).window_type == crate::WindowType::Normal) ==> ({
                &&& final(self).windows.spec_focus() == Some(window)
                &&& final(self).windows.spec_previous_focus() == old(self).windows.spec_focus()
                &&& final(self).active_window == Some(window)
            }),
            (has_key(old(self).windows.managed_seq(), window) && value_at(
                old(self).windows.managed_seq(),
                window,
            ).window_type != crate::WindowType::Normal) ==> r@ == Seq::<WmRequest>::empty()
                && *final(self) == *old(self),
            !has_key(old(self).windows.managed_seq(), window) ==> r@ == Seq::<
                WmRequest,
            >::empty() && *final(self) == *old(self),
    {
        match self.windows.get_window(window) {
            Some(st) => {
                if matches!(st.window_type, crate::WindowType::Normal) {
                    self.focus_window(window)
                } else {
                    Vec::new()
                }
            },
            None => Vec::new(),
        }
    }

    /// Unfocuses when the pointer leaves the focused window.
    pub fn handle_leave(&mut self, window: u32) -> (r: Vec<WmRequest>)
        requires
            old(self).wf(),
        ensures
            final(self).wf(),
            final(self).sequences_to_ignore@ == old(self).sequences_to_ignore@,
            (has_key(old(self).windows.managed_seq(), window) && old(self).windows.spec_focus()
                == Some(window)) ==> ({
                &&& final(self).windows.spec_focus() is None
                &&& final(self).windows.spec_previous_focus() == old(self).windows.spec_focus()
                &&& final(self).active_window is None
            }),
            !(has_key(old(self).windows.managed_seq(), window) && old(self).windows.spec_focus()
                == Some(window)) ==> r@ == Seq::<WmRequest>::empty() && *final(self) == *old(self),
    {
        let focused = self.windows.focus_handle();
        match self.windows.get_window(window) {
            Some(st) => {
                match focused {
                    Some(f) => {
                        if f == window {
                            self.unfocus()
                        } else {
                            Vec::new()
                        }
                    },
                    None => Vec::new(),
                }
            },
            None => Vec::new(),
        }
    }

    /// Queues a window for a redraw at the next refresh.
    pub fn handle_expose(&mut self, window: u32)
        requires
            old(self).wf(),
        ensures
            final(self).wf(),
            *final(self) == (WM { pending_expose: final(self).pending_expose, ..*old(self) }),
            old(self).pending_expose@.contains(window) ==> final(self).pending_expose == old(
                self,
            ).pending_expose,
            !old(self).pending_expose@.contains(window) ==> final(self).pending_expose@ == old(
                self,
            ).pending_expose@.push(window),
    {
        let mut i: usize = 0;
        let ghost pe = self.pending_expose@;
        while i < self.pending_expose.len()
            invariant
                *self == *old(self),
                old(self).wf(),
                pe == self.pending_expose@,
                0 <= i <= pe.len(),
                forall|j: int| 0 <= j < i ==> pe[j] != window,
            decreases pe.len() - i,
        {
            if self.pending_expose[i] == window {
                proof {
                    assert(pe[i as int] == window);
                    assert(pe.contains(window));
                }
                return ;
            }
            i += 1;
        }
        proof {
            assert(!pe.contains(window));
        }
        self.pending_expose.push(window);
    }

    /// Redraws the bar once for every queued managed window, then clears the
    /// queue.
    pub fn refresh(&mut self) -> (r: Vec<WmRequest>)
        requires
            old(self).wf(),
        ensures
            final(self).wf(),
            *final(self) == (WM { pending_expose: final(self).pending_expose, ..*old(self) }),
            final(self).pending_expose@ == Seq::<u32>::empty(),
            r@ == spec_redraws(old(self).pending_expose@, old(self).windows.managed_seq()),
    {
        let mut r: Vec<WmRequest> = Vec::new();
        let mut i: usize = 0;
        let n = self.pending_expose.len();
        let ghost pe = self.pending_expose@;
        let ghost ms = self.windows.managed_seq();
        while i < n
            invariant
                *self == *old(self),
                old(self).wf(),
                pe == self.pending_expose@,
                ms == self.windows.managed_seq(),
                n == pe.len(),
                0 <= i <= n,
                r@ == spec_redraws(pe.take(i as int), ms),
            decreases n - i,
        {
            proof {
                assert(pe.take(i as int + 1).drop_last() =~= pe.take(i as int));
                assert(pe.take(i as int + 1).last() == pe[i as int]);
            }
            let win = self.pending_expose[i];
            if self.windows.get_window(win).is_some() {
                r.push(WmRequest::RedrawBar);
            }
            i += 1;
        }
        proof {
            assert(pe.take(pe.len() as int) =~= pe);
        }
        self.pending_expose = Vec::new();
        r
    }

    /// Forwards a client's configure request, honouring every field except
    /// the stacking ones.
    pub fn handle_configure_request(
        &self,
        window: u32,
        x: Option<i32>,
        y: Option<i32>,
        width: Option<u32>,
        height: Option<u32>,
        border_width: Option<u32>,
    ) -> (r: Vec<WmRequest>)
        ensures
            r@ == seq![
                WmRequest::Configure {
                    window,
                    x,
                    y,
                    width,
                    height,
                    border_width,
                    stack_above: false,
                },
            ],
    {
        let mut r: Vec<WmRequest> = Vec::new();
        r.push(WmRequest::Configure { window, x, y, width, height, border_width, stack_above: false });
        r
    }
}

/// The event's sequence number sits on top of the ignore heap, so the whole
/// event is dropped.
pub open spec fn event_dropped(pre: WM, wire_sequence: Option<u16>) -> bool {
    match wire_sequence {
        Some(sq) => crate::wm::spec_ignore_scan(pre.sequences_to_ignore@, sq).1,
        None => false,
    }
}

/// A move command's outcome on the sessions: a drag session starts, with
/// the pointer anchor taken from the target's stored position, only for a
/// managed window that permits moving while no resize session runs (and,
/// for a keyboard-driven move, only one that already floats); otherwise
/// both sessions stay as they were. A resize session is never started.
pub open spec fn move_session_post(
    pre: WM,
    post: WM,
    target: u32,
    event_x: i16,
    event_y: i16,
    keyboard_move: bool,
) -> bool {
    let s0 = pre.windows.managed_seq();
    if has_key(s0, target) && !value_at(s0, target).properties.is_fullscreen
        && pre.resize_window is None && (!keyboard_move || value_at(s0, target).is_floating) {
        &&& post.drag_window == Some(
            (
                target,
                (
                    spec_clamp_i16(value_at(s0, target).x - event_x) as i16,
                    spec_clamp_i16(value_at(s0, target).y - event_y) as i16,
                ),
            ),
        )
        &&& post.resize_window is None
        &&& has_key(post.windows.managed_seq(), target)
        &&& value_at(post.windows.managed_seq(), target).is_floating
    } else {
        &&& post.drag_window == pre.drag_window
        &&& post.resize_window == pre.resize_window
    }
}

/// A resize command's outcome on the sessions: a resize session starts,
/// remembering the target's stored size and the pointer anchor, only for a
/// managed window that permits resizing while no drag session runs;
/// otherwise both sessions stay as they were. A drag session is never
/// started.
pub open spec fn resize_session_post(
    pre: WM,
    post: WM,
    target: u32,
    event_x: i16,
    event_y: i16,
) -> bool {
    let s0 = pre.windows.managed_seq();
    if has_key(s0, target) && !value_at(s0, target).properties.is_fullscreen
        && pre.drag_window is None {
        &&& post.resize_window == Some(
            (
                target,
                (
                    (value_at(s0, target).width, value_at(s0, target).height),
                    (
                        spec_clamp_i16(value_at(s0, target).x - event_x) as i16,
                        spec_clamp_i16(value_at(s0, target).y - event_y) as i16,
                    ),
                ),
            ),
        )
        &&& post.drag_window is None
    } else {
        &&& post.drag_window == pre.drag_window
        &&& post.resize_window == pre.resize_window
    }
}

/// A close command's outcome: one delete message to the focused non-root
/// window, nothing otherwise, and no other change.
pub open spec fn close_post(pre: WM, post: WM, r: Seq<WmRequest>) -> bool {
    match pre.windows.spec_focus() {
        Some(f) => if f != pre.root {
            r == seq![
                WmRequest::SendEvent {
                    window: f,
                    message_type: pre.atoms.wm_protocols,
                    data0: pre.atoms.wm_delete_window,
                },
            ] && unchanged_but_heap(&post, &pre)
        } else {
            r == Seq::<WmRequest>::empty() && unchanged_but_heap(&post, &pre)
        },
        None => r == Seq::<WmRequest>::empty() && unchanged_but_heap(&post, &pre),
    }
}

/// An execute command's outcome: exactly one spawn request whose program is
/// the first space-separated token and whose arguments are the rest.
pub open spec fn spawn_post(r: Seq<WmRequest>, command: Seq<char>) -> bool {
    let pieces = crate::wm::spec_split_spaces(command);
    &&& r.len() == 1
    &&& (match r[0] {
        WmRequest::Spawn { program, args } => program@ == pieces[0] && args@.map_values(
            |t: String| t@,
        ) == pieces.skip(1),
        _ => false,
    })
}

/// Every part of the manager's state but the sequence-ignore heap is the
/// same in the two states.
pub open spec fn unchanged_but_heap(a: &WM, b: &WM) -> bool {
    &&& a.windows == b.windows
    &&& a.layout_manager == b.layout_manager
    &&& a.client_list == b.client_list
    &&& a.active_window == b.active_window
    &&& a.drag_window == b.drag_window
    &&& a.resize_window == b.resize_window
    &&& a.pending_expose == b.pending_expose
    &&& a.key_mapping == b.key_mapping
    &&& a.button_mapping == b.button_mapping
    &&& a.pointer_grabbed == b.pointer_grabbed
    &&& a.last_timestamp == b.last_timestamp
    &&& a.screen_width == b.screen_width
    &&& a.screen_height == b.screen_height
    &&& a.root == b.root
    &&& a.atoms == b.atoms
    &&& a.config == b.config
}

impl WM {
    /// Handles a `_NET_WM_STATE` client message: applies the action to the
    /// two property atoms on the target window's flags, republishes the
    /// window's state, and sizes the window in or out of fullscreen when
    /// that flag changes. An unknown action is reported as an error and the
    /// message dropped; other message types are ignored.
    #[verifier::rlimit(100)]
    #[verifier::spinoff_prover]
    pub fn handle_client_message(&mut self, window: u32, message_type: u32, data: &Vec<u32>) -> (r:
        Result<Vec<WmRequest>, crate::XlibError>)
        requires
            old(self).wf(),
        ensures
            final(self).wf(),
            final(self).sequences_to_ignore@ == old(self).sequences_to_ignore@,
            message_type != old(self).atoms.net_wm_state ==> (r matches Ok(v) && v@ == Seq::<
                WmRequest,
            >::empty() && *final(self) == *old(self)),
            (message_type == old(self).atoms.net_wm_state && data@.len() < 3) ==> r == Err::<
                Vec<WmRequest>,
                crate::XlibError,
            >(crate::XlibError::PropertyMissing) && *final(self) == *old(self),
            (message_type == old(self).atoms.net_wm_state && data@.len() >= 3 && !has_key(
                old(self).windows.managed_seq(),
                window,
            )) ==> (r matches Ok(v) && v@ == Seq::<WmRequest>::empty() && *final(self) == *old(
                self,
            )),
            (message_type == old(self).atoms.net_wm_state && data@.len() >= 3 && has_key(
                old(self).windows.managed_seq(),
                window,
            ) && data@[0] > 2) ==> r == Err::<Vec<WmRequest>, crate::XlibError>(
                crate::XlibError::InvalidAction,
            ) && *final(self) == *old(self),
            (message_type == old(self).atoms.net_wm_state && data@.len() >= 3 && has_key(
                old(self).windows.managed_seq(),
                window,
            ) && data@[0] <= 2) ==> ({
                let s0 = old(self).windows.managed_seq();
                let p0 = value_at(s0, window).properties;
                let action = (if data@[0] == 0 {
                    crate::PropertyAction::Remove
                } else if data@[0] == 1 {
                    crate::PropertyAction::Add
                } else {
                    crate::PropertyAction::Toggle
                });
                let p1 = crate::spec_set_window_property(old(self).atoms, data@[1], action, p0);
                let p2 = crate::spec_set_window_property(old(self).atoms, data@[2], action, p1);
                &&& r is Ok
                &&& has_key(final(self).windows.managed_seq(), window)
                &&& value_at(final(self).windows.managed_seq(), window).properties == (
                if p2.is_fullscreen && !p0.is_fullscreen {
                    crate::WindowProperties { is_fullscreen: true, above: true, ..p2 }
                } else {
                    p2
                })
            }),
    {
        if message_type != self.atoms.net_wm_state {
            return Ok(Vec::new());
        }
        if data.len() < 3 {
            return Err(crate::XlibError::PropertyMissing);
        }
        match self.windows.get_window(window) {
            Some(st) => {
                let action = match crate::WindowState::get_property_action(data[0]) {
                    Ok(a) => a,
                    Err(e) => {
                        return Err(e);
                    },
                };
                let mut props = st.properties;
                crate::WindowState::set_window_property(&self.atoms, data[1], &action, &mut props);
                crate::WindowState::set_window_property(&self.atoms, data[2], &action, &mut props);
                let r = self.apply_state_change(window, props);
                Ok(r)
            },
            None => Ok(Vec::new()),
        }
    }

    /// Stores the new flag set of a managed window, republishing its
    /// `_NET_WM_STATE`; a fullscreen flag that turns on or off also sizes
    /// the window in or out of fullscreen.
    #[verifier::rlimit(100)]
    #[verifier::spinoff_prover]
    fn apply_state_change(&mut self, window: u32, props: crate::WindowProperties) -> (r: Vec<
        WmRequest,
    >)
        requires
            old(self).wf(),
            has_key(old(self).windows.managed_seq(), window),
        ensures
            final(self).wf(),
            *final(self) == (WM { windows: final(self).windows, ..*old(self) }),
            final(self).sequences_to_ignore@ == old(self).sequences_to_ignore@,
            has_key(final(self).windows.managed_seq(), window),
            value_at(final(self).windows.managed_seq(), window).properties == (
            if props.is_fullscreen && !value_at(
                old(self).windows.managed_seq(),
                window,
            ).properties.is_fullscreen {
                crate::WindowProperties { is_fullscreen: true, above: true, ..props }
            } else {
                props
            }),
            ({
                let s0 = old(self).windows.managed_seq();
                let st = value_at(s0, window);
                let was = st.properties.is_fullscreen;
                if props.is_fullscreen && !was {
                    &&& r@.len() >= 2
                    &&& r@[r@.len() - 2] == (WmRequest::Configure {
                        window,
                        x: Some(0),
                        y: Some(0),
                        width: Some(old(self).screen_width as u32),
                        height: Some(old(self).screen_height as u32),
                        border_width: Some(0),
                        stack_above: true,
                    })
                    &&& is_change_prop32(
                        r@[r@.len() - 1],
                        window,
                        old(self).atoms.net_wm_state,
                        crate::wm::spec_net_wm_state(
                            old(self).atoms,
                            (crate::WindowProperties {
                                is_fullscreen: true,
                                above: true,
                                ..props
                            }),
                        ),
                        false,
                    )
                } else if !props.is_fullscreen && was {
                    &&& r@.len() == 2
                    &&& r@[0] == (WmRequest::Configure {
                        window,
                        x: Some(st.x as i32),
                        y: Some(st.y as i32),
                        width: Some(st.width as u32),
                        height: Some(st.height as u32),
                        border_width: Some(BORDER_WIDTH),
                        stack_above: false,
                    })
                    &&& is_change_prop32(
                        r@[1],
                        window,
                        old(self).atoms.net_wm_state,
                        crate::wm::spec_net_wm_state(old(self).atoms, props),
                        false,
                    )
                } else {
                    &&& r@.len() == 1
                    &&& is_change_prop32(
                        r@[0],
                        window,
                        old(self).atoms.net_wm_state,
                        crate::wm::spec_net_wm_state(old(self).atoms, props),
                        false,
                    )
                }
            }),
    {
        let ghost s0 = self.windows.managed_seq();
        let st = match self.windows.get_window(window) {
            Some(st) => st,
            None => {
                proof {
                    assert(false);
                }
                crate::WindowState::new(
                    window,
                    &crate::Geometry { x: 0, y: 0, width: 0, height: 0 },
                    crate::WindowType::Normal,
                )
            },
        };
        let was = st.properties.is_fullscreen;
        let now = props.is_fullscreen;
        let mut st2 = st;
        if now && !was {
            st2.properties = props;
            st2.properties.is_fullscreen = false;
        } else {
            st2.properties = props;
        }
        proof {
            assert(st2.window == window);
            lemma_managed_not_unmanaged(&self.windows, window);
        }
        self.windows.add_window(window, st2);
        proof {
            lemma_keys_of_update(s0, key_index(s0, window), st2);
            lemma_has_key_from_keys(self.windows.managed_seq(), s0);
            lemma_value_at_update(s0, key_index(s0, window), window, st2);
            if st2.properties.is_fullscreen {
                assert(was);
                assert(s0[key_index(s0, window)].1.properties.is_fullscreen);
            }
            lemma_at_most_one_update(s0, key_index(s0, window), window, st2);
        }
        let mut r: Vec<WmRequest> = Vec::new();
        if now && !was {
            let more = self.fullscreen_window(window);
            append_requests(&mut r, more);
        } else if !now && was {
            let ghost s1 = self.windows.managed_seq();
            let more = self.unfullscreen_window(window);
            append_requests(&mut r, more);
            proof {
                lemma_value_at_update(
                    s1,
                    key_index(s1, window),
                    window,
                    (WindowState {
                        properties: (crate::WindowProperties {
                            is_fullscreen: false,
                            ..value_at(s1, window).properties
                        }),
                        ..value_at(s1, window)
                    }),
                );
            }
        } else {
            let vals = crate::wm::net_wm_state_values(&self.atoms, &st2.properties);
            r.push(
                WmRequest::ChangeProperty32 {
                    window,
                    property: self.atoms.net_wm_state,
                    values: vals,
                    append: false,
                },
            );
        }
        r
    }

    /// Stops managing a destroyed window.
    pub fn handle_destroy_notify(&mut self, window: u32) -> (r: Vec<WmRequest>)
        requires
            old(self).wf(),
        ensures
            final(self).wf(),
            final(self).sequences_to_ignore@ == old(self).sequences_to_ignore@,
            !has_key(final(self).windows.managed_seq(), window),
            has_key(old(self).windows.managed_seq(), window) ==> unmanage_post(
                *old(self),
                *final(self),
                r@,
                window,
            ),
            !has_key(old(self).windows.managed_seq(), window) ==> r@ == Seq::<WmRequest>::empty()
                && *final(self) == *old(self),
    {
        if self.windows.get_window(window).is_some() {
            self.unmanage_window(window)
        } else {
            Vec::new()
        }
    }

    /// Stops managing an unmapped window; an unmapped dock or desktop leaves
    /// the unmanaged list, and a dock's reservation is recomputed from the
    /// docks that remain.
    pub fn handle_unmap_notify(&mut self, window: u32) -> (r: Vec<WmRequest>)
        requires
            old(self).wf(),
        ensures
            final(self).wf(),
            final(self).sequences_to_ignore@ == old(self).sequences_to_ignore@,
            !has_key(final(self).windows.managed_seq(), window),
            !unmanaged_has(final(self).windows.unmanaged_seq(), window),
            has_key(old(self).windows.managed_seq(), window) ==> unmanage_post(
                *old(self),
                *final(self),
                r@,
                window,
            ),
            (!has_key(old(self).windows.managed_seq(), window) && unmanaged_has(
                old(self).windows.unmanaged_seq(),
                window,
            )) ==> ({
                let u0 = old(self).windows.unmanaged_seq();
                &&& final(self).windows.unmanaged_seq() == u0.remove(uw_index(u0, window))
                &&& (forall|h: u32|
                    has_key(final(self).windows.managed_seq(), h) == has_key(
                        old(self).windows.managed_seq(),
                        h,
                    ))
                &&& (forall|h: u32|
                    has_key(old(self).windows.managed_seq(), h) ==> non_geometry_eq(
                        #[trigger] value_at(final(self).windows.managed_seq(), h),
                        value_at(old(self).windows.managed_seq(), h),
                    ))
                &&& final(self).windows.spec_focus() == old(self).windows.spec_focus()
                &&& (!(u0[uw_index(u0, window)].window_type matches crate::WindowType::Dock(_))
                    ==> r@ == Seq::<WmRequest>::empty() && final(self).windows.managed_seq() == old(
                    self,
                ).windows.managed_seq())
            }),
            (!has_key(old(self).windows.managed_seq(), window) && !unmanaged_has(
                old(self).windows.unmanaged_seq(),
                window,
            )) ==> r@ == Seq::<WmRequest>::empty() && *final(self) == *old(self),
    {
        if self.windows.get_window(window).is_some() {
            let r = self.unmanage_window(window);
            proof {
                if unmanaged_has(self.windows.unmanaged_seq(), window) {
                    let i = uw_index(self.windows.unmanaged_seq(), window);
                    assert(self.windows.unmanaged_seq()[i].window == window);
                    assert(unmanaged_has(old(self).windows.unmanaged_seq(), window));
                    assert(has_key(old(self).windows.managed_seq(), window));
                    lemma_managed_not_unmanaged(&old(self).windows, window);
                }
            }
            return r;
        }
        match self.windows.remove_unmanaged_window(window) {
            Some(removed) => {
                let ghost u0 = old(self).windows.unmanaged_seq();
                let ghost iu = uw_index(u0, window);
                proof {
                    u0.remove_ensures(iu);
                    assert forall|j: int|
                        0 <= j < self.windows.unmanaged_seq().len() implies (
                    #[trigger] self.windows.unmanaged_seq()[j]).window != window by {
                        let u2 = self.windows.unmanaged_seq();
                        if j < iu {
                            assert(u2[j] == u0[j]);
                            assert(u0[iu].window == window);
                        } else {
                            assert(u2[j] == u0[j + 1]);
                            assert(u0[iu].window == window);
                        }
                    }
                }
                self.recompute_reserved();
                let is_dock = matches!(removed.window_type, crate::WindowType::Dock(_));
                if is_dock {
                    let r = self.do_layout();
                    return r;
                }
                Vec::new()
            },
            None => Vec::new(),
        }
    }

    /// Manages the window a client asked to map, unless it is already
    /// tracked.
    pub fn handle_map_request(
        &mut self,
        window: u32,
        geom: &crate::Geometry,
        type_atoms: &Vec<u32>,
        strut_partial: &Vec<u32>,
    ) -> (r: Vec<WmRequest>)
        requires
            old(self).wf(),
        ensures
            final(self).wf(),
            final(self).sequences_to_ignore@ == old(self).sequences_to_ignore@,
            (has_key(old(self).windows.managed_seq(), window) || unmanaged_has(
                old(self).windows.unmanaged_seq(),
                window,
            )) ==> r@ == Seq::<WmRequest>::empty() && *final(self) == *old(self),
            (!has_key(old(self).windows.managed_seq(), window) && !unmanaged_has(
                old(self).windows.unmanaged_seq(),
                window,
            )) ==> manage_post(
                *old(self),
                *final(self),
                r@,
                window,
                *geom,
                type_atoms@,
                strut_partial@,
            ),
    {
        if self.windows.get_window(window).is_some() {
            return Vec::new();
        }
        if self.windows.has_unmanaged(window) {
            return Vec::new();
        }
        self.manage_window(window, geom, type_atoms, strut_partial)
    }

    /// Dispatches one display-server event. An event whose sequence number
    /// sits on top of the ignore heap is dropped whole: no requests come
    /// out and nothing but the heap's stale entries changes.
    #[verifier::rlimit(100)]
    pub fn handle_event(&mut self, wire_sequence: Option<u16>, event: &WmEvent) -> (r: Result<
        Vec<WmRequest>,
        crate::XlibError,
    >)
        requires
            old(self).wf(),
        ensures
            final(self).wf(),
            (match wire_sequence {
                Some(sq) => ({
                    let scan = crate::wm::spec_ignore_scan(old(self).sequences_to_ignore@, sq);
                    scan.1 ==> (r matches Ok(v) && v@ == Seq::<WmRequest>::empty()
                        && unchanged_but_heap(final(self), old(self))
                        && final(self).sequences_to_ignore@ == scan.0)
                }),
                None => final(self).sequences_to_ignore@ == old(self).sequences_to_ignore@,
            }),
            !event_dropped(*old(self), wire_sequence) ==> (match *event {
                WmEvent::MapRequest { window, geom, ref type_atoms, ref strut_partial } => ({
                    &&& r is Ok
                    &&& ((has_key(old(self).windows.managed_seq(), window) || unmanaged_has(
                        old(self).windows.unmanaged_seq(),
                        window,
                    )) ==> r->Ok_0@ == Seq::<WmRequest>::empty() && unchanged_but_heap(
                        final(self),
                        old(self),
                    ))
                    &&& ((!has_key(old(self).windows.managed_seq(), window) && !unmanaged_has(
                        old(self).windows.unmanaged_seq(),
                        window,
                    )) ==> manage_post(
                        *old(self),
                        *final(self),
                        r->Ok_0@,
                        window,
                        geom,
                        type_atoms@,
                        strut_partial@,
                    ))
                }),
                WmEvent::DestroyNotify { window } => ({
                    &&& r is Ok
                    &&& (has_key(old(self).windows.managed_seq(), window) ==> unmanage_post(
                        *old(self),
                        *final(self),
                        r->Ok_0@,
                        window,
                    ))
                    &&& (!has_key(old(self).windows.managed_seq(), window) ==> r->Ok_0@ == Seq::<
                        WmRequest,
                    >::empty() && unchanged_but_heap(final(self), old(self)))
                }),
                WmEvent::UnmapNotify { window } => ({
                    &&& r is Ok
                    &&& !has_key(final(self).windows.managed_seq(), window)
                    &&& !unmanaged_has(final(self).windows.unmanaged_seq(), window)
                    &&& (has_key(old(self).windows.managed_seq(), window) ==> unmanage_post(
                        *old(self),
                        *final(self),
                        r->Ok_0@,
                        window,
                    ))
                }),
                WmEvent::ConfigureRequest { window, x, y, width, height, border_width } => ({
                    &&& r is Ok
                    &&& r->Ok_0@ == seq![
                        WmRequest::Configure {
                            window,
                            x,
                            y,
                            width,
                            height,
                            border_width,
                            stack_above: false,
                        },
                    ]
                    &&& unchanged_but_heap(final(self), old(self))
                }),
                WmEvent::Expose { window } => ({
                    &&& r is Ok
                    &&& r->Ok_0@ == Seq::<WmRequest>::empty()
                    &&& final(self).windows == old(self).windows
                    &&& (old(self).pending_expose@.contains(window) ==> final(self).pending_expose
                        == old(self).pending_expose)
                    &&& (!old(self).pending_expose@.contains(window)
                        ==> final(self).pending_expose@ == old(self).pending_expose@.push(window))
                }),
                WmEvent::EnterNotify { window } => ({
                    &&& r is Ok
                    &&& ((has_key(old(self).windows.managed_seq(), window) && value_at(
                        old(self).windows.managed_seq(),
                        window,
                    ).window_type == crate::WindowType::Normal)
                        ==> final(self).windows.spec_focus() == Some(window))
                    &&& (!has_key(old(self).windows.managed_seq(), window) ==> r->Ok_0@ == Seq::<
                        WmRequest,
                    >::empty() && unchanged_but_heap(final(self), old(self)))
                }),
                WmEvent::LeaveNotify { window } => ({
                    &&& r is Ok
                    &&& ((has_key(old(self).windows.managed_seq(), window) && old(
                        self,
                    ).windows.spec_focus() == Some(window)) ==> final(self).windows.spec_focus()
                        is None)
                    &&& (!(has_key(old(self).windows.managed_seq(), window) && old(
                        self,
                    ).windows.spec_focus() == Some(window)) ==> r->Ok_0@ == Seq::<
                        WmRequest,
                    >::empty() && unchanged_but_heap(final(self), old(self)))
                }),
                WmEvent::ButtonRelease => ({
                    &&& r is Ok
                    &&& final(self).drag_window is None
                    &&& final(self).resize_window is None
                    &&& !final(self).pointer_grabbed
                    &&& final(self).windows == old(self).windows
                    &&& r->Ok_0@ == (match old(self).drag_window {
                        Some((w, _)) => seq![
                            WmRequest::SetCursor {
                                window: w,
                                cursor: crate::wm::CursorKind::Normal,
                            },
                        ],
                        None => Seq::<WmRequest>::empty(),
                    }) + (match old(self).resize_window {
                        Some((w, _)) => seq![
                            WmRequest::SetCursor {
                                window: w,
                                cursor: crate::wm::CursorKind::Normal,
                            },
                        ],
                        None => Seq::<WmRequest>::empty(),
                    }) + seq![WmRequest::UngrabPointer]
                }),
                WmEvent::MotionNotify { time, root_x, root_y, event_x, event_y } => ({
                    &&& r is Ok
                    &&& (time.wrapping_sub(old(self).last_timestamp) <= 16 ==> r->Ok_0@ == Seq::<
                        WmRequest,
                    >::empty() && unchanged_but_heap(final(self), old(self)))
                    &&& (time.wrapping_sub(old(self).last_timestamp) > 16
                        ==> final(self).last_timestamp == time)
                }),
                WmEvent::KeyPress { detail, state, event: target, event_x, event_y } => ({
                    &&& r is Ok
                    &&& (spec_lookup_key(old(self).key_mapping@, detail, state) is None ==> r->Ok_0@
                        == Seq::<WmRequest>::empty() && unchanged_but_heap(final(self), old(self)))
                }),
                WmEvent::ButtonPress { detail, state, child, event_x, event_y } => ({
                    &&& r is Ok
                    &&& (crate::wm::spec_lookup_button(old(self).button_mapping@, detail, state)
                        is None ==> r->Ok_0@ == Seq::<WmRequest>::empty() && unchanged_but_heap(
                        final(self),
                        old(self),
                    ))
                }),
                WmEvent::ClientMessage { window, message_type, ref data } => ({
                    &&& (message_type != old(self).atoms.net_wm_state ==> (r matches Ok(v) && v@
                        == Seq::<WmRequest>::empty() && unchanged_but_heap(final(self), old(self))))
                    &&& ((message_type == old(self).atoms.net_wm_state && data@.len() < 3) ==> r
                        == Err::<Vec<WmRequest>, crate::XlibError>(crate::XlibError::PropertyMissing)
                        && unchanged_but_heap(final(self), old(self)))
                    &&& ((message_type == old(self).atoms.net_wm_state && data@.len() >= 3
                        && has_key(old(self).windows.managed_seq(), window) && data@[0] > 2) ==> r
                        == Err::<Vec<WmRequest>, crate::XlibError>(crate::XlibError::InvalidAction)
                        && unchanged_but_heap(final(self), old(self)))
                    &&& ((message_type == old(self).atoms.net_wm_state && data@.len() >= 3
                        && has_key(old(self).windows.managed_seq(), window) && data@[0] <= 2)
                        ==> ({
                        let s0 = old(self).windows.managed_seq();
                        let p0 = value_at(s0, window).properties;
                        let action = (if data@[0] == 0 {
                            crate::PropertyAction::Remove
                        } else if data@[0] == 1 {
                            crate::PropertyAction::Add
                        } else {
                            crate::PropertyAction::Toggle
                        });
                        let p1 = crate::spec_set_window_property(
                            old(self).atoms,
                            data@[1],
                            action,
                            p0,
                        );
                        let p2 = crate::spec_set_window_property(
                            old(self).atoms,
                            data@[2],
                            action,
                            p1,
                        );
                        &&& r is Ok
                        &&& has_key(final(self).windows.managed_seq(), window)
                        &&& value_at(final(self).windows.managed_seq(), window).properties == (
                        if p2.is_fullscreen && !p0.is_fullscreen {
                            crate::WindowProperties { is_fullscreen: true, above: true, ..p2 }
                        } else {
                            p2
                        })
                    }))
                }),
                WmEvent::MapNotify { .. } => (r matches Ok(v) && v@ == Seq::<WmRequest>::empty()
                    && unchanged_but_heap(final(self), old(self))),
                WmEvent::Other => (r matches Ok(v) && v@ == Seq::<WmRequest>::empty()
                    && unchanged_but_heap(final(self), old(self))),
            }),
    {
        let mut should_ignore = false;
        let mut done = false;
        match wire_sequence {
            Some(sq) => {
                let ghost h0 = self.sequences_to_ignore@;
                while self.sequences_to_ignore.len() > 0 && !done
                    invariant
                        old(self).wf(),
                        self.windows == old(self).windows,
                        self.layout_manager == old(self).layout_manager,
                        self.client_list == old(self).client_list,
                        self.active_window == old(self).active_window,
                        self.drag_window == old(self).drag_window,
                        self.resize_window == old(self).resize_window,
                        self.pending_expose == old(self).pending_expose,
                        self.key_mapping == old(self).key_mapping,
                        self.button_mapping == old(self).button_mapping,
                        self.pointer_grabbed == old(self).pointer_grabbed,
                        self.last_timestamp == old(self).last_timestamp,
                        self.screen_width == old(self).screen_width,
                        self.screen_height == old(self).screen_height,
                        self.root == old(self).root,
                        self.atoms == old(self).atoms,
                        self.config == old(self).config,
                        crate::wm::sorted_u16(self.sequences_to_ignore@),
                        !should_ignore,
                        crate::wm::spec_ignore_scan(h0, sq) == (if done {
                            (self.sequences_to_ignore@, self.sequences_to_ignore@[0] == sq)
                        } else {
                            crate::wm::spec_ignore_scan(self.sequences_to_ignore@, sq)
                        }),
                        done ==> self.sequences_to_ignore@.len() > 0,
                    decreases self.sequences_to_ignore@.len() + (if done {
                        0int
                    } else {
                        1int
                    }),
                {
                    let top = self.sequences_to_ignore[0];
                    if top.wrapping_sub(sq) <= 0x7fff {
                        proof {
                            assert(crate::wm::wrap_diff(top, sq) == top.wrapping_sub(sq));
                        }
                        done = true;
                    } else {
                        proof {
                            assert(crate::wm::wrap_diff(top, sq) == top.wrapping_sub(sq));
                            let h = self.sequences_to_ignore@;
                            assert(h.remove(0) =~= h.drop_first());
                            let h2 = h.remove(0);
                            assert(crate::wm::sorted_u16(h2)) by {
                                assert forall|a: int, b: int|
                                    0 <= a < b < h2.len() implies (#[trigger] h2[a]) <= (
                                #[trigger] h2[b]) by {
                                    assert(h2[a] == h[a + 1] && h2[b] == h[b + 1]);
                                }
                            }
                        }
                        self.sequences_to_ignore.remove(0);
                    }
                }
                if done {
                    let top = self.sequences_to_ignore[0];
                    if top == sq {
                        should_ignore = true;
                    }
                }
                proof {
                    let scan = crate::wm::spec_ignore_scan(h0, sq);
                    if should_ignore {
                        assert(scan == (self.sequences_to_ignore@, true));
                    } else {
                        if done {
                            assert(!scan.1);
                        } else {
                            assert(self.sequences_to_ignore@.len() == 0);
                            assert(!scan.1);
                        }
                    }
                }
            },
            None => {},
        }
        if should_ignore {
            return Ok(Vec::new());
        }
        match event {
            WmEvent::MapRequest { window, geom, type_atoms, strut_partial } => Ok(
                self.handle_map_request(*window, geom, type_atoms, strut_partial),
            ),
            WmEvent::Expose { window } => {
                self.handle_expose(*window);
                Ok(Vec::new())
            },
            WmEvent::DestroyNotify { window } => Ok(self.handle_destroy_notify(*window)),
            WmEvent::UnmapNotify { window } => Ok(self.handle_unmap_notify(*window)),
            WmEvent::ConfigureRequest { window, x, y, width, height, border_width } => Ok(
                self.handle_configure_request(*window, *x, *y, *width, *height, *border_width),
            ),
            WmEvent::EnterNotify { window } => Ok(self.handle_enter(*window)),
            WmEvent::LeaveNotify { window } => Ok(self.handle_leave(*window)),
            WmEvent::ButtonPress { detail, state, child, event_x, event_y } => Ok(
                self.handle_button_press(*detail, *state, *child, *event_x, *event_y),
            ),
            WmEvent::ButtonRelease => Ok(self.handle_button_release()),
            WmEvent::MotionNotify { time, root_x, root_y, event_x, event_y } => Ok(
                self.handle_motion_notify(*time, *root_x, *root_y, *event_x, *event_y),
            ),
            WmEvent::KeyPress { detail, state, event, event_x, event_y } => Ok(
                self.handle_key_press(*detail, *state, *event, *event_x, *event_y),
            ),
            WmEvent::ClientMessage { window, message_type, data } => self.handle_client_message(
                *window,
                *message_type,
                data,
            ),
            WmEvent::MapNotify { .. } => Ok(Vec::new()),
            WmEvent::Other => Ok(Vec::new()),
        }
    }
}

impl WM {
    /// The property writes that advertise an EWMH-compliant manager on the
    /// root window, using a freshly created supporting window, and the map
    /// request for that window.
    pub fn ewmh_setup_requests(&self, supporting_window: u32) -> (r: Vec<WmRequest>)
        ensures
            r@.len() == 12,
            is_change_prop32(
                r@[0],
                supporting_window,
                self.atoms.net_supporting_wm_check,
                seq![supporting_window],
                false,
            ),
            (match r@[1] {
                WmRequest::ChangeTextProperty { window: w, property: p, text } => w
                    == supporting_window && p == self.atoms.net_wm_name && text@
                    == final_wm_name(),
                _ => false,
            }),
            is_change_prop32(
                r@[2],
                self.root,
                self.atoms.net_supporting_wm_check,
                seq![supporting_window],
                false,
            ),
            is_change_prop32(
                r@[3],
                self.root,
                self.atoms.net_supported,
                self.atoms.spec_net_supported(),
                false,
            ),
            r@[4] == (WmRequest::DeleteProperty {
                window: self.root,
                property: self.atoms.net_client_list,
            }),
            is_change_prop32(r@[5], self.root, self.atoms.net_number_of_desktops, seq![1u32], false),
            is_change_prop32(r@[6], self.root, self.atoms.net_current_desktop, seq![0u32], false),
            is_change_prop32(
                r@[7],
                self.root,
                self.atoms.net_desktop_viewport,
                seq![0u32, 0u32],
                false,
            ),
            is_change_prop32(
                r@[8],
                self.root,
                self.atoms.net_desktop_geometry,
                seq![self.screen_width as u32, self.screen_height as u32],
                false,
            ),
            is_change_prop32(
                r@[9],
                self.root,
                self.atoms.net_workarea,
                spec_workarea(
                    self.layout_manager.reserved,
                    self.screen_width,
                    self.screen_height,
                ),
                false,
            ),
            is_change_prop32(
                r@[10],
                self.root,
                self.atoms.net_active_window,
                Seq::<u32>::empty(),
                false,
            ),
            r@[11] == (WmRequest::MapWindow { window: supporting_window }),
    {
        let mut r: Vec<WmRequest> = Vec::new();
        let mut check: Vec<u32> = Vec::new();
        check.push(supporting_window);
        r.push(
            WmRequest::ChangeProperty32 {
                window: supporting_window,
                property: self.atoms.net_supporting_wm_check,
                values: check,
                append: false,
            },
        );
        r.push(
            WmRequest::ChangeTextProperty {
                window: supporting_window,
                property: self.atoms.net_wm_name,
                text: wm_name(),
            },
        );
        let mut check2: Vec<u32> = Vec::new();
        check2.push(supporting_window);
        r.push(
            WmRequest::ChangeProperty32 {
                window: self.root,
                property: self.atoms.net_supporting_wm_check,
                values: check2,
                append: false,
            },
        );
        r.push(
            WmRequest::ChangeProperty32 {
                window: self.root,
                property: self.atoms.net_supported,
                values: self.atoms.net_supported(),
                append: false,
            },
        );
        r.push(
            WmRequest::DeleteProperty { window: self.root, property: self.atoms.net_client_list },
        );
        let mut one: Vec<u32> = Vec::new();
        one.push(1);
        r.push(
            WmRequest::ChangeProperty32 {
                window: self.root,
                property: self.atoms.net_number_of_desktops,
                values: one,
                append: false,
            },
        );
        let mut zero: Vec<u32> = Vec::new();
        zero.push(0);
        r.push(
            WmRequest::ChangeProperty32 {
                window: self.root,
                property: self.atoms.net_current_desktop,
                values: zero,
                append: false,
            },
        );
        let mut viewport: Vec<u32> = Vec::new();
        viewport.push(0);
        viewport.push(0);
        r.push(
            WmRequest::ChangeProperty32 {
                window: self.root,
                property: self.atoms.net_desktop_viewport,
                values: viewport,
                append: false,
            },
        );
        let mut geometry: Vec<u32> = Vec::new();
        geometry.push(self.screen_width as u32);
        geometry.push(self.screen_height as u32);
        r.push(
            WmRequest::ChangeProperty32 {
                window: self.root,
                property: self.atoms.net_desktop_geometry,
                values: geometry,
                append: false,
            },
        );
        let top = self.layout_manager.reserved.top.width;
        let bottom = self.layout_manager.reserved.bottom.width;
        let left = self.layout_manager.reserved.left.width;
        let right = self.layout_manager.reserved.right.width;
        let sw = self.screen_width as u32;
        let sh = self.screen_height as u32;
        let wa_w: u32 = if left <= sw && right <= sw - left {
            sw - left - right
        } else {
            0
        };
        let wa_h: u32 = if top <= sh && bottom <= sh - top {
            sh - top - bottom
        } else {
            0
        };
        let mut workarea: Vec<u32> = Vec::new();
        workarea.push(0);
        workarea.push(top);
        workarea.push(wa_w);
        workarea.push(wa_h);
        r.push(
            WmRequest::ChangeProperty32 {
                window: self.root,
                property: self.atoms.net_workarea,
                values: workarea,
                append: false,
            },
        );
        proof {
            assert(workarea@ =~= spec_workarea(self.layout_manager.reserved, self.screen_width,
                self.screen_height));
        }
        let empty: Vec<u32> = Vec::new();
        r.push(
            WmRequest::ChangeProperty32 {
                window: self.root,
                property: self.atoms.net_active_window,
                values: empty,
                append: false,
            },
        );
        r.push(WmRequest::MapWindow { window: supporting_window });
        proof {
            assert(check@ =~= seq![supporting_window]);
            assert(check2@ =~= seq![supporting_window]);
            assert(one@ =~= seq![1u32]);
            assert(zero@ =~= seq![0u32]);
            assert(viewport@ =~= seq![0u32, 0u32]);
            assert(geometry@ =~= seq![self.screen_width as u32, self.screen_height as u32]);
        }
        r
    }

    /// Resolves the configured key and button bindings against the server's
    /// keyboard mapping, stores them, and returns the grab requests for the
    /// root window.
    pub fn setup_bindings(&mut self, min_keycode: u8, keysyms_per_keycode: u8, keysyms: &Vec<u32>) -> (r: Vec<WmRequest>)
        requires
            old(self).wf(),
            keysyms_per_keycode >= 1,
            keysyms@.len() <= (keysyms_per_keycode as int) * (256 - min_keycode as int),
        ensures
            final(self).wf(),
            final(self).key_mapping@ == crate::wm::spec_key_mappings(
                old(self).config.hotkeys@,
                min_keycode,
                keysyms_per_keycode,
                keysyms@,
            ),
            final(self).button_mapping@ == crate::wm::spec_button_mappings(
                old(self).config.mouse_hotkeys@,
            ),
            *final(self) == (WM {
                key_mapping: final(self).key_mapping,
                button_mapping: final(self).button_mapping,
                ..*old(self)
            }),
            r@ == Seq::new(
                final(self).key_mapping@.len(),
                |i: int| WmRequest::GrabKey {
                    code: final(self).key_mapping@[i].0.code,
                    mods: final(self).key_mapping@[i].0.mods,
                },
            ) + Seq::new(
                final(self).button_mapping@.len(),
                |i: int| WmRequest::GrabButton {
                    button: final(self).button_mapping@[i].0.button,
                    mods: final(self).button_mapping@[i].0.mods,
                },
            ),
    {
        let km = crate::wm::resolve_key_mappings(
            &self.config.hotkeys,
            min_keycode,
            keysyms_per_keycode,
            keysyms,
        );
        let bm = crate::wm::resolve_button_mappings(&self.config.mouse_hotkeys);
        let mut r: Vec<WmRequest> = Vec::new();
        let mut i: usize = 0;
        while i < km.len()
            invariant
                0 <= i <= km@.len(),
                r@ == Seq::new(
                    i as nat,
                    |j: int| WmRequest::GrabKey {
                        code: km@[j].0.code,
                        mods: km@[j].0.mods,
                    },
                ),
            decreases km@.len() - i,
        {
            r.push(WmRequest::GrabKey { code: km[i].0.code, mods: km[i].0.mods });
            proof {
                assert(r@ =~= Seq::new(
                    (i + 1) as nat,
                    |j: int| WmRequest::GrabKey {
                        code: km@[j].0.code,
                        mods: km@[j].0.mods,
                    },
                ));
            }
            i += 1;
        }
        let ghost rk = r@;
        let mut i: usize = 0;
        while i < bm.len()
            invariant
                0 <= i <= bm@.len(),
                r@ == rk + Seq::new(
                    i as nat,
                    |j: int| WmRequest::GrabButton {
                        button: bm@[j].0.button,
                        mods: bm@[j].0.mods,
                    },
                ),
            decreases bm@.len() - i,
        {
            r.push(WmRequest::GrabButton { button: bm[i].0.button, mods: bm[i].0.mods });
            proof {
                assert(r@ =~= rk + Seq::new(
                    (i + 1) as nat,
                    |j: int| WmRequest::GrabButton {
                        button: bm@[j].0.button,
                        mods: bm@[j].0.mods,
                    },
                ));
            }
            i += 1;
        }
        self.key_mapping = km;
        self.button_mapping = bm;
        r
    }
}

/// The manager's advertised name.
pub open spec fn final_wm_name() -> Seq<char> {
    "Bunnuafeth"@
}

pub fn wm_name() -> (r: String)
    ensures
        r@ == final_wm_name(),
{
    String::from_str("Bunnuafeth")
}

/// The `_NET_WORKAREA` value: the origin column, the top reservation, and
/// the width and height left between the reserved edges (zero when the
/// reservations swallow the screen).
pub open spec fn spec_workarea(res: ReservedEdges, sw: u16, sh: u16) -> Seq<u32> {
    let wa_w: u32 = if res.left.width <= sw && res.right.width <= sw - res.left.width {
        (sw - res.left.width - res.right.width) as u32
    } else {
        0u32
    };
    let wa_h: u32 = if res.top.width <= sh && res.bottom.width <= sh - res.top.width {
        (sh - res.top.width - res.bottom.width) as u32
    } else {
        0u32
    };
    seq![0u32, res.top.width, wa_w, wa_h]
}

} // verus!
