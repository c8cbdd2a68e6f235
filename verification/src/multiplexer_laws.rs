//! What holds of a multiplexer as a whole.

use vstd::prelude::*;

use crate::multiplexer::{LifecycleEvent, Multiplexer, PaneId, WindowId};
use crate::multiplexer_model::{
    ascends, lemma_others, running_panes, MultiplexerModel, PaneModel,
};
use crate::pty::ObservedExit;
use crate::sequence_laws::is_new;
use crate::size::Size;

verus! {

/// In every state a multiplexer is consistent: no window is empty or lists its
/// panes in another order than that of their creation, windows and panes agree
/// on what belongs where, and one window is active unless there is none.
pub proof fn multiplexers_are_consistent(mux: &Multiplexer)
    requires
        mux.wf(),
    ensures
        mux@.wf(),
{
    mux.lemma_wf();
}

/// A window lists its panes in creation order, each of them once: exactly the
/// panes that are there and belong to it.
pub proof fn windows_list_their_panes_in_order(m: MultiplexerModel, window: WindowId)
    requires
        m.wf(),
        m.has_window(window),
    ensures
        ascends(m.window(window).panes),
        m.window(window).panes.no_duplicates(),
        forall|pane: PaneId| #[trigger]
            m.window(window).panes.contains(pane) <==> m.has_pane(pane) && m.pane(pane).window
                == window,
        forall|a: int, b: int|
            0 <= a < b < m.window(window).panes.len() ==> m.pane_at(
                #[trigger] m.window(window).panes[a],
            ) < m.pane_at(#[trigger] m.window(window).panes[b]),
{
    let panes = m.window(window).panes;
    assert(m.windows[m.window_at(window)].id == window);
    assert forall|pane: PaneId| #[trigger] panes.contains(pane) <==> m.has_pane(pane) && m.pane(
        pane,
    ).window == window by {
        if panes.contains(pane) {
            m.lemma_listed(window, pane);
        }
        if m.has_pane(pane) && m.pane(pane).window == window {
            m.lemma_owner(pane);
        }
    }
    assert forall|a: int, b: int| 0 <= a < b < panes.len() implies m.pane_at(
        #[trigger] panes[a],
    ) < m.pane_at(#[trigger] panes[b]) by {
        assert(panes.contains(panes[a]) && panes.contains(panes[b]));
        let i = m.pane_at(panes[a]);
        let j = m.pane_at(panes[b]);
        assert(m.panes[i].id == panes[a] && m.panes[j].id == panes[b]);
        if j < i {
            assert(m.panes[j].id.number() < m.panes[i].id.number());
        }
    }
}

/// New identifiers stand for nothing yet, and the ones after them are larger.
pub proof fn identifiers_are_fresh(
    m: MultiplexerModel,
    window: WindowId,
    pane: PaneId,
    size: Size,
)
    requires
        m.wf(),
        window.number() == m.next_window < u64::MAX,
        pane.number() == m.next_pane < u64::MAX,
    ensures
        !m.has_window(window),
        !m.has_pane(pane),
        m.create_window(window, pane, size).next_window > window.number(),
        m.create_window(window, pane, size).next_pane > pane.number(),
{
    m.creating_a_window_keeps_it_consistent(window, pane, size);
}

/// A pane that was removed is unknown from then on: identifiers that are given
/// out later are larger than its own. Where it was the last one, its window is
/// unknown as well.
pub proof fn removed_panes_are_unknown(m: MultiplexerModel, pane: PaneId)
    requires
        m.wf(),
        m.has_pane(pane),
    ensures
        !m.remove_pane(pane).has_pane(pane),
        pane.number() < m.remove_pane(pane).next_pane,
        m.remove_pane(pane).next_pane == m.next_pane,
        m.remove_pane(pane).next_window == m.next_window,
        m.window(m.pane(pane).window).panes.len() == 1 ==> !m.remove_pane(pane).has_window(
            m.pane(pane).window,
        ),
{
    let window = m.pane(pane).window;
    m.removing_a_pane_keeps_it_consistent(pane);
    m.lemma_owner(pane);
    assert(m.panes[m.pane_at(pane)].id == pane);
    if m.window(window).panes.len() == 1 {
        let after = m.remove_pane(pane);
        let at = m.window_at(window);
        assert(m.windows[at].id == window);
        assert forall|i: int| 0 <= i < after.windows.len() implies (#[trigger] after.windows[i]).id
            != window by {
            let k = if i < at {
                i
            } else {
                i + 1
            };
            assert(after.windows[i] == m.windows[k]);
            m.lemma_window(k);
        }
    }
}

/// A window that was removed is unknown from then on, and so are its panes.
pub proof fn removed_windows_are_unknown(m: MultiplexerModel, window: WindowId, pane: PaneId)
    requires
        m.wf(),
        m.has_window(window),
        m.window(window).panes.contains(pane),
    ensures
        !m.remove_window(window).has_window(window),
        !m.remove_window(window).has_pane(pane),
        window.number() < m.remove_window(window).next_window,
        pane.number() < m.remove_window(window).next_pane,
{
    m.removing_a_window_keeps_it_consistent(window);
    m.lemma_listed(window, pane);
    assert(m.windows[m.window_at(window)].id == window);
    assert(m.panes[m.pane_at(pane)].id == pane);
    lemma_others(m.panes, window);
    let after = m.remove_window(window);
    assert forall|i: int| 0 <= i < after.panes.len() implies (#[trigger] after.panes[i]).id
        != pane by {
        assert(m.panes.contains(after.panes[i]));
        let k = choose|k: int| 0 <= k < m.panes.len() && m.panes[k] == after.panes[i];
        m.lemma_pane(k);
    }
}

/// Selecting a window leaves every focus as it is, so that each window comes
/// back with the focus that it had. Selecting the active window changes
/// nothing.
pub proof fn selecting_keeps_every_focus(m: MultiplexerModel, window: WindowId, other: WindowId)
    ensures
        m.activate(Some(window)).windows == m.windows,
        m.activate(Some(window)).panes == m.panes,
        m.activate(Some(window)).active == Some(window),
        m.activate(Some(window)).window(other).focus == m.window(other).focus,
        m.activate(Some(window)).activate(Some(window)) == m.activate(Some(window)),
        m.activate(Some(window)).activate(m.active).windows == m.windows,
        m.activate(Some(window)).activate(m.active).active == m.active,
{
}

/// Moving the focus of one window leaves every other window as it is.
pub proof fn focusing_touches_one_window(
    m: MultiplexerModel,
    window: WindowId,
    pane: PaneId,
    other: WindowId,
)
    requires
        m.wf(),
        m.has_window(window),
        m.has_window(other),
        other != window,
    ensures
        m.set_focus(window, pane).window(other) == m.window(other),
        m.set_focus(window, pane).window(window).focus == pane,
        m.set_focus(window, pane).active == m.active,
{
    let after = m.set_focus(window, pane);
    let at = m.window_at(window);
    let there = m.window_at(other);
    assert(m.windows[at].id == window && m.windows[there].id == other);
    assert forall|i: int| 0 <= i < after.windows.len() implies (#[trigger] after.windows[i]).id
        == m.windows[i].id by {}
    assert(after.windows[at].id == window && after.windows[there].id == other);
    m.lemma_window(after.window_at(other));
    m.lemma_window(after.window_at(window));
}

/// What was told stays told, in order, until somebody takes it: every change
/// adds its events behind those that are there.
pub proof fn events_are_told_in_order(
    m: MultiplexerModel,
    window: WindowId,
    pane: PaneId,
    size: Size,
    status: ObservedExit,
)
    ensures
        m.events.is_prefix_of(m.create_window(window, pane, size).events),
        m.events.is_prefix_of(m.create_pane(window, pane, size).events),
        m.events.is_prefix_of(m.set_focus(window, pane).events),
        m.events.is_prefix_of(m.activate(Some(window)).events),
        m.events.is_prefix_of(m.remove_pane(pane).events),
        m.events.is_prefix_of(m.remove_window(window).events),
        m.note_exit(pane, status).events == m.events.push(
            LifecycleEvent::PaneExited { window: m.pane(pane).window, pane, status },
        ),
{
    let n = m.events.len() as int;
    assert(m.create_window(window, pane, size).events.subrange(0, n) =~= m.events);
    assert(m.create_pane(window, pane, size).events.subrange(0, n) =~= m.events);
    assert(m.set_focus(window, pane).events.subrange(0, n) =~= m.events);
    assert(m.activate(Some(window)).events.subrange(0, n) =~= m.events);
    assert(m.remove_pane(pane).events.subrange(0, n) =~= m.events);
    assert(m.remove_window(window).events.subrange(0, n) =~= m.events);
}

/// The window that is active once one is gone: the same one as before, or where
/// it was the active one itself, the oldest of those that are left.
pub open spec fn stays_active(m: MultiplexerModel, after: MultiplexerModel, gone: WindowId) -> bool {
    if m.active != Some(gone) {
        after.active == m.active
    } else {
        match after.active {
            None => forall|i: int| 0 <= i < m.windows.len() ==> (#[trigger] m.windows[i]).id == gone,
            Some(next) => {
                &&& next != gone
                &&& m.has_window(next)
                &&& forall|i: int|
                    0 <= i < m.windows.len() && m.windows[i].id != gone ==> next.number() <= (
                    #[trigger] m.windows[i]).id.number()
            },
        }
    }
}

/// What is told where the active window is gone.
pub open spec fn tells_active(
    m: MultiplexerModel,
    after: MultiplexerModel,
    gone: WindowId,
    told: Seq<LifecycleEvent>,
) -> bool {
    after.events == told + if m.active == Some(gone) {
        seq![LifecycleEvent::ActiveWindowChanged { window: after.active }]
    } else {
        Seq::empty()
    }
}

/// Every window but one is there as it was before.
pub open spec fn keeps_other_windows(
    m: MultiplexerModel,
    after: MultiplexerModel,
    window: WindowId,
) -> bool {
    forall|other: WindowId|
        other != window ==> after.has_window(other) == #[trigger] m.has_window(other) && (
        m.has_window(other) ==> after.window(other) == m.window(other))
}

proof fn lemma_dropped(m: MultiplexerModel, gone: MultiplexerModel, window: WindowId)
    requires
        m.is_ordered(),
        m.is_active(),
        m.has_window(window),
        gone.windows == m.windows,
        gone.active == m.active,
        gone.next_window == m.next_window,
        gone.is_ordered(),
    ensures
        ({
            let after = gone.drop_window(window);
            &&& stays_active(m, after, window)
            &&& keeps_other_windows(m, after, window)
            &&& after.panes == gone.panes
            &&& after.next_window == m.next_window
            &&& after.next_pane == gone.next_pane
            &&& tells_active(
                m,
                after,
                window,
                gone.events.push(LifecycleEvent::WindowClosed { window }),
            )
        }),
{
    let after = gone.drop_window(window);
    let at = m.window_at(window);
    assert(m.windows[at].id == window);
    assert(gone.has_window(window)) by {
        assert(gone.windows[at].id == window);
    }
    m.lemma_window(at);
    gone.lemma_window(at);
    let rest = m.windows.remove(at);
    assert(after.windows == rest);
    assert forall|i: int| 0 <= i < rest.len() implies #[trigger] rest[i] == m.windows[if i < at {
        i
    } else {
        i + 1
    }] && rest[i].id != window by {
        let k = if i < at {
            i
        } else {
            i + 1
        };
        m.lemma_window(k);
    }
    assert(after.is_ordered()) by {
        assert forall|i: int, j: int| 0 <= i < j < rest.len() implies (
        #[trigger] rest[i]).id.number() < (#[trigger] rest[j]).id.number() by {
            let a = if i < at {
                i
            } else {
                i + 1
            };
            let b = if j < at {
                j
            } else {
                j + 1
            };
            assert(m.windows[a].id.number() < m.windows[b].id.number());
        }
    }
    assert forall|other: WindowId| other != window implies after.has_window(other)
        == #[trigger] m.has_window(other) && (m.has_window(other) ==> after.window(other)
        == m.window(other)) by {
        if m.has_window(other) {
            let i = m.window_at(other);
            let k = if i < at {
                i
            } else {
                i - 1
            };
            assert(m.windows[i].id == other);
            assert(rest[k] == m.windows[i]);
            after.lemma_window(k);
        }
        if after.has_window(other) {
            let k = after.window_at(other);
            let i = if k < at {
                k
            } else {
                k + 1
            };
            assert(rest[k] == m.windows[i]);
            assert(m.windows[i].id == other);
        }
    }
    let told = gone.events.push(LifecycleEvent::WindowClosed { window });
    if m.active == Some(window) {
        if rest.len() > 0 {
            let next = rest[0].id;
            assert(after.active == Some(next));
            assert(m.has_window(next)) by {
                assert(rest[0] == m.windows[if 0 < at {
                    0int
                } else {
                    1
                }]);
            }
            assert forall|i: int| 0 <= i < m.windows.len() && m.windows[i].id
                != window implies next.number() <= (#[trigger] m.windows[i]).id.number() by {
                let k = if i < at {
                    i
                } else {
                    i - 1
                };
                assert(rest[k] == m.windows[i]);
                if k > 0 {
                    assert(rest[0].id.number() < rest[k].id.number());
                }
            }
        } else {
            assert(m.windows.len() == 1);
        }
        assert(after.events =~= told + seq![
            LifecycleEvent::ActiveWindowChanged { window: after.active },
        ]);
    } else {
        assert(after.events =~= told + Seq::<LifecycleEvent>::empty());
    }
}

/// Removing a window takes away that window and its panes, and nothing else:
/// other windows keep their panes and their focus, and the active window stays
/// active unless it is the one that is removed. Told are the panes that closed,
/// in order, and then the window.
pub proof fn removing_a_window(m: MultiplexerModel, window: WindowId)
    requires
        m.wf(),
        m.has_window(window),
    ensures
        ({
            let after = m.remove_window(window);
            let panes = m.window(window).panes;
            let told = m.events + Seq::new(
                panes.len(),
                |i: int| LifecycleEvent::PaneClosed { window, pane: panes[i] },
            );
            &&& stays_active(m, after, window)
            &&& keeps_other_windows(m, after, window)
            &&& forall|pane: PaneId|
                after.has_pane(pane) == (#[trigger] m.has_pane(pane) && m.pane(pane).window
                    != window)
            &&& forall|pane: PaneId|
                after.has_pane(pane) ==> #[trigger] after.pane(pane) == m.pane(pane)
            &&& after.next_window == m.next_window && after.next_pane == m.next_pane
            &&& tells_active(
                m,
                after,
                window,
                told.push(LifecycleEvent::WindowClosed { window }),
            )
        }),
{
    m.removing_a_window_keeps_it_consistent(window);
    lemma_others(m.panes, window);
    let panes = m.window(window).panes;
    let after = m.remove_window(window);
    let gone = MultiplexerModel {
        panes: crate::multiplexer_model::others(m.panes, window),
        events: m.events + crate::multiplexer_model::closed_events(window, panes),
        ..m
    };
    assert(crate::multiplexer_model::closed_events(window, panes) =~= Seq::new(
        panes.len(),
        |i: int| LifecycleEvent::PaneClosed { window, pane: panes[i] },
    ));
    assert(gone.is_ordered()) by {
        assert forall|i: int| 0 <= i < gone.panes.len() implies (
        #[trigger] gone.panes[i]).id.number() < gone.next_pane by {
            assert(m.panes.contains(gone.panes[i]));
            let k = choose|k: int| 0 <= k < m.panes.len() && m.panes[k] == gone.panes[i];
            assert(m.panes[k].id.number() < m.next_pane);
        }
    }
    lemma_dropped(m, gone, window);
    assert(after == gone.drop_window(window));
    assert forall|pane: PaneId|
        after.has_pane(pane) == (#[trigger] m.has_pane(pane) && m.pane(pane).window != window) && (
        after.has_pane(pane) ==> after.pane(pane) == m.pane(pane)) by {
        if after.has_pane(pane) {
            let i = after.pane_at(pane);
            assert(after.panes[i].id == pane);
            assert(m.panes.contains(after.panes[i]));
            let k = choose|k: int| 0 <= k < m.panes.len() && m.panes[k] == after.panes[i];
            m.lemma_pane(k);
        }
        if m.has_pane(pane) && m.pane(pane).window != window {
            let k = m.pane_at(pane);
            assert(m.panes[k].id == pane);
            assert(after.panes.contains(m.panes[k]));
            let i = choose|i: int| 0 <= i < after.panes.len() && after.panes[i] == m.panes[k];
            after.lemma_pane(i);
        }
    }
    assert forall|pane: PaneId| after.has_pane(pane) implies #[trigger] after.pane(pane) == m.pane(
        pane,
    ) by {
        assert(m.has_pane(pane));
    }
}

/// Removing a pane takes away that pane and nothing else: its window keeps the
/// other panes in their order, and its focus unless that was the pane; then the
/// pane that followed takes it, or the one before where none followed. The last
/// pane takes its window with it. The active window stays active unless it is
/// gone.
pub proof fn removing_a_pane(m: MultiplexerModel, pane: PaneId)
    requires
        m.wf(),
        m.has_pane(pane),
    ensures
        ({
            let after = m.remove_pane(pane);
            let window = m.pane(pane).window;
            let panes = m.window(window).panes;
            let focus = m.window(window).focus;
            let closed = LifecycleEvent::PaneClosed { window, pane };
            &&& forall|p: PaneId|
                after.has_pane(p) == (#[trigger] m.has_pane(p) && p != pane)
            &&& forall|p: PaneId| after.has_pane(p) ==> #[trigger] after.pane(p) == m.pane(p)
            &&& keeps_other_windows(m, after, window)
            &&& after.next_window == m.next_window && after.next_pane == m.next_pane
            &&& panes.len() == 1 ==> {
                &&& !after.has_window(window)
                &&& stays_active(m, after, window)
                &&& tells_active(
                    m,
                    after,
                    window,
                    m.events.push(closed).push(LifecycleEvent::WindowClosed { window }),
                )
            }
            &&& panes.len() > 1 ==> {
                let now = after.window(window);
                &&& after.has_window(window)
                &&& after.active == m.active
                &&& exists|k: int|
                    0 <= k < panes.len() && #[trigger] panes[k] == pane && now.panes
                        == panes.take(k) + panes.skip(k + 1) && (focus == pane ==> now.focus == (
                    if k + 1 < panes.len() {
                        panes[k + 1]
                    } else {
                        panes[k - 1]
                    }))
                &&& focus != pane ==> now.focus == focus && after.events == m.events.push(closed)
                &&& focus == pane ==> after.events == m.events.push(
                    LifecycleEvent::FocusPaneChanged { window, pane: now.focus },
                ).push(closed)
            }
        }),
{
    m.removing_a_pane_keeps_it_consistent(pane);
    m.lemma_owner(pane);
    let after = m.remove_pane(pane);
    let window = m.pane(pane).window;
    let at = m.window_at(window);
    let w = m.windows[at];
    assert(w.id == window);
    let index = w.panes.index_of(pane);
    assert(0 <= index < w.panes.len() && w.panes[index] == pane);
    let rest = w.panes.remove(index);
    let there = m.pane_at(pane);
    assert(m.panes[there].id == pane);
    let left = m.panes.remove(there);
    let gone = MultiplexerModel { panes: left, ..m }.tell(
        LifecycleEvent::PaneClosed { window, pane },
    );
    m.lemma_without_pane(gone, pane);
    assert(after.panes == left) by {
        if rest.len() == 0 {
            assert(after == gone.drop_window(window));
        }
    }
    assert forall|p: PaneId|
        after.has_pane(p) == (#[trigger] m.has_pane(p) && p != pane) && (after.has_pane(p)
            ==> after.pane(p) == m.pane(p)) by {
        if after.has_pane(p) {
            let i = after.pane_at(p);
            let k = if i < there {
                i
            } else {
                i + 1
            };
            assert(after.panes[i].id == p);
            assert(left[i] == m.panes[k]);
            m.lemma_pane(k);
        }
        if m.has_pane(p) && p != pane {
            let k = m.pane_at(p);
            assert(m.panes[k].id == p);
            let i = if k < there {
                k
            } else {
                k - 1
            };
            assert(left[i] == m.panes[k]);
            after.lemma_pane(i);
        }
    }
    assert forall|p: PaneId| after.has_pane(p) implies #[trigger] after.pane(p) == m.pane(p) by {
        assert(m.has_pane(p));
    }
    if rest.len() == 0 {
        lemma_dropped(m, gone, window);
    } else {
        assert(after.windows[at].id == window);
        after.lemma_window(at);
        assert forall|other: WindowId| other != window implies after.has_window(other)
            == #[trigger] m.has_window(other) && (m.has_window(other) ==> after.window(other)
            == m.window(other)) by {
            if m.has_window(other) {
                let i = m.window_at(other);
                assert(m.windows[i].id == other);
                assert(after.windows[i] == m.windows[i]);
                after.lemma_window(i);
            }
            if after.has_window(other) {
                let i = after.window_at(other);
                assert(after.windows[i].id == other);
                assert(m.windows[i].id == other);
            }
        }
        assert(rest =~= w.panes.take(index) + w.panes.skip(index + 1));
        assert(w.panes[index] == pane);
    }
}

/// A new window has one new pane, which is its focus and has a terminal of the
/// size that was asked for. It becomes active. Everything else stays as it is.
pub proof fn creating_a_window(m: MultiplexerModel, window: WindowId, pane: PaneId, size: Size)
    requires
        m.wf(),
        size.addressable(),
        window.number() == m.next_window < u64::MAX,
        pane.number() == m.next_pane < u64::MAX,
    ensures
        ({
            let after = m.create_window(window, pane, size);
            &&& after.active == Some(window)
            &&& after.has_window(window)
            &&& after.window(window).panes == seq![pane]
            &&& after.window(window).focus == pane
            &&& keeps_other_windows(m, after, window)
            &&& is_new_pane(m, after, window, pane, size)
            &&& after.next_window == m.next_window + 1
            &&& after.next_pane == m.next_pane + 1
            &&& after.events == m.events + seq![
                LifecycleEvent::WindowCreated { window },
                LifecycleEvent::PaneCreated { window, pane },
                LifecycleEvent::ActiveWindowChanged { window: Some(window) },
            ]
        }),
{
    m.creating_a_window_keeps_it_consistent(window, pane, size);
    let after = m.create_window(window, pane, size);
    let n = m.windows.len() as int;
    assert(after.windows[n].id == window);
    after.lemma_window(n);
    assert(m.active != Some(window));
    lemma_pushed_pane(m, after, window, pane, size);
    assert forall|other: WindowId| other != window implies after.has_window(other)
        == #[trigger] m.has_window(other) && (m.has_window(other) ==> after.window(other)
        == m.window(other)) by {
        if m.has_window(other) {
            let i = m.window_at(other);
            assert(m.windows[i].id == other);
            assert(after.windows[i] == m.windows[i]);
            after.lemma_window(i);
        }
        if after.has_window(other) {
            let i = after.window_at(other);
            assert(after.windows[i].id == other);
            assert(i < n);
            assert(m.windows[i].id == other);
        }
    }
    assert(after.events =~= m.events + seq![
        LifecycleEvent::WindowCreated { window },
        LifecycleEvent::PaneCreated { window, pane },
        LifecycleEvent::ActiveWindowChanged { window: Some(window) },
    ]);
}

/// A pane was added whose child is running, and no other one changed.
pub open spec fn is_new_pane(
    m: MultiplexerModel,
    after: MultiplexerModel,
    window: WindowId,
    pane: PaneId,
    size: Size,
) -> bool {
    &&& forall|p: PaneId| after.has_pane(p) == (#[trigger] m.has_pane(p) || p == pane)
    &&& forall|p: PaneId| m.has_pane(p) ==> #[trigger] after.pane(p) == m.pane(p)
    &&& after.pane(pane).id == pane
    &&& after.pane(pane).window == window
    &&& after.pane(pane).exit is None
    &&& after.pane(pane).revision == 0
    &&& is_new(after.pane(pane).terminal, size)
}

proof fn lemma_pushed_pane(
    m: MultiplexerModel,
    after: MultiplexerModel,
    window: WindowId,
    pane: PaneId,
    size: Size,
)
    requires
        m.wf(),
        after.wf(),
        size.addressable(),
        !m.has_pane(pane),
        after.panes == m.panes.push(crate::multiplexer_model::new_pane(pane, window, size)),
    ensures
        is_new_pane(m, after, window, pane, size),
{
    let n = m.panes.len() as int;
    assert(after.panes[n].id == pane);
    after.lemma_pane(n);
    assert forall|p: PaneId|
        after.has_pane(p) == (#[trigger] m.has_pane(p) || p == pane) && (m.has_pane(p)
            ==> after.pane(p) == m.pane(p)) by {
        if m.has_pane(p) {
            let i = m.pane_at(p);
            assert(m.panes[i].id == p);
            assert(after.panes[i] == m.panes[i]);
            after.lemma_pane(i);
        }
        if after.has_pane(p) && p != pane {
            let i = after.pane_at(p);
            assert(after.panes[i].id == p);
            assert(m.panes[i].id == p);
        }
    }
    assert forall|p: PaneId| m.has_pane(p) implies #[trigger] after.pane(p) == m.pane(p) by {
        assert(after.has_pane(p));
    }
}

/// A new pane goes behind the others of its window and takes its focus. The
/// active window and everything else stay as they are.
pub proof fn creating_a_pane(m: MultiplexerModel, window: WindowId, pane: PaneId, size: Size)
    requires
        m.wf(),
        size.addressable(),
        m.has_window(window),
        pane.number() == m.next_pane < u64::MAX,
    ensures
        ({
            let after = m.create_pane(window, pane, size);
            &&& after.active == m.active
            &&& after.has_window(window)
            &&& after.window(window).panes == m.window(window).panes.push(pane)
            &&& after.window(window).focus == pane
            &&& keeps_other_windows(m, after, window)
            &&& is_new_pane(m, after, window, pane, size)
            &&& after.next_window == m.next_window
            &&& after.next_pane == m.next_pane + 1
            &&& after.events == m.events + seq![
                LifecycleEvent::PaneCreated { window, pane },
                LifecycleEvent::FocusPaneChanged { window, pane },
            ]
        }),
{
    m.creating_a_pane_keeps_it_consistent(window, pane, size);
    let after = m.create_pane(window, pane, size);
    let at = m.window_at(window);
    assert(m.windows[at].id == window);
    assert(after.windows[at].id == window);
    after.lemma_window(at);
    lemma_pushed_pane(m, after, window, pane, size);
    assert forall|other: WindowId| other != window implies after.has_window(other)
        == #[trigger] m.has_window(other) && (m.has_window(other) ==> after.window(other)
        == m.window(other)) by {
        if m.has_window(other) {
            let i = m.window_at(other);
            assert(m.windows[i].id == other);
            assert(after.windows[i] == m.windows[i]);
            after.lemma_window(i);
        }
        if after.has_window(other) {
            let i = after.window_at(other);
            assert(after.windows[i].id == other);
            assert(m.windows[i].id == other);
        }
    }
    assert(after.events =~= m.events + seq![
        LifecycleEvent::PaneCreated { window, pane },
        LifecycleEvent::FocusPaneChanged { window, pane },
    ]);
}

/// A change of the active window or of a focus is told once, and only where it
/// is one.
pub proof fn changes_are_told(m: MultiplexerModel, window: WindowId, pane: PaneId)
    requires
        m.wf(),
        m.has_window(window),
    ensures
        ({
            let selected = m.activate(Some(window));
            let focused = m.set_focus(window, pane);
            &&& m.active == Some(window) ==> selected == m
            &&& m.active != Some(window) ==> selected == (MultiplexerModel {
                active: Some(window),
                events: m.events.push(LifecycleEvent::ActiveWindowChanged { window: Some(window) }),
                ..m
            })
            &&& m.window(window).focus == pane ==> focused == m
            &&& m.window(window).focus != pane ==> focused == (MultiplexerModel {
                windows: focused.windows,
                events: m.events.push(LifecycleEvent::FocusPaneChanged { window, pane }),
                ..m
            })
            &&& focused.window(window).panes == m.window(window).panes
            &&& keeps_other_windows(m, focused, window)
        }),
{
    let focused = m.set_focus(window, pane);
    let at = m.window_at(window);
    assert(m.windows[at].id == window);
    assert forall|i: int| 0 <= i < focused.windows.len() implies (#[trigger] focused.windows[i]).id
        == m.windows[i].id && focused.windows[i].panes == m.windows[i].panes && (i != at
        ==> focused.windows[i] == m.windows[i]) by {}
    assert(focused.is_ordered()) by {
        assert forall|i: int, j: int| 0 <= i < j < focused.windows.len() implies (
        #[trigger] focused.windows[i]).id.number() < (
        #[trigger] focused.windows[j]).id.number() by {
            assert(m.windows[i].id.number() < m.windows[j].id.number());
        }
    }
    focused.lemma_window(at);
    assert forall|other: WindowId| other != window implies focused.has_window(other)
        == #[trigger] m.has_window(other) && (m.has_window(other) ==> focused.window(other)
        == m.window(other)) by {
        if m.has_window(other) {
            let i = m.window_at(other);
            assert(m.windows[i].id == other);
            assert(focused.windows[i].id == other);
            focused.lemma_window(i);
        }
        if focused.has_window(other) {
            let i = focused.window_at(other);
            assert(focused.windows[i].id == other);
            assert(m.windows[i].id == other);
        }
    }
}

/// An exit is noted of the pane whose child exited, and of no other. Nothing
/// else changes.
pub proof fn noting_an_exit(m: MultiplexerModel, pane: PaneId, status: ObservedExit)
    requires
        m.wf(),
        m.has_pane(pane),
    ensures
        ({
            let after = m.note_exit(pane, status);
            &&& after == (MultiplexerModel {
                panes: after.panes,
                events: m.events.push(
                    LifecycleEvent::PaneExited { window: m.pane(pane).window, pane, status },
                ),
                ..m
            })
            &&& forall|p: PaneId| after.has_pane(p) == #[trigger] m.has_pane(p)
            &&& forall|p: PaneId|
                m.has_pane(p) ==> #[trigger] after.pane(p) == (if p == pane {
                    PaneModel { exit: Some(status), ..m.pane(p) }
                } else {
                    m.pane(p)
                })
        }),
{
    let after = m.note_exit(pane, status);
    let at = m.pane_at(pane);
    assert(m.panes[at].id == pane);
    assert forall|i: int| 0 <= i < after.panes.len() implies (#[trigger] after.panes[i]).id
        == m.panes[i].id by {}
    assert(after.is_ordered()) by {
        assert forall|i: int, j: int| 0 <= i < j < after.panes.len() implies (
        #[trigger] after.panes[i]).id.number() < (#[trigger] after.panes[j]).id.number() by {
            assert(m.panes[i].id.number() < m.panes[j].id.number());
        }
    }
    assert forall|p: PaneId|
        after.has_pane(p) == #[trigger] m.has_pane(p) && (m.has_pane(p) ==> after.pane(p) == (if p
            == pane {
            PaneModel { exit: Some(status), ..m.pane(p) }
        } else {
            m.pane(p)
        })) by {
        if m.has_pane(p) {
            let i = m.pane_at(p);
            assert(m.panes[i].id == p);
            assert(after.panes[i].id == p);
            after.lemma_pane(i);
        }
        if after.has_pane(p) {
            let i = after.pane_at(p);
            assert(after.panes[i].id == p);
            assert(m.panes[i].id == p);
        }
    }
    assert forall|p: PaneId| m.has_pane(p) implies #[trigger] after.pane(p) == (if p == pane {
        PaneModel { exit: Some(status), ..m.pane(p) }
    } else {
        m.pane(p)
    }) by {
        assert(after.has_pane(p));
    }
}

/// The panes that are asked for their exit are those whose child was not
/// reaped, all of them and no other.
pub proof fn running_panes_are_not_reaped(panes: Seq<PaneModel>)
    ensures
        forall|i: int|
            0 <= i < panes.len() && (#[trigger] panes[i]).exit is None ==> running_panes(
                panes,
            ).contains(panes[i].id),
        forall|k: int|
            0 <= k < running_panes(panes).len() ==> exists|i: int|
                0 <= i < panes.len() && (#[trigger] panes[i]).exit is None && panes[i].id
                    == #[trigger] running_panes(panes)[k],
        running_panes(panes).len() <= panes.len(),
    decreases panes.len(),
{
    if panes.len() > 0 {
        let front = panes.drop_last();
        let before = running_panes(front);
        let all = running_panes(panes);
        running_panes_are_not_reaped(front);
        assert forall|i: int| 0 <= i < panes.len() && (
        #[trigger] panes[i]).exit is None implies all.contains(panes[i].id) by {
            if i < front.len() {
                assert(front[i] == panes[i]);
                let k = choose|k: int| 0 <= k < before.len() && before[k] == panes[i].id;
                assert(all[k] == panes[i].id);
            } else {
                assert(all[before.len() as int] == panes[i].id);
            }
        }
        assert forall|k: int| 0 <= k < all.len() implies exists|i: int|
            0 <= i < panes.len() && (#[trigger] panes[i]).exit is None && panes[i].id
                == #[trigger] all[k] by {
            if k < before.len() {
                assert(all[k] == before[k]);
                let i = choose|i: int|
                    0 <= i < front.len() && (#[trigger] front[i]).exit is None && front[i].id
                        == before[k];
                assert(panes[i] == front[i]);
            } else {
                assert(panes[panes.len() - 1].id == all[k]);
            }
        }
    }
}

} // verus!
