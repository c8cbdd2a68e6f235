//! What a multiplexer does, as a mathematical state machine.
//!
//! A [`MultiplexerModel`] holds windows, panes and the events that nobody has
//! taken yet. Each operation is a function from one model to the next.

use vstd::prelude::*;

use crate::multiplexer::{LifecycleEvent, PaneId, WindowId};
use crate::pty::ObservedExit;
use crate::size::Size;
use crate::terminal_model::{least, TerminalModel};

verus! {

/// The state of a pane.
pub struct PaneModel {
    /// The identifier.
    pub id: PaneId,
    /// The window that owns the pane.
    pub window: WindowId,
    /// The terminal.
    pub terminal: TerminalModel,
    /// The revision of the terminal.
    pub revision: u64,
    /// How the child ended, once it was reaped.
    pub exit: Option<ObservedExit>,
}

/// The state of a window.
pub struct WindowModel {
    /// The identifier.
    pub id: WindowId,
    /// The panes, in creation order.
    pub panes: Seq<PaneId>,
    /// The focused pane.
    pub focus: PaneId,
}

/// The state of a multiplexer.
pub struct MultiplexerModel {
    /// The windows, in creation order.
    pub windows: Seq<WindowModel>,
    /// The panes, in creation order.
    pub panes: Seq<PaneModel>,
    /// The active window.
    pub active: Option<WindowId>,
    /// The number of the next window.
    pub next_window: u64,
    /// The number of the next pane.
    pub next_pane: u64,
    /// The events that nobody has taken yet.
    pub events: Seq<LifecycleEvent>,
}

impl MultiplexerModel {
    /// Whether there is a window with this identifier.
    pub open spec fn has_window(self, id: WindowId) -> bool {
        exists|i: int| 0 <= i < self.windows.len() && (#[trigger] self.windows[i]).id == id
    }

    /// Where the window with an identifier is.
    pub open spec fn window_at(self, id: WindowId) -> int {
        choose|i: int| 0 <= i < self.windows.len() && (#[trigger] self.windows[i]).id == id
    }

    /// Whether there is a pane with this identifier.
    pub open spec fn has_pane(self, id: PaneId) -> bool {
        exists|i: int| 0 <= i < self.panes.len() && (#[trigger] self.panes[i]).id == id
    }

    /// Where the pane with an identifier is.
    pub open spec fn pane_at(self, id: PaneId) -> int {
        choose|i: int| 0 <= i < self.panes.len() && (#[trigger] self.panes[i]).id == id
    }

    /// The window with an identifier.
    pub open spec fn window(self, id: WindowId) -> WindowModel {
        self.windows[self.window_at(id)]
    }

    /// The pane with an identifier.
    pub open spec fn pane(self, id: PaneId) -> PaneModel {
        self.panes[self.pane_at(id)]
    }

    /// Whether a window lists a pane.
    pub open spec fn lists(self, window: WindowId, pane: PaneId) -> bool {
        exists|i: int|
            0 <= i < self.windows.len() && (#[trigger] self.windows[i]).id == window
                && self.windows[i].panes.contains(pane)
    }

    /// Whether a pane says that it belongs to a window.
    pub open spec fn owned(self, window: WindowId, pane: PaneId) -> bool {
        exists|i: int|
            0 <= i < self.panes.len() && (#[trigger] self.panes[i]).id == pane
                && self.panes[i].window == window
    }

    /// Windows and panes are in the order of their identifiers, all of which
    /// have been given out.
    pub open spec fn is_ordered(self) -> bool {
        &&& forall|i: int, j: int|
            0 <= i < j < self.windows.len() ==> (#[trigger] self.windows[i]).id.number() < (
            #[trigger] self.windows[j]).id.number()
        &&& forall|i: int|
            0 <= i < self.windows.len() ==> (#[trigger] self.windows[i]).id.number()
                < self.next_window
        &&& forall|i: int, j: int|
            0 <= i < j < self.panes.len() ==> (#[trigger] self.panes[i]).id.number() < (
            #[trigger] self.panes[j]).id.number()
        &&& forall|i: int|
            0 <= i < self.panes.len() ==> (#[trigger] self.panes[i]).id.number()
                < self.next_pane
    }

    /// No window is empty or lists a pane twice, and each focus is on one of
    /// the window's panes.
    pub open spec fn is_focused(self) -> bool {
        forall|i: int|
            0 <= i < self.windows.len() ==> (#[trigger] self.windows[i]).panes.no_duplicates()
                && self.windows[i].panes.contains(self.windows[i].focus)
    }

    /// Every window lists its panes in creation order.
    pub open spec fn is_listed_in_order(self) -> bool {
        forall|i: int| 0 <= i < self.windows.len() ==> ascends((#[trigger] self.windows[i]).panes)
    }

    /// Windows and panes agree on what belongs where.
    pub open spec fn is_in_sync(self) -> bool {
        forall|window: WindowId, pane: PaneId|
            #[trigger] self.lists(window, pane) == self.owned(window, pane)
    }

    /// The active window exists, and there is none only where there are no
    /// windows.
    pub open spec fn is_active(self) -> bool {
        match self.active {
            Some(window) => self.has_window(window),
            None => self.windows.len() == 0,
        }
    }

    /// A multiplexer is consistent.
    pub open spec fn wf(self) -> bool {
        &&& self.is_ordered()
        &&& self.is_focused()
        &&& self.is_listed_in_order()
        &&& self.is_in_sync()
        &&& self.is_active()
    }

    /// With one more event.
    pub open spec fn tell(self, event: LifecycleEvent) -> MultiplexerModel {
        MultiplexerModel { events: self.events.push(event), ..self }
    }

    /// With another active window. It is told where it differs.
    pub open spec fn activate(self, window: Option<WindowId>) -> MultiplexerModel {
        if self.active == window {
            self
        } else {
            MultiplexerModel { active: window, ..self }.tell(
                LifecycleEvent::ActiveWindowChanged { window },
            )
        }
    }

    /// With a new window that has one new pane. It becomes active, and the
    /// pane is its focus.
    pub open spec fn create_window(self, window: WindowId, pane: PaneId, size: Size) -> MultiplexerModel {
        MultiplexerModel {
            windows: self.windows.push(
                WindowModel { id: window, panes: seq![pane], focus: pane },
            ),
            panes: self.panes.push(new_pane(pane, window, size)),
            next_window: (self.next_window + 1) as u64,
            next_pane: (self.next_pane + 1) as u64,
            ..self
        }.tell(LifecycleEvent::WindowCreated { window }).tell(
            LifecycleEvent::PaneCreated { window, pane },
        ).activate(Some(window))
    }

    /// With a new pane in a window. It becomes the focus of the window.
    pub open spec fn create_pane(self, window: WindowId, pane: PaneId, size: Size) -> MultiplexerModel {
        let at = self.window_at(window);
        MultiplexerModel {
            windows: self.windows.update(
                at,
                WindowModel { panes: self.windows[at].panes.push(pane), focus: pane, ..self.windows[at] },
            ),
            panes: self.panes.push(new_pane(pane, window, size)),
            next_pane: (self.next_pane + 1) as u64,
            ..self
        }.tell(LifecycleEvent::PaneCreated { window, pane }).tell(
            LifecycleEvent::FocusPaneChanged { window, pane },
        )
    }

    /// With another focus pane in a window. It is told where it differs.
    pub open spec fn set_focus(self, window: WindowId, pane: PaneId) -> MultiplexerModel {
        let at = self.window_at(window);
        if self.windows[at].focus == pane {
            self
        } else {
            MultiplexerModel {
                windows: self.windows.update(
                    at,
                    WindowModel { focus: pane, ..self.windows[at] },
                ),
                ..self
            }.tell(LifecycleEvent::FocusPaneChanged { window, pane })
        }
    }

    /// Without a window that has no panes left. Where it was active, the
    /// oldest window takes its place.
    pub open spec fn drop_window(self, window: WindowId) -> MultiplexerModel {
        let rest = self.windows.remove(self.window_at(window));
        let dropped = MultiplexerModel { windows: rest, ..self }.tell(
            LifecycleEvent::WindowClosed { window },
        );
        if self.active == Some(window) {
            dropped.activate(
                if rest.len() > 0 {
                    Some(rest[0].id)
                } else {
                    None
                },
            )
        } else {
            dropped
        }
    }

    /// Without a pane. The pane that followed it takes its focus, or the one
    /// before it where it was the last. The last pane of a window takes the
    /// window with it.
    pub open spec fn remove_pane(self, pane: PaneId) -> MultiplexerModel {
        let window = self.pane(pane).window;
        let at = self.window_at(window);
        let w = self.windows[at];
        let index = w.panes.index_of(pane);
        let rest = w.panes.remove(index);
        let gone = MultiplexerModel { panes: self.panes.remove(self.pane_at(pane)), ..self };
        if rest.len() == 0 {
            gone.tell(LifecycleEvent::PaneClosed { window, pane }).drop_window(window)
        } else if w.focus == pane {
            let focus = rest[least(index, rest.len() - 1)];
            MultiplexerModel {
                windows: self.windows.update(at, WindowModel { panes: rest, focus, ..w }),
                ..gone
            }.tell(LifecycleEvent::FocusPaneChanged { window, pane: focus }).tell(
                LifecycleEvent::PaneClosed { window, pane },
            )
        } else {
            MultiplexerModel {
                windows: self.windows.update(at, WindowModel { panes: rest, ..w }),
                ..gone
            }.tell(LifecycleEvent::PaneClosed { window, pane })
        }
    }

    /// Without a window and all of its panes.
    pub open spec fn remove_window(self, window: WindowId) -> MultiplexerModel {
        MultiplexerModel {
            panes: others(self.panes, window),
            events: self.events + closed_events(window, self.window(window).panes),
            ..self
        }.drop_window(window)
    }

    /// With the exit of a pane's child told.
    pub open spec fn note_exit(self, pane: PaneId, status: ObservedExit) -> MultiplexerModel {
        let at = self.pane_at(pane);
        let window = self.panes[at].window;
        MultiplexerModel {
            panes: self.panes.update(at, PaneModel { exit: Some(status), ..self.panes[at] }),
            ..self
        }.tell(LifecycleEvent::PaneExited { window, pane, status })
    }
}

/// Whether the numbers of panes increase, as they do in creation order.
pub open spec fn ascends(panes: Seq<PaneId>) -> bool {
    forall|a: int, b: int|
        0 <= a < b < panes.len() ==> (#[trigger] panes[a]).number() < (
        #[trigger] panes[b]).number()
}

/// A pane that has just begun.
pub open spec fn new_pane(id: PaneId, window: WindowId, size: Size) -> PaneModel {
    PaneModel { id, window, terminal: TerminalModel::initial(size), revision: 0, exit: None }
}

/// The panes that do not belong to a window.
pub open spec fn others(panes: Seq<PaneModel>, window: WindowId) -> Seq<PaneModel>
    decreases panes.len(),
{
    if panes.len() == 0 {
        Seq::empty()
    } else if panes.last().window == window {
        others(panes.drop_last(), window)
    } else {
        others(panes.drop_last(), window).push(panes.last())
    }
}

/// The panes whose child has not been reaped.
pub open spec fn running_panes(panes: Seq<PaneModel>) -> Seq<PaneId>
    decreases panes.len(),
{
    if panes.len() == 0 {
        Seq::empty()
    } else if panes.last().exit is Some {
        running_panes(panes.drop_last())
    } else {
        running_panes(panes.drop_last()).push(panes.last().id)
    }
}

/// One event for each pane that a window takes with it.
pub open spec fn closed_events(window: WindowId, panes: Seq<PaneId>) -> Seq<LifecycleEvent> {
    Seq::new(panes.len(), |i: int| LifecycleEvent::PaneClosed { window, pane: panes[i] })
}

impl MultiplexerModel {
    /// There is one window with an identifier.
    pub proof fn lemma_window(self, i: int)
        requires
            self.is_ordered(),
            0 <= i < self.windows.len(),
        ensures
            self.has_window(self.windows[i].id),
            self.window_at(self.windows[i].id) == i,
    {
        let id = self.windows[i].id;
        let k = self.window_at(id);
        assert(self.windows[k].id == id);
        if k < i {
            assert(self.windows[k].id.number() < self.windows[i].id.number());
        } else if i < k {
            assert(self.windows[i].id.number() < self.windows[k].id.number());
        }
    }

    /// There is one pane with an identifier.
    pub proof fn lemma_pane(self, i: int)
        requires
            self.is_ordered(),
            0 <= i < self.panes.len(),
        ensures
            self.has_pane(self.panes[i].id),
            self.pane_at(self.panes[i].id) == i,
    {
        let id = self.panes[i].id;
        let k = self.pane_at(id);
        assert(self.panes[k].id == id);
        if k < i {
            assert(self.panes[k].id.number() < self.panes[i].id.number());
        } else if i < k {
            assert(self.panes[i].id.number() < self.panes[k].id.number());
        }
    }

    /// The window of a pane exists, and lists it.
    pub proof fn lemma_owner(self, pane: PaneId)
        requires
            self.wf(),
            self.has_pane(pane),
        ensures
            self.has_window(self.pane(pane).window),
            self.window(self.pane(pane).window).panes.contains(pane),
    {
        let p = self.pane_at(pane);
        let window = self.panes[p].window;
        assert(self.owned(window, pane));
        assert(self.lists(window, pane));
        let k = choose|i: int|
            0 <= i < self.windows.len() && (#[trigger] self.windows[i]).id == window
                && self.windows[i].panes.contains(pane);
        self.lemma_window(k);
    }

    /// What a window lists is a pane that belongs to it.
    pub proof fn lemma_listed(self, window: WindowId, pane: PaneId)
        requires
            self.wf(),
            self.has_window(window),
            self.window(window).panes.contains(pane),
        ensures
            self.has_pane(pane),
            self.pane(pane).window == window,
    {
        let k = self.window_at(window);
        assert(self.windows[k].id == window);
        assert(self.lists(window, pane));
        assert(self.owned(window, pane));
        let i = choose|i: int|
            0 <= i < self.panes.len() && (#[trigger] self.panes[i]).id == pane
                && self.panes[i].window == window;
        self.lemma_pane(i);
    }

    /// Creating a window keeps a multiplexer consistent.
    pub proof fn creating_a_window_keeps_it_consistent(
        self,
        window: WindowId,
        pane: PaneId,
        size: Size,
    )
        requires
            self.wf(),
            window.number() == self.next_window < u64::MAX,
            pane.number() == self.next_pane < u64::MAX,
        ensures
            self.create_window(window, pane, size).wf(),
            !self.has_window(window),
            !self.has_pane(pane),
            self.create_window(window, pane, size).active == Some(window),
    {
        let after = self.create_window(window, pane, size);
        let n = self.windows.len() as int;
        let k = self.panes.len() as int;
        assert(after.windows[n].id == window);
        assert(after.windows[n].panes[0] == pane);
        assert(after.panes[k].id == pane && after.panes[k].window == window);
        assert forall|i: int| 0 <= i < n implies after.windows[i] == #[trigger] self.windows[i] by {}
        assert forall|i: int| 0 <= i < k implies after.panes[i] == #[trigger] self.panes[i] by {}
        assert forall|w: WindowId, p: PaneId| #[trigger] after.lists(w, p) == after.owned(w, p) by {
            assert(self.lists(w, p) == self.owned(w, p));
            if self.lists(w, p) {
                let i = choose|i: int|
                    0 <= i < self.windows.len() && (#[trigger] self.windows[i]).id == w
                        && self.windows[i].panes.contains(p);
                assert(after.windows[i].panes.contains(p));
            }
            if self.owned(w, p) {
                let i = choose|i: int|
                    0 <= i < self.panes.len() && (#[trigger] self.panes[i]).id == p
                        && self.panes[i].window == w;
                assert(after.panes[i].id == p);
            }
            if after.lists(w, p) {
                let i = choose|i: int|
                    0 <= i < after.windows.len() && (#[trigger] after.windows[i]).id == w
                        && after.windows[i].panes.contains(p);
                if i < n {
                    assert(self.windows[i].panes.contains(p));
                }
            }
            if after.owned(w, p) {
                let i = choose|i: int|
                    0 <= i < after.panes.len() && (#[trigger] after.panes[i]).id == p
                        && after.panes[i].window == w;
                if i < k {
                    assert(self.panes[i].id == p);
                } else {
                    assert(after.windows[n].panes.contains(p));
                }
            }
        }
        assert(after.windows[n].panes.no_duplicates());
        assert(after.windows[n].panes.contains(pane));
        assert(after.is_focused()) by {
            assert forall|i: int| 0 <= i < after.windows.len() implies (
            #[trigger] after.windows[i]).panes.no_duplicates() && after.windows[i].panes.contains(
                after.windows[i].focus,
            ) by {
                if i < n {
                    assert(self.windows[i].panes.no_duplicates());
                }
            }
        }
        assert forall|i: int| 0 <= i < after.windows.len() implies ascends(
            (#[trigger] after.windows[i]).panes,
        ) by {
            if i < n {
                assert(ascends(self.windows[i].panes));
            }
        }
        assert(after.is_ordered()) by {
            assert forall|i: int, j: int| 0 <= i < j < after.windows.len() implies (
            #[trigger] after.windows[i]).id.number() < (#[trigger] after.windows[j]).id.number() by {
                assert(self.windows[i].id.number() < self.next_window);
                if j < n {
                    assert(self.windows[i].id.number() < self.windows[j].id.number());
                }
            }
            assert forall|i: int, j: int| 0 <= i < j < after.panes.len() implies (
            #[trigger] after.panes[i]).id.number() < (#[trigger] after.panes[j]).id.number() by {
                assert(self.panes[i].id.number() < self.next_pane);
                if j < k {
                    assert(self.panes[i].id.number() < self.panes[j].id.number());
                }
            }
        }
    }

    /// Creating a pane keeps a multiplexer consistent.
    pub proof fn creating_a_pane_keeps_it_consistent(
        self,
        window: WindowId,
        pane: PaneId,
        size: Size,
    )
        requires
            self.wf(),
            self.has_window(window),
            pane.number() == self.next_pane < u64::MAX,
        ensures
            self.create_pane(window, pane, size).wf(),
            !self.has_pane(pane),
            self.create_pane(window, pane, size).active == self.active,
            self.create_pane(window, pane, size).window(window).focus == pane,
    {
        let after = self.create_pane(window, pane, size);
        let at = self.window_at(window);
        let k = self.panes.len() as int;
        let old_list = self.windows[at].panes;
        let new_list = after.windows[at].panes;
        assert(self.windows[at].id == window);
        assert(new_list == old_list.push(pane));
        assert(new_list[old_list.len() as int] == pane);
        assert(after.panes[k].id == pane && after.panes[k].window == window);
        assert forall|i: int| 0 <= i < k implies after.panes[i] == #[trigger] self.panes[i] by {}
        assert(!self.has_pane(pane));
        assert(!old_list.contains(pane)) by {
            if old_list.contains(pane) {
                self.lemma_listed(window, pane);
            }
        }
        assert forall|p: PaneId| old_list.contains(p) implies #[trigger] new_list.contains(p) by {
            let j = choose|j: int| 0 <= j < old_list.len() && old_list[j] == p;
            assert(new_list[j] == p);
        }
        assert forall|p: PaneId| #[trigger] new_list.contains(p) && p != pane implies old_list.contains(
            p,
        ) by {
            let j = choose|j: int| 0 <= j < new_list.len() && new_list[j] == p;
            assert(old_list[j] == p);
        }
        assert forall|w: WindowId, p: PaneId| #[trigger] after.lists(w, p) == after.owned(w, p) by {
            assert(self.lists(w, p) == self.owned(w, p));
            if self.lists(w, p) {
                let i = choose|i: int|
                    0 <= i < self.windows.len() && (#[trigger] self.windows[i]).id == w
                        && self.windows[i].panes.contains(p);
                assert(after.windows[i].id == w && after.windows[i].panes.contains(p));
            }
            if self.owned(w, p) {
                let i = choose|i: int|
                    0 <= i < self.panes.len() && (#[trigger] self.panes[i]).id == p
                        && self.panes[i].window == w;
                assert(after.panes[i].id == p);
            }
            if after.lists(w, p) {
                let i = choose|i: int|
                    0 <= i < after.windows.len() && (#[trigger] after.windows[i]).id == w
                        && after.windows[i].panes.contains(p);
                if i != at {
                    assert(self.windows[i].panes.contains(p));
                } else if p != pane {
                    assert(self.windows[at].panes.contains(p));
                }
            }
            if after.owned(w, p) {
                let i = choose|i: int|
                    0 <= i < after.panes.len() && (#[trigger] after.panes[i]).id == p
                        && after.panes[i].window == w;
                if i < k {
                    assert(self.panes[i].id == p);
                } else {
                    assert(after.windows[at].id == w && after.windows[at].panes.contains(p));
                }
            }
        }
        assert(after.is_focused()) by {
            assert forall|i: int| 0 <= i < after.windows.len() implies (
            #[trigger] after.windows[i]).panes.no_duplicates() && after.windows[i].panes.contains(
                after.windows[i].focus,
            ) by {
                assert(self.windows[i].panes.no_duplicates());
            }
        }
        assert(after.is_ordered()) by {
            assert forall|i: int| 0 <= i < after.windows.len() implies (
            #[trigger] after.windows[i]).id == self.windows[i].id by {}
            assert forall|i: int, j: int| 0 <= i < j < after.windows.len() implies (
            #[trigger] after.windows[i]).id.number() < (#[trigger] after.windows[j]).id.number() by {
                assert(self.windows[i].id.number() < self.windows[j].id.number());
            }
            assert forall|i: int, j: int| 0 <= i < j < after.panes.len() implies (
            #[trigger] after.panes[i]).id.number() < (#[trigger] after.panes[j]).id.number() by {
                assert(self.panes[i].id.number() < self.next_pane);
                if j < k {
                    assert(self.panes[i].id.number() < self.panes[j].id.number());
                }
            }
        }
        assert forall|i: int| 0 <= i < after.windows.len() implies ascends(
            (#[trigger] after.windows[i]).panes,
        ) by {
            assert(ascends(self.windows[i].panes));
            if i == at {
                assert forall|a: int| 0 <= a < old_list.len() implies (
                #[trigger] old_list[a]).number() < self.next_pane by {
                    assert(old_list.contains(old_list[a]));
                    self.lemma_listed(window, old_list[a]);
                    assert(self.pane(old_list[a]).id == old_list[a]);
                }
                assert(forall|a: int| 0 <= a < old_list.len() ==> new_list[a] == old_list[a]);
            }
        }
        assert(after.is_active()) by {
            match self.active {
                Some(w) => {
                    assert(after.windows[self.window_at(w)].id == w);
                },
                None => {},
            }
        }
        after.lemma_window(at);
    }

    /// Moving the focus keeps a multiplexer consistent.
    pub proof fn focusing_keeps_it_consistent(self, window: WindowId, pane: PaneId)
        requires
            self.wf(),
            self.has_pane(pane),
            self.pane(pane).window == window,
        ensures
            self.set_focus(window, pane).wf(),
            self.set_focus(window, pane).window(window).focus == pane,
            self.set_focus(window, pane).active == self.active,
    {
        self.lemma_owner(pane);
        let after = self.set_focus(window, pane);
        let at = self.window_at(window);
        assert forall|i: int| 0 <= i < after.windows.len() implies (
        #[trigger] after.windows[i]).id == self.windows[i].id && after.windows[i].panes
            == self.windows[i].panes by {}
        assert forall|w: WindowId, p: PaneId| #[trigger] after.lists(w, p) == after.owned(w, p) by {
            assert(self.lists(w, p) == self.owned(w, p));
            if self.lists(w, p) {
                let i = choose|i: int|
                    0 <= i < self.windows.len() && (#[trigger] self.windows[i]).id == w
                        && self.windows[i].panes.contains(p);
                assert(after.windows[i].id == w);
            }
            if after.lists(w, p) {
                let i = choose|i: int|
                    0 <= i < after.windows.len() && (#[trigger] after.windows[i]).id == w
                        && after.windows[i].panes.contains(p);
                assert(self.windows[i].id == w);
            }
        }
        assert(after.is_focused()) by {
            assert forall|i: int| 0 <= i < after.windows.len() implies (
            #[trigger] after.windows[i]).panes.no_duplicates() && after.windows[i].panes.contains(
                after.windows[i].focus,
            ) by {
                assert(self.windows[i].panes.no_duplicates());
            }
        }
        assert(after.is_ordered()) by {
            assert forall|i: int, j: int| 0 <= i < j < after.windows.len() implies (
            #[trigger] after.windows[i]).id.number() < (#[trigger] after.windows[j]).id.number() by {
                assert(self.windows[i].id.number() < self.windows[j].id.number());
            }
        }
        assert(after.is_active()) by {
            match self.active {
                Some(w) => {
                    assert(after.windows[self.window_at(w)].id == w);
                },
                None => {},
            }
        }
        after.lemma_window(at);
    }

    /// Dropping a window whose panes are gone keeps a multiplexer consistent.
    pub proof fn lemma_drop_window(self, window: WindowId)
        requires
            self.is_ordered(),
            self.is_focused(),
            self.is_listed_in_order(),
            self.is_active(),
            self.has_window(window),
            forall|w: WindowId, p: PaneId|
                w != window ==> #[trigger] self.lists(w, p) == self.owned(w, p),
            forall|p: PaneId| !#[trigger] self.owned(window, p),
        ensures
            self.drop_window(window).wf(),
            !self.drop_window(window).has_window(window),
            self.drop_window(window).panes == self.panes,
            forall|w: WindowId|
                w != window ==> self.drop_window(window).has_window(w) == #[trigger] self.has_window(
                    w,
                ),
    {
        let after = self.drop_window(window);
        let at = self.window_at(window);
        assert(self.windows[at].id == window);
        assert(after.windows == self.windows.remove(at));
        assert forall|i: int| 0 <= i < after.windows.len() implies #[trigger] after.windows[i]
            == self.windows[if i < at {
            i
        } else {
            i + 1
        }] by {}
        assert forall|i: int| 0 <= i < after.windows.len() implies (#[trigger] after.windows[i]).id
            != window by {
            let k = if i < at {
                i
            } else {
                i + 1
            };
            self.lemma_window(k);
        }
        assert forall|i: int| 0 <= i < self.windows.len() && i != at implies after.windows[if i < at {
            i
        } else {
            i - 1
        }] == #[trigger] self.windows[i] by {}
        assert forall|w: WindowId| w != window implies after.has_window(w)
            == #[trigger] self.has_window(w) by {
            if self.has_window(w) {
                let i = self.window_at(w);
                assert(self.windows[i].id == w);
                let k = if i < at {
                    i
                } else {
                    i - 1
                };
                assert(after.windows[k].id == w);
            }
            if after.has_window(w) {
                let i = after.window_at(w);
                assert(after.windows[i].id == w);
                let k = if i < at {
                    i
                } else {
                    i + 1
                };
                assert(self.windows[k].id == w);
            }
        }
        assert(after.is_ordered()) by {
            assert forall|i: int, j: int| 0 <= i < j < after.windows.len() implies (
            #[trigger] after.windows[i]).id.number() < (#[trigger] after.windows[j]).id.number() by {
                let a = if i < at {
                    i
                } else {
                    i + 1
                };
                let b = if j < at {
                    j
                } else {
                    j + 1
                };
                assert(self.windows[a].id.number() < self.windows[b].id.number());
            }
        }
        assert(after.is_focused()) by {
            assert forall|i: int| 0 <= i < after.windows.len() implies (
            #[trigger] after.windows[i]).panes.no_duplicates() && after.windows[i].panes.contains(
                after.windows[i].focus,
            ) by {
                let a = if i < at {
                    i
                } else {
                    i + 1
                };
                assert(self.windows[a].panes.no_duplicates());
            }
        }
        assert forall|i: int| 0 <= i < after.windows.len() implies ascends(
            (#[trigger] after.windows[i]).panes,
        ) by {
            let a = if i < at {
                i
            } else {
                i + 1
            };
            assert(ascends(self.windows[a].panes));
        }
        assert forall|w: WindowId, p: PaneId| #[trigger] after.lists(w, p) == after.owned(w, p) by {
            assert(self.owned(w, p) == after.owned(w, p));
            if after.lists(w, p) {
                let i = choose|i: int|
                    0 <= i < after.windows.len() && (#[trigger] after.windows[i]).id == w
                        && after.windows[i].panes.contains(p);
                let k = if i < at {
                    i
                } else {
                    i + 1
                };
                assert(self.windows[k].id == w && self.windows[k].panes.contains(p));
                assert(self.lists(w, p));
            }
            if w != window && self.lists(w, p) {
                let i = choose|i: int|
                    0 <= i < self.windows.len() && (#[trigger] self.windows[i]).id == w
                        && self.windows[i].panes.contains(p);
                let k = if i < at {
                    i
                } else {
                    i - 1
                };
                assert(after.windows[k].id == w && after.windows[k].panes.contains(p));
            }
            if w == window {
                assert(!self.owned(window, p));
            }
        }
        assert(after.is_active()) by {
            if self.active == Some(window) {
                if after.windows.len() > 0 {
                    assert(after.windows[0].id == after.active.unwrap());
                }
            } else {
                match self.active {
                    Some(w) => {
                        assert(self.has_window(w));
                        assert(after.has_window(w));
                    },
                    None => {},
                }
            }
        }
    }

    /// Whether a pane is there once another one is gone.
    pub proof fn lemma_without_pane(self, after: MultiplexerModel, pane: PaneId)
        requires
            self.is_ordered(),
            self.has_pane(pane),
            after.panes == self.panes.remove(self.pane_at(pane)),
            after.next_pane == self.next_pane,
        ensures
            !after.has_pane(pane),
            forall|w: WindowId, p: PaneId|
                #[trigger] after.owned(w, p) == (self.owned(w, p) && p != pane),
            forall|i: int, j: int|
                0 <= i < j < after.panes.len() ==> (#[trigger] after.panes[i]).id.number() < (
                #[trigger] after.panes[j]).id.number(),
            forall|i: int|
                0 <= i < after.panes.len() ==> (#[trigger] after.panes[i]).id.number()
                    < after.next_pane,
    {
        let at = self.pane_at(pane);
        assert(self.panes[at].id == pane);
        assert forall|i: int| 0 <= i < after.panes.len() implies #[trigger] after.panes[i]
            == self.panes[if i < at {
            i
        } else {
            i + 1
        }] && after.panes[i].id != pane by {
            let k = if i < at {
                i
            } else {
                i + 1
            };
            self.lemma_pane(k);
        }
        assert forall|w: WindowId, p: PaneId| #[trigger] after.owned(w, p) == (self.owned(w, p) && p
            != pane) by {
            if self.owned(w, p) && p != pane {
                let i = choose|i: int|
                    0 <= i < self.panes.len() && (#[trigger] self.panes[i]).id == p
                        && self.panes[i].window == w;
                let k = if i < at {
                    i
                } else {
                    i - 1
                };
                assert(after.panes[k] == self.panes[i]);
            }
            if after.owned(w, p) {
                let i = choose|i: int|
                    0 <= i < after.panes.len() && (#[trigger] after.panes[i]).id == p
                        && after.panes[i].window == w;
                let k = if i < at {
                    i
                } else {
                    i + 1
                };
                assert(self.panes[k].id == p && self.panes[k].window == w);
            }
        }
        assert forall|i: int, j: int| 0 <= i < j < after.panes.len() implies (
        #[trigger] after.panes[i]).id.number() < (#[trigger] after.panes[j]).id.number() by {
            let a = if i < at {
                i
            } else {
                i + 1
            };
            let b = if j < at {
                j
            } else {
                j + 1
            };
            assert(self.panes[a].id.number() < self.panes[b].id.number());
        }
    }

    /// Removing a pane keeps a multiplexer consistent.
    pub proof fn removing_a_pane_keeps_it_consistent(self, pane: PaneId)
        requires
            self.wf(),
            self.has_pane(pane),
        ensures
            self.remove_pane(pane).wf(),
            !self.remove_pane(pane).has_pane(pane),
    {
        self.lemma_owner(pane);
        let window = self.pane(pane).window;
        let at = self.window_at(window);
        let w0 = self.windows[at];
        assert(w0.id == window);
        let index = w0.panes.index_of(pane);
        assert(0 <= index < w0.panes.len() && w0.panes[index] == pane);
        let rest = w0.panes.remove(index);
        let after = self.remove_pane(pane);
        assert forall|p: PaneId| #[trigger] rest.contains(p) == (w0.panes.contains(p) && p != pane) by {
            if rest.contains(p) {
                let j = choose|j: int| 0 <= j < rest.len() && rest[j] == p;
                let k = if j < index {
                    j
                } else {
                    j + 1
                };
                assert(w0.panes[k] == p);
            }
            if w0.panes.contains(p) && p != pane {
                let j = choose|j: int| 0 <= j < w0.panes.len() && w0.panes[j] == p;
                let k = if j < index {
                    j
                } else {
                    j - 1
                };
                assert(rest[k] == p);
            }
        }
        if rest.len() == 0 {
            let gone = MultiplexerModel {
                panes: self.panes.remove(self.pane_at(pane)),
                ..self
            }.tell(LifecycleEvent::PaneClosed { window, pane });
            self.lemma_without_pane(gone, pane);
            assert forall|w: WindowId, p: PaneId|
                w != window implies #[trigger] gone.lists(w, p) == gone.owned(w, p) by {
                assert(gone.lists(w, p) == self.lists(w, p));
                assert(self.lists(w, p) == self.owned(w, p));
                if p == pane && self.owned(w, p) {
                    let i = choose|i: int|
                        0 <= i < self.panes.len() && (#[trigger] self.panes[i]).id == p
                            && self.panes[i].window == w;
                    self.lemma_pane(i);
                }
            }
            assert forall|p: PaneId| !#[trigger] gone.owned(window, p) by {
                if gone.owned(window, p) {
                    assert(self.owned(window, p));
                    assert(self.lists(window, p));
                    let i = choose|i: int|
                        0 <= i < self.windows.len() && (#[trigger] self.windows[i]).id == window
                            && self.windows[i].panes.contains(p);
                    self.lemma_window(i);
                    assert(rest.contains(p));
                }
            }
            assert(gone.is_active()) by {
                match self.active {
                    Some(w) => {
                        assert(gone.windows[self.window_at(w)].id == w);
                    },
                    None => {},
                }
            }
            assert(gone.windows[at].id == window);
            assert(gone.has_window(window));
            gone.lemma_drop_window(window);
        } else {
            self.lemma_without_pane(after, pane);
            assert forall|i: int| 0 <= i < after.windows.len() implies (
            #[trigger] after.windows[i]).id == self.windows[i].id && (i != at
                ==> after.windows[i] == self.windows[i]) by {}
            assert(after.windows[at].panes == rest);
            assert forall|w: WindowId, p: PaneId| #[trigger] after.lists(w, p)
                == after.owned(w, p) by {
                assert(self.lists(w, p) == self.owned(w, p));
                if after.lists(w, p) {
                    let i = choose|i: int|
                        0 <= i < after.windows.len() && (#[trigger] after.windows[i]).id == w
                            && after.windows[i].panes.contains(p);
                    if i == at {
                        assert(rest.contains(p));
                        assert(self.windows[at].panes.contains(p));
                    } else {
                        assert(self.windows[i].panes.contains(p));
                        assert(self.lists(w, p));
                        if p == pane {
                            self.lemma_window(i);
                            self.lemma_listed(w, p);
                        }
                    }
                }
                if after.owned(w, p) {
                    let i = choose|i: int|
                        0 <= i < self.windows.len() && (#[trigger] self.windows[i]).id == w
                            && self.windows[i].panes.contains(p);
                    assert(after.windows[i].id == w);
                    if i == at {
                        assert(rest.contains(p));
                    }
                    assert(after.windows[i].panes.contains(p));
                }
            }
            assert(ascends(rest)) by {
                assert(ascends(w0.panes));
                assert forall|a: int, b: int| 0 <= a < b < rest.len() implies (
                #[trigger] rest[a]).number() < (#[trigger] rest[b]).number() by {
                    let a0 = if a < index {
                        a
                    } else {
                        a + 1
                    };
                    let b0 = if b < index {
                        b
                    } else {
                        b + 1
                    };
                    assert(w0.panes[a0].number() < w0.panes[b0].number());
                }
            }
            assert forall|i: int| 0 <= i < after.windows.len() implies ascends(
                (#[trigger] after.windows[i]).panes,
            ) by {
                assert(ascends(self.windows[i].panes));
            }
            assert(rest.no_duplicates()) by {
                assert forall|a: int, b: int| 0 <= a < rest.len() && 0 <= b < rest.len() && a
                    != b implies rest[a] != rest[b] by {
                    let a0 = if a < index {
                        a
                    } else {
                        a + 1
                    };
                    let b0 = if b < index {
                        b
                    } else {
                        b + 1
                    };
                    assert(w0.panes[a0] != w0.panes[b0]);
                }
            }
            assert(after.is_focused()) by {
                assert forall|i: int| 0 <= i < after.windows.len() implies (
                #[trigger] after.windows[i]).panes.no_duplicates() && after.windows[i].panes.contains(
                    after.windows[i].focus,
                ) by {
                    assert(self.windows[i].panes.no_duplicates());
                    assert(self.windows[i].panes.contains(self.windows[i].focus));
                    if i == at && w0.focus != pane {
                        assert(rest.contains(w0.focus));
                    }
                }
            }
            assert(after.is_ordered()) by {
                assert forall|i: int, j: int| 0 <= i < j < after.windows.len() implies (
                #[trigger] after.windows[i]).id.number() < (
                #[trigger] after.windows[j]).id.number() by {
                    assert(self.windows[i].id.number() < self.windows[j].id.number());
                }
            }
            assert(after.is_active()) by {
                match self.active {
                    Some(w) => {
                        assert(after.windows[self.window_at(w)].id == w);
                    },
                    None => {},
                }
            }
        }
    }

    /// Removing a window keeps a multiplexer consistent.
    pub proof fn removing_a_window_keeps_it_consistent(self, window: WindowId)
        requires
            self.wf(),
            self.has_window(window),
        ensures
            self.remove_window(window).wf(),
            !self.remove_window(window).has_window(window),
    {
        let gone = MultiplexerModel {
            panes: others(self.panes, window),
            events: self.events + closed_events(window, self.window(window).panes),
            ..self
        };
        lemma_others(self.panes, window);
        assert forall|w: WindowId, p: PaneId| w != window implies #[trigger] gone.lists(w, p)
            == gone.owned(w, p) by {
            assert(gone.lists(w, p) == self.lists(w, p));
            assert(self.lists(w, p) == self.owned(w, p));
            if self.owned(w, p) {
                let i = choose|i: int|
                    0 <= i < self.panes.len() && (#[trigger] self.panes[i]).id == p
                        && self.panes[i].window == w;
                assert(gone.panes.contains(self.panes[i]));
                let k = choose|k: int| 0 <= k < gone.panes.len() && gone.panes[k] == self.panes[i];
                assert(gone.panes[k].id == p);
            }
            if gone.owned(w, p) {
                let i = choose|i: int|
                    0 <= i < gone.panes.len() && (#[trigger] gone.panes[i]).id == p
                        && gone.panes[i].window == w;
                assert(self.panes.contains(gone.panes[i]));
                let k = choose|k: int| 0 <= k < self.panes.len() && self.panes[k] == gone.panes[i];
                assert(self.panes[k].id == p);
            }
        }
        assert(gone.is_ordered()) by {
            assert forall|i: int| 0 <= i < gone.panes.len() implies (
            #[trigger] gone.panes[i]).id.number() < gone.next_pane by {
                assert(self.panes.contains(gone.panes[i]));
                let k = choose|k: int| 0 <= k < self.panes.len() && self.panes[k] == gone.panes[i];
                assert(self.panes[k].id.number() < self.next_pane);
            }
        }
        assert(gone.is_active()) by {
            match self.active {
                Some(w) => {
                    assert(gone.windows[self.window_at(w)].id == w);
                },
                None => {},
            }
        }
        assert(gone.windows[self.window_at(window)].id == window);
        assert(gone.has_window(window));
        gone.lemma_drop_window(window);
    }
}

/// The panes of other windows stay, in order.
pub proof fn lemma_others(panes: Seq<PaneModel>, window: WindowId)
    requires
        forall|i: int, j: int|
            0 <= i < j < panes.len() ==> (#[trigger] panes[i]).id.number() < (
            #[trigger] panes[j]).id.number(),
    ensures
        forall|i: int, j: int|
            0 <= i < j < others(panes, window).len() ==> (
            #[trigger] others(panes, window)[i]).id.number() < (
            #[trigger] others(panes, window)[j]).id.number(),
        forall|i: int|
            0 <= i < others(panes, window).len() ==> (#[trigger] others(panes, window)[i]).window
                != window && panes.contains(others(panes, window)[i]),
        forall|i: int|
            0 <= i < panes.len() && (#[trigger] panes[i]).window != window ==> others(
                panes,
                window,
            ).contains(panes[i]),
    decreases panes.len(),
{
    if panes.len() > 0 {
        let front = panes.drop_last();
        let kept = others(front, window);
        let all = others(panes, window);
        assert forall|i: int, j: int| 0 <= i < j < front.len() implies (
        #[trigger] front[i]).id.number() < (#[trigger] front[j]).id.number() by {
            assert(panes[i].id.number() < panes[j].id.number());
        }
        lemma_others(front, window);
        assert forall|i: int| 0 <= i < kept.len() implies panes.contains(#[trigger] kept[i])
            && kept[i].id.number() < panes.last().id.number() by {
            assert(front.contains(kept[i]));
            let k = choose|k: int| 0 <= k < front.len() && front[k] == kept[i];
            assert(panes[k] == kept[i]);
            assert(panes[k].id.number() < panes[panes.len() - 1].id.number());
        }
        assert forall|i: int| 0 <= i < all.len() implies (#[trigger] all[i]).window != window
            && panes.contains(all[i]) by {
            if i < kept.len() {
                assert(all[i] == kept[i]);
            } else {
                assert(all[i] == panes[panes.len() - 1]);
            }
        }
        assert forall|i: int| 0 <= i < panes.len() && (#[trigger] panes[i]).window
            != window implies all.contains(panes[i]) by {
            if i < front.len() {
                assert(front[i] == panes[i]);
                let k = choose|k: int| 0 <= k < kept.len() && kept[k] == panes[i];
                assert(all[k] == panes[i]);
            } else {
                assert(all[kept.len() as int] == panes[i]);
            }
        }
    }
}

/// Consistency is a matter of the windows, the panes and the active window.
pub proof fn lemma_same_contents(before: MultiplexerModel, after: MultiplexerModel)
    requires
        before.wf(),
        after.windows == before.windows,
        after.panes == before.panes,
        after.next_window == before.next_window,
        after.next_pane == before.next_pane,
        after.is_active(),
    ensures
        after.wf(),
{
    assert forall|w: WindowId, p: PaneId| #[trigger] after.lists(w, p) == after.owned(w, p) by {
        assert(before.lists(w, p) == before.owned(w, p));
        assert(before.lists(w, p) == after.lists(w, p));
        assert(before.owned(w, p) == after.owned(w, p));
    }
}

/// A multiplexer without windows.
pub open spec fn empty_multiplexer() -> MultiplexerModel {
    MultiplexerModel {
        windows: Seq::empty(),
        panes: Seq::empty(),
        active: None,
        next_window: 1,
        next_pane: 1,
        events: Seq::empty(),
    }
}

} // verus!
