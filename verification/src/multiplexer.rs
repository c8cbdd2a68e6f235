//! Window and pane containment for a process-local multiplexer.
//!
//! A [`Multiplexer`] owns windows; each [`Window`] owns one or more pane
//! identifiers; each [`Pane`] owns a [`TerminalState`]. The child process of a
//! pane is kept by the caller. Layout geometry is out of scope here.
//!
//! # Empty multiplexer
//!
//! [`Multiplexer::new`] starts with no windows. Deleting the last window leaves
//! an empty multiplexer (`active_window` is [`None`]). Empty windows are not
//! allowed: removing the last pane of a window also removes that window.

use std::collections::VecDeque;

use vstd::prelude::*;

use crate::multiplexer_model::{
    closed_events, empty_multiplexer, lemma_same_contents, new_pane, others, running_panes,
    MultiplexerModel, PaneModel, WindowModel,
};
use crate::pty::ObservedExit;
use crate::size::Size;
use crate::terminal::TerminalState;

verus! {

/// Stable identifier for a window within one [`Multiplexer`] instance.
///
/// Identifiers are never reused for a different window in the same instance, so
/// a stale value cannot resolve to a newly created window.
#[derive(Debug, Clone, Copy, PartialEq, Eq, Hash, Structural)]
pub struct WindowId(u64);

/// Stable identifier for a pane within one [`Multiplexer`] instance.
///
/// Identifiers are never reused for a different pane in the same instance, so a
/// stale value cannot resolve to a newly created pane.
#[derive(Debug, Clone, Copy, PartialEq, Eq, Hash, Structural)]
pub struct PaneId(u64);

impl WindowId {
    /// The number behind the identifier.
    pub closed spec fn number(self) -> u64 {
        self.0
    }
}

impl PaneId {
    /// The number behind the identifier.
    pub closed spec fn number(self) -> u64 {
        self.0
    }
}

/// Lifecycle changes produced by model mutations and child-process reaping.
#[derive(Debug, Clone, Copy, PartialEq, Eq, Structural)]
pub enum LifecycleEvent {
    /// A window was created.
    WindowCreated {
        /// New window.
        window: WindowId,
    },
    /// A window was removed (including after its last pane was removed).
    WindowClosed {
        /// Closed window.
        window: WindowId,
    },
    /// A pane was created.
    PaneCreated {
        /// Window that owns the pane.
        window: WindowId,
        /// New pane.
        pane: PaneId,
    },
    /// A pane was removed from the model.
    PaneClosed {
        /// Window that owned the pane.
        window: WindowId,
        /// Closed pane.
        pane: PaneId,
    },
    /// The child process of a pane exited.
    PaneExited {
        /// Window that owns the pane.
        window: WindowId,
        /// Pane whose child exited.
        pane: PaneId,
        /// How the child ended.
        status: ObservedExit,
    },
    /// The multiplexer's active window changed.
    ActiveWindowChanged {
        /// New active window, or [`None`] when the multiplexer is empty.
        window: Option<WindowId>,
    },
    /// A window's focus pane changed.
    FocusPaneChanged {
        /// Window whose focus changed.
        window: WindowId,
        /// New focus pane.
        pane: PaneId,
    },
}

/// Why a request was refused.
#[derive(Debug, Clone, Copy, PartialEq, Eq, Structural)]
pub enum MultiplexerError {
    /// There is no such window.
    UnknownWindow(WindowId),
    /// There is no such pane.
    UnknownPane(PaneId),
    /// The pane belongs to another window.
    PaneNotInWindow {
        /// The pane.
        pane: PaneId,
        /// The window that it does not belong to.
        window: WindowId,
    },
    /// There are no identifiers left.
    IdExhausted,
}

/// A pane: one child process and its terminal emulator state.
pub struct Pane {
    id: PaneId,
    window: WindowId,
    terminal: TerminalState,
    exit_status: Option<ObservedExit>,
}

impl View for Pane {
    type V = PaneModel;

    closed spec fn view(&self) -> PaneModel {
        PaneModel {
            id: self.id,
            window: self.window,
            terminal: self.terminal@,
            revision: self.terminal.spec_revision(),
            exit: self.exit_status,
        }
    }
}

impl Pane {
    /// The terminal is well-formed.
    pub closed spec fn wf(&self) -> bool {
        self.terminal.wf()
    }

    /// Returns this pane's identifier.
    pub fn id(&self) -> (id: PaneId)
        ensures
            id == self@.id,
    {
        self.id
    }

    /// Returns the terminal emulator state for this pane.
    pub fn terminal(&self) -> (terminal: &TerminalState)
        requires
            self.wf(),
        ensures
            terminal.wf(),
            terminal@ == self@.terminal,
            terminal.spec_revision() == self@.revision,
    {
        &self.terminal
    }

    /// Returns a mutable terminal emulator state for this pane.
    pub fn terminal_mut(&mut self) -> (terminal: &mut TerminalState)
        requires
            old(self).wf(),
        ensures
            terminal.wf(),
            terminal@ == old(self)@.terminal,
            terminal.spec_revision() == old(self)@.revision,
            final(self)@ == (PaneModel {
                terminal: final(terminal)@,
                revision: final(terminal).spec_revision(),
                ..old(self)@
            }),
            final(terminal).wf() ==> final(self).wf(),
    {
        &mut self.terminal
    }

    /// Returns how the child ended if it has already been reaped.
    pub fn exit_status(&self) -> (exit: Option<ObservedExit>)
        ensures
            exit == self@.exit,
    {
        self.exit_status
    }
}

/// A window: an ordered set of panes and a per-window focus pane.
#[derive(Debug)]
pub struct Window {
    id: WindowId,
    pane_ids: Vec<PaneId>,
    focus: PaneId,
}

impl View for Window {
    type V = WindowModel;

    closed spec fn view(&self) -> WindowModel {
        WindowModel { id: self.id, panes: self.pane_ids@, focus: self.focus }
    }
}

impl Window {
    /// Returns this window's identifier.
    pub fn id(&self) -> (id: WindowId)
        ensures
            id == self@.id,
    {
        self.id
    }

    /// Returns the focused pane in this window.
    pub fn focus(&self) -> (focus: PaneId)
        ensures
            focus == self@.focus,
    {
        self.focus
    }

    /// Returns pane identifiers in creation order.
    pub fn panes(&self) -> (panes: &[PaneId])
        ensures
            panes@ == self@.panes,
    {
        self.pane_ids.as_slice()
    }

    /// Returns the number of panes in this window.
    pub fn pane_count(&self) -> (count: usize)
        ensures
            count == self@.panes.len(),
    {
        self.pane_ids.len()
    }
}

/// Process-local collection of windows and panes.
///
/// Focus is stored per window. Switching the active window does not clear each
/// window's focus pane.
pub struct Multiplexer {
    /// The windows, in creation order.
    windows: Vec<Window>,
    /// The panes, in creation order.
    panes: Vec<Pane>,
    active: Option<WindowId>,
    next_window_id: u64,
    next_pane_id: u64,
    events: VecDeque<LifecycleEvent>,
}

impl Multiplexer {
    /// The state of the multiplexer.
    pub closed spec fn view(&self) -> MultiplexerModel {
        MultiplexerModel {
            windows: Seq::new(self.windows@.len(), |i: int| self.windows@[i]@),
            panes: Seq::new(self.panes@.len(), |i: int| self.panes@[i]@),
            active: self.active,
            next_window: self.next_window_id,
            next_pane: self.next_pane_id,
            events: self.events@,
        }
    }

    /// The multiplexer is consistent, and every terminal is well-formed.
    pub closed spec fn wf(&self) -> bool {
        &&& self@.wf()
        &&& forall|i: int| 0 <= i < self.panes@.len() ==> (#[trigger] self.panes@[i]).wf()
    }

    /// What holds of every well-formed multiplexer.
    pub proof fn lemma_wf(&self)
        requires
            self.wf(),
        ensures
            self@.wf(),
    {
    }

    /// Creates an empty multiplexer with no windows or panes.
    pub fn new() -> (mux: Multiplexer)
        ensures
            mux.wf(),
            mux@ == empty_multiplexer(),
    {
        let mux = Multiplexer {
            windows: Vec::new(),
            panes: Vec::new(),
            active: None,
            next_window_id: 1,
            next_pane_id: 1,
            events: VecDeque::new(),
        };
        proof {
            assert(mux@.windows =~= Seq::<WindowModel>::empty());
            assert(mux@.panes =~= Seq::<PaneModel>::empty());
            assert(mux@.events =~= Seq::<LifecycleEvent>::empty());
        }
        mux
    }

    /// Returns whether this multiplexer has no windows.
    pub fn is_empty(&self) -> (empty: bool)
        ensures
            empty == (self@.windows.len() == 0),
    {
        self.windows.len() == 0
    }

    /// Returns the number of windows.
    pub fn window_count(&self) -> (count: usize)
        ensures
            count == self@.windows.len(),
    {
        self.windows.len()
    }

    /// Returns window identifiers in creation order.
    pub fn windows(&self) -> (ids: Vec<WindowId>)
        ensures
            ids@.len() == self@.windows.len(),
            forall|i: int| 0 <= i < ids@.len() ==> #[trigger] ids@[i] == self@.windows[i].id,
    {
        let mut ids: Vec<WindowId> = Vec::with_capacity(self.windows.len());
        let mut i: usize = 0;
        while i < self.windows.len()
            invariant
                i <= self.windows@.len(),
                ids@.len() == i,
                forall|k: int| 0 <= k < i ==> #[trigger] ids@[k] == self@.windows[k].id,
            decreases self.windows@.len() - i,
        {
            ids.push(self.windows[i].id);
            i += 1;
        }
        ids
    }

    /// Returns the active window, if any.
    pub fn active_window(&self) -> (active: Option<WindowId>)
        ensures
            active == self@.active,
    {
        self.active
    }

    /// Finds a window.
    fn find_window(&self, id: WindowId) -> (index: Option<usize>)
        requires
            self.wf(),
        ensures
            index is Some <==> self@.has_window(id),
            index matches Some(i) ==> i < self.windows@.len() && i == self@.window_at(id)
                && self@.windows[i as int] == self.windows@[i as int]@
                && self.windows@[i as int]@.id == id,
    {
        let mut i: usize = 0;
        while i < self.windows.len()
            invariant
                self.wf(),
                i <= self.windows@.len(),
                forall|k: int| 0 <= k < i ==> (#[trigger] self@.windows[k]).id != id,
            decreases self.windows@.len() - i,
        {
            proof {
                assert(self@.windows[i as int] == self.windows@[i as int]@);
            }
            if self.windows[i].id == id {
                proof {
                    self@.lemma_window(i as int);
                }
                return Some(i);
            }
            i += 1;
        }
        None
    }

    /// Finds a pane.
    fn find_pane(&self, id: PaneId) -> (index: Option<usize>)
        requires
            self.wf(),
        ensures
            index is Some <==> self@.has_pane(id),
            index matches Some(i) ==> i < self.panes@.len() && i == self@.pane_at(id)
                && self@.panes[i as int] == self.panes@[i as int]@
                && self.panes@[i as int]@.id == id,
    {
        let mut i: usize = 0;
        while i < self.panes.len()
            invariant
                self.wf(),
                i <= self.panes@.len(),
                forall|k: int| 0 <= k < i ==> (#[trigger] self@.panes[k]).id != id,
            decreases self.panes@.len() - i,
        {
            proof {
                assert(self@.panes[i as int] == self.panes@[i as int]@);
            }
            if self.panes[i].id == id {
                proof {
                    self@.lemma_pane(i as int);
                }
                return Some(i);
            }
            i += 1;
        }
        None
    }

    /// Returns a shared reference to a window.
    pub fn window(&self, id: WindowId) -> (window: Result<&Window, MultiplexerError>)
        requires
            self.wf(),
        ensures
            window is Ok <==> self@.has_window(id),
            window matches Ok(window) ==> window@ == self@.window(id),
            window matches Err(error) ==> error == MultiplexerError::UnknownWindow(id),
    {
        match self.find_window(id) {
            Some(i) => Ok(&self.windows[i]),
            None => Err(MultiplexerError::UnknownWindow(id)),
        }
    }

    /// Returns a shared reference to a pane.
    pub fn pane(&self, id: PaneId) -> (pane: Result<&Pane, MultiplexerError>)
        requires
            self.wf(),
        ensures
            pane is Ok <==> self@.has_pane(id),
            pane matches Ok(pane) ==> pane.wf() && pane@ == self@.pane(id),
            pane matches Err(error) ==> error == MultiplexerError::UnknownPane(id),
    {
        match self.find_pane(id) {
            Some(i) => Ok(&self.panes[i]),
            None => Err(MultiplexerError::UnknownPane(id)),
        }
    }

    /// Returns a mutable reference to a pane.
    ///
    /// What the caller does to the pane does not touch its place in the
    /// multiplexer.
    pub fn pane_mut(&mut self, id: PaneId) -> (pane: Result<&mut Pane, MultiplexerError>)
        requires
            old(self).wf(),
        ensures
            pane is Ok <==> old(self)@.has_pane(id),
            pane matches Ok(pane) ==> {
                &&& pane.wf()
                &&& pane@ == old(self)@.pane(id)
                &&& final(self)@ == (MultiplexerModel {
                    panes: old(self)@.panes.update(old(self)@.pane_at(id), final(pane)@),
                    ..old(self)@
                })
                &&& final(pane).wf() && final(pane)@.id == id && final(pane)@.window
                    == old(self)@.pane(id).window ==> final(self).wf()
            },
            pane matches Err(error) ==> error == MultiplexerError::UnknownPane(id)
                && final(self).wf() && final(self)@ == old(self)@,
    {
        match self.find_pane(id) {
            Some(i) => {
                let ghost before = *self;
                let pane: &mut Pane = &mut self.panes[i];
                proof {
                    lemma_pane_swapped(before, i as int);
                }
                Ok(pane)
            },
            None => Err(MultiplexerError::UnknownPane(id)),
        }
    }

    /// A change inside one pane keeps a multiplexer consistent.
    proof fn lemma_pane_changed(&self, before: MultiplexerModel, at: int)
        requires
            before.wf(),
            0 <= at < before.panes.len(),
            self.panes@.len() == before.panes.len(),
            forall|i: int|
                0 <= i < self.panes@.len() && i != at ==> (#[trigger] self.panes@[i])@
                    == before.panes[i],
            self.panes@[at]@.id == before.panes[at].id,
            self.panes@[at]@.window == before.panes[at].window,
            self@.windows == before.windows,
            self.active == before.active,
            self.next_window_id == before.next_window,
            self.next_pane_id == before.next_pane,
        ensures
            self@.wf(),
            self@.panes == before.panes.update(at, self.panes@[at]@),
    {
        assert(self@.panes =~= before.panes.update(at, self.panes@[at]@));
        let after = self@;
        assert forall|i: int| 0 <= i < after.panes.len() implies (#[trigger] after.panes[i]).id
            == before.panes[i].id && after.panes[i].window == before.panes[i].window by {}
        assert forall|i: int, j: int| 0 <= i < j < after.panes.len() implies (
        #[trigger] after.panes[i]).id.number() < (#[trigger] after.panes[j]).id.number() by {
            assert(before.panes[i].id.number() < before.panes[j].id.number());
        }
        assert forall|w: WindowId, p: PaneId| #[trigger] after.lists(w, p) == after.owned(w, p) by {
            assert(before.lists(w, p) == before.owned(w, p));
            assert(before.lists(w, p) == after.lists(w, p));
            if before.owned(w, p) {
                let i = choose|i: int|
                    0 <= i < before.panes.len() && (#[trigger] before.panes[i]).id == p
                        && before.panes[i].window == w;
                assert(after.panes[i].id == p);
            }
            if after.owned(w, p) {
                let i = choose|i: int|
                    0 <= i < after.panes.len() && (#[trigger] after.panes[i]).id == p
                        && after.panes[i].window == w;
                assert(before.panes[i].id == p);
            }
        }
        assert(after.is_active()) by {
            match before.active {
                Some(w) => {
                    assert(after.windows[before.window_at(w)].id == w);
                },
                None => {},
            }
        }
    }

    /// Returns the window that owns `pane`.
    pub fn window_of_pane(&self, pane: PaneId) -> (window: Result<WindowId, MultiplexerError>)
        requires
            self.wf(),
        ensures
            window == if self@.has_pane(pane) {
                Ok::<WindowId, MultiplexerError>(self@.pane(pane).window)
            } else {
                Err(MultiplexerError::UnknownPane(pane))
            },
    {
        match self.find_pane(pane) {
            Some(i) => Ok(self.panes[i].window),
            None => Err(MultiplexerError::UnknownPane(pane)),
        }
    }

    /// Returns the focus pane of `window`.
    pub fn focus_pane(&self, window: WindowId) -> (focus: Result<PaneId, MultiplexerError>)
        requires
            self.wf(),
        ensures
            focus == if self@.has_window(window) {
                Ok::<PaneId, MultiplexerError>(self@.window(window).focus)
            } else {
                Err(MultiplexerError::UnknownWindow(window))
            },
    {
        match self.window(window) {
            Ok(window) => Ok(window.focus),
            Err(error) => Err(error),
        }
    }

    /// Returns whether there are identifiers left for a window and a pane.
    pub fn has_ids(&self) -> (left: bool)
        ensures
            left == (self@.next_window < u64::MAX && self@.next_pane < u64::MAX),
    {
        self.next_window_id < u64::MAX && self.has_pane_id()
    }

    /// Returns whether there is an identifier left for a pane.
    pub fn has_pane_id(&self) -> (left: bool)
        ensures
            left == (self@.next_pane < u64::MAX),
    {
        self.next_pane_id < u64::MAX
    }

    /// Creates a window containing one pane whose child is running.
    ///
    /// The new window becomes active. The new pane becomes that window's focus.
    /// `size` is the initial terminal screen.
    pub fn create_window(&mut self, size: Size) -> (ids: Result<
        (WindowId, PaneId),
        MultiplexerError,
    >)
        requires
            old(self).wf(),
        ensures
            final(self).wf(),
            ids is Ok <==> old(self)@.next_window < u64::MAX && old(self)@.next_pane < u64::MAX,
            ids matches Ok((window, pane)) ==> window.number() == old(self)@.next_window
                && pane.number() == old(self)@.next_pane && final(self)@
                == old(self)@.create_window(window, pane, size),
            ids matches Err(error) ==> error == MultiplexerError::IdExhausted && final(self)@
                == old(self)@,
    {
        if !self.has_ids() {
            return Err(MultiplexerError::IdExhausted);
        }
        let ghost before = self@;
        let window = WindowId(self.next_window_id);
        let pane = PaneId(self.next_pane_id);
        proof {
            before.creating_a_window_keeps_it_consistent(window, pane, size);
        }
        self.next_window_id = self.next_window_id + 1;
        self.next_pane_id = self.next_pane_id + 1;
        let mut pane_ids: Vec<PaneId> = Vec::new();
        pane_ids.push(pane);
        proof {
            assert(pane_ids@ =~= seq![pane]);
        }
        self.windows.push(Window { id: window, pane_ids, focus: pane });
        self.panes.push(spawn_pane(pane, window, size));
        self.events.push_back(LifecycleEvent::WindowCreated { window });
        self.events.push_back(LifecycleEvent::PaneCreated { window, pane });
        self.set_active(Some(window));
        proof {
            let after = before.create_window(window, pane, size);
            assert(self@.windows =~= after.windows);
            assert(self@.panes =~= after.panes);
        }
        Ok((window, pane))
    }

    /// Creates a pane in `window` whose child is running.
    ///
    /// The new pane becomes the window's focus. The active window is unchanged.
    pub fn create_pane(&mut self, window: WindowId, size: Size) -> (id: Result<
        PaneId,
        MultiplexerError,
    >)
        requires
            old(self).wf(),
        ensures
            final(self).wf(),
            id is Ok <==> old(self)@.has_window(window) && old(self)@.next_pane < u64::MAX,
            id matches Ok(pane) ==> pane.number() == old(self)@.next_pane && final(self)@
                == old(self)@.create_pane(window, pane, size),
            id matches Err(error) ==> error == (if old(self)@.has_window(window) {
                MultiplexerError::IdExhausted
            } else {
                MultiplexerError::UnknownWindow(window)
            }) && final(self)@ == old(self)@,
    {
        let i: usize = match self.find_window(window) {
            Some(i) => i,
            None => return Err(MultiplexerError::UnknownWindow(window)),
        };
        if !self.has_pane_id() {
            return Err(MultiplexerError::IdExhausted);
        }
        let ghost before = self@;
        let pane = PaneId(self.next_pane_id);
        proof {
            before.creating_a_pane_keeps_it_consistent(window, pane, size);
        }
        self.next_pane_id = self.next_pane_id + 1;
        self.windows[i].pane_ids.push(pane);
        self.windows[i].focus = pane;
        self.panes.push(spawn_pane(pane, window, size));
        self.events.push_back(LifecycleEvent::PaneCreated { window, pane });
        self.events.push_back(LifecycleEvent::FocusPaneChanged { window, pane });
        proof {
            let after = before.create_pane(window, pane, size);
            assert(self@.windows =~= after.windows);
            assert(self@.panes =~= after.panes);
        }
        Ok(pane)
    }

    /// Makes `window` the active window.
    pub fn select_window(&mut self, window: WindowId) -> (result: Result<(), MultiplexerError>)
        requires
            old(self).wf(),
        ensures
            final(self).wf(),
            result == if old(self)@.has_window(window) {
                Ok::<(), MultiplexerError>(())
            } else {
                Err(MultiplexerError::UnknownWindow(window))
            },
            final(self)@ == if result is Ok {
                old(self)@.activate(Some(window))
            } else {
                old(self)@
            },
    {
        let ghost before = self@;
        if self.find_window(window).is_none() {
            return Err(MultiplexerError::UnknownWindow(window));
        }
        self.set_active(Some(window));
        proof {
            let after = before.activate(Some(window));
            assert(after.windows == before.windows && after.panes == before.panes);
            assert(after.windows[before.window_at(window)].id == window);
            lemma_same_contents(before, after);
        }
        Ok(())
    }

    /// Sets the focus pane of `window` to `pane`.
    pub fn set_focus(&mut self, window: WindowId, pane: PaneId) -> (result: Result<
        (),
        MultiplexerError,
    >)
        requires
            old(self).wf(),
        ensures
            final(self).wf(),
            result == if !old(self)@.has_pane(pane) {
                Err::<(), MultiplexerError>(MultiplexerError::UnknownPane(pane))
            } else if old(self)@.pane(pane).window != window {
                Err(MultiplexerError::PaneNotInWindow { pane, window })
            } else {
                Ok(())
            },
            final(self)@ == if result is Ok {
                old(self)@.set_focus(window, pane)
            } else {
                old(self)@
            },
    {
        let owner: WindowId = match self.window_of_pane(pane) {
            Ok(owner) => owner,
            Err(error) => return Err(error),
        };
        if owner != window {
            return Err(MultiplexerError::PaneNotInWindow { pane, window });
        }
        let ghost before = self@;
        proof {
            before.lemma_owner(pane);
            before.focusing_keeps_it_consistent(window, pane);
        }
        if let Some(i) = self.find_window(window) {
            if self.windows[i].focus != pane {
                self.windows[i].focus = pane;
                self.events.push_back(LifecycleEvent::FocusPaneChanged { window, pane });
                proof {
                    assert(self@.windows =~= before.set_focus(window, pane).windows);
                    assert(self@.panes =~= before.panes);
                }
            }
        }
        Ok(())
    }

    /// Makes another window active, and tells so where it differs.
    fn set_active(&mut self, window: Option<WindowId>)
        ensures
            final(self)@ == old(self)@.activate(window),
            final(self).windows@ == old(self).windows@,
            final(self).panes@ == old(self).panes@,
    {
        let same = match (self.active, window) {
            (Some(a), Some(b)) => a == b,
            (None, None) => true,
            _ => false,
        };
        if !same {
            self.active = window;
            self.events.push_back(LifecycleEvent::ActiveWindowChanged { window });
        }
        proof {
            assert(self@.windows =~= old(self)@.windows);
            assert(self@.panes =~= old(self)@.panes);
        }
    }

    /// Removes a window whose panes are gone.
    fn remove_window_inner(&mut self, window: WindowId, at: usize)
        requires
            at < old(self).windows@.len(),
            at == old(self)@.window_at(window),
        ensures
            final(self)@ == old(self)@.drop_window(window),
            final(self).panes@ == old(self).panes@,
    {
        let ghost before = self@;
        let _ = self.windows.remove(at);
        self.events.push_back(LifecycleEvent::WindowClosed { window });
        let ghost dropped = MultiplexerModel {
            windows: before.windows.remove(at as int),
            ..before
        }.tell(LifecycleEvent::WindowClosed { window });
        proof {
            assert(self@.windows =~= dropped.windows);
            assert(self@.panes =~= before.panes);
            assert(self@ == dropped);
        }
        let was_active = match self.active {
            Some(active) => active == window,
            None => false,
        };
        if was_active {
            let next: Option<WindowId> = if self.windows.len() > 0 {
                Some(self.windows[0].id)
            } else {
                None
            };
            proof {
                if self.windows@.len() > 0 {
                    assert(self@.windows[0] == self.windows@[0]@);
                }
            }
            self.set_active(next);
        }
    }

    /// Removes `pane` from the model.
    ///
    /// If it was the last pane in its window, the window is removed as well.
    /// If it was the focused pane, another remaining pane (if any) becomes
    /// focus. If the window was active and is removed, another window becomes
    /// active, or the multiplexer becomes empty.
    pub fn remove_pane(&mut self, pane: PaneId) -> (result: Result<(), MultiplexerError>)
        requires
            old(self).wf(),
        ensures
            final(self).wf(),
            result == if old(self)@.has_pane(pane) {
                Ok::<(), MultiplexerError>(())
            } else {
                Err(MultiplexerError::UnknownPane(pane))
            },
            final(self)@ == if result is Ok {
                old(self)@.remove_pane(pane)
            } else {
                old(self)@
            },
    {
        let p: usize = match self.find_pane(pane) {
            Some(p) => p,
            None => return Err(MultiplexerError::UnknownPane(pane)),
        };
        let ghost before = self@;
        let window: WindowId = self.panes[p].window;
        proof {
            before.lemma_owner(pane);
            before.removing_a_pane_keeps_it_consistent(pane);
        }
        let w: usize = match self.find_window(window) {
            Some(w) => w,
            None => return Err(MultiplexerError::UnknownPane(pane)),
        };
        let ghost list = before.windows[w as int].panes;
        let index: usize = position_of(&self.windows[w].pane_ids, pane);
        let _ = self.windows[w].pane_ids.remove(index);
        let _ = self.panes.remove(p);
        let ghost rest = list.remove(index as int);
        let ghost gone = before.panes.remove(p as int);
        proof {
            assert(self.windows@[w as int]@.panes == rest);
            assert(self@.panes =~= gone);
        }
        let left: usize = self.windows[w].pane_ids.len();
        if left == 0 {
            self.events.push_back(LifecycleEvent::PaneClosed { window, pane });
            let ghost closed = self@;
            proof {
                assert(closed.window_at(window) == w) by {
                    assert forall|i: int| 0 <= i < closed.windows.len() implies (
                    #[trigger] closed.windows[i]).id == before.windows[i].id by {}
                    assert(closed.windows[w as int].id == window);
                    let k = closed.window_at(window);
                    assert(closed.windows[k].id == window);
                    assert(before.windows[k].id == window);
                    before.lemma_window(k);
                    before.lemma_window(w as int);
                }
            }
            self.remove_window_inner(window, w);
            proof {
                let expected = MultiplexerModel { panes: gone, ..before }.tell(
                    LifecycleEvent::PaneClosed { window, pane },
                );
                assert(expected.window_at(window) == w) by {
                    before.lemma_window(w as int);
                    assert(expected.windows == before.windows);
                }
                assert(closed.windows.remove(w as int) =~= expected.windows.remove(w as int));
                assert(closed.drop_window(window) == expected.drop_window(window));
            }
            return Ok(());
        }
        if self.windows[w].focus == pane {
            // Prefer the pane that followed the removed one.
            let next: usize = if index < left {
                index
            } else {
                left - 1
            };
            let focus: PaneId = self.windows[w].pane_ids[next];
            self.windows[w].focus = focus;
            self.events.push_back(LifecycleEvent::FocusPaneChanged { window, pane: focus });
        }
        self.events.push_back(LifecycleEvent::PaneClosed { window, pane });
        proof {
            let after = before.remove_pane(pane);
            assert(self@.windows =~= after.windows);
            assert(self@.panes =~= after.panes);
            assert(self@.events =~= after.events);
        }
        Ok(())
    }

    /// Removes `window` and all of its panes.
    pub fn remove_window(&mut self, window: WindowId) -> (result: Result<(), MultiplexerError>)
        requires
            old(self).wf(),
        ensures
            final(self).wf(),
            result == if old(self)@.has_window(window) {
                Ok::<(), MultiplexerError>(())
            } else {
                Err(MultiplexerError::UnknownWindow(window))
            },
            final(self)@ == if result is Ok {
                old(self)@.remove_window(window)
            } else {
                old(self)@
            },
    {
        let w: usize = match self.find_window(window) {
            Some(w) => w,
            None => return Err(MultiplexerError::UnknownWindow(window)),
        };
        let ghost before = self@;
        proof {
            before.removing_a_window_keeps_it_consistent(window);
        }
        self.drop_panes(window);
        let ghost dropped = self@;
        let ghost list = before.windows[w as int].panes;
        let mut i: usize = 0;
        proof {
            assert(before.events + closed_events(window, list.take(0)) =~= before.events);
        }
        while i < self.windows[w].pane_ids.len()
            invariant
                w < self.windows@.len(),
                self.windows@[w as int]@.panes == list,
                i <= list.len(),
                self@ == (MultiplexerModel {
                    events: before.events + closed_events(window, list.take(i as int)),
                    ..dropped
                }),
                forall|k: int| 0 <= k < self.panes@.len() ==> (#[trigger] self.panes@[k]).wf(),
            decreases list.len() - i,
        {
            let pane: PaneId = self.windows[w].pane_ids[i];
            self.events.push_back(LifecycleEvent::PaneClosed { window, pane });
            proof {
                assert(self@.windows =~= dropped.windows);
                assert(self@.panes =~= dropped.panes);
                assert(self@.events =~= before.events + closed_events(window, list.take(i + 1)));
            }
            i += 1;
        }
        proof {
            assert(list.take(i as int) =~= list);
            before.lemma_window(w as int);
            assert(self@.windows == before.windows);
        }
        self.remove_window_inner(window, w);
        Ok(())
    }

    /// Drops the panes of a window.
    fn drop_panes(&mut self, window: WindowId)
        requires
            old(self).wf(),
        ensures
            final(self)@ == (MultiplexerModel {
                panes: others(old(self)@.panes, window),
                ..old(self)@
            }),
            final(self).windows@ == old(self).windows@,
            forall|i: int| 0 <= i < final(self).panes@.len() ==> (#[trigger] final(self).panes@[i]).wf(),
    {
        let ghost before = self@;
        let ghost mut seen: int = 0;
        let mut i: usize = 0;
        proof {
            assert(before.panes.take(0) =~= Seq::<PaneModel>::empty());
            assert(self@.panes.take(0) =~= Seq::<PaneModel>::empty());
            assert(before.panes.skip(0) =~= before.panes);
        }
        while i < self.panes.len()
            invariant
                self.windows@ == old(self).windows@,
                self.active == old(self).active,
                self.next_window_id == old(self).next_window_id,
                self.next_pane_id == old(self).next_pane_id,
                self.events == old(self).events,
                before == old(self)@,
                0 <= seen <= before.panes.len(),
                i <= self.panes@.len(),
                self@.panes.take(i as int) == others(before.panes.take(seen), window),
                self@.panes.skip(i as int) == before.panes.skip(seen),
                forall|k: int| 0 <= k < self.panes@.len() ==> (#[trigger] self.panes@[k]).wf(),
            decreases self.panes@.len() - i,
        {
            let ghost here = self@.panes;
            proof {
                assert(here[i as int] == self.panes@[i as int]@);
                assert(here.skip(i as int).len() == before.panes.skip(seen).len());
                assert(here.skip(i as int)[0] == before.panes.skip(seen)[0]);
                assert(before.panes.take(seen + 1).drop_last() =~= before.panes.take(seen));
                assert(before.panes.take(seen + 1).last() == here[i as int]);
            }
            if self.panes[i].window == window {
                let _ = self.panes.remove(i);
                proof {
                    assert(self@.panes =~= here.remove(i as int));
                    assert(self@.panes.take(i as int) =~= here.take(i as int));
                    assert(self@.panes.skip(i as int) =~= here.skip(i as int).skip(1));
                }
            } else {
                i += 1;
                proof {
                    assert(here.take(i as int) =~= here.take(i - 1).push(here[i - 1]));
                    assert(here.skip(i as int) =~= here.skip(i - 1).skip(1));
                }
            }
            proof {
                assert(before.panes.skip(seen).skip(1) =~= before.panes.skip(seen + 1));
                seen = seen + 1;
            }
        }
        proof {
            assert(before.panes.skip(seen).len() == 0);
            assert(before.panes.take(seen) =~= before.panes);
            assert(self@.panes.take(i as int) =~= self@.panes);
            assert(self@.windows =~= before.windows);
        }
    }

    /// Returns the panes whose child has not been reaped, in creation order.
    pub fn running(&self) -> (ids: Vec<PaneId>)
        ensures
            ids@ == running_panes(self@.panes),
    {
        let ghost all = self@.panes;
        let mut ids: Vec<PaneId> = Vec::new();
        let mut i: usize = 0;
        proof {
            assert(all.take(0) =~= Seq::<PaneModel>::empty());
            assert(ids@ =~= running_panes(all.take(0)));
        }
        while i < self.panes.len()
            invariant
                all == self@.panes,
                i <= self.panes@.len(),
                ids@ == running_panes(all.take(i as int)),
            decreases self.panes@.len() - i,
        {
            proof {
                assert(all[i as int] == self.panes@[i as int]@);
                assert(all.take(i + 1).drop_last() =~= all.take(i as int));
                assert(all.take(i + 1).last() == all[i as int]);
            }
            if self.panes[i].exit_status.is_none() {
                ids.push(self.panes[i].id);
            }
            i += 1;
        }
        proof {
            assert(all.take(i as int) =~= all);
        }
        ids
    }

    /// Records that the child of a pane exited, and tells so.
    ///
    /// Panes remain in the model after exit until [`Multiplexer::remove_pane`]
    /// or [`Multiplexer::remove_window`] drops them. A pane that already has an
    /// exit status is skipped. Returns whether anything was recorded.
    pub fn note_exit(&mut self, pane: PaneId, status: ObservedExit) -> (recorded: bool)
        requires
            old(self).wf(),
        ensures
            final(self).wf(),
            recorded == (old(self)@.has_pane(pane) && old(self)@.pane(pane).exit is None),
            final(self)@ == if recorded {
                old(self)@.note_exit(pane, status)
            } else {
                old(self)@
            },
    {
        let ghost before = self@;
        match self.find_pane(pane) {
            Some(i) => {
                if self.panes[i].exit_status.is_some() {
                    return false;
                }
                let window: WindowId = self.panes[i].window;
                self.panes[i].exit_status = Some(status);
                self.events.push_back(LifecycleEvent::PaneExited { window, pane, status });
                proof {
                    assert(self@.windows =~= before.windows);
                    self.lemma_pane_changed(before, i as int);
                }
                true
            },
            None => false,
        }
    }

    /// Removes and returns queued lifecycle events in order.
    pub fn drain_events(&mut self) -> (events: Vec<LifecycleEvent>)
        requires
            old(self).wf(),
        ensures
            final(self).wf(),
            events@ == old(self)@.events,
            final(self)@ == (MultiplexerModel { events: Seq::empty(), ..old(self)@ }),
    {
        let ghost before = self@;
        let mut events: Vec<LifecycleEvent> = Vec::new();
        proof {
            assert(before.events.skip(0) =~= before.events);
        }
        while self.events.len() > 0
            invariant
                self.windows@ == old(self).windows@,
                self.panes@ == old(self).panes@,
                self.active == old(self).active,
                self.next_window_id == old(self).next_window_id,
                self.next_pane_id == old(self).next_pane_id,
                before == old(self)@,
                events@.len() <= before.events.len(),
                events@ == before.events.take(events@.len() as int),
                self.events@ == before.events.skip(events@.len() as int),
            decreases self.events@.len(),
        {
            let ghost taken = events@.len() as int;
            if let Some(event) = self.events.pop_front() {
                events.push(event);
                proof {
                    assert(event == before.events[taken]);
                    assert(events@ =~= before.events.take(taken + 1));
                    assert(self.events@ =~= before.events.skip(taken + 1));
                }
            }
        }
        proof {
            assert(events@ =~= before.events);
            assert(self.events@ =~= Seq::<LifecycleEvent>::empty());
            assert(self@.windows =~= before.windows);
            assert(self@.panes =~= before.panes);
            lemma_same_contents(before, self@);
        }
        events
    }
}

impl Default for Multiplexer {
    fn default() -> (mux: Multiplexer)
        ensures
            mux.wf(),
            mux@ == empty_multiplexer(),
    {
        Multiplexer::new()
    }
}

/// What becomes of a multiplexer when one of its panes is replaced.
proof fn lemma_pane_swapped(before: Multiplexer, at: int)
    requires
        before.wf(),
        0 <= at < before.panes@.len(),
    ensures
        forall|after: Multiplexer, pane: Pane|
            #![trigger before.panes@.update(at, pane), after@]
            after.panes@ == before.panes@.update(at, pane) && after.windows@ == before.windows@
                && after.active == before.active && after.next_window_id == before.next_window_id
                && after.next_pane_id == before.next_pane_id && after.events == before.events ==> {
                &&& after@ == (MultiplexerModel {
                    panes: before@.panes.update(at, pane@),
                    ..before@
                })
                &&& pane.wf() && pane@.id == before@.panes[at].id && pane@.window
                    == before@.panes[at].window ==> after.wf()
            },
{
    assert forall|after: Multiplexer, pane: Pane|
        #![trigger before.panes@.update(at, pane), after@]
        after.panes@ == before.panes@.update(at, pane) && after.windows@ == before.windows@
            && after.active == before.active && after.next_window_id == before.next_window_id
            && after.next_pane_id == before.next_pane_id && after.events == before.events implies {
        &&& after@ == (MultiplexerModel { panes: before@.panes.update(at, pane@), ..before@ })
        &&& pane.wf() && pane@.id == before@.panes[at].id && pane@.window
            == before@.panes[at].window ==> after.wf()
    } by {
        assert(after@.panes =~= before@.panes.update(at, pane@));
        assert(after@.windows =~= before@.windows);
        if pane.wf() && pane@.id == before@.panes[at].id && pane@.window
            == before@.panes[at].window {
            after.lemma_pane_changed(before@, at);
        }
    }
}

/// Returns where a pane is in a list that holds it once.
fn position_of(panes: &Vec<PaneId>, pane: PaneId) -> (index: usize)
    requires
        panes@.contains(pane),
        panes@.no_duplicates(),
    ensures
        index < panes@.len(),
        panes@[index as int] == pane,
        index == panes@.index_of(pane),
{
    let mut i: usize = 0;
    while i < panes.len()
        invariant
            i <= panes@.len(),
            panes@.contains(pane),
            panes@.no_duplicates(),
            forall|k: int| 0 <= k < i ==> #[trigger] panes@[k] != pane,
        decreases panes@.len() - i,
    {
        if panes[i] == pane {
            return i;
        }
        i += 1;
    }
    proof {
        let k = panes@.index_of(pane);
        assert(panes@[k] == pane);
    }
    0
}

/// Makes a pane that has just begun.
fn spawn_pane(id: PaneId, window: WindowId, size: Size) -> (pane: Pane)
    ensures
        pane.wf(),
        pane@ == new_pane(id, window, size),
{
    Pane { id, window, terminal: TerminalState::new(size), exit_status: None }
}

} // verus!
