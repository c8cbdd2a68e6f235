//! Tests for `termnix::Multiplexer`.

use termnix::{
    LifecycleEvent, Multiplexer, MultiplexerError, ObservedExit, Size,
};

fn size() -> Size {
    Size::new(24, 80).expect("rows and cols are non-zero")
}

#[test]
fn new_multiplexer_is_empty() {
    let mux = Multiplexer::new();
    assert!(mux.is_empty());
    assert_eq!(mux.active_window(), None);
    assert_eq!(mux.window_count(), 0);
}

#[test]
fn create_window_sets_active_and_focus() {
    let mut mux = Multiplexer::new();
    let (window, pane) = mux.create_window(size()).expect("create window");
    assert_eq!(mux.active_window(), Some(window));
    assert_eq!(mux.focus_pane(window).expect("focus"), pane);
    assert_eq!(mux.window_of_pane(pane).expect("owner"), window);
    assert_eq!(mux.pane(pane).expect("pane").terminal().size(), size());
    assert_eq!(mux.pane(pane).expect("pane").id(), pane);
    assert_eq!(mux.window(window).expect("window").id(), window);
    assert_eq!(mux.window(window).expect("window").focus(), pane);
    assert_eq!(mux.window(window).expect("window").panes().to_vec(), vec![pane]);
    assert_eq!(mux.window(window).expect("window").pane_count(), 1);

    let events = mux.drain_events();
    assert_eq!(
        events,
        vec![
            LifecycleEvent::WindowCreated { window },
            LifecycleEvent::PaneCreated { window, pane },
            LifecycleEvent::ActiveWindowChanged {
                window: Some(window)
            },
        ]
    );
    assert!(mux.drain_events().is_empty());
}

#[test]
fn per_window_focus_survives_active_window_round_trip() {
    let mut mux = Multiplexer::new();
    let (w1, p1a) = mux.create_window(size()).expect("window 1");
    let _p1b = mux.create_pane(w1, size()).expect("pane 1b");
    mux.set_focus(w1, p1a).expect("focus 1a");

    let (w2, _p2a) = mux.create_window(size()).expect("window 2");
    let p2b = mux.create_pane(w2, size()).expect("pane 2b");
    assert_eq!(mux.focus_pane(w2).expect("w2 focus"), p2b);
    assert_eq!(mux.active_window(), Some(w2));
    assert_eq!(mux.windows(), vec![w1, w2]);

    mux.select_window(w1).expect("select w1");
    assert_eq!(mux.active_window(), Some(w1));
    assert_eq!(mux.focus_pane(w1).expect("w1 focus"), p1a);

    mux.select_window(w2).expect("select w2");
    assert_eq!(mux.active_window(), Some(w2));
    assert_eq!(mux.focus_pane(w2).expect("w2 focus"), p2b);

    mux.select_window(w1).expect("select w1 again");
    assert_eq!(mux.focus_pane(w1).expect("w1 focus"), p1a);
    assert_eq!(mux.focus_pane(w2).expect("w2 focus"), p2b);
}

#[test]
fn stale_pane_id_is_rejected() {
    let mut mux = Multiplexer::new();
    let (window, pane) = mux.create_window(size()).expect("window");
    let _ = mux.create_pane(window, size()).expect("second pane");
    mux.drain_events();

    mux.remove_pane(pane).expect("remove pane");
    assert_eq!(
        mux.pane(pane).err().expect("stale pane"),
        MultiplexerError::UnknownPane(pane)
    );
    assert_eq!(
        mux.pane_mut(pane).err().expect("stale pane"),
        MultiplexerError::UnknownPane(pane)
    );
    assert_eq!(
        mux.remove_pane(pane).expect_err("stale remove"),
        MultiplexerError::UnknownPane(pane)
    );
    assert_eq!(
        mux.set_focus(window, pane).expect_err("stale focus"),
        MultiplexerError::UnknownPane(pane)
    );
    assert_eq!(
        mux.window_of_pane(pane).expect_err("stale owner"),
        MultiplexerError::UnknownPane(pane)
    );
}

#[test]
fn stale_window_id_is_rejected() {
    let mut mux = Multiplexer::new();
    let (window, _pane) = mux.create_window(size()).expect("window");
    mux.drain_events();

    mux.remove_window(window).expect("remove window");
    assert_eq!(
        mux.window(window).err().expect("stale window"),
        MultiplexerError::UnknownWindow(window)
    );
    assert_eq!(
        mux.select_window(window).expect_err("stale select"),
        MultiplexerError::UnknownWindow(window)
    );
    assert_eq!(
        mux.remove_window(window).expect_err("stale remove"),
        MultiplexerError::UnknownWindow(window)
    );
    assert_eq!(
        mux.focus_pane(window).expect_err("stale focus"),
        MultiplexerError::UnknownWindow(window)
    );
}

#[test]
fn ids_are_not_reused_after_removal() {
    let mut mux = Multiplexer::new();
    let (w1, p1) = mux.create_window(size()).expect("first");
    mux.remove_window(w1).expect("remove");
    let (w2, p2) = mux.create_window(size()).expect("second");
    assert_ne!(w1, w2);
    assert_ne!(p1, p2);
    assert_eq!(
        mux.pane(p1).err().expect("old pane"),
        MultiplexerError::UnknownPane(p1)
    );
}

#[test]
fn removing_last_pane_closes_window_and_can_empty_multiplexer() {
    let mut mux = Multiplexer::new();
    let (window, pane) = mux.create_window(size()).expect("window");
    mux.drain_events();

    mux.remove_pane(pane).expect("remove last pane");
    assert!(mux.is_empty());
    assert_eq!(mux.active_window(), None);
    assert_eq!(
        mux.window(window).err().expect("window gone"),
        MultiplexerError::UnknownWindow(window)
    );

    let events = mux.drain_events();
    assert_eq!(
        events,
        vec![
            LifecycleEvent::PaneClosed { window, pane },
            LifecycleEvent::WindowClosed { window },
            LifecycleEvent::ActiveWindowChanged { window: None },
        ]
    );
}

#[test]
fn removing_window_closes_all_panes() {
    let mut mux = Multiplexer::new();
    let (window, p1) = mux.create_window(size()).expect("window");
    let p2 = mux.create_pane(window, size()).expect("pane 2");
    mux.drain_events();

    mux.remove_window(window).expect("remove window");
    assert_eq!(
        mux.pane(p1).err().expect("p1"),
        MultiplexerError::UnknownPane(p1)
    );
    assert_eq!(
        mux.pane(p2).err().expect("p2"),
        MultiplexerError::UnknownPane(p2)
    );

    let events = mux.drain_events();
    assert!(events.contains(&LifecycleEvent::PaneClosed { window, pane: p1 }));
    assert!(events.contains(&LifecycleEvent::PaneClosed { window, pane: p2 }));
    assert!(events.contains(&LifecycleEvent::WindowClosed { window }));
}

#[test]
fn removing_a_window_leaves_the_others_alone() {
    let mut mux = Multiplexer::new();
    let (w1, p1) = mux.create_window(size()).expect("w1");
    let (w2, p2) = mux.create_window(size()).expect("w2");
    let p1b = mux.create_pane(w1, size()).expect("p1b");
    mux.remove_window(w2).expect("remove w2");
    assert_eq!(mux.windows(), vec![w1]);
    assert_eq!(mux.active_window(), Some(w1));
    assert!(mux.pane(p1).is_ok() && mux.pane(p1b).is_ok() && mux.pane(p2).is_err());
    assert_eq!(mux.window(w1).expect("w1").panes().to_vec(), vec![p1, p1b]);
}

#[test]
fn focus_moves_to_the_pane_that_followed() {
    let mut mux = Multiplexer::new();
    let (window, a) = mux.create_window(size()).expect("window");
    let b = mux.create_pane(window, size()).expect("b");
    let c = mux.create_pane(window, size()).expect("c");
    mux.set_focus(window, b).expect("focus b");
    mux.drain_events();
    mux.remove_pane(b).expect("remove b");
    assert_eq!(mux.focus_pane(window).expect("focus"), c);
    assert_eq!(
        mux.drain_events(),
        vec![
            LifecycleEvent::FocusPaneChanged { window, pane: c },
            LifecycleEvent::PaneClosed { window, pane: b },
        ]
    );
    mux.remove_pane(c).expect("remove c");
    assert_eq!(mux.focus_pane(window).expect("focus"), a);
}

#[test]
fn panes_are_listed_in_creation_order() {
    let mut mux = Multiplexer::new();
    assert!(mux.has_ids() && mux.has_pane_id());
    let (w1, a) = mux.create_window(size()).expect("w1");
    let (w2, b) = mux.create_window(size()).expect("w2");
    let c = mux.create_pane(w1, size()).expect("c");
    let d = mux.create_pane(w2, size()).expect("d");
    let e = mux.create_pane(w1, size()).expect("e");
    mux.set_focus(w1, a).expect("focus");
    assert_eq!(mux.window(w1).expect("w1").panes().to_vec(), vec![a, c, e]);
    assert_eq!(mux.window(w2).expect("w2").panes().to_vec(), vec![b, d]);
    mux.remove_pane(c).expect("remove c");
    let f = mux.create_pane(w1, size()).expect("f");
    assert_eq!(mux.window(w1).expect("w1").panes().to_vec(), vec![a, e, f]);
    assert_eq!(mux.window(w1).expect("w1").pane_count(), 3);
    for pane in [a, e, f] {
        assert_eq!(mux.window_of_pane(pane).expect("owner"), w1);
    }
}

#[test]
fn child_exit_becomes_lifecycle_event() {
    let mut mux = Multiplexer::new();
    let (window, pane) = mux.create_window(size()).expect("window");
    mux.drain_events();
    assert_eq!(mux.running(), vec![pane]);

    let status = ObservedExit::Exited { code: 7 };
    assert!(mux.note_exit(pane, status));
    assert_eq!(mux.pane(pane).expect("pane still present").exit_status(), Some(status));
    assert_eq!(
        mux.drain_events(),
        vec![LifecycleEvent::PaneExited { window, pane, status }]
    );
}

#[test]
fn poll_exits_is_idempotent_for_reaped_pane() {
    let mut mux = Multiplexer::new();
    let (_window, pane) = mux.create_window(size()).expect("window");
    mux.note_exit(pane, ObservedExit::Exited { code: 0 });
    mux.drain_events();

    assert!(mux.running().is_empty());
    assert!(!mux.note_exit(pane, ObservedExit::Exited { code: 1 }));
    assert!(mux.drain_events().is_empty());
    assert_eq!(
        mux.pane(pane).expect("pane").exit_status(),
        Some(ObservedExit::Exited { code: 0 })
    );
}

#[test]
fn remove_after_exit_drops_pty_once() {
    let mut mux = Multiplexer::new();
    let (window, pane) = mux.create_window(size()).expect("window");
    mux.note_exit(pane, ObservedExit::Exited { code: 0 });
    mux.remove_pane(pane).expect("remove exited pane");
    assert_eq!(
        mux.pane(pane).err().expect("gone"),
        MultiplexerError::UnknownPane(pane)
    );
    assert_eq!(
        mux.window(window).err().expect("window gone"),
        MultiplexerError::UnknownWindow(window)
    );
}

#[test]
fn remove_window_while_child_still_running() {
    let mut mux = Multiplexer::new();
    let (window, pane) = mux.create_window(size()).expect("window");
    assert!(mux.pane(pane).expect("pane").exit_status().is_none());
    mux.remove_window(window).expect("remove running window");
    assert_eq!(
        mux.pane(pane).err().expect("pane dropped"),
        MultiplexerError::UnknownPane(pane)
    );
}

#[test]
fn focus_rejects_pane_from_other_window() {
    let mut mux = Multiplexer::new();
    let (w1, p1) = mux.create_window(size()).expect("w1");
    let (w2, p2) = mux.create_window(size()).expect("w2");
    assert_eq!(
        mux.set_focus(w1, p2).expect_err("cross window"),
        MultiplexerError::PaneNotInWindow {
            pane: p2,
            window: w1,
        }
    );
    assert_eq!(mux.focus_pane(w1).expect("unchanged"), p1);
    assert_eq!(mux.focus_pane(w2).expect("w2"), p2);
}

#[test]
fn create_pane_on_unknown_window_fails() {
    let mut mux = Multiplexer::new();
    let (window, _) = mux.create_window(size()).expect("window");
    mux.remove_window(window).expect("remove");
    let err = mux.create_pane(window, size()).expect_err("unknown window");
    assert_eq!(err, MultiplexerError::UnknownWindow(window));
}

#[test]
fn panes_have_terminals_of_their_own() {
    let mut mux = Multiplexer::new();
    let (window, a) = mux.create_window(size()).expect("window");
    let b = mux.create_pane(window, size()).expect("pane b");
    mux.pane_mut(a).expect("a").terminal_mut().feed(b"hello");
    assert_eq!(mux.pane(a).expect("a").terminal().cursor().col, 5);
    assert_eq!(mux.pane(b).expect("b").terminal().cursor().col, 0);
}
