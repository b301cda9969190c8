use voice_core::dispatcher::{DispatchAction, Dispatcher};

#[test]
fn dispatch_spawns_then_forwards() {
    let mut d = Dispatcher::new(true);
    match d.dispatch(1) {
        DispatchAction::SpawnWorker { .. } => {},
        DispatchAction::Forward => panic!("first chunk must spawn a worker"),
    }
    assert_eq!(d.dispatch(1), DispatchAction::Forward);
}

#[test]
fn handle_interrupt_cancels_playing() {
    let mut d = Dispatcher::new(true);
    let token = match d.dispatch(1) {
        DispatchAction::SpawnWorker { token } => token,
        DispatchAction::Forward => panic!("expected spawn"),
    };
    d.set_playing(1, true);
    assert!(d.is_user_playing(1));

    // The in-flight token comes back for cancellation and playback stops.
    let cancelled = d.handle_interrupt(1);
    assert_eq!(cancelled, Some(token));
    assert!(!d.is_user_playing(1));
}

#[test]
fn handle_interrupt_noop_when_not_playing() {
    let mut d = Dispatcher::new(true);
    let _ = d.dispatch(1);
    assert_eq!(d.handle_interrupt(1), None);
    assert!(!d.is_user_playing(1));
}

#[test]
fn handle_interrupt_disabled_in_config() {
    let mut d = Dispatcher::new(false);
    let _ = d.dispatch(1);
    d.set_playing(1, true);

    assert_eq!(d.handle_interrupt(1), None);
    assert!(d.is_user_playing(1));
}

#[test]
fn is_user_playing_unknown_user() {
    let d = Dispatcher::new(true);
    assert!(!d.is_user_playing(999));
}

#[test]
fn interrupt_installs_fresh_token() {
    let mut d = Dispatcher::new(true);
    let first = match d.dispatch(7) {
        DispatchAction::SpawnWorker { token } => token,
        DispatchAction::Forward => panic!("expected spawn"),
    };
    d.set_playing(7, true);
    let cancelled = d.handle_interrupt(7).unwrap();
    assert_eq!(cancelled, first);

    // The next interrupt, once playing again, cancels a different token.
    d.set_playing(7, true);
    let second = d.handle_interrupt(7).unwrap();
    assert_ne!(second, first);
}

#[test]
fn remove_worker_allows_respawn() {
    let mut d = Dispatcher::new(true);
    let _ = d.dispatch(3);
    d.remove_worker(3);
    match d.dispatch(3) {
        DispatchAction::SpawnWorker { .. } => {},
        DispatchAction::Forward => panic!("stale worker should be gone"),
    }
}
