use snapmixer::address::parse_server;
use snapmixer::keys::{map_key, Action, Key, KeyPress};
use snapmixer::shadow::STEPS_PER_PERCENT;
use snapmixer::state::{AppState, Inbound};
use snapmixer::topology::{Endpoint, Group, Snapshot};
use snapmixer::volume::Command;
use snapmixer::watchdog::{
    LinkStatus, Watchdog, EXPECTED_RESPONSE_MS, SUSPEND_THRESHOLD_MS, SUSPICIOUS_QUIET_MS,
};

fn press(code: Key) -> KeyPress {
    KeyPress { code, shift: false, control: false, press: true }
}

fn shifted(code: Key) -> KeyPress {
    KeyPress { code, shift: true, control: false, press: true }
}

fn snapshot() -> Snapshot {
    Snapshot {
        groups: vec![Group {
            id: "G".to_string(),
            name: "Den".to_string(),
            muted: false,
            members: vec!["A".to_string(), "B".to_string()],
        }],
        endpoints: vec![
            Endpoint {
                id: "A".to_string(),
                name: "Left".to_string(),
                host_name: String::new(),
                percent: 40,
                muted: false,
            },
            Endpoint {
                id: "B".to_string(),
                name: "Right".to_string(),
                host_name: String::new(),
                percent: 20,
                muted: true,
            },
        ],
    }
}

fn connected_state(now: u64) -> AppState {
    let mut state = AppState::new(now, 1_000);
    let out = state.on_status(LinkStatus::Connected);
    assert!(matches!(out.commands.as_slice(), [Command::RequestStatus]));
    state
}

#[test]
fn stale_after_unanswered_command_then_recovers() {
    let s = snapshot();
    let mut state = connected_state(0);
    state.focus = Some("G".to_string());
    let t0 = 5_000;
    let out = state.on_key(press(Key::Char('6')), t0, &s);
    assert_eq!(out.commands.len(), 2);
    assert_eq!(state.watchdog.response_timer(), Some(t0 + EXPECTED_RESPONSE_MS));
    let out = state.on_response_timer();
    assert!(out.redraw);
    assert!(state.watchdog.stale);
    assert_eq!(state.watchdog.response_timer(), None);
    assert_eq!(state.watchdog.quiet_timer(), None);
    let t1 = t0 + EXPECTED_RESPONSE_MS + 3;
    let out = state.on_messages(&vec![Inbound::Applied], t1, &s);
    assert!(out.redraw);
    assert!(!state.watchdog.stale);
    assert_eq!(state.watchdog.quiet_timer(), Some(t1 + SUSPICIOUS_QUIET_MS));
    assert_eq!(state.watchdog.response_deadline, None);
}

#[test]
fn connection_status_changes() {
    let mut state = AppState::new(0, 0);
    assert!(!state.watchdog.connected);
    let out = state.on_status(LinkStatus::Disconnected);
    assert!(out.redraw && out.commands.is_empty());
    assert_eq!(state.watchdog.reconnect_attempts, 1);
    state.on_status(LinkStatus::ReconnectFailed);
    state.on_status(LinkStatus::ReconnectFailed);
    assert_eq!(state.watchdog.reconnect_attempts, 3);
    assert!(!state.watchdog.connected);
    state.on_status(LinkStatus::Connected);
    assert!(state.watchdog.connected);
    assert_eq!(state.watchdog.reconnect_attempts, 0);
    assert_eq!(state.watchdog.response_deadline, None);
}

#[test]
fn quiet_timer_asks_for_status_once() {
    let mut state = connected_state(0);
    assert_eq!(state.watchdog.quiet_timer(), Some(SUSPICIOUS_QUIET_MS));
    let out = state.on_quiet_timer(SUSPICIOUS_QUIET_MS);
    assert!(matches!(out.commands.as_slice(), [Command::RequestStatus]));
    assert_eq!(state.watchdog.quiet_timer(), None);
    assert_eq!(
        state.watchdog.response_timer(),
        Some(SUSPICIOUS_QUIET_MS + EXPECTED_RESPONSE_MS)
    );
    let out = state.on_quiet_timer(SUSPICIOUS_QUIET_MS + 1);
    assert!(out.commands.is_empty());
}

#[test]
fn timers_wait_while_disconnected() {
    let mut state = AppState::new(0, 0);
    assert_eq!(state.watchdog.quiet_timer(), None);
    assert!(state.on_quiet_timer(10).commands.is_empty());
    state.watchdog.response_deadline = Some(5);
    assert!(!state.on_response_timer().redraw);
    assert!(!state.watchdog.stale);
}

#[test]
fn suspend_detector_probes_after_a_gap() {
    let mut state = connected_state(0);
    let out = state.on_suspend_tick(2_000, 1_000);
    assert!(out.commands.is_empty());
    let out = state.on_suspend_tick(2_000 + SUSPEND_THRESHOLD_MS, 2_000);
    assert!(matches!(out.commands.as_slice(), [Command::RequestStatus]));
    assert_eq!(state.watchdog.response_timer(), Some(2_000 + EXPECTED_RESPONSE_MS));
    let out = state.on_suspend_tick(5, 3_000);
    assert!(out.commands.is_empty());
    assert_eq!(state.watchdog.last_wall_ms, 5);
}

#[test]
fn watchdog_deadlines_saturate() {
    let mut w = Watchdog::new(u64::MAX - 1, 0);
    assert_eq!(w.quiet_deadline, Some(u64::MAX));
    w.on_sent(u64::MAX);
    assert_eq!(w.response_deadline, Some(u64::MAX));
}

#[test]
fn errors_queue_and_dismiss() {
    let s = snapshot();
    let mut state = connected_state(0);
    let out = state.on_messages(
        &vec![Inbound::Failed("first".to_string()), Inbound::Failed("second".to_string())],
        10,
        &s,
    );
    assert!(out.redraw);
    assert_eq!(state.error_messages, vec!["first".to_string(), "second".to_string()]);
    assert_eq!(state.handle_key(press(Key::Char('q'))), Action::Nothing);
    let out = state.on_key(press(Key::Esc), 20, &s);
    assert!(out.redraw && !out.quit);
    assert!(state.error_messages.is_empty());
    let out = state.on_key(press(Key::Esc), 30, &s);
    assert!(out.quit);
}

#[test]
fn applied_messages_reconcile() {
    let s = snapshot();
    let mut state = connected_state(0);
    state.fractional_volumes.set(&"A".to_string(), 10 * STEPS_PER_PERCENT);
    state.on_messages(&vec![Inbound::Applied], 10, &s);
    assert_eq!(
        state.fractional_volumes.get(&"A".to_string()),
        Some(40 * STEPS_PER_PERCENT)
    );
    assert_eq!(
        state.fractional_volumes.get(&"B".to_string()),
        Some(20 * STEPS_PER_PERCENT)
    );
}

#[test]
fn keys_move_focus_and_toggle_mute() {
    let s = snapshot();
    let mut state = connected_state(0);
    let out = state.on_key(press(Key::Down), 1, &s);
    assert!(out.redraw);
    assert_eq!(state.focus, Some("G".to_string()));
    state.on_key(press(Key::Char('j')), 2, &s);
    assert_eq!(state.focus, Some("A".to_string()));
    let out = state.on_key(press(Key::Char('m')), 3, &s);
    match out.commands.as_slice() {
        [Command::SetEndpointVolume { id, percent, muted }] => {
            assert_eq!(id, "A");
            assert_eq!(*percent, 40);
            assert!(*muted);
        }
        _ => panic!("expected one volume command"),
    }
    assert_eq!(state.watchdog.response_deadline, Some(3 + EXPECTED_RESPONSE_MS));
    let out = state.on_key(shifted(Key::Up), 4, &s);
    assert!(out.redraw);
    assert_eq!(state.focus, Some("G".to_string()));
    let out = state.on_key(press(Key::Char('m')), 5, &s);
    match out.commands.as_slice() {
        [Command::SetGroupMute { id, muted }] => {
            assert_eq!(id, "G");
            assert!(*muted);
        }
        _ => panic!("expected one group command"),
    }
    let out = state.on_key(press(Key::Up), 6, &s);
    assert!(!out.redraw);
}

#[test]
fn nothing_focused_sends_nothing() {
    let s = snapshot();
    let mut state = connected_state(0);
    let out = state.on_key(press(Key::Right), 1, &s);
    assert!(out.commands.is_empty());
    assert_eq!(state.watchdog.response_deadline, None);
    let out = state.on_key(press(Key::Char('m')), 1, &s);
    assert!(out.commands.is_empty());
}

#[test]
fn key_map() {
    assert_eq!(map_key(press(Key::Char('1')), false, false), Action::SetVolumeTo(10));
    assert_eq!(map_key(press(Key::Char('9')), false, false), Action::SetVolumeTo(90));
    assert_eq!(map_key(press(Key::Char('0')), false, false), Action::SetVolumeTo(100));
    assert_eq!(map_key(press(Key::Left), false, false), Action::ReduceVolume);
    assert_eq!(map_key(shifted(Key::Left), false, false), Action::ReduceVolumeMore);
    assert_eq!(map_key(press(Key::Char('H')), false, false), Action::ReduceVolumeMore);
    assert_eq!(map_key(press(Key::Char('l')), false, false), Action::RaiseVolume);
    assert_eq!(map_key(shifted(Key::Right), false, false), Action::RaiseVolumeMore);
    assert_eq!(map_key(press(Key::Char('K')), false, false), Action::PrevGroup);
    assert_eq!(map_key(shifted(Key::Down), false, false), Action::NextGroup);
    assert_eq!(map_key(press(Key::Char('k')), false, false), Action::Prev);
    assert_eq!(map_key(press(Key::Esc), false, false), Action::Dismiss);
    assert_eq!(map_key(press(Key::Char('q')), false, false), Action::Exit);
    assert_eq!(map_key(press(Key::Char('c')), false, false), Action::Nothing);
    let ctrl_c = KeyPress { code: Key::Char('c'), shift: false, control: true, press: true };
    assert_eq!(map_key(ctrl_c, true, false), Action::Exit);
    assert_eq!(map_key(press(Key::Down), true, false), Action::Nothing);
    assert_eq!(map_key(press(Key::Esc), true, false), Action::Nothing);
    assert_eq!(map_key(press(Key::Down), false, true), Action::Nothing);
    let release = KeyPress { code: Key::Char('q'), shift: false, control: false, press: false };
    assert_eq!(map_key(release, false, false), Action::Nothing);
}

#[test]
fn server_addresses() {
    assert_eq!(parse_server("localhost:1705"), Ok(("localhost".to_string(), 1705)));
    assert_eq!(parse_server("example.org:80"), Ok(("example.org".to_string(), 80)));
    assert_eq!(parse_server("example.org"), Ok(("example.org".to_string(), 1705)));
    assert_eq!(parse_server("example.org:"), Ok(("example.org:".to_string(), 1705)));
    assert_eq!(parse_server("::1"), Ok((":".to_string(), 1)));
    assert_eq!(parse_server("h:+42"), Ok(("h".to_string(), 42)));
    assert_eq!(parse_server("h:65535"), Ok(("h".to_string(), 65535)));
    assert_eq!(parse_server("h:65536"), Err("Invalid port number 65536".to_string()));
    assert_eq!(parse_server("h:abc"), Err("Invalid port number abc".to_string()));
    assert_eq!(parse_server("h:+"), Err("Invalid port number +".to_string()));
    assert_eq!(parse_server("h:-1"), Err("Invalid port number -1".to_string()));
}
