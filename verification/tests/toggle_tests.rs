use weylus::form::{default_form, Platform, SettingsError};
use weylus::toggle::{first_stop_action, next_stop_action, ServerToggle, ShutdownTarget, StopAction, ToggleCommand};

#[test]
fn start_then_stop() {
    let mut t = ServerToggle::new();
    assert!(!t.is_running());
    assert_eq!(t.button_label(), "Start");
    assert!(!t.stops_before_exit());
    let form = default_form(Platform::Linux);
    match t.command(&form) {
        ToggleCommand::Start(s) => assert_eq!(s.web_port, 1701),
        other => panic!("expected start, got {:?}", other),
    }
    t.complete(true);
    assert!(t.is_running());
    assert_eq!(t.button_label(), "Stop");
    assert!(!t.stops_before_exit());
    assert!(t.offers_qr_code(Platform::Linux));
    assert!(!t.offers_qr_code(Platform::Windows));
    assert!(matches!(t.command(&form), ToggleCommand::Stop));
    t.complete(true);
    assert!(!t.is_running());
    assert!(!t.offers_qr_code(Platform::Linux));
}

#[test]
fn bad_form_is_reported_and_changes_nothing() {
    let mut t = ServerToggle::new();
    let mut form = default_form(Platform::Linux);
    form.bind_address = "0.0.0.256".to_string();
    match t.command(&form) {
        ToggleCommand::Report(e) => assert_eq!(e, SettingsError::BindAddress),
        other => panic!("expected report, got {:?}", other),
    }
    t.complete(false);
    assert!(!t.is_running());
}

#[test]
fn law_toggle_round_trip() {
    let mut t = ServerToggle::new();
    t.complete(true);
    t.complete(false);
    assert!(t.is_running());
    t.complete(true);
    assert!(!t.is_running());
}

#[test]
fn stopping_tells_web_server_first() {
    assert_eq!(first_stop_action(true, true), StopAction::Send(ShutdownTarget::WebServer));
    assert_eq!(first_stop_action(false, true), StopAction::Send(ShutdownTarget::WebsocketServer));
    assert_eq!(first_stop_action(false, false), StopAction::Finish(true));
    assert_eq!(
        next_stop_action(ShutdownTarget::WebServer, true, true),
        StopAction::Send(ShutdownTarget::WebsocketServer)
    );
    assert_eq!(next_stop_action(ShutdownTarget::WebServer, false, true), StopAction::Finish(true));
    assert_eq!(next_stop_action(ShutdownTarget::WebsocketServer, true, true), StopAction::Finish(true));
}

#[test]
fn failed_shutdown_message_ends_stop_without_stopping() {
    assert_eq!(next_stop_action(ShutdownTarget::WebServer, true, false), StopAction::Finish(false));
    assert_eq!(next_stop_action(ShutdownTarget::WebsocketServer, true, false), StopAction::Finish(false));
    let mut t = ServerToggle::new();
    t.complete(true);
    t.complete(false);
    assert!(t.is_running());
}
