use stremio_shell::ipc::{RPCRequest, RPCResponse};
use stremio_shell::json::Json;
use stremio_shell::router::{
    dispatch, handle, open_external_action, url_scheme_allowed, Command, Effect, RouterState,
};

fn s(x: &str) -> String {
    x.to_string()
}

fn decode(text: &str) -> RPCRequest {
    RPCRequest::decode(text).expect("test envelope decodes")
}

#[test]
fn handshake_outranks_payload() {
    // an encoded envelope with id 0 dispatches to the handshake, whatever it carries
    let req = RPCRequest { id: 0, args: Some(vec![Json::Str(s("quit"))]) };
    let back = decode(&req.encode());
    assert!(matches!(dispatch(&back), Command::Handshake));
}

#[test]
fn quit_round_trip_is_exactly_quit() {
    // any other id with args[0] == "quit" yields the quit signal, not a forward
    let req = RPCRequest { id: 12, args: Some(vec![Json::Str(s("quit"))]) };
    let back = decode(&req.encode());
    match dispatch(&back) {
        Command::Quit => {}
        other => panic!("expected quit, got {}", name_of(&other)),
    }
}

fn name_of(c: &Command) -> &'static str {
    match c {
        Command::Handshake => "handshake",
        Command::PlayerForward(_) => "player-forward",
        Command::WinSetVisibility => "win-set-visibility",
        Command::Quit => "quit",
        Command::AppReady => "app-ready",
        Command::AppError(_) => "app-error",
        Command::OpenExternal(_) => "open-external",
        Command::WinFocus => "win-focus",
        Command::AutoupdaterNotifClicked => "autoupdater-notif-clicked",
        Command::Unsupported => "unsupported",
        Command::Ignore => "ignore",
    }
}

#[test]
fn player_methods_forward_verbatim() {
    let back = decode("{\"id\":4,\"args\":[\"mpv-set-prop\",[\"pause\",true]]}");
    match dispatch(&back) {
        Command::PlayerForward(text) => {
            assert_eq!(text, "[\"mpv-set-prop\",[\"pause\",true]]");
        }
        other => panic!("expected forward, got {}", name_of(&other)),
    }
}

#[test]
fn vocabulary_dispatch() {
    assert!(matches!(
        dispatch(&decode("{\"id\":1,\"args\":[\"win-set-visibility\"]}")),
        Command::WinSetVisibility
    ));
    assert!(matches!(dispatch(&decode("{\"id\":1,\"args\":[\"app-ready\"]}")), Command::AppReady));
    assert!(matches!(dispatch(&decode("{\"id\":1,\"args\":[\"win-focus\"]}")), Command::WinFocus));
    assert!(matches!(
        dispatch(&decode("{\"id\":1,\"args\":[\"autoupdater-notif-clicked\"]}")),
        Command::AutoupdaterNotifClicked
    ));
    assert!(matches!(
        dispatch(&decode("{\"id\":1,\"args\":[\"frobnicate\"]}")),
        Command::Unsupported
    ));
    assert!(matches!(dispatch(&decode("{\"id\":1,\"args\":[17]}")), Command::Ignore));
    assert!(matches!(dispatch(&decode("{\"id\":1}")), Command::Ignore));
}

#[test]
fn open_external_allow_list() {
    // the scheme allow-list is a security boundary
    assert!(!url_scheme_allowed("javascript:alert(1)"));
    assert!(url_scheme_allowed("https://example.com"));
    assert!(url_scheme_allowed("HTTP://EXAMPLE.COM"));
    assert!(url_scheme_allowed("ftp://host/file"));
    assert!(url_scheme_allowed("ipfs://cid"));
    assert!(url_scheme_allowed("rtp://stream"));
    assert!(url_scheme_allowed("rtps://stream"));
    assert!(!url_scheme_allowed("file:///etc/passwd"));
    assert!(!url_scheme_allowed("calc"));
    assert!(!url_scheme_allowed(""));

    assert_eq!(open_external_action("javascript:alert(1)"), None);
    assert_eq!(open_external_action("https://example.com"), Some("https://example.com"));
}

#[test]
fn handle_effects_for_open_external() {
    let st = RouterState { command: s(""), update_setup: None };
    // a refused scheme produces no effect at all
    let effects = handle(&st, "{\"id\":5,\"args\":[\"open-external\",\"javascript:alert(1)\"]}");
    assert_eq!(effects.len(), 0);
    // an allowed scheme produces exactly the open effect
    let effects = handle(&st, "{\"id\":5,\"args\":[\"open-external\",\"https://example.com\"]}");
    assert_eq!(effects.len(), 1);
    match &effects[0] {
        Effect::OpenUrl(u) => assert_eq!(u, "https://example.com"),
        _ => panic!("expected an open effect"),
    }
}

#[test]
fn handle_effects_for_app_ready() {
    let st = RouterState { command: s("magnet:x"), update_setup: None };
    let effects = handle(&st, "{\"id\":5,\"args\":[\"app-ready\"]}");
    assert_eq!(effects.len(), 4);
    assert!(matches!(effects[0], Effect::NoticeHideSplash));
    match &effects[1] {
        Effect::SendToWeb(t) => assert_eq!(t, &RPCResponse::visibility_change(true, 1, false)),
        _ => panic!("expected the visibility event"),
    }
    assert!(matches!(effects[2], Effect::TriggerUpdateCheck));
    match &effects[3] {
        Effect::SendToWeb(t) => assert_eq!(t, &RPCResponse::open_media(s("magnet:x"))),
        _ => panic!("expected the open-media event"),
    }
    // without a command-line argument there is no open-media event
    let st = RouterState { command: s(""), update_setup: None };
    assert_eq!(handle(&st, "{\"id\":5,\"args\":[\"app-ready\"]}").len(), 3);
}

#[test]
fn handle_logs_and_discards_junk() {
    let st = RouterState { command: s(""), update_setup: None };
    let effects = handle(&st, "this is not an envelope");
    assert_eq!(effects.len(), 1);
    assert!(matches!(effects[0], Effect::LogInvalid));
}
