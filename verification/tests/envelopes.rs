use stremio_shell::ipc::{RPCRequest, RPCResponse};
use stremio_shell::json::Json;

fn s(x: &str) -> String {
    x.to_string()
}

#[test]
fn handshake_reply_wire_form() {
    assert_eq!(
        RPCResponse::get_handshake(),
        "{\"id\":0,\"object\":\"transport\",\"type\":3,\"data\":{\"transport\":{\"properties\":[[],[\"\",\"shellVersion\",\"\",\"5.0.0\"]],\"signals\":[],\"methods\":[[\"onEvent\",\"\"]]}}}"
    );
}

#[test]
fn response_message_wire_form() {
    assert_eq!(
        RPCResponse::response_message(None),
        "{\"id\":1,\"object\":\"transport\",\"type\":1}"
    );
    assert_eq!(
        RPCResponse::response_message(Some(Json::Arr(vec![Json::Str(s("dragdrop"))]))),
        "{\"id\":1,\"object\":\"transport\",\"type\":1,\"args\":[\"dragdrop\"]}"
    );
}

#[test]
fn visibility_and_state_events() {
    assert_eq!(
        RPCResponse::visibility_change(true, 1, false),
        "{\"id\":1,\"object\":\"transport\",\"type\":1,\"args\":[\"win-visibility-changed\",{\"visible\":true,\"visibility\":1,\"isFullscreen\":false}]}"
    );
    assert_eq!(
        RPCResponse::state_change(9),
        "{\"id\":1,\"object\":\"transport\",\"type\":1,\"args\":[\"win-state-changed\",{\"state\":9}]}"
    );
}

#[test]
fn open_media_and_update_events() {
    assert_eq!(
        RPCResponse::open_media(s("magnet:x")),
        "{\"id\":1,\"object\":\"transport\",\"type\":1,\"args\":[\"open-media\",\"magnet:x\"]}"
    );
    assert_eq!(
        RPCResponse::update_available(),
        "{\"id\":1,\"object\":\"transport\",\"type\":1,\"args\":[\"autoupdater-show-notif\"]}"
    );
}

#[test]
fn request_decode_shapes() {
    let r = RPCRequest::decode("{\"id\":0}").expect("handshake decodes");
    assert_eq!(r.id, 0);
    assert!(r.args.is_none());
    assert!(r.is_handshake());

    let r = RPCRequest::decode("{\"id\":7,\"args\":[\"quit\"]}").expect("decodes");
    assert_eq!(r.id, 7);
    assert_eq!(r.get_method(), Some("quit"));
    assert!(r.get_params().is_none());

    let r = RPCRequest::decode("{\"id\":2,\"args\":null}").expect("null args decode as none");
    assert!(r.args.is_none());

    // the id must be an unsigned 64-bit integer literal
    assert!(RPCRequest::decode("{\"id\":-1,\"args\":[]}").is_none());
    assert!(RPCRequest::decode("{\"id\":1.5}").is_none());
    assert!(RPCRequest::decode("{\"id\":18446744073709551616}").is_none());
    assert!(RPCRequest::decode("{\"args\":[\"quit\"]}").is_none());
    assert!(RPCRequest::decode("{\"id\":1,\"args\":\"quit\"}").is_none());
    assert!(RPCRequest::decode("not json").is_none());
}

#[test]
fn request_encode_decode_round_trip() {
    let req = RPCRequest {
        id: 3,
        args: Some(vec![Json::Str(s("open-external")), Json::Str(s("https://example.com"))]),
    };
    let text = req.encode();
    assert_eq!(text, "{\"id\":3,\"args\":[\"open-external\",\"https://example.com\"]}");
    let back = RPCRequest::decode(&text).expect("round trip decodes");
    assert_eq!(back.id, 3);
    assert_eq!(back.get_method(), Some("open-external"));
}
