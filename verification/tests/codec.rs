use stremio_shell::json::{parse_json, Json};

fn s(x: &str) -> String {
    x.to_string()
}

#[test]
fn encode_scalars() {
    assert_eq!(Json::Null.encode(), "null");
    assert_eq!(Json::Bool(true).encode(), "true");
    assert_eq!(Json::Bool(false).encode(), "false");
    assert_eq!(Json::Num(s("-12.5e3")).encode(), "-12.5e3");
    assert_eq!(Json::Str(s("hi")).encode(), "\"hi\"");
}

#[test]
fn encode_escapes() {
    let v = Json::Str(s("a\"b\\c\nd"));
    assert_eq!(v.encode(), "\"a\\\"b\\\\c\\u000ad\"");
}

#[test]
fn encode_nested() {
    let v = Json::Obj(vec![
        (s("id"), Json::Num(s("0"))),
        (s("args"), Json::Arr(vec![Json::Str(s("quit")), Json::Null])),
    ]);
    assert_eq!(v.encode(), "{\"id\":0,\"args\":[\"quit\",null]}");
}

#[test]
fn parse_round_trip() {
    let texts = [
        "null",
        "true",
        "[\"mpv-observe-prop\",\"pause\"]",
        "{\"id\":1,\"object\":\"transport\",\"type\":1,\"args\":[\"x\",{\"a\":1.5e-3,\"b\":[[]]}]}",
        "\"a\\\"b\\\\c\\u000ad\"",
        "-12.5e3",
    ];
    for t in texts {
        let v = parse_json(t).expect("should parse");
        assert_eq!(v.encode(), *t);
    }
}

#[test]
fn parse_tolerates_whitespace_and_escapes() {
    let v = parse_json(" { \"a\" : [ 1 , \"\\t\" ] } ").expect("should parse");
    assert_eq!(v.encode(), "{\"a\":[1,\"\\u0009\"]}");
    let w = parse_json("\"\\u0041\"").expect("should parse");
    assert_eq!(w.encode(), "\"A\"");
}

#[test]
fn parse_rejects_malformed() {
    for t in [
        "",
        "{",
        "[1,]",
        "{\"a\":}",
        "tru",
        "\"unterminated",
        "\"\\x\"",
        "\"\\ud800\"",
        "01x",
        "1 2",
        "[1] trailing",
    ] {
        assert!(parse_json(t).is_none(), "{t:?} should be rejected");
    }
}

#[test]
fn agrees_with_reference_parser() {
    // the same documents read identically under serde_json
    let texts = [
        "{\"id\":0,\"args\":[\"app-ready\"]}",
        "[\"mpv-set-prop\",[\"pause\",true]]",
        "{\"version\":\"1.2.3\",\"files\":[]}",
    ];
    for t in texts {
        let ours = parse_json(t).expect("ours should parse");
        let theirs: serde_json::Value = serde_json::from_str(t).expect("serde should parse");
        assert_eq!(
            serde_json::from_str::<serde_json::Value>(&ours.encode()).expect("re-parse"),
            theirs,
            "disagreement on {t:?}"
        );
    }
}
