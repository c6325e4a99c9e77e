use stremio_shell::player::{
    BoolProp, CmdVal, EndReason, InMsg, InMsgArgs, InMsgFn, MpvCmd, ObserveKind, PlayerAction,
    PlayerEnded, PlayerEvent, PlayerProprChange, PlayerResponse, PropData, PropKey, PropVal,
};

fn s(x: &str) -> String {
    x.to_string()
}

fn prop_change_wire(name: &str, value: PropData) -> String {
    let pc = PlayerProprChange::from_name_value(s(name), value).expect("report builds");
    PlayerResponse("mpv-prop-change", PlayerEvent::PropChange(pc)).to_value().encode()
}

#[test]
fn propr_change_tokens() {
    let prop = "test-prop";
    fn expected(name: &str, data: &str) -> String {
        format!("[\"mpv-prop-change\",{{\"name\":\"{name}\",\"data\":{data}}}]")
    }
    assert_eq!(prop_change_wire(prop, PropData::Flag(true)), expected(prop, "true"));
    assert_eq!(prop_change_wire(prop, PropData::Int(1)), expected(prop, "1.0"));
    assert_eq!(prop_change_wire(prop, PropData::Num(s("1.0"))), expected(prop, "1.0"));
    assert_eq!(prop_change_wire(prop, PropData::OsdStr(s("ok"))), expected(prop, "\"ok\""));
    assert_eq!(prop_change_wire(prop, PropData::Str(s("ok"))), expected(prop, "\"ok\""));

    // the JSON-carrying properties pass their payload through as a document
    assert_eq!(
        prop_change_wire("track-list", PropData::Str(s("\"ok\""))),
        expected("track-list", "\"ok\"")
    );
    assert_eq!(
        prop_change_wire("video-params", PropData::Str(s("\"ok\""))),
        expected("video-params", "\"ok\"")
    );
    assert_eq!(
        prop_change_wire("metadata", PropData::Str(s("\"ok\""))),
        expected("metadata", "\"ok\"")
    );
}

#[test]
fn ended_tokens() {
    fn wire(reason: EndReason) -> String {
        let e = PlayerEnded::from_end_reason(reason);
        PlayerResponse("mpv-event-ended", PlayerEvent::End(e)).to_value().encode()
    }
    assert_eq!(wire(EndReason::Error), "[\"mpv-event-ended\",{\"reason\":\"error\"}]");
    assert_eq!(wire(EndReason::Quit), "[\"mpv-event-ended\",{\"reason\":\"quit\"}]");
}

#[test]
fn ob_propr_tokens() {
    let msg = InMsg(InMsgFn::MpvObserveProp, InMsgArgs::ObProp(PropKey::Bool(BoolProp::Pause)));
    let wire = "[\"mpv-observe-prop\",\"pause\"]";
    assert_eq!(msg.encode(), wire);
    let back = InMsg::decode(wire).expect("decodes");
    assert_eq!(back.encode(), wire);
}

#[test]
fn set_propr_tokens() {
    let msg = InMsg(
        InMsgFn::MpvSetProp,
        InMsgArgs::StProp(PropKey::Bool(BoolProp::Pause), PropVal::Bool(true)),
    );
    let wire = "[\"mpv-set-prop\",[\"pause\",true]]";
    assert_eq!(msg.encode(), wire);
    let back = InMsg::decode(wire).expect("decodes");
    assert_eq!(back.encode(), wire);
}

#[test]
fn command_stop_tokens() {
    let msg = InMsg(InMsgFn::MpvCommand, InMsgArgs::Cmd(CmdVal::Single((MpvCmd::Stop,))));
    let wire = "[\"mpv-command\",[\"stop\"]]";
    assert_eq!(msg.encode(), wire);
    let back = InMsg::decode(wire).expect("decodes");
    assert_eq!(back.encode(), wire);
}

#[test]
fn command_loadfile_tokens() {
    let msg = InMsg(
        InMsgFn::MpvCommand,
        InMsgArgs::Cmd(CmdVal::Double(MpvCmd::Loadfile, s("some_file"))),
    );
    let wire = "[\"mpv-command\",[\"loadfile\",\"some_file\"]]";
    assert_eq!(msg.encode(), wire);
    let back = InMsg::decode(wire).expect("decodes");
    assert_eq!(back.encode(), wire);
}

#[test]
fn unknown_shapes_are_rejected() {
    for wire in [
        "[\"mpv-observe-prop\",\"no-such-prop\"]",
        "[\"mpv-frobnicate\",\"pause\"]",
        "[\"mpv-command\",[\"explode\"]]",
        "[\"mpv-command\",[]]",
        "[\"mpv-command\",[\"loadfile\",1]]",
        "[\"mpv-set-prop\",[\"pause\"]]",
        "[\"mpv-set-prop\"]",
        "{}",
    ] {
        assert!(InMsg::decode(wire).is_none(), "{wire:?} should be rejected");
    }
}

#[test]
fn every_property_name_has_exactly_one_kind() {
    // the names of all four kinds, with the kind each one must resolve to
    let bools = ["pause", "paused-for-cache", "seeking", "eof-reached"];
    let ints = ["aid", "vid", "sid"];
    let fps = [
        "time-pos",
        "mute",
        "volume",
        "duration",
        "sub-scale",
        "cache-buffering-state",
        "sub-pos",
        "speed",
    ];
    let strs = [
        "ffmpeg-version",
        "hwdec",
        "input-defalt-bindings",
        "input-vo-keyboard",
        "metadata",
        "mpv-version",
        "osc",
        "path",
        "sub-ass-override",
        "sub-back-color",
        "sub-border-color",
        "sub-color",
        "track-list",
        "video-params",
    ];
    // all recognized names are pairwise distinct
    let mut all: Vec<&str> = Vec::new();
    all.extend(bools);
    all.extend(ints);
    all.extend(fps);
    all.extend(strs);
    for (i, a) in all.iter().enumerate() {
        for b in &all[i + 1..] {
            assert_ne!(a, b, "a property name with two kinds");
        }
    }
    // and each resolves to its own kind
    for n in bools {
        assert!(matches!(PropKey::from_name(n), Some(PropKey::Bool(_))), "{n}");
    }
    for n in ints {
        assert!(matches!(PropKey::from_name(n), Some(PropKey::Int(_))), "{n}");
    }
    for n in fps {
        assert!(matches!(PropKey::from_name(n), Some(PropKey::Fp(_))), "{n}");
    }
    for n in strs {
        assert!(matches!(PropKey::from_name(n), Some(PropKey::Str(_))), "{n}");
    }
    assert!(PropKey::from_name("vo").is_none());
}

#[test]
fn actions_follow_kind() {
    let m = InMsg(InMsgFn::MpvObserveProp, InMsgArgs::ObProp(PropKey::Fp(stremio_shell::player::FpProp::TimePos)));
    match m.action() {
        PlayerAction::Observe { name, kind } => {
            assert_eq!(name, "time-pos");
            assert!(matches!(kind, ObserveKind::Double));
        }
        _ => panic!("expected an observe action"),
    }
    let m = InMsg(InMsgFn::MpvCommand, InMsgArgs::Cmd(CmdVal::Double(MpvCmd::Loadfile, s("f"))));
    match m.action() {
        PlayerAction::Command { args } => assert_eq!(args, vec![s("loadfile"), s("f")]),
        _ => panic!("expected a command action"),
    }
    // a function and argument shape that do not go together
    let m = InMsg(InMsgFn::MpvObserveProp, InMsgArgs::Cmd(CmdVal::Single((MpvCmd::Stop,))));
    assert!(matches!(m.action(), PlayerAction::Unsupported));
}

#[test]
fn malformed_json_payload_is_refused() {
    assert!(PlayerProprChange::from_name_value(s("track-list"), PropData::Str(s("not json")))
        .is_none());
}
