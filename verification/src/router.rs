//! The message router: every line received from the browser surface is
//! decoded as a request envelope and dispatched to exactly one command, in a
//! fixed precedence order; each command maps to a bounded list of effects
//! that the surrounding threads carry out.
use vstd::prelude::*;
use crate::ipc::{ReqV, RPCRequest, RPCResponse, spec_decode_request};
use crate::json::{Json, JsonV, enc_value, lemma_view_items, view_items};
use crate::text::str_eq;
use vstd::string::StrSliceExecFns;

verus! {

/// What one incoming envelope asks for, decided once at the JSON boundary.
pub enum Command {
    /// `id == 0`: the peer asks for the handshake reply.
    Handshake,
    /// A `mpv-*` method: the whole argument array, re-encoded, goes to the
    /// playback engine untouched.
    PlayerForward(String),
    WinSetVisibility,
    Quit,
    AppReady,
    /// `app-error`, with the reported detail re-encoded for the log.
    AppError(Option<String>),
    /// `open-external`, with the requested target when it is a string.
    OpenExternal(Option<String>),
    WinFocus,
    AutoupdaterNotifClicked,
    /// A method name outside the vocabulary.
    Unsupported,
    /// No method: an envelope without a string in first argument position.
    Ignore,
}

/// The mathematical shape of a command.
#[verifier::ext_equal]
pub enum CommandV {
    Handshake,
    PlayerForward(Seq<char>),
    WinSetVisibility,
    Quit,
    AppReady,
    AppError(Option<Seq<char>>),
    OpenExternal(Option<Seq<char>>),
    WinFocus,
    AutoupdaterNotifClicked,
    Unsupported,
    Ignore,
}

impl View for Command {
    type V = CommandV;

    open spec fn view(&self) -> CommandV {
        match self {
            Command::Handshake => CommandV::Handshake,
            Command::PlayerForward(s) => CommandV::PlayerForward(s@),
            Command::WinSetVisibility => CommandV::WinSetVisibility,
            Command::Quit => CommandV::Quit,
            Command::AppReady => CommandV::AppReady,
            Command::AppError(p) => CommandV::AppError(
                match p {
                    Some(s) => Some(s@),
                    None => None,
                },
            ),
            Command::OpenExternal(p) => CommandV::OpenExternal(
                match p {
                    Some(s) => Some(s@),
                    None => None,
                },
            ),
            Command::WinFocus => CommandV::WinFocus,
            Command::AutoupdaterNotifClicked => CommandV::AutoupdaterNotifClicked,
            Command::Unsupported => CommandV::Unsupported,
            Command::Ignore => CommandV::Ignore,
        }
    }
}

/// A playback-engine method: the name starts with `mpv-`.
pub open spec fn is_player_method(m: Seq<char>) -> bool {
    m.len() >= 4 && m[0] == 'm' && m[1] == 'p' && m[2] == 'v' && m[3] == '-'
}

/// The method named by a request: its first argument, when that is a string.
pub open spec fn method_of(rv: ReqV) -> Option<Seq<char>> {
    match rv.args {
        Some(items) => if items.len() > 0 && items[0] is Str {
            Some(items[0]->Str_0)
        } else {
            None
        },
        None => None,
    }
}

/// The first parameter of a request: its second argument.
pub open spec fn params_of(rv: ReqV) -> Option<JsonV> {
    match rv.args {
        Some(items) => if items.len() > 1 {
            Some(items[1])
        } else {
            None
        },
        None => None,
    }
}

/// Where one request goes, in precedence order: the handshake outranks
/// everything, then playback forwarding, then the fixed command vocabulary;
/// unknown methods are unsupported, and an envelope without a method is
/// ignored.
pub open spec fn spec_dispatch(rv: ReqV) -> CommandV {
    if rv.id == 0 {
        CommandV::Handshake
    } else {
        match method_of(rv) {
            Some(m) => if is_player_method(m) {
                CommandV::PlayerForward(enc_value(JsonV::Arr(rv.args.unwrap())))
            } else if m == "win-set-visibility"@ {
                CommandV::WinSetVisibility
            } else if m == "quit"@ {
                CommandV::Quit
            } else if m == "app-ready"@ {
                CommandV::AppReady
            } else if m == "app-error"@ {
                CommandV::AppError(
                    match params_of(rv) {
                        Some(p) => Some(enc_value(p)),
                        None => None,
                    },
                )
            } else if m == "open-external"@ {
                CommandV::OpenExternal(
                    match params_of(rv) {
                        Some(JsonV::Str(s)) => Some(s),
                        _ => None,
                    },
                )
            } else if m == "win-focus"@ {
                CommandV::WinFocus
            } else if m == "autoupdater-notif-clicked"@ {
                CommandV::AutoupdaterNotifClicked
            } else {
                CommandV::Unsupported
            },
            None => CommandV::Ignore,
        }
    }
}

fn starts_with_mpv(m: &str) -> (r: bool)
    ensures
        r == is_player_method(m@),
{
    if m.unicode_len() < 4 {
        return false;
    }
    m.get_char(0) == 'm' && m.get_char(1) == 'p' && m.get_char(2) == 'v' && m.get_char(3) == '-'
}

/// Decides one decoded request.
pub fn dispatch(req: &RPCRequest) -> (c: Command)
    ensures
        c@ == spec_dispatch(req@),
{
    if req.is_handshake() {
        return Command::Handshake;
    }
    let method = match req.get_method() {
        Some(m) => m,
        None => {
            return Command::Ignore;
        },
    };
    if starts_with_mpv(method) {
        let args = match &req.args {
            Some(args) => args,
            None => {
                proof {
                    assert(false);
                }
                return Command::Ignore;
            },
        };
        let mut items: Vec<Json> = Vec::new();
        let mut k: usize = 0;
        proof {
            lemma_view_items(args@);
        }
        while k < args.len()
            invariant
                k <= args@.len(),
                view_items(items@) == view_items(args@).take(k as int),
                view_items(args@).len() == args@.len(),
                forall|i: int|
                    0 <= i < args@.len() ==> view_items(args@)[i] == #[trigger] args@[i]@,
            decreases args@.len() - k,
        {
            let c = args[k].deep_clone();
            proof {
                crate::json::lemma_view_items_push(items@, c);
            }
            items.push(c);
            k = k + 1;
            proof {
                assert(view_items(items@) =~= view_items(args@).take(k as int));
            }
        }
        proof {
            assert(view_items(args@).take(args@.len() as int) =~= view_items(args@));
        }
        return Command::PlayerForward(Json::Arr(items).encode());
    }
    if str_eq(method, "win-set-visibility") {
        Command::WinSetVisibility
    } else if str_eq(method, "quit") {
        Command::Quit
    } else if str_eq(method, "app-ready") {
        Command::AppReady
    } else if str_eq(method, "app-error") {
        match req.get_params() {
            Some(p) => Command::AppError(Some(p.encode())),
            None => Command::AppError(None),
        }
    } else if str_eq(method, "open-external") {
        match req.get_params() {
            Some(Json::Str(s)) => Command::OpenExternal(Some(s.clone())),
            _ => Command::OpenExternal(None),
        }
    } else if str_eq(method, "win-focus") {
        Command::WinFocus
    } else if str_eq(method, "autoupdater-notif-clicked") {
        Command::AutoupdaterNotifClicked
    } else {
        Command::Unsupported
    }
}

// ---------------------------------------------------------------------------
// The security boundary for `open-external`.
// ---------------------------------------------------------------------------

pub open spec fn ascii_lower_char(c: char) -> char {
    if 'A' <= c && c <= 'Z' {
        ((c as u32) + 32) as char
    } else {
        c
    }
}

/// The string with ASCII letters lowered, as the scheme check reads it.
pub open spec fn ascii_lower(s: Seq<char>) -> Seq<char> {
    Seq::new(s.len(), |i: int| ascii_lower_char(s[i]))
}

pub open spec fn has_prefix(s: Seq<char>, p: Seq<char>) -> bool {
    s.len() >= p.len() && s.subrange(0, p.len() as int) == p
}

/// The allow-list: a target is opened only when, case-insensitively, it
/// starts with one of six schemes. Anything else is refused.
pub open spec fn scheme_allowed(s: Seq<char>) -> bool {
    ||| has_prefix(ascii_lower(s), seq!['h', 't', 't', 'p', ':', '/', '/'])
    ||| has_prefix(ascii_lower(s), seq!['h', 't', 't', 'p', 's', ':', '/', '/'])
    ||| has_prefix(ascii_lower(s), seq!['r', 't', 'p', ':', '/', '/'])
    ||| has_prefix(ascii_lower(s), seq!['r', 't', 'p', 's', ':', '/', '/'])
    ||| has_prefix(ascii_lower(s), seq!['f', 't', 'p', ':', '/', '/'])
    ||| has_prefix(ascii_lower(s), seq!['i', 'p', 'f', 's', ':', '/', '/'])
}

fn lower_char_x(c: char) -> (r: char)
    ensures
        r == ascii_lower_char(c),
{
    if 'A' <= c && c <= 'Z' {
        match crate::json::char_from_u32((c as u32) + 32) {
            Some(l) => l,
            None => {
                proof {
                    assert(false);
                }
                c
            },
        }
    } else {
        c
    }
}

fn has_prefix_lower(v: &Vec<char>, p: &Vec<char>) -> (r: bool)
    ensures
        r == has_prefix(ascii_lower(v@), p@),
{
    if v.len() < p.len() {
        return false;
    }
    let mut i: usize = 0;
    while i < p.len()
        invariant
            i <= p@.len(),
            p@.len() <= v@.len(),
            forall|k: int| 0 <= k < i ==> ascii_lower(v@)[k] == p@[k],
        decreases p@.len() - i,
    {
        let lc = lower_char_x(v[i]);
        if lc != p[i] {
            proof {
                assert(ascii_lower(v@)[i as int] != p@[i as int]);
                if has_prefix(ascii_lower(v@), p@) {
                    assert(ascii_lower(v@).subrange(0, p@.len() as int)[i as int] == ascii_lower(
                        v@,
                    )[i as int]);
                }
            }
            return false;
        }
        i = i + 1;
    }
    proof {
        assert(ascii_lower(v@).subrange(0, p@.len() as int) =~= p@);
    }
    true
}

/// Whether `url` passes the scheme allow-list.
pub fn url_scheme_allowed(url: &str) -> (r: bool)
    ensures
        r == scheme_allowed(url@),
{
    let v = crate::text::chars_of(url);
    let mut http: Vec<char> = Vec::new();
    http.push('h');
    http.push('t');
    http.push('t');
    http.push('p');
    http.push(':');
    http.push('/');
    http.push('/');
    let mut https: Vec<char> = Vec::new();
    https.push('h');
    https.push('t');
    https.push('t');
    https.push('p');
    https.push('s');
    https.push(':');
    https.push('/');
    https.push('/');
    let mut rtp: Vec<char> = Vec::new();
    rtp.push('r');
    rtp.push('t');
    rtp.push('p');
    rtp.push(':');
    rtp.push('/');
    rtp.push('/');
    let mut rtps: Vec<char> = Vec::new();
    rtps.push('r');
    rtps.push('t');
    rtps.push('p');
    rtps.push('s');
    rtps.push(':');
    rtps.push('/');
    rtps.push('/');
    let mut ftp: Vec<char> = Vec::new();
    ftp.push('f');
    ftp.push('t');
    ftp.push('p');
    ftp.push(':');
    ftp.push('/');
    ftp.push('/');
    let mut ipfs: Vec<char> = Vec::new();
    ipfs.push('i');
    ipfs.push('p');
    ipfs.push('f');
    ipfs.push('s');
    ipfs.push(':');
    ipfs.push('/');
    ipfs.push('/');
    proof {
        assert(http@ =~= seq!['h', 't', 't', 'p', ':', '/', '/']);
        assert(https@ =~= seq!['h', 't', 't', 'p', 's', ':', '/', '/']);
        assert(rtp@ =~= seq!['r', 't', 'p', ':', '/', '/']);
        assert(rtps@ =~= seq!['r', 't', 'p', 's', ':', '/', '/']);
        assert(ftp@ =~= seq!['f', 't', 'p', ':', '/', '/']);
        assert(ipfs@ =~= seq!['i', 'p', 'f', 's', ':', '/', '/']);
    }
    has_prefix_lower(&v, &http) || has_prefix_lower(&v, &https) || has_prefix_lower(&v, &rtp)
        || has_prefix_lower(&v, &rtps) || has_prefix_lower(&v, &ftp) || has_prefix_lower(&v, &ipfs)
}

/// The target to hand to the system opener: the request's own string when
/// its scheme is allowed, and nothing otherwise.
pub fn open_external_action(arg: &str) -> (r: Option<&str>)
    ensures
        match r {
            Some(u) => scheme_allowed(arg@) && u@ == arg@,
            None => !scheme_allowed(arg@),
        },
{
    if url_scheme_allowed(arg) {
        Some(arg)
    } else {
        None
    }
}


// ---------------------------------------------------------------------------
// From commands to effects: what the router loop does with each line.
// ---------------------------------------------------------------------------

/// What the router remembers across messages: the command-line argument of
/// this launch, and the setup file of a downloaded update, once one is
/// verified.
pub struct RouterState {
    pub command: String,
    pub update_setup: Option<String>,
}

/// The mathematical shape of the router state.
pub struct RouterStateV {
    pub command: Seq<char>,
    pub update_setup: Option<Seq<char>>,
}

impl View for RouterState {
    type V = RouterStateV;

    open spec fn view(&self) -> RouterStateV {
        RouterStateV {
            command: self.command@,
            update_setup: match self.update_setup {
                Some(p) => Some(p@),
                None => None,
            },
        }
    }
}

/// One bounded action the surrounding threads carry out for the router.
pub enum Effect {
    /// Push a line onto the browser surface's outgoing queue.
    SendToWeb(String),
    /// Push a line onto the playback engine's incoming queue.
    SendToPlayer(String),
    NoticeToggleFullscreen,
    NoticeQuit,
    NoticeHideSplash,
    NoticeFocus,
    /// Wake the update checker.
    TriggerUpdateCheck,
    /// Hand an allowed target to the system opener.
    OpenUrl(String),
    /// Run the downloaded update setup.
    RunUpdateSetup(String),
    LogInvalid,
    LogUnsupported,
    LogAppError(String),
    LogNoSetup,
}

/// The mathematical shape of an effect.
#[verifier::ext_equal]
pub enum EffectV {
    SendToWeb(Seq<char>),
    SendToPlayer(Seq<char>),
    NoticeToggleFullscreen,
    NoticeQuit,
    NoticeHideSplash,
    NoticeFocus,
    TriggerUpdateCheck,
    OpenUrl(Seq<char>),
    RunUpdateSetup(Seq<char>),
    LogInvalid,
    LogUnsupported,
    LogAppError(Seq<char>),
    LogNoSetup,
}

impl View for Effect {
    type V = EffectV;

    open spec fn view(&self) -> EffectV {
        match self {
            Effect::SendToWeb(s) => EffectV::SendToWeb(s@),
            Effect::SendToPlayer(s) => EffectV::SendToPlayer(s@),
            Effect::NoticeToggleFullscreen => EffectV::NoticeToggleFullscreen,
            Effect::NoticeQuit => EffectV::NoticeQuit,
            Effect::NoticeHideSplash => EffectV::NoticeHideSplash,
            Effect::NoticeFocus => EffectV::NoticeFocus,
            Effect::TriggerUpdateCheck => EffectV::TriggerUpdateCheck,
            Effect::OpenUrl(s) => EffectV::OpenUrl(s@),
            Effect::RunUpdateSetup(s) => EffectV::RunUpdateSetup(s@),
            Effect::LogInvalid => EffectV::LogInvalid,
            Effect::LogUnsupported => EffectV::LogUnsupported,
            Effect::LogAppError(s) => EffectV::LogAppError(s@),
            Effect::LogNoSetup => EffectV::LogNoSetup,
        }
    }
}

pub open spec fn view_effects(s: Seq<Effect>) -> Seq<EffectV> {
    Seq::new(s.len(), |i: int| s[i]@)
}

/// The wire text of the visibility event the router sends on `app-ready`.
pub open spec fn app_ready_visibility_text() -> Seq<char> {
    enc_value(
        crate::ipc::message_jsonv(
            Some(
                JsonV::Arr(
                    seq![
                        JsonV::Str("win-visibility-changed"@),
                        JsonV::Obj(
                            seq![
                                ("visible"@, JsonV::Bool(true)),
                                ("visibility"@, JsonV::Num(crate::json::dec_digits(1nat))),
                                ("isFullscreen"@, JsonV::Bool(false)),
                            ],
                        ),
                    ],
                ),
            ),
        ),
    )
}

/// The wire text of an `open-media` event carrying `media`.
pub open spec fn open_media_text(media: Seq<char>) -> Seq<char> {
    enc_value(
        crate::ipc::message_jsonv(
            Some(JsonV::Arr(seq![JsonV::Str("open-media"@), JsonV::Str(media)])),
        ),
    )
}

/// Everything the router does with one received line, in order: decode,
/// dispatch, act. A line that is no envelope is logged and dropped; a
/// refused `open-external` does nothing at all.
pub open spec fn spec_effects(st: RouterStateV, req: Option<ReqV>) -> Seq<EffectV> {
    match req {
        None => seq![EffectV::LogInvalid],
        Some(rv) => match spec_dispatch(rv) {
            CommandV::Handshake => seq![
                EffectV::SendToWeb(enc_value(crate::ipc::handshake_jsonv())),
            ],
            CommandV::PlayerForward(s) => seq![EffectV::SendToPlayer(s)],
            CommandV::WinSetVisibility => seq![EffectV::NoticeToggleFullscreen],
            CommandV::Quit => seq![EffectV::NoticeQuit],
            CommandV::AppReady => seq![
                EffectV::NoticeHideSplash,
                EffectV::SendToWeb(app_ready_visibility_text()),
                EffectV::TriggerUpdateCheck,
            ] + (if st.command.len() > 0 {
                seq![EffectV::SendToWeb(open_media_text(st.command))]
            } else {
                Seq::<EffectV>::empty()
            }),
            CommandV::AppError(p) => seq![EffectV::NoticeHideSplash] + (match p {
                Some(t) => seq![EffectV::LogAppError(t)],
                None => Seq::<EffectV>::empty(),
            }),
            CommandV::OpenExternal(p) => match p {
                Some(u) => if scheme_allowed(u) {
                    seq![EffectV::OpenUrl(u)]
                } else {
                    Seq::<EffectV>::empty()
                },
                None => Seq::<EffectV>::empty(),
            },
            CommandV::WinFocus => seq![EffectV::NoticeFocus],
            CommandV::AutoupdaterNotifClicked => match st.update_setup {
                Some(p) => seq![EffectV::RunUpdateSetup(p)],
                None => seq![EffectV::LogNoSetup],
            },
            CommandV::Unsupported => seq![EffectV::LogUnsupported],
            CommandV::Ignore => Seq::<EffectV>::empty(),
        },
    }
}

/// Handles one line received from the browser surface.
pub fn handle(st: &RouterState, line: &str) -> (effects: Vec<Effect>)
    ensures
        view_effects(effects@) == spec_effects(st@, spec_decode_request(line@)),
{
    let mut effects: Vec<Effect> = Vec::new();
    let req = match RPCRequest::decode(line) {
        Some(req) => req,
        None => {
            effects.push(Effect::LogInvalid);
            proof {
                assert(view_effects(effects@) =~= seq![EffectV::LogInvalid]);
            }
            return effects;
        },
    };
    match dispatch(&req) {
        Command::Handshake => {
            effects.push(Effect::SendToWeb(RPCResponse::get_handshake()));
        },
        Command::PlayerForward(s) => {
            effects.push(Effect::SendToPlayer(s));
        },
        Command::WinSetVisibility => {
            effects.push(Effect::NoticeToggleFullscreen);
        },
        Command::Quit => {
            effects.push(Effect::NoticeQuit);
        },
        Command::AppReady => {
            effects.push(Effect::NoticeHideSplash);
            effects.push(Effect::SendToWeb(RPCResponse::visibility_change(true, 1, false)));
            effects.push(Effect::TriggerUpdateCheck);
            if st.command.as_str().unicode_len() > 0 {
                effects.push(Effect::SendToWeb(RPCResponse::open_media(st.command.clone())));
            }
        },
        Command::AppError(p) => {
            effects.push(Effect::NoticeHideSplash);
            match p {
                Some(t) => {
                    effects.push(Effect::LogAppError(t));
                },
                None => {},
            }
        },
        Command::OpenExternal(p) => {
            match p {
                Some(u) => {
                    if url_scheme_allowed(u.as_str()) {
                        effects.push(Effect::OpenUrl(u));
                    }
                },
                None => {},
            }
        },
        Command::WinFocus => {
            effects.push(Effect::NoticeFocus);
        },
        Command::AutoupdaterNotifClicked => {
            match &st.update_setup {
                Some(p) => {
                    effects.push(Effect::RunUpdateSetup(p.clone()));
                },
                None => {
                    effects.push(Effect::LogNoSetup);
                },
            }
        },
        Command::Unsupported => {
            effects.push(Effect::LogUnsupported);
        },
        Command::Ignore => {},
    }
    proof {
        assert(view_effects(effects@) =~= spec_effects(st@, spec_decode_request(line@)));
    }
    effects
}


/// The wire round trip decides dispatch: an envelope with id zero, encoded
/// and read back, dispatches to the handshake whatever its payload; an
/// envelope with any other id whose method is `quit` dispatches exactly to
/// the quit command, with no playback-engine forwarding.
pub proof fn lemma_wire_dispatch(rv: ReqV)
    requires
        crate::ipc::wf_req(rv),
    ensures
        crate::ipc::spec_decode_request(enc_value(crate::ipc::req_jsonv(rv))) == Some(rv),
        rv.id == 0 ==> spec_dispatch(rv) == CommandV::Handshake,
        rv.id != 0 && method_of(rv) == Some("quit"@) ==> spec_dispatch(rv) == CommandV::Quit,
{
    crate::ipc::lemma_request_round_trip(rv);
    if rv.id != 0 && method_of(rv) == Some("quit"@) {
        reveal_strlit("quit");
        reveal_strlit("win-set-visibility");
        assert("quit"@.len() == 4);
        assert("quit"@[0] == 'q');
        assert(!is_player_method("quit"@));
        assert("win-set-visibility"@.len() == 18);
        assert(spec_dispatch(rv) == CommandV::Quit);
    }
}

} // verus!


