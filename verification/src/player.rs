//! The playback-engine protocol: the closed vocabulary of functions,
//! properties and commands the browser surface may send (`InMsg`), and the
//! events the engine reports back (`PlayerEvent`), with their JSON forms.
//!
//! Every property name has exactly one recognized kind; a name of the wrong
//! kind, or a shape matching no known arity, is rejected at decode.
use vstd::prelude::*;
use crate::json::{dec_digits, Json, JsonV, view_items, lemma_view_items, wf_num_lit};
use crate::text::str_eq;

verus! {

/// The three functions the playback engine accepts.
#[derive(PartialEq, Eq, Structural, Clone, Copy)]
pub enum InMsgFn {
    MpvSetProp,
    MpvCommand,
    MpvObserveProp,
}

impl InMsgFn {
    /// The kebab-case name on the wire.
    pub open spec fn spec_name(self) -> Seq<char> {
        match self {
            InMsgFn::MpvSetProp => "mpv-set-prop"@,
            InMsgFn::MpvCommand => "mpv-command"@,
            InMsgFn::MpvObserveProp => "mpv-observe-prop"@,
        }
    }

    pub fn name(&self) -> (r: &'static str)
        ensures
            r@ == self.spec_name(),
    {
        match self {
            InMsgFn::MpvSetProp => "mpv-set-prop",
            InMsgFn::MpvCommand => "mpv-command",
            InMsgFn::MpvObserveProp => "mpv-observe-prop",
        }
    }

    /// The function a name denotes, if any.
    pub fn from_name(s: &str) -> (r: Option<InMsgFn>)
        ensures
            match r {
                Some(f) => f.spec_name() == s@,
                None => forall|f: InMsgFn| #[trigger] f.spec_name() != s@,
            },
    {
        if str_eq(s, "mpv-set-prop") {
            Some(InMsgFn::MpvSetProp)
        } else if str_eq(s, "mpv-command") {
            Some(InMsgFn::MpvCommand)
        } else if str_eq(s, "mpv-observe-prop") {
            Some(InMsgFn::MpvObserveProp)
        } else {
            proof {
                assert forall|f: InMsgFn| #[trigger] f.spec_name() != s@ by {}
            }
            None
        }
    }
}

/// Properties observed and set as booleans.
#[derive(PartialEq, Eq, Structural, Clone, Copy)]
pub enum BoolProp {
    Pause,
    PausedForCache,
    Seeking,
    EofReached,
}

impl BoolProp {
    pub open spec fn spec_name(self) -> Seq<char> {
        match self {
            BoolProp::Pause => "pause"@,
            BoolProp::PausedForCache => "paused-for-cache"@,
            BoolProp::Seeking => "seeking"@,
            BoolProp::EofReached => "eof-reached"@,
        }
    }

    pub fn name(&self) -> (r: &'static str)
        ensures
            r@ == self.spec_name(),
    {
        match self {
            BoolProp::Pause => "pause",
            BoolProp::PausedForCache => "paused-for-cache",
            BoolProp::Seeking => "seeking",
            BoolProp::EofReached => "eof-reached",
        }
    }

    pub fn from_name(s: &str) -> (r: Option<BoolProp>)
        ensures
            match r {
                Some(p) => p.spec_name() == s@,
                None => forall|p: BoolProp| #[trigger] p.spec_name() != s@,
            },
    {
        if str_eq(s, "pause") {
            Some(BoolProp::Pause)
        } else if str_eq(s, "paused-for-cache") {
            Some(BoolProp::PausedForCache)
        } else if str_eq(s, "seeking") {
            Some(BoolProp::Seeking)
        } else if str_eq(s, "eof-reached") {
            Some(BoolProp::EofReached)
        } else {
            None
        }
    }
}

/// Properties observed and set as integers.
#[derive(PartialEq, Eq, Structural, Clone, Copy)]
pub enum IntProp {
    Aid,
    Vid,
    Sid,
}

impl IntProp {
    pub open spec fn spec_name(self) -> Seq<char> {
        match self {
            IntProp::Aid => "aid"@,
            IntProp::Vid => "vid"@,
            IntProp::Sid => "sid"@,
        }
    }

    pub fn name(&self) -> (r: &'static str)
        ensures
            r@ == self.spec_name(),
    {
        match self {
            IntProp::Aid => "aid",
            IntProp::Vid => "vid",
            IntProp::Sid => "sid",
        }
    }

    pub fn from_name(s: &str) -> (r: Option<IntProp>)
        ensures
            match r {
                Some(p) => p.spec_name() == s@,
                None => forall|p: IntProp| #[trigger] p.spec_name() != s@,
            },
    {
        if str_eq(s, "aid") {
            Some(IntProp::Aid)
        } else if str_eq(s, "vid") {
            Some(IntProp::Vid)
        } else if str_eq(s, "sid") {
            Some(IntProp::Sid)
        } else {
            None
        }
    }
}

/// Properties observed and set as floating-point numbers (carried here as
/// numeric literals).
#[derive(PartialEq, Eq, Structural, Clone, Copy)]
pub enum FpProp {
    TimePos,
    Mute,
    Volume,
    Duration,
    SubScale,
    CacheBufferingState,
    SubPos,
    Speed,
}

impl FpProp {
    pub open spec fn spec_name(self) -> Seq<char> {
        match self {
            FpProp::TimePos => "time-pos"@,
            FpProp::Mute => "mute"@,
            FpProp::Volume => "volume"@,
            FpProp::Duration => "duration"@,
            FpProp::SubScale => "sub-scale"@,
            FpProp::CacheBufferingState => "cache-buffering-state"@,
            FpProp::SubPos => "sub-pos"@,
            FpProp::Speed => "speed"@,
        }
    }

    pub fn name(&self) -> (r: &'static str)
        ensures
            r@ == self.spec_name(),
    {
        match self {
            FpProp::TimePos => "time-pos",
            FpProp::Mute => "mute",
            FpProp::Volume => "volume",
            FpProp::Duration => "duration",
            FpProp::SubScale => "sub-scale",
            FpProp::CacheBufferingState => "cache-buffering-state",
            FpProp::SubPos => "sub-pos",
            FpProp::Speed => "speed",
        }
    }

    pub fn from_name(s: &str) -> (r: Option<FpProp>)
        ensures
            match r {
                Some(p) => p.spec_name() == s@,
                None => forall|p: FpProp| #[trigger] p.spec_name() != s@,
            },
    {
        if str_eq(s, "time-pos") {
            Some(FpProp::TimePos)
        } else if str_eq(s, "mute") {
            Some(FpProp::Mute)
        } else if str_eq(s, "volume") {
            Some(FpProp::Volume)
        } else if str_eq(s, "duration") {
            Some(FpProp::Duration)
        } else if str_eq(s, "sub-scale") {
            Some(FpProp::SubScale)
        } else if str_eq(s, "cache-buffering-state") {
            Some(FpProp::CacheBufferingState)
        } else if str_eq(s, "sub-pos") {
            Some(FpProp::SubPos)
        } else if str_eq(s, "speed") {
            Some(FpProp::Speed)
        } else {
            None
        }
    }
}

/// Properties observed as strings.
#[derive(PartialEq, Eq, Structural, Clone, Copy)]
pub enum StrProp {
    FfmpegVersion,
    Hwdec,
    InputDefaltBindings,
    InputVoKeyboard,
    Metadata,
    MpvVersion,
    Osc,
    Path,
    SubAssOverride,
    SubBackColor,
    SubBorderColor,
    SubColor,
    TrackList,
    VideoParams,
}

impl StrProp {
    pub open spec fn spec_name(self) -> Seq<char> {
        match self {
            StrProp::FfmpegVersion => "ffmpeg-version"@,
            StrProp::Hwdec => "hwdec"@,
            StrProp::InputDefaltBindings => "input-defalt-bindings"@,
            StrProp::InputVoKeyboard => "input-vo-keyboard"@,
            StrProp::Metadata => "metadata"@,
            StrProp::MpvVersion => "mpv-version"@,
            StrProp::Osc => "osc"@,
            StrProp::Path => "path"@,
            StrProp::SubAssOverride => "sub-ass-override"@,
            StrProp::SubBackColor => "sub-back-color"@,
            StrProp::SubBorderColor => "sub-border-color"@,
            StrProp::SubColor => "sub-color"@,
            StrProp::TrackList => "track-list"@,
            StrProp::VideoParams => "video-params"@,
        }
    }

    pub fn name(&self) -> (r: &'static str)
        ensures
            r@ == self.spec_name(),
    {
        match self {
            StrProp::FfmpegVersion => "ffmpeg-version",
            StrProp::Hwdec => "hwdec",
            StrProp::InputDefaltBindings => "input-defalt-bindings",
            StrProp::InputVoKeyboard => "input-vo-keyboard",
            StrProp::Metadata => "metadata",
            StrProp::MpvVersion => "mpv-version",
            StrProp::Osc => "osc",
            StrProp::Path => "path",
            StrProp::SubAssOverride => "sub-ass-override",
            StrProp::SubBackColor => "sub-back-color",
            StrProp::SubBorderColor => "sub-border-color",
            StrProp::SubColor => "sub-color",
            StrProp::TrackList => "track-list",
            StrProp::VideoParams => "video-params",
        }
    }

    pub fn from_name(s: &str) -> (r: Option<StrProp>)
        ensures
            match r {
                Some(p) => p.spec_name() == s@,
                None => forall|p: StrProp| #[trigger] p.spec_name() != s@,
            },
    {
        if str_eq(s, "ffmpeg-version") {
            Some(StrProp::FfmpegVersion)
        } else if str_eq(s, "hwdec") {
            Some(StrProp::Hwdec)
        } else if str_eq(s, "input-defalt-bindings") {
            Some(StrProp::InputDefaltBindings)
        } else if str_eq(s, "input-vo-keyboard") {
            Some(StrProp::InputVoKeyboard)
        } else if str_eq(s, "metadata") {
            Some(StrProp::Metadata)
        } else if str_eq(s, "mpv-version") {
            Some(StrProp::MpvVersion)
        } else if str_eq(s, "osc") {
            Some(StrProp::Osc)
        } else if str_eq(s, "path") {
            Some(StrProp::Path)
        } else if str_eq(s, "sub-ass-override") {
            Some(StrProp::SubAssOverride)
        } else if str_eq(s, "sub-back-color") {
            Some(StrProp::SubBackColor)
        } else if str_eq(s, "sub-border-color") {
            Some(StrProp::SubBorderColor)
        } else if str_eq(s, "sub-color") {
            Some(StrProp::SubColor)
        } else if str_eq(s, "track-list") {
            Some(StrProp::TrackList)
        } else if str_eq(s, "video-params") {
            Some(StrProp::VideoParams)
        } else {
            None
        }
    }
}

/// A property of any kind.
#[derive(PartialEq, Eq, Structural, Clone, Copy)]
pub enum PropKey {
    Bool(BoolProp),
    Int(IntProp),
    Fp(FpProp),
    Str(StrProp),
}

impl PropKey {
    pub open spec fn spec_name(self) -> Seq<char> {
        match self {
            PropKey::Bool(p) => p.spec_name(),
            PropKey::Int(p) => p.spec_name(),
            PropKey::Fp(p) => p.spec_name(),
            PropKey::Str(p) => p.spec_name(),
        }
    }

    pub fn name(&self) -> (r: &'static str)
        ensures
            r@ == self.spec_name(),
    {
        match self {
            PropKey::Bool(p) => p.name(),
            PropKey::Int(p) => p.name(),
            PropKey::Fp(p) => p.name(),
            PropKey::Str(p) => p.name(),
        }
    }

    /// The property a name denotes, trying the kinds in a fixed order.
    pub fn from_name(s: &str) -> (r: Option<PropKey>)
        ensures
            match r {
                Some(p) => p.spec_name() == s@,
                None => forall|p: PropKey| #[trigger] p.spec_name() != s@,
            },
    {
        if let Some(p) = BoolProp::from_name(s) {
            return Some(PropKey::Bool(p));
        }
        if let Some(p) = IntProp::from_name(s) {
            return Some(PropKey::Int(p));
        }
        if let Some(p) = FpProp::from_name(s) {
            return Some(PropKey::Fp(p));
        }
        if let Some(p) = StrProp::from_name(s) {
            return Some(PropKey::Str(p));
        }
        proof {
            assert forall|p: PropKey| #[trigger] p.spec_name() != s@ by {
                match p {
                    PropKey::Bool(q) => {
                        assert(q.spec_name() != s@);
                    },
                    PropKey::Int(q) => {
                        assert(q.spec_name() != s@);
                    },
                    PropKey::Fp(q) => {
                        assert(q.spec_name() != s@);
                    },
                    PropKey::Str(q) => {
                        assert(q.spec_name() != s@);
                    },
                }
            }
        }
        None
    }
}

/// A property value: a boolean, a string, or a number carried as its literal.
pub enum PropVal {
    Bool(bool),
    Str(String),
    Num(String),
}

impl PropVal {
    /// The JSON document this value writes as.
    pub open spec fn to_jsonv(&self) -> JsonV {
        match self {
            PropVal::Bool(b) => JsonV::Bool(*b),
            PropVal::Str(s) => JsonV::Str(s@),
            PropVal::Num(l) => JsonV::Num(l@),
        }
    }
}

/// The playback commands the shell supports.
#[derive(PartialEq, Eq, Structural, Clone, Copy)]
pub enum MpvCmd {
    Loadfile,
    Stop,
}

impl MpvCmd {
    pub open spec fn spec_name(self) -> Seq<char> {
        match self {
            MpvCmd::Loadfile => "loadfile"@,
            MpvCmd::Stop => "stop"@,
        }
    }

    pub fn name(&self) -> (r: &'static str)
        ensures
            r@ == self.spec_name(),
    {
        match self {
            MpvCmd::Loadfile => "loadfile",
            MpvCmd::Stop => "stop",
        }
    }

    pub fn from_name(s: &str) -> (r: Option<MpvCmd>)
        ensures
            match r {
                Some(c) => c.spec_name() == s@,
                None => forall|c: MpvCmd| #[trigger] c.spec_name() != s@,
            },
    {
        if str_eq(s, "loadfile") {
            Some(MpvCmd::Loadfile)
        } else if str_eq(s, "stop") {
            Some(MpvCmd::Stop)
        } else {
            None
        }
    }
}

/// A command with its positional arguments, keyed by arity.
pub enum CmdVal {
    Single((MpvCmd,)),
    Double(MpvCmd, String),
    Tripple(MpvCmd, String, String),
    Quadruple(MpvCmd, String, String, String),
    Quintuple(MpvCmd, String, String, String, String),
}

impl CmdVal {
    /// The command name and arguments, in order.
    pub open spec fn spec_strings(&self) -> Seq<Seq<char>> {
        match self {
            CmdVal::Single(c) => seq![c.0.spec_name()],
            CmdVal::Double(c, a) => seq![c.spec_name(), a@],
            CmdVal::Tripple(c, a, b) => seq![c.spec_name(), a@, b@],
            CmdVal::Quadruple(c, a, b, d) => seq![c.spec_name(), a@, b@, d@],
            CmdVal::Quintuple(c, a, b, d, e) => seq![c.spec_name(), a@, b@, d@, e@],
        }
    }

    /// The command name and arguments as plain strings.
    pub fn to_strings(&self) -> (r: Vec<String>)
        ensures
            r@.len() == self.spec_strings().len(),
            forall|i: int| 0 <= i < r@.len() ==> #[trigger] r@[i]@ == self.spec_strings()[i],
    {
        let mut out: Vec<String> = Vec::new();
        match self {
            CmdVal::Single(c) => {
                out.push(String::from_str(c.0.name()));
            },
            CmdVal::Double(c, a) => {
                out.push(String::from_str(c.name()));
                out.push(a.clone());
            },
            CmdVal::Tripple(c, a, b) => {
                out.push(String::from_str(c.name()));
                out.push(a.clone());
                out.push(b.clone());
            },
            CmdVal::Quadruple(c, a, b, d) => {
                out.push(String::from_str(c.name()));
                out.push(a.clone());
                out.push(b.clone());
                out.push(d.clone());
            },
            CmdVal::Quintuple(c, a, b, d, e) => {
                out.push(String::from_str(c.name()));
                out.push(a.clone());
                out.push(b.clone());
                out.push(d.clone());
                out.push(e.clone());
            },
        }
        out
    }

    /// The JSON document this command writes as: an array of strings.
    pub open spec fn to_jsonv(&self) -> JsonV {
        JsonV::Arr(Seq::new(self.spec_strings().len(), |i: int| JsonV::Str(self.spec_strings()[i])))
    }
}

/// The argument shape of one incoming message, keyed by arity.
pub enum InMsgArgs {
    /// Set a property: the property and the value.
    StProp(PropKey, PropVal),
    /// Run a command.
    Cmd(CmdVal),
    /// Observe a property: its name alone.
    ObProp(PropKey),
}

impl InMsgArgs {
    /// The JSON document these arguments write as.
    pub open spec fn to_jsonv(&self) -> JsonV {
        match self {
            InMsgArgs::StProp(k, v) => JsonV::Arr(
                seq![JsonV::Str(k.spec_name()), v.to_jsonv()],
            ),
            InMsgArgs::Cmd(c) => c.to_jsonv(),
            InMsgArgs::ObProp(k) => JsonV::Str(k.spec_name()),
        }
    }
}

/// One message from the browser surface to the playback engine:
/// `[function-name, arguments]`.
pub struct InMsg(pub InMsgFn, pub InMsgArgs);

impl InMsg {
    /// The JSON document this message writes as.
    pub open spec fn to_jsonv(&self) -> JsonV {
        JsonV::Arr(seq![JsonV::Str(self.0.spec_name()), self.1.to_jsonv()])
    }

    /// Writes this message as a JSON value.
    pub fn to_json(&self) -> (r: Json)
        ensures
            r@ == self.to_jsonv(),
    {
        let name = crate::ipc::json_str(self.0.name());
        let args: Json = match &self.1 {
            InMsgArgs::StProp(k, v) => {
                let val = match v {
                    PropVal::Bool(b) => Json::Bool(*b),
                    PropVal::Str(s) => Json::Str(s.clone()),
                    PropVal::Num(l) => Json::Num(l.clone()),
                };
                let mut pair: Vec<Json> = Vec::new();
                pair.push(crate::ipc::json_str(k.name()));
                pair.push(val);
                let r = Json::Arr(pair);
                proof {
                    lemma_view_items(pair@);
                    assert(view_items(pair@) =~= self.1.to_jsonv()->Arr_0);
                }
                r
            },
            InMsgArgs::Cmd(c) => {
                let strings = c.to_strings();
                let mut items: Vec<Json> = Vec::new();
                let mut i: usize = 0;
                while i < strings.len()
                    invariant
                        i <= strings@.len(),
                        forall|k: int|
                            0 <= k < strings@.len() ==> #[trigger] strings@[k]@
                                == c.spec_strings()[k],
                        strings@.len() == c.spec_strings().len(),
                        view_items(items@) =~= c.to_jsonv()->Arr_0.take(i as int),
                    decreases strings@.len() - i,
                {
                    let s = Json::Str(strings[i].clone());
                    proof {
                        crate::json::lemma_view_items_push(items@, s);
                    }
                    items.push(s);
                    i = i + 1;
                    proof {
                        assert(view_items(items@) =~= c.to_jsonv()->Arr_0.take(i as int));
                    }
                }
                proof {
                    assert(c.to_jsonv()->Arr_0.take(strings@.len() as int) =~= c.to_jsonv()->Arr_0);
                }
                Json::Arr(items)
            },
            InMsgArgs::ObProp(k) => crate::ipc::json_str(k.name()),
        };
        let mut outer: Vec<Json> = Vec::new();
        outer.push(name);
        outer.push(args);
        let r = Json::Arr(outer);
        proof {
            lemma_view_items(outer@);
            assert(view_items(outer@) =~= self.to_jsonv()->Arr_0);
        }
        r
    }

    /// The wire text of this message.
    pub fn encode(&self) -> (r: String)
        ensures
            r@ == crate::json::enc_value(self.to_jsonv()),
    {
        self.to_json().encode()
    }
}


/// A name some property of some kind bears.
pub open spec fn is_prop_name(s: Seq<char>) -> bool {
    exists|p: PropKey| #[trigger] p.spec_name() == s
}

/// A name one of the three functions bears.
pub open spec fn is_fn_name(s: Seq<char>) -> bool {
    exists|f: InMsgFn| #[trigger] f.spec_name() == s
}

/// A name one of the commands bears.
pub open spec fn is_cmd_name(s: Seq<char>) -> bool {
    exists|c: MpvCmd| #[trigger] c.spec_name() == s
}

/// A property-and-value pair: `[name, value]` with a recognized property
/// name and a scalar value.
pub open spec fn stprop_shape(items: Seq<JsonV>) -> bool {
    items.len() == 2 && items[0] is Str && is_prop_name(items[0]->Str_0) && (items[1] is Bool
        || items[1] is Num || items[1] is Str)
}

/// A command array: one to five strings, the first a recognized command name.
pub open spec fn cmd_shape(items: Seq<JsonV>) -> bool {
    1 <= items.len() <= 5 && (forall|i: int| 0 <= i < items.len() ==> #[trigger] items[i] is Str)
        && items[0] is Str && is_cmd_name(items[0]->Str_0)
}

/// The argument shapes the decoder accepts, tried in this order: a
/// property-and-value pair, then a command array, then a bare property name.
pub open spec fn accepts_args(j: JsonV) -> bool {
    match j {
        JsonV::Str(s) => is_prop_name(s),
        JsonV::Arr(items) => stprop_shape(items) || cmd_shape(items),
        _ => false,
    }
}

/// A value's mathematical form is a scalar exactly when the value is.
proof fn lemma_scalar_view(e: Json)
    ensures
        (e@ is Bool <==> e is Bool),
        (e@ is Num <==> e is Num),
        (e@ is Str <==> e is Str),
{
    match e {
        Json::Null => {},
        Json::Bool(_) => {},
        Json::Num(_) => {},
        Json::Str(_) => {},
        Json::Arr(_) => {},
        Json::Obj(_) => {},
    }
}

/// The message shapes the decoder accepts.
pub open spec fn accepts_inmsg(j: JsonV) -> bool {
    &&& j is Arr
    &&& j->Arr_0.len() == 2
    &&& j->Arr_0[0] is Str
    &&& is_fn_name(j->Arr_0[0]->Str_0)
    &&& accepts_args(j->Arr_0[1])
}

fn parse_args(j: &Json) -> (r: Option<InMsgArgs>)
    ensures
        match r {
            Some(a) => accepts_args(j@) && a.to_jsonv() == j@,
            None => !accepts_args(j@),
        },
{
    match j {
        Json::Str(s) => match PropKey::from_name(s.as_str()) {
            Some(k) => Some(InMsgArgs::ObProp(k)),
            None => None,
        },
        Json::Arr(items) => {
            proof {
                lemma_view_items(items@);
            }
            let ghost iv = view_items(items@);
            if items.len() == 2 {
                let key = match &items[0] {
                    Json::Str(ks) => PropKey::from_name(ks.as_str()),
                    _ => {
                        proof {
                            lemma_scalar_view(items@[0int]);
                        }
                        None
                    },
                };
                match key {
                    Some(k) => {
                        match &items[1] {
                            Json::Bool(b) => {
                                let a = InMsgArgs::StProp(k, PropVal::Bool(*b));
                                proof {
                                    assert(a.to_jsonv()->Arr_0 =~~= iv);
                                }
                                return Some(a);
                            },
                            Json::Num(l) => {
                                let a = InMsgArgs::StProp(k, PropVal::Num(l.clone()));
                                proof {
                                    assert(a.to_jsonv()->Arr_0 =~~= iv);
                                }
                                return Some(a);
                            },
                            Json::Str(vs) => {
                                let a = InMsgArgs::StProp(k, PropVal::Str(vs.clone()));
                                proof {
                                    assert(a.to_jsonv()->Arr_0 =~~= iv);
                                }
                                return Some(a);
                            },
                            _ => {
                                proof {
                                    lemma_scalar_view(items@[1int]);
                                }
                            },
                        }
                    },
                    None => {},
                }
            }
            proof {
                assert(!stprop_shape(iv));
            }
            // a command: one to five strings, the first a known command name
            if items.len() == 0 || items.len() > 5 {
                return None;
            }
            let mut strings: Vec<String> = Vec::new();
            let mut i: usize = 0;
            while i < items.len()
                invariant
                    i <= items@.len(),
                    1 <= items@.len() <= 5,
                    j@ == JsonV::Arr(iv),
                    iv == view_items(items@),
                    iv.len() == items@.len(),
                    !stprop_shape(iv),
                    forall|k: int| 0 <= k < items@.len() ==> iv[k] == #[trigger] items@[k]@,
                    strings@.len() == i,
                    forall|k: int| 0 <= k < i ==> #[trigger] iv[k] == JsonV::Str(strings@[k]@),
                decreases items@.len() - i,
            {
                match &items[i] {
                    Json::Str(s) => {
                        proof {
                            assert(iv[i as int] == items@[i as int]@);
                            assert(iv[i as int] == JsonV::Str(s@));
                        }
                        let ghost pre = strings@;
                        strings.push(s.clone());
                        proof {
                            assert forall|k: int|
                                0 <= k < i + 1 implies #[trigger] iv[k] == JsonV::Str(
                                strings@[k]@,
                            ) by {
                                if k < i {
                                    assert(strings@[k] == pre[k]);
                                    assert(iv[k] == JsonV::Str(pre[k]@));
                                } else {
                                    assert(k == i);
                                    assert(strings@[k]@ == s@);
                                    assert(iv[k] == JsonV::Str(s@));
                                }
                            }
                        }
                    },
                    _ => {
                        proof {
                            lemma_scalar_view(items@[i as int]);
                            assert(!(iv[i as int] is Str));
                        }
                        return None;
                    },
                }
                i = i + 1;
            }
            let cmd = match MpvCmd::from_name(strings[0].as_str()) {
                Some(c) => c,
                None => {
                    return None;
                },
            };
            let a: InMsgArgs = if strings.len() == 1 {
                InMsgArgs::Cmd(CmdVal::Single((cmd,)))
            } else if strings.len() == 2 {
                InMsgArgs::Cmd(CmdVal::Double(cmd, strings[1].clone()))
            } else if strings.len() == 3 {
                InMsgArgs::Cmd(CmdVal::Tripple(cmd, strings[1].clone(), strings[2].clone()))
            } else if strings.len() == 4 {
                InMsgArgs::Cmd(
                    CmdVal::Quadruple(
                        cmd,
                        strings[1].clone(),
                        strings[2].clone(),
                        strings[3].clone(),
                    ),
                )
            } else {
                InMsgArgs::Cmd(
                    CmdVal::Quintuple(
                        cmd,
                        strings[1].clone(),
                        strings[2].clone(),
                        strings[3].clone(),
                        strings[4].clone(),
                    ),
                )
            };
            proof {
                assert(a.to_jsonv()->Arr_0 =~~= iv);
            }
            Some(a)
        },
        _ => None,
    }
}

impl InMsg {
    /// Reads a message from its JSON form. `None` exactly when the document
    /// is not an accepted shape.
    pub fn from_json(j: &Json) -> (r: Option<InMsg>)
        ensures
            match r {
                Some(m) => accepts_inmsg(j@) && m.to_jsonv() == j@,
                None => !accepts_inmsg(j@),
            },
    {
        let items = match j {
            Json::Arr(items) => items,
            _ => {
                return None;
            },
        };
        proof {
            lemma_view_items(items@);
        }
        if items.len() != 2 {
            return None;
        }
        let f = match &items[0] {
            Json::Str(s) => match InMsgFn::from_name(s.as_str()) {
                Some(f) => f,
                None => {
                    return None;
                },
            },
            _ => {
                return None;
            },
        };
        match parse_args(&items[1]) {
            Some(a) => {
                let m = InMsg(f, a);
                proof {
                    assert(m.to_jsonv()->Arr_0 =~~= view_items(items@));
                }
                Some(m)
            },
            None => None,
        }
    }

    /// Reads a message off the wire: a JSON document of an accepted shape.
    pub fn decode(s: &str) -> (r: Option<InMsg>)
        ensures
            match r {
                Some(m) => crate::json::sp_json(s@) matches Some(j) && accepts_inmsg(j)
                    && m.to_jsonv() == j,
                None => match crate::json::sp_json(s@) {
                    Some(j) => !accepts_inmsg(j),
                    None => true,
                },
            },
    {
        match crate::json::parse_json(s) {
            Some(j) => InMsg::from_json(&j),
            None => None,
        }
    }
}

// ---------------------------------------------------------------------------
// What the engine is asked to do for one message.
// ---------------------------------------------------------------------------

/// The representation a property is observed in, decided by its kind.
#[derive(PartialEq, Eq, Structural, Clone, Copy)]
pub enum ObserveKind {
    Flag,
    Int64,
    Double,
    Text,
}

/// The kind a property is observed as.
pub open spec fn kind_of(k: PropKey) -> ObserveKind {
    match k {
        PropKey::Bool(_) => ObserveKind::Flag,
        PropKey::Int(_) => ObserveKind::Int64,
        PropKey::Fp(_) => ObserveKind::Double,
        PropKey::Str(_) => ObserveKind::Text,
    }
}

/// The engine call one message asks for.
pub enum PlayerAction {
    Observe { name: String, kind: ObserveKind },
    SetBool { name: String, value: bool },
    SetNum { name: String, literal: String },
    SetStr { name: String, text: String },
    Command { args: Vec<String> },
    /// A function and argument shape that do not go together.
    Unsupported,
}

impl InMsg {
    /// Decides the engine call: observing takes a property in its kind's
    /// representation, setting takes the property and the value, a command
    /// takes its strings; any other pairing is unsupported.
    pub fn action(&self) -> (a: PlayerAction)
        ensures
            ({
                match (self.0, &self.1) {
                    (InMsgFn::MpvObserveProp, InMsgArgs::ObProp(k)) => a
                        matches PlayerAction::Observe { name, kind } && name@ == k.spec_name()
                        && kind == kind_of(*k),
                    (InMsgFn::MpvSetProp, InMsgArgs::StProp(k, PropVal::Bool(b))) => a
                        matches PlayerAction::SetBool { name, value } && name@ == k.spec_name()
                        && value == *b,
                    (InMsgFn::MpvSetProp, InMsgArgs::StProp(k, PropVal::Num(l))) => a
                        matches PlayerAction::SetNum { name, literal } && name@ == k.spec_name()
                        && literal@ == l@,
                    (InMsgFn::MpvSetProp, InMsgArgs::StProp(k, PropVal::Str(v))) => a
                        matches PlayerAction::SetStr { name, text } && name@ == k.spec_name()
                        && text@ == v@,
                    (InMsgFn::MpvCommand, InMsgArgs::Cmd(c)) => a
                        matches PlayerAction::Command { args } && args@.len()
                        == c.spec_strings().len() && (forall|i: int|
                        0 <= i < args@.len() ==> #[trigger] args@[i]@ == c.spec_strings()[i]),
                    _ => a is Unsupported,
                }
            }),
    {
        match (&self.0, &self.1) {
            (InMsgFn::MpvObserveProp, InMsgArgs::ObProp(k)) => {
                let kind = match k {
                    PropKey::Bool(_) => ObserveKind::Flag,
                    PropKey::Int(_) => ObserveKind::Int64,
                    PropKey::Fp(_) => ObserveKind::Double,
                    PropKey::Str(_) => ObserveKind::Text,
                };
                PlayerAction::Observe { name: String::from_str(k.name()), kind }
            },
            (InMsgFn::MpvSetProp, InMsgArgs::StProp(k, PropVal::Bool(b))) => PlayerAction::SetBool {
                name: String::from_str(k.name()),
                value: *b,
            },
            (InMsgFn::MpvSetProp, InMsgArgs::StProp(k, PropVal::Num(l))) => PlayerAction::SetNum {
                name: String::from_str(k.name()),
                literal: l.clone(),
            },
            (InMsgFn::MpvSetProp, InMsgArgs::StProp(k, PropVal::Str(v))) => PlayerAction::SetStr {
                name: String::from_str(k.name()),
                text: v.clone(),
            },
            (InMsgFn::MpvCommand, InMsgArgs::Cmd(c)) => PlayerAction::Command {
                args: c.to_strings(),
            },
            _ => PlayerAction::Unsupported,
        }
    }
}


// ---------------------------------------------------------------------------
// Events the playback engine reports.
// ---------------------------------------------------------------------------

/// A property value as the engine reports it: a flag, an integer, a number
/// carried as its literal, or text.
pub enum PropData {
    Flag(bool),
    Int(i64),
    Num(String),
    OsdStr(String),
    Str(String),
}

/// Properties whose textual payload is itself a JSON document.
pub open spec fn is_json_response(name: Seq<char>) -> bool {
    name == "track-list"@ || name == "video-params"@ || name == "metadata"@
}

/// The numeric literal an integer report writes as: the engine's integers are
/// carried with a trailing `.0`, as general numbers.
pub open spec fn int_report_lit(i: i64) -> Seq<char> {
    (if i < 0 {
        seq!['-']
    } else {
        Seq::<char>::empty()
    }) + dec_digits((if i < 0 {
        -(i as int)
    } else {
        i as int
    }) as nat) + seq!['.', '0']
}

fn int_report_string(i: i64) -> (r: String)
    ensures
        r@ == int_report_lit(i),
{
    let mut out: Vec<char> = Vec::new();
    let magnitude: u64 = if i < 0 {
        out.push('-');
        ((-1 - i) as u64) + 1
    } else {
        i as u64
    };
    crate::json::push_u64(&mut out, magnitude);
    out.push('.');
    out.push('0');
    proof {
        assert(out@ =~= int_report_lit(i));
    }
    crate::text::string_of(&out)
}

/// A property-change report: the property's name and its new value.
pub struct PlayerProprChange {
    name: String,
    data: Json,
}

impl PlayerProprChange {
    /// The JSON document this report writes as.
    pub closed spec fn to_jsonv(&self) -> JsonV {
        JsonV::Obj(seq![("name"@, JsonV::Str(self.name@)), ("data"@, self.data@)])
    }

    pub closed spec fn spec_name(&self) -> Seq<char> {
        self.name@
    }

    pub closed spec fn spec_data(&self) -> JsonV {
        self.data@
    }

    /// Builds the report for one observed change. A flag becomes a boolean,
    /// an integer a number with a trailing `.0`, text a string — except that
    /// the payload of the JSON-carrying properties is read as a JSON
    /// document, and a payload that is none is refused.
    pub fn from_name_value(name: String, value: PropData) -> (r: Option<PlayerProprChange>)
        requires
            value matches PropData::Num(l) ==> crate::json::wf_num_lit(l@),
        ensures
            match r {
                Some(pc) => pc.spec_name() == name@ && pc.spec_data() == (match value {
                    PropData::Flag(b) => JsonV::Bool(b),
                    PropData::Int(i) => JsonV::Num(int_report_lit(i)),
                    PropData::Num(l) => JsonV::Num(l@),
                    PropData::OsdStr(s) => JsonV::Str(s@),
                    PropData::Str(s) => if is_json_response(name@) {
                        crate::json::sp_json(s@).unwrap()
                    } else {
                        JsonV::Str(s@)
                    },
                }),
                None => value matches PropData::Str(s) && is_json_response(name@)
                    && crate::json::sp_json(s@) is None,
            },
    {
        let data: Json = match value {
            PropData::Flag(b) => Json::Bool(b),
            PropData::Int(i) => Json::Num(int_report_string(i)),
            PropData::Num(l) => Json::Num(l),
            PropData::OsdStr(s) => Json::Str(s),
            PropData::Str(s) => {
                let json_payload = str_eq(name.as_str(), "track-list") || str_eq(
                    name.as_str(),
                    "video-params",
                ) || str_eq(name.as_str(), "metadata");
                if json_payload {
                    match crate::json::parse_json(s.as_str()) {
                        Some(d) => d,
                        None => {
                            return None;
                        },
                    }
                } else {
                    Json::Str(s)
                }
            },
        };
        Some(PlayerProprChange { name, data })
    }
}

/// The reason the engine reports for an ended file.
#[derive(PartialEq, Eq, Structural, Clone, Copy)]
pub enum EndReason {
    Error,
    Quit,
    Other,
}

/// An end-of-file report.
pub struct PlayerEnded {
    reason: String,
}

impl PlayerEnded {
    pub closed spec fn spec_reason(self: &PlayerEnded) -> Seq<char> {
        self.reason@
    }

    pub closed spec fn to_jsonv(&self) -> JsonV {
        JsonV::Obj(seq![("reason"@, JsonV::Str(self.reason@))])
    }

    /// The wire word for each end reason.
    pub open spec fn spec_reason_name(data: EndReason) -> Seq<char> {
        match data {
            EndReason::Error => "error"@,
            EndReason::Quit => "quit"@,
            EndReason::Other => "other"@,
        }
    }

    pub fn from_end_reason(data: EndReason) -> (r: PlayerEnded)
        ensures
            r.spec_reason() == Self::spec_reason_name(data),
    {
        let reason = match data {
            EndReason::Error => String::from_str("error"),
            EndReason::Quit => String::from_str("quit"),
            EndReason::Other => String::from_str("other"),
        };
        PlayerEnded { reason }
    }
}

/// An error report.
pub struct PlayerError {
    pub error: String,
}

impl PlayerError {
    pub open spec fn to_jsonv(&self) -> JsonV {
        JsonV::Obj(seq![("error"@, JsonV::Str(self.error@))])
    }
}

/// Any event the engine reports.
pub enum PlayerEvent {
    PropChange(PlayerProprChange),
    End(PlayerEnded),
    Error(PlayerError),
}

impl PlayerEvent {
    /// The JSON document this event writes as: the inner report's own form.
    pub open spec fn to_jsonv(&self) -> JsonV {
        match self {
            PlayerEvent::PropChange(pc) => pc.to_jsonv(),
            PlayerEvent::End(e) => e.to_jsonv(),
            PlayerEvent::Error(e) => e.to_jsonv(),
        }
    }
}

/// An event tagged with the bus method it is delivered under.
pub struct PlayerResponse<'a>(pub &'a str, pub PlayerEvent);

impl PlayerResponse<'_> {
    /// The JSON document this response writes as: `[method, event]`.
    pub open spec fn spec_value(&self) -> JsonV {
        JsonV::Arr(seq![JsonV::Str(self.0@), self.1.to_jsonv()])
    }

    /// Writes this response as a JSON value.
    pub fn to_value(&self) -> (r: Json)
        ensures
            r@ == self.spec_value(),
    {
        let name = crate::ipc::json_str(self.0);
        let ev: Json = match &self.1 {
            PlayerEvent::PropChange(pc) => {
                let mut fields: Vec<(String, Json)> = Vec::new();
                fields.push((String::from_str("name"), Json::Str(pc.name.clone())));
                fields.push((String::from_str("data"), pc.data.deep_clone()));
                let r = Json::Obj(fields);
                proof {
                    crate::json::lemma_view_entries(fields@);
                    assert(crate::json::view_entries(fields@) =~~= pc.to_jsonv()->Obj_0);
                }
                r
            },
            PlayerEvent::End(e) => {
                let mut fields: Vec<(String, Json)> = Vec::new();
                fields.push((String::from_str("reason"), Json::Str(e.reason.clone())));
                let r = Json::Obj(fields);
                proof {
                    crate::json::lemma_view_entries(fields@);
                    assert(crate::json::view_entries(fields@) =~~= e.to_jsonv()->Obj_0);
                }
                r
            },
            PlayerEvent::Error(e) => {
                let mut fields: Vec<(String, Json)> = Vec::new();
                fields.push((String::from_str("error"), Json::Str(e.error.clone())));
                let r = Json::Obj(fields);
                proof {
                    crate::json::lemma_view_entries(fields@);
                    assert(crate::json::view_entries(fields@) =~~= e.to_jsonv()->Obj_0);
                }
                r
            },
        };
        let mut outer: Vec<Json> = Vec::new();
        outer.push(name);
        outer.push(ev);
        let r = Json::Arr(outer);
        proof {
            lemma_view_items(outer@);
            assert(view_items(outer@) =~= self.spec_value()->Arr_0);
        }
        r
    }
}

} // verus!



