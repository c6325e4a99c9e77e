//! The message envelopes exchanged with the browser surface: requests coming
//! in (`RPCRequest`) and responses going out (`RPCResponse`), together with
//! their exact wire forms.
use vstd::prelude::*;
use vstd::string::StringExecFns;
use crate::json::{
    Json, JsonV, dec_digits, dec_val, enc_value, is_int_lit, lemma_view_items, parse_u64,
    sp_json, view_items,
};

verus! {

/// Version string the handshake reports to the browser surface.
pub const SHELL_VERSION: &'static str = "5.0.0";

/// The mathematical shape of a request envelope.
pub struct ReqV {
    pub id: u64,
    pub args: Option<Seq<JsonV>>,
}

/// A request envelope: `{"id": <u64>, "args": [..]}`. `id == 0` is the
/// handshake; otherwise `args[0]` names the method.
pub struct RPCRequest {
    pub id: u64,
    pub args: Option<Vec<Json>>,
}

impl View for RPCRequest {
    type V = ReqV;

    open spec fn view(&self) -> ReqV {
        ReqV {
            id: self.id,
            args: match self.args {
                Some(v) => Some(view_items(v@)),
                None => None,
            },
        }
    }
}

/// First value bound to `key`, as JSON objects are read front to back.
pub open spec fn lookup(entries: Seq<(Seq<char>, JsonV)>, key: Seq<char>) -> Option<JsonV>
    decreases entries.len(),
{
    if entries.len() == 0 {
        None
    } else if entries[0].0 == key {
        Some(entries[0].1)
    } else {
        lookup(entries.drop_first(), key)
    }
}

/// The request denoted by a JSON document: an object whose `id` member is an
/// unsigned 64-bit integer literal, and whose `args` member, when present and
/// not null, is an array. Anything else is no request.
pub open spec fn req_of_json(v: JsonV) -> Option<ReqV> {
    match v {
        JsonV::Obj(entries) => match lookup(entries, "id"@) {
            Some(JsonV::Num(lit)) => if is_int_lit(lit) && dec_val(lit) <= u64::MAX {
                match lookup(entries, "args"@) {
                    None => Some(ReqV { id: dec_val(lit) as u64, args: None }),
                    Some(JsonV::Null) => Some(ReqV { id: dec_val(lit) as u64, args: None }),
                    Some(JsonV::Arr(items)) => Some(
                        ReqV { id: dec_val(lit) as u64, args: Some(items) },
                    ),
                    Some(_) => None,
                }
            } else {
                None
            },
            _ => None,
        },
        _ => None,
    }
}

/// The request denoted by wire text, if it is a JSON document of the right
/// shape.
pub open spec fn spec_decode_request(s: Seq<char>) -> Option<ReqV> {
    match sp_json(s) {
        Some(v) => req_of_json(v),
        None => None,
    }
}

/// First member of `entries` whose key is `key`.
fn lookup_x<'a>(entries: &'a Vec<(String, Json)>, key: &String) -> (r: Option<&'a Json>)
    ensures
        match r {
            Some(j) => lookup(crate::json::view_entries(entries@), key@) == Some(j@),
            None => lookup(crate::json::view_entries(entries@), key@) is None,
        },
{
    let ghost ve = crate::json::view_entries(entries@);
    proof {
        crate::json::lemma_view_entries(entries@);
        assert(ve.skip(0int) =~= ve);
    }
    let mut k: usize = 0;
    while k < entries.len()
        invariant
            k <= entries@.len(),
            ve == crate::json::view_entries(entries@),
            ve.len() == entries@.len(),
            forall|i: int|
                0 <= i < entries@.len() ==> ve[i] == (#[trigger] entries@[i].0@, entries@[i].1@),
            lookup(ve, key@) == lookup(ve.skip(k as int), key@),
        decreases entries@.len() - k,
    {
        proof {
            assert(ve.skip(k as int)[0] == ve[k as int]);
        }
        if entries[k].0 == *key {
            return Some(&entries[k].1);
        }
        k = k + 1;
        proof {
            assert(ve.skip(k - 1 as int).drop_first() =~= ve.skip(k as int));
        }
    }
    proof {
        assert(ve.skip(k as int) =~= Seq::<(Seq<char>, JsonV)>::empty());
    }
    None
}

impl RPCRequest {
    /// The handshake request carries id zero.
    pub fn is_handshake(&self) -> (r: bool)
        ensures
            r == (self@.id == 0),
    {
        self.id == 0
    }

    /// The method name: the first argument, when it is a string.
    pub fn get_method(&self) -> (r: Option<&str>)
        ensures
            match r {
                Some(m) => self@.args matches Some(items) && items.len() > 0 && items[0]
                    == JsonV::Str(m@),
                None => match self@.args {
                    Some(items) => items.len() == 0 || !(items[0] is Str),
                    None => true,
                },
            },
    {
        match &self.args {
            Some(v) => {
                proof {
                    lemma_view_items(v@);
                }
                if v.len() > 0 {
                    proof {
                        assert(view_items(v@)[0] == v@[0]@);
                    }
                    match &v[0] {
                        Json::Str(s) => Some(s.as_str()),
                        _ => None,
                    }
                } else {
                    None
                }
            },
            None => None,
        }
    }

    /// The first method parameter: the second argument, when there is one.
    pub fn get_params(&self) -> (r: Option<&Json>)
        ensures
            match r {
                Some(p) => self@.args matches Some(items) && items.len() > 1 && items[1] == p@,
                None => match self@.args {
                    Some(items) => items.len() <= 1,
                    None => true,
                },
            },
    {
        match &self.args {
            Some(v) => {
                proof {
                    lemma_view_items(v@);
                }
                if v.len() > 1 {
                    Some(&v[1])
                } else {
                    None
                }
            },
            None => None,
        }
    }

    /// Reads a request envelope off the wire. `None` exactly when the text is
    /// not a JSON object of the request shape.
    pub fn decode(s: &str) -> (r: Option<RPCRequest>)
        ensures
            match r {
                Some(req) => spec_decode_request(s@) == Some(req@),
                None => spec_decode_request(s@) is None,
            },
    {
        let parsed = match crate::json::parse_json(s) {
            Some(j) => j,
            None => {
                return None;
            },
        };
        let entries = match parsed {
            Json::Obj(entries) => entries,
            _ => {
                return None;
            },
        };
        let id_key = String::from_str("id");
        let id: u64 = match lookup_x(&entries, &id_key) {
            Some(Json::Num(lit)) => match parse_u64(lit.as_str()) {
                Some(n) => n,
                None => {
                    return None;
                },
            },
            _ => {
                return None;
            },
        };
        let args_key = String::from_str("args");
        match lookup_x(&entries, &args_key) {
            None => Some(RPCRequest { id, args: None }),
            Some(Json::Null) => Some(RPCRequest { id, args: None }),
            Some(Json::Arr(items)) => {
                let mut args: Vec<Json> = Vec::new();
                let mut k: usize = 0;
                proof {
                    lemma_view_items(items@);
                }
                while k < items.len()
                    invariant
                        k <= items@.len(),
                        view_items(args@) == view_items(items@).take(k as int),
                        view_items(items@).len() == items@.len(),
                        forall|i: int|
                            0 <= i < items@.len() ==> view_items(items@)[i] == #[trigger] items@[i]@,
                    decreases items@.len() - k,
                {
                    let c = items[k].deep_clone();
                    proof {
                        crate::json::lemma_view_items_push(args@, c);
                    }
                    args.push(c);
                    k = k + 1;
                    proof {
                        assert(view_items(args@) =~= view_items(items@).take(k as int));
                    }
                }
                proof {
                    assert(view_items(items@).take(items@.len() as int) =~= view_items(items@));
                }
                Some(RPCRequest { id, args: Some(args) })
            },
            Some(_) => None,
        }
    }
}


// ---------------------------------------------------------------------------
// Outgoing responses.
// ---------------------------------------------------------------------------

/// The string items of a JSON array, as spec values.
pub open spec fn strs_view(s: Seq<String>) -> Seq<JsonV> {
    Seq::new(s.len(), |i: int| JsonV::Str(s[i]@))
}

/// Rows of strings as a JSON array of arrays.
pub open spec fn matrix_view(s: Seq<Vec<String>>) -> Seq<JsonV> {
    Seq::new(s.len(), |i: int| JsonV::Arr(strs_view(s[i]@)))
}

/// A JSON string value.
pub fn json_str(s: &str) -> (r: Json)
    ensures
        r@ == JsonV::Str(s@),
{
    Json::Str(String::from_str(s))
}

/// A JSON number holding the decimal digits of `n`.
pub fn json_num_u64(n: u64) -> (r: Json)
    ensures
        r@ == JsonV::Num(dec_digits(n as nat)),
{
    let mut digits: Vec<char> = Vec::new();
    crate::json::push_u64(&mut digits, n);
    proof {
        assert(digits@ =~= dec_digits(n as nat));
    }
    Json::Num(crate::text::string_of(&digits))
}

fn strings_to_json(v: &Vec<String>) -> (r: Json)
    ensures
        r@ == JsonV::Arr(strs_view(v@)),
{
    let mut out: Vec<Json> = Vec::new();
    let mut k: usize = 0;
    while k < v.len()
        invariant
            k <= v@.len(),
            view_items(out@) =~= strs_view(v@.take(k as int)),
        decreases v@.len() - k,
    {
        let item = Json::Str(v[k].clone());
        proof {
            crate::json::lemma_view_items_push(out@, item);
        }
        out.push(item);
        k = k + 1;
        proof {
            assert(view_items(out@) =~= strs_view(v@.take(k as int)));
        }
    }
    proof {
        assert(v@.take(v@.len() as int) =~= v@);
        assert(strs_view(v@.take(v@.len() as int)) =~= strs_view(v@));
    }
    Json::Arr(out)
}

fn matrix_to_json(v: &Vec<Vec<String>>) -> (r: Json)
    ensures
        r@ == JsonV::Arr(matrix_view(v@)),
{
    let mut out: Vec<Json> = Vec::new();
    let mut k: usize = 0;
    while k < v.len()
        invariant
            k <= v@.len(),
            view_items(out@) =~= matrix_view(v@.take(k as int)),
        decreases v@.len() - k,
    {
        let row = strings_to_json(&v[k]);
        proof {
            crate::json::lemma_view_items_push(out@, row);
        }
        out.push(row);
        k = k + 1;
        proof {
            assert(view_items(out@) =~= matrix_view(v@.take(k as int)));
        }
    }
    proof {
        assert(v@.take(v@.len() as int) =~= v@);
        assert(matrix_view(v@.take(v@.len() as int)) =~= matrix_view(v@));
    }
    Json::Arr(out)
}

/// What the handshake response advertises about the transport: its observable
/// properties, signals and methods.
pub struct RPCResponseDataTransport {
    pub properties: Vec<Vec<String>>,
    pub signals: Vec<String>,
    pub methods: Vec<Vec<String>>,
}

impl RPCResponseDataTransport {
    pub open spec fn to_jsonv(&self) -> JsonV {
        JsonV::Obj(
            seq![
                ("properties"@, JsonV::Arr(matrix_view(self.properties@))),
                ("signals"@, JsonV::Arr(strs_view(self.signals@))),
                ("methods"@, JsonV::Arr(matrix_view(self.methods@))),
            ],
        )
    }

    pub fn to_json(&self) -> (r: Json)
        ensures
            r@ == self.to_jsonv(),
    {
        let mut entries: Vec<(String, Json)> = Vec::new();
        entries.push((String::from_str("properties"), matrix_to_json(&self.properties)));
        entries.push((String::from_str("signals"), strings_to_json(&self.signals)));
        entries.push((String::from_str("methods"), matrix_to_json(&self.methods)));
        proof {
            crate::json::lemma_view_entries(entries@);
            assert(crate::json::view_entries(entries@) =~~= self.to_jsonv()->Obj_0);
        }
        Json::Obj(entries)
    }
}

/// The payload of the handshake response.
pub struct RPCResponseData {
    pub transport: RPCResponseDataTransport,
}

impl RPCResponseData {
    pub open spec fn to_jsonv(&self) -> JsonV {
        JsonV::Obj(seq![("transport"@, self.transport.to_jsonv())])
    }

    pub fn to_json(&self) -> (r: Json)
        ensures
            r@ == self.to_jsonv(),
    {
        let mut entries: Vec<(String, Json)> = Vec::new();
        entries.push((String::from_str("transport"), self.transport.to_json()));
        proof {
            crate::json::lemma_view_entries(entries@);
            assert(crate::json::view_entries(entries@) =~~= self.to_jsonv()->Obj_0);
        }
        Json::Obj(entries)
    }
}

/// A response envelope: `data` is sent only with the handshake, `args` only
/// with events.
pub struct RPCResponse {
    pub id: u64,
    pub object: String,
    pub response_type: u32,
    pub data: Option<RPCResponseData>,
    pub args: Option<Json>,
}

impl RPCResponse {
    /// The JSON document this response serializes to: members in envelope
    /// order, `data` and `args` omitted when absent.
    pub open spec fn to_jsonv(&self) -> JsonV {
        JsonV::Obj(
            seq![
                ("id"@, JsonV::Num(dec_digits(self.id as nat))),
                ("object"@, JsonV::Str(self.object@)),
                ("type"@, JsonV::Num(dec_digits(self.response_type as nat))),
            ] + (match self.data {
                Some(d) => seq![("data"@, d.to_jsonv())],
                None => Seq::<(Seq<char>, JsonV)>::empty(),
            }) + (match self.args {
                Some(a) => seq![("args"@, a@)],
                None => Seq::<(Seq<char>, JsonV)>::empty(),
            }),
        )
    }

    pub fn to_json(&self) -> (r: Json)
        ensures
            r@ == self.to_jsonv(),
    {
        let mut entries: Vec<(String, Json)> = Vec::new();
        entries.push((String::from_str("id"), json_num_u64(self.id)));
        entries.push((String::from_str("object"), Json::Str(self.object.clone())));
        entries.push((String::from_str("type"), json_num_u64(self.response_type as u64)));
        match &self.data {
            Some(d) => {
                entries.push((String::from_str("data"), d.to_json()));
            },
            None => {},
        }
        match &self.args {
            Some(a) => {
                entries.push((String::from_str("args"), a.deep_clone()));
            },
            None => {},
        }
        proof {
            crate::json::lemma_view_entries(entries@);
            assert(crate::json::view_entries(entries@) =~~= self.to_jsonv()->Obj_0);
        }
        Json::Obj(entries)
    }

    /// The wire text of this response.
    pub fn encode(&self) -> (r: String)
        ensures
            r@ == enc_value(self.to_jsonv()),
    {
        self.to_json().encode()
    }
}


/// The JSON document of an event response: id 1, type 1, the given `args`.
pub open spec fn message_jsonv(args: Option<JsonV>) -> JsonV {
    JsonV::Obj(
        seq![
            ("id"@, JsonV::Num(seq!['1'])),
            ("object"@, JsonV::Str("transport"@)),
            ("type"@, JsonV::Num(seq!['1'])),
        ] + (match args {
            Some(a) => seq![("args"@, a)],
            None => Seq::<(Seq<char>, JsonV)>::empty(),
        }),
    )
}

/// What the handshake response advertises: a `shellVersion` property and an
/// `onEvent` method.
pub open spec fn handshake_transport_jsonv() -> JsonV {
    JsonV::Obj(
        seq![
            (
                "properties"@,
                JsonV::Arr(
                    seq![
                        JsonV::Arr(Seq::<JsonV>::empty()),
                        JsonV::Arr(
                            seq![
                                JsonV::Str(""@),
                                JsonV::Str("shellVersion"@),
                                JsonV::Str(""@),
                                JsonV::Str(SHELL_VERSION@),
                            ],
                        ),
                    ],
                ),
            ),
            ("signals"@, JsonV::Arr(Seq::<JsonV>::empty())),
            (
                "methods"@,
                JsonV::Arr(seq![JsonV::Arr(seq![JsonV::Str("onEvent"@), JsonV::Str(""@)])]),
            ),
        ],
    )
}

/// The JSON document of the handshake response: id 0, type 3, the transport
/// description as `data`.
pub open spec fn handshake_jsonv() -> JsonV {
    JsonV::Obj(
        seq![
            ("id"@, JsonV::Num(seq!['0'])),
            ("object"@, JsonV::Str("transport"@)),
            ("type"@, JsonV::Num(seq!['3'])),
            ("data"@, JsonV::Obj(seq![("transport"@, handshake_transport_jsonv())])),
        ],
    )
}

impl RPCResponse {
    /// The reply owed to every handshake request.
    pub fn get_handshake() -> (r: String)
        ensures
            r@ == enc_value(handshake_jsonv()),
    {
        let mut row: Vec<String> = Vec::new();
        row.push(String::from_str(""));
        row.push(String::from_str("shellVersion"));
        row.push(String::from_str(""));
        row.push(String::from_str(SHELL_VERSION));
        let mut properties: Vec<Vec<String>> = Vec::new();
        properties.push(Vec::new());
        properties.push(row);
        let signals: Vec<String> = Vec::new();
        let mut method: Vec<String> = Vec::new();
        method.push(String::from_str("onEvent"));
        method.push(String::from_str(""));
        let mut methods: Vec<Vec<String>> = Vec::new();
        methods.push(method);
        let transport = RPCResponseDataTransport { properties, signals, methods };
        proof {
            let props = transport.properties@;
            assert(props.len() == 2);
            assert(props[0]@ =~= Seq::<String>::empty());
            assert(strs_view(props[0]@) =~= Seq::<JsonV>::empty());
            let row_v = props[1]@;
            assert(row_v.len() == 4);
            assert(strs_view(row_v) =~= seq![
                JsonV::Str(""@),
                JsonV::Str("shellVersion"@),
                JsonV::Str(""@),
                JsonV::Str(SHELL_VERSION@),
            ]);
            assert(matrix_view(props) =~= seq![
                JsonV::Arr(strs_view(props[0]@)),
                JsonV::Arr(strs_view(props[1]@)),
            ]);
            assert(strs_view(transport.signals@) =~= Seq::<JsonV>::empty());
            let meths = transport.methods@;
            assert(meths.len() == 1);
            assert(strs_view(meths[0]@) =~= seq![JsonV::Str("onEvent"@), JsonV::Str(""@)]);
            assert(matrix_view(meths) =~= seq![JsonV::Arr(strs_view(meths[0]@))]);
            assert(transport.to_jsonv()->Obj_0 =~~= handshake_transport_jsonv()->Obj_0);
            assert(transport.to_jsonv() =~~= handshake_transport_jsonv());
        }
        let resp = RPCResponse {
            id: 0,
            object: String::from_str("transport"),
            response_type: 3,
            data: Some(RPCResponseData { transport }),
            args: None,
        };
        proof {
            assert(dec_digits(0nat) =~= seq!['0']);
            assert(dec_digits(3nat) =~= seq!['3']);
            assert(resp.to_jsonv()->Obj_0 =~~= handshake_jsonv()->Obj_0);
            assert(resp.to_jsonv() =~~= handshake_jsonv());
        }
        resp.encode()
    }

    /// An event response carrying `msg` as its `args`.
    pub fn response_message(msg: Option<Json>) -> (r: String)
        ensures
            r@ == enc_value(
                message_jsonv(
                    match msg {
                        Some(m) => Some(m@),
                        None => None,
                    },
                ),
            ),
    {
        let ghost args_view: Option<JsonV> = match &msg {
            Some(m) => Some(m@),
            None => None,
        };
        let resp = RPCResponse {
            id: 1,
            object: String::from_str("transport"),
            response_type: 1,
            data: None,
            args: msg,
        };
        proof {
            assert(dec_digits(1nat) =~= seq!['1']);
            assert(resp.to_jsonv() =~~= message_jsonv(args_view));
        }
        resp.encode()
    }

    /// The event telling the browser surface that the window's visibility
    /// changed.
    pub fn visibility_change(visible: bool, visibility: u32, is_full_screen: bool) -> (r: String)
        ensures
            r@ == enc_value(
                message_jsonv(
                    Some(
                        JsonV::Arr(
                            seq![
                                JsonV::Str("win-visibility-changed"@),
                                JsonV::Obj(
                                    seq![
                                        ("visible"@, JsonV::Bool(visible)),
                                        ("visibility"@, JsonV::Num(dec_digits(visibility as nat))),
                                        ("isFullscreen"@, JsonV::Bool(is_full_screen)),
                                    ],
                                ),
                            ],
                        ),
                    ),
                ),
            ),
    {
        let mut fields: Vec<(String, Json)> = Vec::new();
        fields.push((String::from_str("visible"), Json::Bool(visible)));
        fields.push((String::from_str("visibility"), json_num_u64(visibility as u64)));
        fields.push((String::from_str("isFullscreen"), Json::Bool(is_full_screen)));
        let mut args: Vec<Json> = Vec::new();
        args.push(json_str("win-visibility-changed"));
        args.push(Json::Obj(fields));
        let msg = Json::Arr(args);
        proof {
            crate::json::lemma_view_entries(fields@);
            let fv = crate::json::view_entries(fields@);
            assert(fv.len() == 3);
            assert(fv[0] == (fields@[0].0@, fields@[0].1@));
            assert(fv[1] == (fields@[1].0@, fields@[1].1@));
            assert(fv[2] == (fields@[2].0@, fields@[2].1@));
            assert(fv =~~= seq![
                ("visible"@, JsonV::Bool(visible)),
                ("visibility"@, JsonV::Num(dec_digits(visibility as nat))),
                ("isFullscreen"@, JsonV::Bool(is_full_screen)),
            ]);
            crate::json::lemma_view_items(args@);
            assert(view_items(args@).len() == 2);
            assert(view_items(args@)[0] == args@[0]@);
            assert(view_items(args@)[1] == args@[1]@);
            assert(view_items(args@) =~= seq![
                JsonV::Str("win-visibility-changed"@),
                JsonV::Obj(fv),
            ]);
            assert(msg@ =~~= JsonV::Arr(
                seq![
                    JsonV::Str("win-visibility-changed"@),
                    JsonV::Obj(
                        seq![
                            ("visible"@, JsonV::Bool(visible)),
                            ("visibility"@, JsonV::Num(dec_digits(visibility as nat))),
                            ("isFullscreen"@, JsonV::Bool(is_full_screen)),
                        ],
                    ),
                ],
            ));
        }
        Self::response_message(Some(msg))
    }

    /// The event telling the browser surface that the window's state
    /// (minimized, maximized, full screen, active) changed.
    pub fn state_change(state: u32) -> (r: String)
        ensures
            r@ == enc_value(
                message_jsonv(
                    Some(
                        JsonV::Arr(
                            seq![
                                JsonV::Str("win-state-changed"@),
                                JsonV::Obj(seq![("state"@, JsonV::Num(dec_digits(state as nat)))]),
                            ],
                        ),
                    ),
                ),
            ),
    {
        let mut fields: Vec<(String, Json)> = Vec::new();
        fields.push((String::from_str("state"), json_num_u64(state as u64)));
        let mut args: Vec<Json> = Vec::new();
        args.push(json_str("win-state-changed"));
        args.push(Json::Obj(fields));
        let msg = Json::Arr(args);
        proof {
            crate::json::lemma_view_entries(fields@);
            let fv = crate::json::view_entries(fields@);
            assert(fv.len() == 1);
            assert(fv[0] == (fields@[0].0@, fields@[0].1@));
            assert(fv =~~= seq![("state"@, JsonV::Num(dec_digits(state as nat)))]);
            crate::json::lemma_view_items(args@);
            assert(view_items(args@).len() == 2);
            assert(view_items(args@)[0] == args@[0]@);
            assert(view_items(args@)[1] == args@[1]@);
            assert(view_items(args@) =~= seq![JsonV::Str("win-state-changed"@), JsonV::Obj(fv)]);
            assert(msg@ =~~= JsonV::Arr(
                seq![
                    JsonV::Str("win-state-changed"@),
                    JsonV::Obj(seq![("state"@, JsonV::Num(dec_digits(state as nat)))]),
                ],
            ));
        }
        Self::response_message(Some(msg))
    }

    /// The event handing a forwarded command-line argument to the browser
    /// surface.
    pub fn open_media(media: String) -> (r: String)
        ensures
            r@ == enc_value(
                message_jsonv(
                    Some(JsonV::Arr(seq![JsonV::Str("open-media"@), JsonV::Str(media@)])),
                ),
            ),
    {
        let mut args: Vec<Json> = Vec::new();
        args.push(json_str("open-media"));
        args.push(Json::Str(media));
        let ghost media_view = args@[1]->Str_0@;
        let msg = Json::Arr(args);
        proof {
            crate::json::lemma_view_items(args@);
            assert(view_items(args@).len() == 2);
            assert(view_items(args@)[0] == args@[0]@);
            assert(view_items(args@)[1] == args@[1]@);
            assert(args@[0]@ == JsonV::Str("open-media"@));
            assert(args@[1]@ == JsonV::Str(media_view));
            assert(view_items(args@) =~= seq![JsonV::Str("open-media"@), JsonV::Str(media_view)]);
            assert(msg@ =~~= JsonV::Arr(seq![JsonV::Str("open-media"@), JsonV::Str(media_view)]));
        }
        Self::response_message(Some(msg))
    }

    /// The event announcing that a verified update is ready to install.
    pub fn update_available() -> (r: String)
        ensures
            r@ == enc_value(
                message_jsonv(Some(JsonV::Arr(seq![JsonV::Str("autoupdater-show-notif"@)]))),
            ),
    {
        let mut args: Vec<Json> = Vec::new();
        args.push(json_str("autoupdater-show-notif"));
        let msg = Json::Arr(args);
        proof {
            crate::json::lemma_view_items(args@);
            assert(msg@ =~~= JsonV::Arr(seq![JsonV::Str("autoupdater-show-notif"@)]));
        }
        Self::response_message(Some(msg))
    }
}


/// The JSON document a request serializes to.
pub open spec fn req_jsonv(rv: ReqV) -> JsonV {
    JsonV::Obj(
        seq![("id"@, JsonV::Num(dec_digits(rv.id as nat)))] + (match rv.args {
            Some(items) => seq![("args"@, JsonV::Arr(items))],
            None => Seq::<(Seq<char>, JsonV)>::empty(),
        }),
    )
}

/// A request is well formed when every argument document is.
pub open spec fn wf_req(rv: ReqV) -> bool {
    match rv.args {
        Some(items) => forall|i: int| 0 <= i < items.len() ==> crate::json::wf_json(
            #[trigger] items[i],
        ),
        None => true,
    }
}

impl RPCRequest {
    /// The wire text of this request.
    pub fn encode(&self) -> (r: String)
        ensures
            r@ == enc_value(req_jsonv(self@)),
    {
        let mut entries: Vec<(String, Json)> = Vec::new();
        entries.push((String::from_str("id"), json_num_u64(self.id)));
        match &self.args {
            Some(args) => {
                let mut items: Vec<Json> = Vec::new();
                let mut k: usize = 0;
                proof {
                    lemma_view_items(args@);
                }
                while k < args.len()
                    invariant
                        k <= args@.len(),
                        view_items(items@) == view_items(args@).take(k as int),
                        view_items(args@).len() == args@.len(),
                        forall|i: int|
                            0 <= i < args@.len() ==> view_items(args@)[i] == #[trigger] args@[i]@,
                    decreases args@.len() - k,
                {
                    let c = args[k].deep_clone();
                    proof {
                        crate::json::lemma_view_items_push(items@, c);
                    }
                    items.push(c);
                    k = k + 1;
                    proof {
                        assert(view_items(items@) =~= view_items(args@).take(k as int));
                    }
                }
                proof {
                    assert(view_items(args@).take(args@.len() as int) =~= view_items(args@));
                }
                entries.push((String::from_str("args"), Json::Arr(items)));
            },
            None => {},
        }
        let doc = Json::Obj(entries);
        proof {
            crate::json::lemma_view_entries(entries@);
            assert(doc@->Obj_0 =~~= req_jsonv(self@)->Obj_0);
            assert(doc@ =~~= req_jsonv(self@));
        }
        doc.encode()
    }
}

/// Well-formed requests write well-formed documents.
pub proof fn lemma_req_jsonv_wf(rv: ReqV)
    requires
        wf_req(rv),
    ensures
        crate::json::wf_json(req_jsonv(rv)),
{
    crate::json::lemma_dec_digits_val(rv.id as nat);
    crate::json::lemma_int_lit_wf(dec_digits(rv.id as nat));
    let entries = req_jsonv(rv)->Obj_0;
    assert forall|i: int| 0 <= i < entries.len() implies crate::json::wf_json(
        #[trigger] entries[i].1,
    ) by {
        if i == 0 {
            assert(entries[0].1 == JsonV::Num(dec_digits(rv.id as nat)));
        } else {
            let items = rv.args.unwrap();
            assert(entries[1].1 == JsonV::Arr(items));
        }
    }
}

/// The wire round trip: a well-formed request, encoded and read back,
/// is itself.
pub proof fn lemma_request_round_trip(rv: ReqV)
    requires
        wf_req(rv),
    ensures
        spec_decode_request(enc_value(req_jsonv(rv))) == Some(rv),
{
    lemma_req_jsonv_wf(rv);
    crate::json::lemma_json_round_trip(req_jsonv(rv));
    let entries = req_jsonv(rv)->Obj_0;
    reveal_strlit("id");
    reveal_strlit("args");
    assert("id"@.len() == 2 && "args"@.len() == 4);
    assert(entries[0].0 == "id"@);
    assert(lookup(entries, "id"@) == Some(JsonV::Num(dec_digits(rv.id as nat))));
    crate::json::lemma_dec_digits_val(rv.id as nat);
    match rv.args {
        None => {
            assert(entries.len() == 1);
            assert(entries.drop_first() =~= Seq::<(Seq<char>, JsonV)>::empty());
            assert(entries[0].0 != "args"@);
            assert(lookup(entries, "args"@) == lookup(entries.drop_first(), "args"@));
            assert(lookup(Seq::<(Seq<char>, JsonV)>::empty(), "args"@) is None);
            assert(lookup(entries, "args"@) is None);
            assert(req_of_json(req_jsonv(rv)) == Some(ReqV { id: rv.id, args: None }));
        },
        Some(items) => {
            assert(entries.len() == 2);
            assert(entries[1].0 == "args"@);
            assert(entries.drop_first()[0] == entries[1]);
            assert(entries[0].0 != "args"@);
            assert(lookup(entries, "args"@) == lookup(entries.drop_first(), "args"@));
            assert(lookup(entries.drop_first(), "args"@) == Some(entries.drop_first()[0].1));
            assert(lookup(entries, "args"@) == Some(JsonV::Arr(items)));
            assert(req_of_json(req_jsonv(rv)) == Some(ReqV { id: rv.id, args: Some(items) }));
        },
    }
}

} // verus!



