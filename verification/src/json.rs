//! The JSON wire format used between the browser surface, the router and the
//! update endpoints: a document model, a verified encoder, and a verified
//! parser, with a proof that parsing inverts encoding.
//!
//! Numbers are carried as their literal text: the shell routes values between
//! its surfaces without interpreting them, so the codec preserves numeric
//! literals exactly.
use vstd::prelude::*;
use crate::text::push_char;

verus! {

/// A JSON document. Object members keep their textual order.
pub enum Json {
    Null,
    Bool(bool),
    /// A numeric literal, kept as written (for example `-12.5e3`).
    Num(String),
    Str(String),
    Arr(Vec<Json>),
    Obj(Vec<(String, Json)>),
}

/// The mathematical shape of a JSON document.
#[verifier::ext_equal]
pub enum JsonV {
    Null,
    Bool(bool),
    Num(Seq<char>),
    Str(Seq<char>),
    Arr(Seq<JsonV>),
    Obj(Seq<(Seq<char>, JsonV)>),
}

pub open spec fn view_items(s: Seq<Json>) -> Seq<JsonV>
    decreases s,
{
    if s.len() == 0 {
        Seq::empty()
    } else {
        seq![s[0]@] + view_items(s.drop_first())
    }
}

pub open spec fn view_entries(s: Seq<(String, Json)>) -> Seq<(Seq<char>, JsonV)>
    decreases s,
{
    if s.len() == 0 {
        Seq::empty()
    } else {
        seq![(s[0].0@, s[0].1@)] + view_entries(s.drop_first())
    }
}

impl View for Json {
    type V = JsonV;

    open spec fn view(&self) -> JsonV
        decreases self,
    {
        match self {
            Json::Null => JsonV::Null,
            Json::Bool(b) => JsonV::Bool(*b),
            Json::Num(s) => JsonV::Num(s@),
            Json::Str(s) => JsonV::Str(s@),
            Json::Arr(v) => JsonV::Arr(view_items(v@)),
            Json::Obj(v) => JsonV::Obj(view_entries(v@)),
        }
    }
}

pub proof fn lemma_view_items(s: Seq<Json>)
    ensures
        view_items(s).len() == s.len(),
        forall|i: int| 0 <= i < s.len() ==> view_items(s)[i] == #[trigger] s[i]@,
        forall|i: int| 0 <= i < s.len() ==> #[trigger] view_items(s)[i] == s[i]@,
    decreases s,
{
    if s.len() > 0 {
        lemma_view_items(s.drop_first());
        assert(view_items(s) == seq![s[0]@] + view_items(s.drop_first()));
        assert(view_items(s).len() == 1 + view_items(s.drop_first()).len());
        assert forall|i: int| 0 <= i < s.len() implies view_items(s)[i] == #[trigger] s[i]@ by {
            if i > 0 {
                let h = seq![s[0]@];
                assert(view_items(s) == h + view_items(s.drop_first()));
                assert(h.len() == 1);
                assert((h + view_items(s.drop_first()))[i] == view_items(s.drop_first())[i - 1]);
                assert(view_items(s.drop_first())[i - 1] == s.drop_first()[i - 1]@);
                assert(s.drop_first()[i - 1] == s[i]);
            }
        }
    }
}

pub proof fn lemma_view_entries(s: Seq<(String, Json)>)
    ensures
        view_entries(s).len() == s.len(),
        forall|i: int| 0 <= i < s.len() ==> view_entries(s)[i] == (#[trigger] s[i].0@, s[i].1@),
        forall|i: int| 0 <= i < s.len() ==> #[trigger] view_entries(s)[i] == (s[i].0@, s[i].1@),
    decreases s,
{
    if s.len() > 0 {
        lemma_view_entries(s.drop_first());
        assert forall|i: int|
            0 <= i < s.len() implies view_entries(s)[i] == (#[trigger] s[i].0@, s[i].1@) by {
            if i > 0 {
                let h = seq![(s[0].0@, s[0].1@)];
                assert(view_entries(s) == h + view_entries(s.drop_first()));
                assert(h.len() == 1);
                assert((h + view_entries(s.drop_first()))[i] == view_entries(s.drop_first())[i
                    - 1]);
                assert(view_entries(s.drop_first())[i - 1] == (
                    s.drop_first()[i - 1].0@,
                    s.drop_first()[i - 1].1@,
                ));
                assert(s.drop_first()[i - 1] == s[i]);
            }
        }
    }
}

// ---------------------------------------------------------------------------
// Well-formedness: numeric literals must follow the JSON number grammar.
// ---------------------------------------------------------------------------

pub open spec fn is_digit(c: char) -> bool {
    '0' <= c && c <= '9'
}

/// Length of the run of digits at the front of `s`.
pub open spec fn digits_len(s: Seq<char>) -> int
    decreases s.len(),
{
    if s.len() > 0 && is_digit(s[0]) {
        1 + digits_len(s.drop_first())
    } else {
        0
    }
}

/// Length of a fraction part (`.` then digits) at the front of `s`, 0 if none.
pub open spec fn frac_len(s: Seq<char>) -> int {
    if s.len() >= 2 && s[0] == '.' && is_digit(s[1]) {
        1 + digits_len(s.drop_first())
    } else {
        0
    }
}

/// Length of an exponent part (`e`/`E`, optional sign, digits) at the front
/// of `s`, 0 if none.
pub open spec fn exp_len(s: Seq<char>) -> int {
    if s.len() > 0 && (s[0] == 'e' || s[0] == 'E') {
        let sg: int = if s.len() > 1 && (s[1] == '+' || s[1] == '-') {
            1
        } else {
            0
        };
        let d = digits_len(s.skip(1 + sg));
        if d == 0 {
            0
        } else {
            1 + sg + d
        }
    } else {
        0
    }
}

/// Length of the longest JSON numeric literal at the front of `s`, 0 if none.
pub open spec fn num_lit_len(s: Seq<char>) -> int {
    let sg: int = if s.len() > 0 && s[0] == '-' {
        1
    } else {
        0
    };
    let d = digits_len(s.skip(sg));
    if d == 0 {
        0
    } else {
        let p = sg + d;
        let q = p + frac_len(s.skip(p));
        q + exp_len(s.skip(q))
    }
}

pub open spec fn wf_num_lit(s: Seq<char>) -> bool {
    s.len() > 0 && num_lit_len(s) == s.len()
}

/// Every numeric literal in the document follows the JSON number grammar.
pub open spec fn wf_json(v: JsonV) -> bool
    decreases v,
{
    match v {
        JsonV::Null => true,
        JsonV::Bool(_) => true,
        JsonV::Num(s) => wf_num_lit(s),
        JsonV::Str(_) => true,
        JsonV::Arr(items) => forall|i: int| 0 <= i < items.len() ==> wf_json(#[trigger] items[i]),
        JsonV::Obj(entries) => forall|i: int|
            0 <= i < entries.len() ==> wf_json(#[trigger] entries[i].1),
    }
}

// ---------------------------------------------------------------------------
// Encoding.
// ---------------------------------------------------------------------------

/// The hexadecimal digit for a value below 16.
pub open spec fn hex_digit(d: int) -> char {
    if d == 0 {
        '0'
    } else if d == 1 {
        '1'
    } else if d == 2 {
        '2'
    } else if d == 3 {
        '3'
    } else if d == 4 {
        '4'
    } else if d == 5 {
        '5'
    } else if d == 6 {
        '6'
    } else if d == 7 {
        '7'
    } else if d == 8 {
        '8'
    } else if d == 9 {
        '9'
    } else if d == 10 {
        'a'
    } else if d == 11 {
        'b'
    } else if d == 12 {
        'c'
    } else if d == 13 {
        'd'
    } else if d == 14 {
        'e'
    } else {
        'f'
    }
}

/// How one character of string content is written: quotes and backslashes are
/// escaped, control characters become `\u00XX`, everything else stands as is.
pub open spec fn esc_char(c: char) -> Seq<char> {
    if c == '"' {
        seq!['\\', '"']
    } else if c == '\\' {
        seq!['\\', '\\']
    } else if (c as u32) < 0x20 {
        seq!['\\', 'u', '0', '0', hex_digit(c as u32 as int / 16), hex_digit(c as u32 as int % 16)]
    } else {
        seq![c]
    }
}

/// The written form of string content (without the surrounding quotes).
pub open spec fn enc_str_body(s: Seq<char>) -> Seq<char>
    decreases s.len(),
{
    if s.len() == 0 {
        Seq::empty()
    } else {
        esc_char(s[0]) + enc_str_body(s.drop_first())
    }
}

/// The written form of a JSON string.
pub open spec fn enc_string(s: Seq<char>) -> Seq<char> {
    seq!['"'] + enc_str_body(s) + seq!['"']
}

/// The written form of a JSON document: compact, no interior whitespace,
/// object members in order.
pub open spec fn enc_value(v: JsonV) -> Seq<char>
    decreases v,
{
    match v {
        JsonV::Null => seq!['n', 'u', 'l', 'l'],
        JsonV::Bool(b) => if b {
            seq!['t', 'r', 'u', 'e']
        } else {
            seq!['f', 'a', 'l', 's', 'e']
        },
        JsonV::Num(s) => s,
        JsonV::Str(s) => enc_string(s),
        JsonV::Arr(items) => seq!['['] + enc_items(items) + seq![']'],
        JsonV::Obj(entries) => seq!['{'] + enc_entries(entries) + seq!['}'],
    }
}

/// Array items joined by commas.
pub open spec fn enc_items(items: Seq<JsonV>) -> Seq<char>
    decreases items,
{
    if items.len() == 0 {
        Seq::empty()
    } else if items.len() == 1 {
        enc_value(items[0])
    } else {
        enc_value(items[0]) + seq![','] + enc_items(items.drop_first())
    }
}

/// Object members (`"key":value`) joined by commas.
pub open spec fn enc_entries(entries: Seq<(Seq<char>, JsonV)>) -> Seq<char>
    decreases entries,
{
    if entries.len() == 0 {
        Seq::empty()
    } else if entries.len() == 1 {
        enc_entry(entries[0])
    } else {
        enc_entry(entries[0]) + seq![','] + enc_entries(entries.drop_first())
    }
}

pub open spec fn enc_entry(entry: (Seq<char>, JsonV)) -> Seq<char>
    decreases entry,
{
    enc_string(entry.0) + seq![':'] + enc_value(entry.1)
}

proof fn lemma_enc_items_snoc(items: Seq<JsonV>, x: JsonV)
    ensures
        enc_items(items.push(x)) == if items.len() == 0 {
            enc_value(x)
        } else {
            enc_items(items) + seq![','] + enc_items(seq![x])
        },
    decreases items,
{
    if items.len() == 0 {
        assert(items.push(x) =~= seq![x]);
        assert(enc_items(seq![x]) == enc_value(x));
    } else {
        assert(items.push(x).drop_first() =~= items.drop_first().push(x));
        assert(items.push(x).len() >= 2);
        assert(items.push(x)[0] == items[0]);
        lemma_enc_items_snoc(items.drop_first(), x);
        if items.len() == 1 {
            assert(items.drop_first().len() == 0);
            assert(enc_items(items.push(x)) == enc_value(items[0]) + seq![','] + enc_value(x));
            assert(enc_items(items) == enc_value(items[0]));
            assert(enc_items(seq![x]) == enc_value(x));
        } else {
            assert(enc_items(items.push(x)) == enc_value(items[0]) + seq![','] + enc_items(
                items.drop_first().push(x),
            ));
            assert(enc_items(items.drop_first().push(x)) == enc_items(items.drop_first())
                + seq![','] + enc_items(seq![x]));
            assert(enc_value(items[0]) + seq![','] + (enc_items(items.drop_first()) + seq![',']
                + enc_items(seq![x])) =~= (enc_value(items[0]) + seq![','] + enc_items(
                items.drop_first(),
            )) + seq![','] + enc_items(seq![x]));
        }
    }
}

proof fn lemma_enc_entries_snoc(entries: Seq<(Seq<char>, JsonV)>, x: (Seq<char>, JsonV))
    ensures
        enc_entries(entries.push(x)) == if entries.len() == 0 {
            enc_entry(x)
        } else {
            enc_entries(entries) + seq![','] + enc_entry(x)
        },
    decreases entries,
{
    if entries.len() == 0 {
        assert(entries.push(x) =~= seq![x]);
    } else {
        assert(entries.push(x).drop_first() =~= entries.drop_first().push(x));
        assert(entries.push(x)[0] == entries[0]);
        lemma_enc_entries_snoc(entries.drop_first(), x);
        if entries.len() == 1 {
            assert(entries.drop_first().len() == 0);
        } else {
            assert(enc_entry(entries[0]) + seq![','] + (enc_entries(entries.drop_first())
                + seq![','] + enc_entry(x)) =~= (enc_entry(entries[0]) + seq![','] + enc_entries(
                entries.drop_first(),
            )) + seq![','] + enc_entry(x));
        }
    }
}

proof fn lemma_enc_str_body_snoc(s: Seq<char>, c: char)
    ensures
        enc_str_body(s.push(c)) == enc_str_body(s) + esc_char(c),
    decreases s.len(),
{
    if s.len() == 0 {
        assert(s.push(c) =~= seq![c]);
        assert(seq![c].drop_first() =~= Seq::<char>::empty());
        assert(enc_str_body(seq![c]) == esc_char(seq![c][0]) + enc_str_body(seq![c].drop_first()));
        assert(seq![c][0] == c);
        assert(enc_str_body(Seq::<char>::empty()) == Seq::<char>::empty());
        assert(esc_char(c) + Seq::<char>::empty() =~= esc_char(c));
        assert(enc_str_body(s) == Seq::<char>::empty());
        assert(Seq::<char>::empty() + esc_char(c) =~= esc_char(c));
        assert(enc_str_body(s.push(c)) =~= enc_str_body(s) + esc_char(c));
    } else {
        assert(s.push(c).drop_first() =~= s.drop_first().push(c));
        assert(s.push(c)[0] == s[0]);
        lemma_enc_str_body_snoc(s.drop_first(), c);
        assert(enc_str_body(s.push(c)) == esc_char(s[0]) + enc_str_body(s.drop_first().push(c)));
        assert(enc_str_body(s.push(c)) == esc_char(s[0]) + (enc_str_body(s.drop_first())
            + esc_char(c)));
        assert(esc_char(s[0]) + (enc_str_body(s.drop_first()) + esc_char(c)) =~= (esc_char(s[0])
            + enc_str_body(s.drop_first())) + esc_char(c));
        assert(enc_str_body(s) == esc_char(s[0]) + enc_str_body(s.drop_first()));
        assert(enc_str_body(s.push(c)) =~= enc_str_body(s) + esc_char(c));
    }
}

/// Decimal digits of `n`, most significant first.
pub open spec fn dec_digits(n: nat) -> Seq<char>
    decreases n,
{
    if n < 10 {
        seq![hex_digit(n as int)]
    } else {
        dec_digits(n / 10) + seq![hex_digit((n % 10) as int)]
    }
}

pub(crate) fn push_hex_digit(out: &mut Vec<char>, d: u32)
    requires
        d < 16,
    ensures
        final(out)@ == old(out)@ + seq![hex_digit(d as int)],
{
    let c: char = if d < 10 {
        (('0' as u8) + d as u8) as char
    } else {
        (('a' as u8) + (d - 10) as u8) as char
    };
    proof {
        assert(c == hex_digit(d as int));
    }
    out.push(c);
}

/// Appends the decimal digits of `n`.
pub fn push_u64(out: &mut Vec<char>, n: u64)
    ensures
        final(out)@ == old(out)@ + dec_digits(n as nat),
    decreases n,
{
    if n < 10 {
        push_hex_digit(out, n as u32);
    } else {
        push_u64(out, n / 10);
        push_hex_digit(out, (n % 10) as u32);
    }
}

/// Appends the characters of `s`.
pub fn push_str_chars(out: &mut Vec<char>, s: &Vec<char>)
    ensures
        final(out)@ == old(out)@ + s@,
{
    let mut i: usize = 0;
    while i < s.len()
        invariant
            i <= s@.len(),
            out@ == old(out)@ + s@.subrange(0, i as int),
        decreases s@.len() - i,
    {
        out.push(s[i]);
        i = i + 1;
        proof {
            assert(old(out)@ + s@.subrange(0, i as int) =~= (old(out)@ + s@.subrange(
                0,
                i - 1 as int,
            )).push(s@[i - 1]));
        }
    }
    proof {
        assert(s@.subrange(0, s@.len() as int) =~= s@);
    }
}

/// Appends the escaped form of the string content `s`.
fn push_escaped(out: &mut Vec<char>, s: &Vec<char>)
    ensures
        final(out)@ == old(out)@ + enc_str_body(s@),
{
    let mut i: usize = 0;
    while i < s.len()
        invariant
            i <= s@.len(),
            out@ == old(out)@ + enc_str_body(s@.subrange(0, i as int)),
        decreases s@.len() - i,
    {
        let c = s[i];
        if c == '"' {
            out.push('\\');
            out.push('"');
        } else if c == '\\' {
            out.push('\\');
            out.push('\\');
        } else if (c as u32) < 0x20 {
            out.push('\\');
            out.push('u');
            out.push('0');
            out.push('0');
            push_hex_digit(out, (c as u32) / 16);
            push_hex_digit(out, (c as u32) % 16);
        } else {
            out.push(c);
        }
        i = i + 1;
        proof {
            assert(s@.subrange(0, i as int) =~= s@.subrange(0, i - 1 as int).push(s@[i - 1]));
            lemma_enc_str_body_snoc(s@.subrange(0, i - 1 as int), s@[i - 1]);
            assert(out@ =~= old(out)@ + enc_str_body(s@.subrange(0, i as int)));
        }
    }
    proof {
        assert(s@.subrange(0, s@.len() as int) =~= s@);
    }
}

impl Json {
    /// Appends the written form of this document.
    pub fn write(&self, out: &mut Vec<char>)
        ensures
            final(out)@ == old(out)@ + enc_value(self@),
        decreases *self,
    {
        match self {
            Json::Null => {
                out.push('n');
                out.push('u');
                out.push('l');
                out.push('l');
                proof {
                    assert(out@ =~= old(out)@ + enc_value(self@));
                }
            },
            Json::Bool(b) => {
                if *b {
                    out.push('t');
                    out.push('r');
                    out.push('u');
                    out.push('e');
                } else {
                    out.push('f');
                    out.push('a');
                    out.push('l');
                    out.push('s');
                    out.push('e');
                }
                proof {
                    assert(out@ =~= old(out)@ + enc_value(self@));
                }
            },
            Json::Num(s) => {
                let cs = crate::text::chars_of(s.as_str());
                push_str_chars(out, &cs);
            },
            Json::Str(s) => {
                let cs = crate::text::chars_of(s.as_str());
                out.push('"');
                push_escaped(out, &cs);
                out.push('"');
                proof {
                    assert(out@ =~= old(out)@ + enc_string(s@));
                }
            },
            Json::Arr(items) => {
                out.push('[');
                proof {
                    lemma_view_items(items@);
                }
                let ghost base: Seq<char> = out@;
                let mut k: usize = 0;
                while k < items.len()
                    invariant
                        *self is Arr && self->Arr_0 == *items,
                        k <= items@.len(),
                        base == old(out)@ + seq!['['],
                        out@ == base + enc_items(view_items(items@).take(k as int)),
                        forall|i: int|
                            0 <= i < items@.len() ==> view_items(items@)[i] == #[trigger] items@[i]@,
                        view_items(items@).len() == items@.len(),
                    decreases items@.len() - k,
                {
                    if k > 0 {
                        out.push(',');
                    }
                    proof {
                        assert(self->Arr_0 == *items);
                        assert(decreases_to!(*self => self->Arr_0));
                        assert(decreases_to!(*items => items@));
                        assert(decreases_to!(items@ => items@[k as int]));
                    }
                    let item = &items[k];
                    item.write(out);
                    k = k + 1;
                    proof {
                        let vs = view_items(items@);
                        assert(vs.take(k as int) =~= vs.take(k - 1 as int).push(vs[k - 1]));
                        lemma_enc_items_snoc(vs.take(k - 1 as int), vs[k - 1]);
                        if k > 1 {
                            assert(out@ =~= base + enc_items(vs.take(k as int)));
                        } else {
                            assert(out@ =~= base + enc_items(vs.take(k as int)));
                        }
                    }
                }
                out.push(']');
                proof {
                    lemma_view_items(items@);
                    assert(view_items(items@).take(items@.len() as int) =~= view_items(items@));
                    assert(out@ =~= old(out)@ + enc_value(self@));
                }
            },
            Json::Obj(entries) => {
                out.push('{');
                proof {
                    lemma_view_entries(entries@);
                }
                let ghost base: Seq<char> = out@;
                let mut k: usize = 0;
                while k < entries.len()
                    invariant
                        *self is Obj && self->Obj_0 == *entries,
                        k <= entries@.len(),
                        base == old(out)@ + seq!['{'],
                        out@ == base + enc_entries(view_entries(entries@).take(k as int)),
                        forall|i: int|
                            0 <= i < entries@.len() ==> view_entries(entries@)[i] == (
                            #[trigger] entries@[i].0@,
                            entries@[i].1@,
                            ),
                        view_entries(entries@).len() == entries@.len(),
                    decreases entries@.len() - k,
                {
                    if k > 0 {
                        out.push(',');
                    }
                    let key = crate::text::chars_of(entries[k].0.as_str());
                    out.push('"');
                    push_escaped(out, &key);
                    out.push('"');
                    out.push(':');
                    proof {
                        assert(self->Obj_0 == *entries);
                        assert(decreases_to!(*self => self->Obj_0));
                        assert(decreases_to!(*entries => entries@));
                        assert(decreases_to!(entries@ => entries@[k as int]));
                        assert(decreases_to!(entries@[k as int] => entries@[k as int].1));
                    }
                    let val = &entries[k].1;
                    val.write(out);
                    k = k + 1;
                    proof {
                        let vs = view_entries(entries@);
                        assert(vs.take(k as int) =~= vs.take(k - 1 as int).push(vs[k - 1]));
                        lemma_enc_entries_snoc(vs.take(k - 1 as int), vs[k - 1]);
                        assert(enc_entry(vs[k - 1 as int]) == enc_string(entries@[k - 1 as int].0@)
                            + seq![':'] + enc_value(entries@[k - 1 as int].1@));
                        assert(out@ =~= base + enc_entries(vs.take(k as int)));
                    }
                }
                out.push('}');
                proof {
                    lemma_view_entries(entries@);
                    assert(view_entries(entries@).take(entries@.len() as int) =~= view_entries(
                        entries@,
                    ));
                    assert(out@ =~= old(out)@ + enc_value(self@));
                }
            },
        }
    }

    /// The written form of this document as a `String`.
    pub fn encode(&self) -> (r: String)
        ensures
            r@ == enc_value(self@),
    {
        let mut out: Vec<char> = Vec::new();
        self.write(&mut out);
        crate::text::string_of(&out)
    }
}

// ---------------------------------------------------------------------------
// The grammar that the parser accepts, as spec-level functions. Each one
// returns the parsed piece together with how many characters it consumed.
// The recursive ones take a fuel bound; any fuel past `2 * length + 2` gives
// the same answer (`lemma_sp_fuel`), so `sp_json` fixes one such bound.
// ---------------------------------------------------------------------------

pub open spec fn is_ws(c: char) -> bool {
    c == ' ' || c == '\t' || c == '\n' || c == '\r'
}

/// Length of the run of whitespace at the front of `s`.
pub open spec fn ws_len(s: Seq<char>) -> int
    decreases s.len(),
{
    if s.len() > 0 && is_ws(s[0]) {
        1 + ws_len(s.drop_first())
    } else {
        0
    }
}

pub open spec fn is_hex(c: char) -> bool {
    is_digit(c) || ('a' <= c && c <= 'f') || ('A' <= c && c <= 'F')
}

/// The value of a hexadecimal digit.
pub open spec fn hex_val(c: char) -> int {
    if is_digit(c) {
        c as u32 - '0' as u32
    } else if 'a' <= c && c <= 'f' {
        c as u32 - 'a' as u32 + 10
    } else {
        c as u32 - 'A' as u32 + 10
    }
}

/// The character written by a one-letter escape, if the letter is recognized.
pub open spec fn unescape_short(c: char) -> Option<char> {
    if c == '"' {
        Some('"')
    } else if c == '\\' {
        Some('\\')
    } else if c == '/' {
        Some('/')
    } else if c == 'n' {
        Some('\n')
    } else if c == 't' {
        Some('\t')
    } else if c == 'r' {
        Some('\r')
    } else if c == 'b' {
        Some('\u{8}')
    } else if c == 'f' {
        Some('\u{c}')
    } else {
        None
    }
}

/// Parses string content up to and including the closing quote (the opening
/// quote is already consumed). Raw control characters, unknown escapes,
/// escaped surrogate code points and unterminated strings are rejected.
pub open spec fn sp_str_body(s: Seq<char>) -> Option<(Seq<char>, int)>
    decreases s.len(),
{
    if s.len() == 0 {
        None
    } else if s[0] == '"' {
        Some((Seq::empty(), 1))
    } else if s[0] == '\\' {
        if s.len() < 2 {
            None
        } else if s[1] == 'u' {
            if s.len() >= 6 && is_hex(s[2]) && is_hex(s[3]) && is_hex(s[4]) && is_hex(s[5]) {
                let v = hex_val(s[2]) * 0x1000 + hex_val(s[3]) * 0x100 + hex_val(s[4]) * 0x10
                    + hex_val(s[5]);
                if 0xD800 <= v && v < 0xE000 {
                    None
                } else {
                    match sp_str_body(s.skip(6)) {
                        Some((content, n)) => Some((seq![v as char] + content, 6 + n)),
                        None => None,
                    }
                }
            } else {
                None
            }
        } else {
            match unescape_short(s[1]) {
                Some(c) => match sp_str_body(s.skip(2)) {
                    Some((content, n)) => Some((seq![c] + content, 2 + n)),
                    None => None,
                },
                None => None,
            }
        }
    } else if (s[0] as u32) < 0x20 {
        None
    } else {
        match sp_str_body(s.skip(1)) {
            Some((content, n)) => Some((seq![s[0]] + content, 1 + n)),
            None => None,
        }
    }
}

/// Parses one JSON value, leading whitespace included.
pub open spec fn sp_value(s: Seq<char>, fuel: nat) -> Option<(JsonV, int)>
    decreases fuel,
{
    if fuel == 0 {
        None
    } else {
        let w = ws_len(s);
        let t = s.skip(w);
        if t.len() == 0 {
            None
        } else if t[0] == 'n' {
            if t.len() >= 4 && t[1] == 'u' && t[2] == 'l' && t[3] == 'l' {
                Some((JsonV::Null, w + 4))
            } else {
                None
            }
        } else if t[0] == 't' {
            if t.len() >= 4 && t[1] == 'r' && t[2] == 'u' && t[3] == 'e' {
                Some((JsonV::Bool(true), w + 4))
            } else {
                None
            }
        } else if t[0] == 'f' {
            if t.len() >= 5 && t[1] == 'a' && t[2] == 'l' && t[3] == 's' && t[4] == 'e' {
                Some((JsonV::Bool(false), w + 5))
            } else {
                None
            }
        } else if t[0] == '"' {
            match sp_str_body(t.skip(1)) {
                Some((content, n)) => Some((JsonV::Str(content), w + 1 + n)),
                None => None,
            }
        } else if t[0] == '-' || is_digit(t[0]) {
            let n = num_lit_len(t);
            if n > 0 {
                Some((JsonV::Num(t.take(n)), w + n))
            } else {
                None
            }
        } else if t[0] == '[' {
            let w2 = ws_len(t.skip(1));
            if 1 + w2 < t.len() && t[1 + w2] == ']' {
                Some((JsonV::Arr(Seq::empty()), w + 1 + w2 + 1))
            } else {
                match sp_items(t.skip(1), (fuel - 1) as nat) {
                    Some((items, n)) => Some((JsonV::Arr(items), w + 1 + n)),
                    None => None,
                }
            }
        } else if t[0] == '{' {
            let w2 = ws_len(t.skip(1));
            if 1 + w2 < t.len() && t[1 + w2] == '}' {
                Some((JsonV::Obj(Seq::empty()), w + 1 + w2 + 1))
            } else {
                match sp_entries(t.skip(1), (fuel - 1) as nat) {
                    Some((entries, n)) => Some((JsonV::Obj(entries), w + 1 + n)),
                    None => None,
                }
            }
        } else {
            None
        }
    }
}

/// Parses the items of a non-empty array, up to and including the closing
/// bracket (the opening bracket is already consumed).
pub open spec fn sp_items(s: Seq<char>, fuel: nat) -> Option<(Seq<JsonV>, int)>
    decreases fuel,
{
    if fuel == 0 {
        None
    } else {
        match sp_value(s, (fuel - 1) as nat) {
            Some((v, n)) => {
                let p = n + ws_len(s.skip(n));
                if p < s.len() && s[p] == ',' {
                    match sp_items(s.skip(p + 1), (fuel - 1) as nat) {
                        Some((items, m)) => Some((seq![v] + items, p + 1 + m)),
                        None => None,
                    }
                } else if p < s.len() && s[p] == ']' {
                    Some((seq![v], p + 1))
                } else {
                    None
                }
            },
            None => None,
        }
    }
}

/// Parses the members of a non-empty object, up to and including the closing
/// brace (the opening brace is already consumed).
pub open spec fn sp_entries(s: Seq<char>, fuel: nat) -> Option<(Seq<(Seq<char>, JsonV)>, int)>
    decreases fuel,
{
    if fuel == 0 {
        None
    } else {
        let w = ws_len(s);
        let t = s.skip(w);
        if t.len() > 0 && t[0] == '"' {
            match sp_str_body(t.skip(1)) {
                Some((key, kn)) => {
                    let p = w + 1 + kn + ws_len(s.skip(w + 1 + kn));
                    if p < s.len() && s[p] == ':' {
                        match sp_value(s.skip(p + 1), (fuel - 1) as nat) {
                            Some((v, vn)) => {
                                let q = p + 1 + vn;
                                let r = q + ws_len(s.skip(q));
                                if r < s.len() && s[r] == ',' {
                                    match sp_entries(s.skip(r + 1), (fuel - 1) as nat) {
                                        Some((entries, m)) => Some(
                                            (seq![(key, v)] + entries, r + 1 + m),
                                        ),
                                        None => None,
                                    }
                                } else if r < s.len() && s[r] == '}' {
                                    Some((seq![(key, v)], r + 1))
                                } else {
                                    None
                                }
                            },
                            None => None,
                        }
                    } else {
                        None
                    }
                },
                None => None,
            }
        } else {
            None
        }
    }
}

/// Fuel past which `sp_value` no longer depends on the fuel.
pub open spec fn sp_fuel(n: int) -> nat {
    (2 * n + 3) as nat
}

/// The document denoted by `s`: one JSON value, possibly surrounded by
/// whitespace, and nothing else.
pub open spec fn sp_json(s: Seq<char>) -> Option<JsonV> {
    match sp_value(s, sp_fuel(s.len() as int)) {
        Some((v, n)) => if ws_len(s.skip(n)) == s.len() - n {
            Some(v)
        } else {
            None
        },
        None => None,
    }
}

// ---------------------------------------------------------------------------
// Basic facts about the grammar functions.
// ---------------------------------------------------------------------------

pub proof fn lemma_ws_len_bounds(s: Seq<char>)
    ensures
        0 <= ws_len(s) <= s.len(),
    decreases s.len(),
{
    if s.len() > 0 && is_ws(s[0]) {
        lemma_ws_len_bounds(s.drop_first());
    }
}

pub proof fn lemma_digits_len_bounds(s: Seq<char>)
    ensures
        0 <= digits_len(s) <= s.len(),
    decreases s.len(),
{
    if s.len() > 0 && is_digit(s[0]) {
        lemma_digits_len_bounds(s.drop_first());
    }
}

/// Every character inside the leading digit run is a digit.
pub proof fn lemma_digits_run_digits(s: Seq<char>)
    ensures
        forall|k: int| 0 <= k < digits_len(s) ==> is_digit(#[trigger] s[k]),
    decreases s.len(),
{
    lemma_digits_len_bounds(s);
    if s.len() > 0 && is_digit(s[0]) {
        lemma_digits_run_digits(s.drop_first());
        assert forall|k: int| 0 <= k < digits_len(s) implies is_digit(#[trigger] s[k]) by {
            if k > 0 {
                assert(s.drop_first()[k - 1] == s[k]);
                assert(is_digit(s.drop_first()[k - 1]));
            }
        }
    }
}

pub proof fn lemma_num_lit_len_bounds(s: Seq<char>)
    ensures
        0 <= num_lit_len(s) <= s.len(),
{
    let sg: int = if s.len() > 0 && s[0] == '-' {
        1
    } else {
        0
    };
    lemma_digits_len_bounds(s.skip(sg));
    let d = digits_len(s.skip(sg));
    if d > 0 {
        let p = sg + d;
        lemma_frac_len_bounds(s.skip(p));
        let q = p + frac_len(s.skip(p));
        lemma_exp_len_bounds(s.skip(q));
    }
}

pub proof fn lemma_frac_len_bounds(s: Seq<char>)
    ensures
        0 <= frac_len(s) <= s.len(),
{
    if s.len() >= 2 && s[0] == '.' && is_digit(s[1]) {
        lemma_digits_len_bounds(s.drop_first());
        assert(s.drop_first().len() == s.len() - 1);
    }
}

pub proof fn lemma_exp_len_bounds(s: Seq<char>)
    ensures
        0 <= exp_len(s) <= s.len(),
{
    if s.len() > 0 && (s[0] == 'e' || s[0] == 'E') {
        let sg: int = if s.len() > 1 && (s[1] == '+' || s[1] == '-') {
            1
        } else {
            0
        };
        lemma_digits_len_bounds(s.skip(1 + sg));
    }
}

pub proof fn lemma_sp_str_body_bounds(s: Seq<char>)
    ensures
        sp_str_body(s) matches Some((content, n)) ==> 1 <= n <= s.len(),
    decreases s.len(),
{
    if s.len() > 0 && s[0] != '"' {
        if s[0] == '\\' && s.len() >= 2 {
            if s[1] == 'u' {
                if s.len() >= 6 {
                    lemma_sp_str_body_bounds(s.skip(6));
                }
            } else {
                lemma_sp_str_body_bounds(s.skip(2));
            }
        } else if s[0] != '\\' && (s[0] as u32) >= 0x20 {
            lemma_sp_str_body_bounds(s.skip(1));
        }
    }
}

/// A successful parse consumes at least one and at most all characters.
pub proof fn lemma_sp_bounds(s: Seq<char>, fuel: nat)
    ensures
        sp_value(s, fuel) matches Some((v, n)) ==> 1 <= n <= s.len(),
        sp_items(s, fuel) matches Some((items, n)) ==> 1 <= n <= s.len() && items.len() >= 1,
        sp_entries(s, fuel) matches Some((es, n)) ==> 1 <= n <= s.len() && es.len() >= 1,
    decreases fuel,
{
    if fuel > 0 {
        let w = ws_len(s);
        lemma_ws_len_bounds(s);
        let t = s.skip(w);
        // sp_value cases
        if t.len() > 0 {
            if t[0] == '"' {
                lemma_sp_str_body_bounds(t.skip(1));
            } else if t[0] == '-' || is_digit(t[0]) {
                lemma_num_lit_len_bounds(t);
            } else if t[0] == '[' {
                lemma_ws_len_bounds(t.skip(1));
                lemma_sp_bounds(t.skip(1), (fuel - 1) as nat);
            } else if t[0] == '{' {
                lemma_ws_len_bounds(t.skip(1));
                lemma_sp_bounds(t.skip(1), (fuel - 1) as nat);
            }
        }
        // sp_items
        lemma_sp_bounds(s, (fuel - 1) as nat);
        match sp_value(s, (fuel - 1) as nat) {
            Some((v, n)) => {
                lemma_ws_len_bounds(s.skip(n));
                let p = n + ws_len(s.skip(n));
                if p < s.len() && s[p] == ',' {
                    lemma_sp_bounds(s.skip(p + 1), (fuel - 1) as nat);
                }
            },
            None => {},
        }
        // sp_entries
        if t.len() > 0 && t[0] == '"' {
            lemma_sp_str_body_bounds(t.skip(1));
            match sp_str_body(t.skip(1)) {
                Some((key, kn)) => {
                    lemma_ws_len_bounds(s.skip(w + 1 + kn));
                    let p = w + 1 + kn + ws_len(s.skip(w + 1 + kn));
                    if p < s.len() && s[p] == ':' {
                        lemma_sp_bounds(s.skip(p + 1), (fuel - 1) as nat);
                        match sp_value(s.skip(p + 1), (fuel - 1) as nat) {
                            Some((v, vn)) => {
                                let q = p + 1 + vn;
                                lemma_ws_len_bounds(s.skip(q));
                                let r = q + ws_len(s.skip(q));
                                if r < s.len() && s[r] == ',' {
                                    lemma_sp_bounds(s.skip(r + 1), (fuel - 1) as nat);
                                }
                            },
                            None => {},
                        }
                    }
                },
                None => {},
            }
        }
    }
}

/// Past `sp_fuel` of the input length, the fuel does not matter.
pub proof fn lemma_sp_fuel(s: Seq<char>, f1: nat, f2: nat)
    requires
        f1 >= 2 * s.len() + 2,
        f2 >= 2 * s.len() + 2,
    ensures
        sp_value(s, f1) == sp_value(s, f2),
        f1 >= 2 * s.len() + 3 && f2 >= 2 * s.len() + 3 ==> sp_items(s, f1) == sp_items(s, f2)
            && sp_entries(s, f1) == sp_entries(s, f2),
    decreases f1 + f2,
{
    let w = ws_len(s);
    lemma_ws_len_bounds(s);
    let t = s.skip(w);
    // sp_value: only the array and object branches look at the fuel.
    if t.len() > 0 {
        if t[0] == '[' || t[0] == '{' {
            lemma_ws_len_bounds(t.skip(1));
            assert(t.skip(1).len() <= s.len() - 1);
            lemma_sp_fuel(t.skip(1), (f1 - 1) as nat, (f2 - 1) as nat);
        }
    }
    if f1 >= 2 * s.len() + 3 && f2 >= 2 * s.len() + 3 {
        // sp_items
        lemma_sp_fuel(s, (f1 - 1) as nat, (f2 - 1) as nat);
        lemma_sp_bounds(s, (f1 - 1) as nat);
        match sp_value(s, (f1 - 1) as nat) {
            Some((v, n)) => {
                lemma_ws_len_bounds(s.skip(n));
                let p = n + ws_len(s.skip(n));
                if p < s.len() && s[p] == ',' {
                    assert(s.skip(p + 1).len() <= s.len() - 1);
                    lemma_sp_fuel(s.skip(p + 1), (f1 - 1) as nat, (f2 - 1) as nat);
                }
            },
            None => {},
        }
        // sp_entries
        if t.len() > 0 && t[0] == '"' {
            lemma_sp_str_body_bounds(t.skip(1));
            match sp_str_body(t.skip(1)) {
                Some((key, kn)) => {
                    lemma_ws_len_bounds(s.skip(w + 1 + kn));
                    let p = w + 1 + kn + ws_len(s.skip(w + 1 + kn));
                    if p < s.len() && s[p] == ':' {
                        assert(s.skip(p + 1).len() <= s.len() - 2);
                        lemma_sp_fuel(s.skip(p + 1), (f1 - 1) as nat, (f2 - 1) as nat);
                        lemma_sp_bounds(s.skip(p + 1), (f1 - 1) as nat);
                        match sp_value(s.skip(p + 1), (f1 - 1) as nat) {
                            Some((v, vn)) => {
                                let q = p + 1 + vn;
                                lemma_ws_len_bounds(s.skip(q));
                                let r = q + ws_len(s.skip(q));
                                if r < s.len() && s[r] == ',' {
                                    assert(s.skip(r + 1).len() <= s.len() - 2);
                                    lemma_sp_fuel(s.skip(r + 1), (f1 - 1) as nat, (f2 - 1) as nat);
                                }
                            },
                            None => {},
                        }
                    }
                },
                None => {},
            }
        }
    }
}

// ---------------------------------------------------------------------------
// Executable parser.
// ---------------------------------------------------------------------------

proof fn lemma_skip_skip(s: Seq<char>, a: int, b: int)
    requires
        0 <= a,
        0 <= b,
        a + b <= s.len(),
    ensures
        s.skip(a).skip(b) =~= s.skip(a + b),
{
}

proof fn lemma_suffix_step(s: Seq<char>, j: int)
    requires
        0 <= j < s.len(),
    ensures
        s.skip(j).drop_first() =~= s.skip(j + 1),
        s.skip(j)[0] == s[j],
{
}

pub proof fn lemma_view_items_push(s: Seq<Json>, x: Json)
    ensures
        view_items(s.push(x)) == view_items(s) + seq![x@],
    decreases s,
{
    if s.len() == 0 {
        assert(s.push(x) =~= seq![x]);
        assert(seq![x].drop_first() =~= Seq::<Json>::empty());
        assert(view_items(seq![x]) == seq![x@] + view_items(Seq::<Json>::empty()));
        assert(seq![x@] + Seq::<JsonV>::empty() =~= seq![x@]);
        assert(view_items(s) + seq![x@] =~= seq![x@]);
    } else {
        assert(s.push(x).drop_first() =~= s.drop_first().push(x));
        assert(s.push(x)[0] == s[0]);
        lemma_view_items_push(s.drop_first(), x);
        assert(view_items(s.push(x)) == seq![s[0]@] + (view_items(s.drop_first()) + seq![x@]));
        assert(seq![s[0]@] + (view_items(s.drop_first()) + seq![x@]) =~= (seq![s[0]@] + view_items(
            s.drop_first(),
        )) + seq![x@]);
    }
}

pub proof fn lemma_view_entries_push(s: Seq<(String, Json)>, x: (String, Json))
    ensures
        view_entries(s.push(x)) == view_entries(s) + seq![(x.0@, x.1@)],
    decreases s,
{
    if s.len() == 0 {
        assert(s.push(x) =~= seq![x]);
        assert(seq![x].drop_first() =~= Seq::<(String, Json)>::empty());
        assert(view_entries(seq![x]) == seq![(x.0@, x.1@)] + view_entries(
            Seq::<(String, Json)>::empty(),
        ));
        assert(seq![(x.0@, x.1@)] + Seq::<(Seq<char>, JsonV)>::empty() =~= seq![(x.0@, x.1@)]);
        assert(view_entries(s) + seq![(x.0@, x.1@)] =~= seq![(x.0@, x.1@)]);
    } else {
        assert(s.push(x).drop_first() =~= s.drop_first().push(x));
        assert(s.push(x)[0] == s[0]);
        lemma_view_entries_push(s.drop_first(), x);
        assert(view_entries(s.push(x)) == seq![(s[0].0@, s[0].1@)] + (view_entries(s.drop_first())
            + seq![(x.0@, x.1@)]));
        assert(seq![(s[0].0@, s[0].1@)] + (view_entries(s.drop_first()) + seq![(x.0@, x.1@)]) =~= (
        seq![(s[0].0@, s[0].1@)] + view_entries(s.drop_first())) + seq![(x.0@, x.1@)]);
    }
}

/// First position at or past `i` whose character is not whitespace.
fn skip_ws(s: &Vec<char>, i: usize) -> (j: usize)
    requires
        i <= s@.len(),
    ensures
        i <= j <= s@.len(),
        j - i == ws_len(s@.skip(i as int)),
{
    let mut j = i;
    proof {
        lemma_ws_len_bounds(s@.skip(i as int));
    }
    while j < s.len() && (s[j] == ' ' || s[j] == '\t' || s[j] == '\n' || s[j] == '\r')
        invariant
            i <= j <= s@.len(),
            ws_len(s@.skip(i as int)) == (j - i) + ws_len(s@.skip(j as int)),
        decreases s@.len() - j,
    {
        proof {
            lemma_suffix_step(s@, j as int);
            lemma_ws_len_bounds(s@.skip(j + 1));
        }
        j = j + 1;
    }
    proof {
        if j < s@.len() {
            lemma_suffix_step(s@, j as int);
        }
        assert(ws_len(s@.skip(j as int)) == 0);
    }
    j
}

/// First position at or past `i` whose character is not a decimal digit.
pub(crate) fn digits_run(s: &Vec<char>, i: usize) -> (j: usize)
    requires
        i <= s@.len(),
    ensures
        i <= j <= s@.len(),
        j - i == digits_len(s@.skip(i as int)),
{
    let mut j = i;
    proof {
        lemma_digits_len_bounds(s@.skip(i as int));
    }
    while j < s.len() && '0' <= s[j] && s[j] <= '9'
        invariant
            i <= j <= s@.len(),
            digits_len(s@.skip(i as int)) == (j - i) + digits_len(s@.skip(j as int)),
        decreases s@.len() - j,
    {
        proof {
            lemma_suffix_step(s@, j as int);
            lemma_digits_len_bounds(s@.skip(j + 1));
        }
        j = j + 1;
    }
    proof {
        if j < s@.len() {
            lemma_suffix_step(s@, j as int);
        }
        assert(digits_len(s@.skip(j as int)) == 0);
    }
    j
}

/// End of the numeric literal starting at `i`, or `i` if none starts there.
fn scan_num(s: &Vec<char>, i: usize) -> (j: usize)
    requires
        i <= s@.len(),
    ensures
        i <= j <= s@.len(),
        j - i == num_lit_len(s@.skip(i as int)),
{
    let ghost u = s@.skip(i as int);
    let sg: usize = if i < s.len() && s[i] == '-' {
        1
    } else {
        0
    };
    let d_end = digits_run(s, i + sg);
    proof {
        lemma_skip_skip(s@, i as int, sg as int);
        assert(u.skip(sg as int) =~= s@.skip(i + sg));
    }
    if d_end == i + sg {
        proof {
            assert(digits_len(u.skip(sg as int)) == 0);
        }
        return i;
    }
    // fraction
    let f_end: usize = if d_end < s.len() && d_end + 1 < s.len() && s[d_end] == '.' && '0' <= s[
        d_end + 1] && s[d_end + 1] <= '9' {
        let e = digits_run(s, d_end + 1);
        proof {
            lemma_suffix_step(s@, d_end as int);
            lemma_suffix_step(s@, d_end + 1);
            assert(s@.skip(d_end as int).drop_first() =~= s@.skip(d_end + 1));
            assert(frac_len(s@.skip(d_end as int)) == 1 + digits_len(s@.skip(d_end + 1)));
        }
        e
    } else {
        proof {
            if d_end < s.len() {
                lemma_suffix_step(s@, d_end as int);
            }
            assert(frac_len(s@.skip(d_end as int)) == 0);
        }
        d_end
    };
    // exponent
    let j: usize = if f_end < s.len() && (s[f_end] == 'e' || s[f_end] == 'E') {
        let esg: usize = if f_end < s.len() && f_end + 1 < s.len() && (s[f_end + 1] == '+' || s[
            f_end + 1] == '-') {
            1
        } else {
            0
        };
        let e = digits_run(s, f_end + 1 + esg);
        proof {
            lemma_suffix_step(s@, f_end as int);
            lemma_skip_skip(s@, f_end as int, 1 + esg as int);
            assert(s@.skip(f_end as int).skip(1 + esg as int) =~= s@.skip(f_end + 1 + esg));
        }
        if e == f_end + 1 + esg {
            proof {
                assert(exp_len(s@.skip(f_end as int)) == 0);
            }
            f_end
        } else {
            proof {
                assert(exp_len(s@.skip(f_end as int)) == 1 + esg + digits_len(
                    s@.skip(f_end + 1 + esg),
                ));
            }
            e
        }
    } else {
        proof {
            if f_end < s.len() {
                lemma_suffix_step(s@, f_end as int);
            }
            assert(exp_len(s@.skip(f_end as int)) == 0);
        }
        f_end
    };
    proof {
        let sgi: int = if u.len() > 0 && u[0] == '-' {
            1int
        } else {
            0int
        };
        assert(sgi == sg as int);
        let d = digits_len(u.skip(sg as int));
        assert(d == d_end - (i + sg));
        assert(d > 0);
        let p = sgi + d;
        lemma_skip_skip(s@, i as int, p);
        assert(u.skip(p) =~= s@.skip(d_end as int));
        let q = p + frac_len(u.skip(p));
        assert(i + q == f_end as int);
        lemma_skip_skip(s@, i as int, q);
        assert(u.skip(q) =~= s@.skip(f_end as int));
        assert(num_lit_len(u) == q + exp_len(u.skip(q)));
    }
    j
}

/// The characters `s[a..b]`.
pub(crate) fn vec_slice(s: &Vec<char>, a: usize, b: usize) -> (v: Vec<char>)
    requires
        a <= b <= s@.len(),
    ensures
        v@ == s@.subrange(a as int, b as int),
{
    let mut v: Vec<char> = Vec::new();
    let mut k = a;
    while k < b
        invariant
            a <= k <= b <= s@.len(),
            v@ == s@.subrange(a as int, k as int),
        decreases b - k,
    {
        v.push(s[k]);
        k = k + 1;
        proof {
            assert(v@ =~= s@.subrange(a as int, k as int));
        }
    }
    v
}

/// Relies on `char::from_u32`: `Some` exactly for Unicode scalar values
/// (below the surrogate range, or between it and `0x10FFFF`), and the
/// returned character has scalar value `v`.
#[verifier::external_body]
pub(crate) fn char_from_u32(v: u32) -> (r: Option<char>)
    ensures
        r == if v < 0xD800 || (0xE000 <= v && v <= 0x10FFFF) {
            Some(v as char)
        } else {
            None::<char>
        },
{
    char::from_u32(v)
}

fn unescape_short_x(c: char) -> (r: Option<char>)
    ensures
        r == unescape_short(c),
{
    if c == '"' {
        Some('"')
    } else if c == '\\' {
        Some('\\')
    } else if c == '/' {
        Some('/')
    } else if c == 'n' {
        Some('\n')
    } else if c == 't' {
        Some('\t')
    } else if c == 'r' {
        Some('\r')
    } else if c == 'b' {
        Some('\u{8}')
    } else if c == 'f' {
        Some('\u{c}')
    } else {
        None
    }
}

fn hex_val_x(c: char) -> (r: u32)
    requires
        is_hex(c),
    ensures
        r == hex_val(c),
        r < 16,
{
    if '0' <= c && c <= '9' {
        (c as u32) - ('0' as u32)
    } else if 'a' <= c && c <= 'f' {
        (c as u32) - ('a' as u32) + 10
    } else {
        (c as u32) - ('A' as u32) + 10
    }
}

/// Parses string content starting at `i` (just past the opening quote),
/// appending the decoded characters to `acc`; returns the position just past
/// the closing quote.
fn parse_str_body(s: &Vec<char>, i: usize, acc: &mut Vec<char>) -> (r: Option<usize>)
    requires
        i <= s@.len(),
    ensures
        match sp_str_body(s@.skip(i as int)) {
            Some((content, n)) => r == Some((i + n) as usize) && final(acc)@ == old(acc)@
                + content,
            None => r is None,
        },
    decreases s@.len() - i,
{
    let ghost u = s@.skip(i as int);
    if i >= s.len() {
        return None;
    }
    proof {
        lemma_suffix_step(s@, i as int);
    }
    let c = s[i];
    if c == '"' {
        proof {
            assert(acc@ =~= acc@ + Seq::<char>::empty());
        }
        Some(i + 1)
    } else if c == '\\' {
        if i + 1 >= s.len() {
            proof {
                assert(u.len() < 2);
            }
            return None;
        }
        let e = s[i + 1];
        if e == 'u' {
            if s.len() - i >= 6 && is_hex_x(s[i + 2]) && is_hex_x(s[i + 3]) && is_hex_x(s[i + 4])
                && is_hex_x(s[i + 5]) {
                let v = hex_val_x(s[i + 2]) * 0x1000 + hex_val_x(s[i + 3]) * 0x100 + hex_val_x(
                    s[i + 4],
                ) * 0x10 + hex_val_x(s[i + 5]);
                if 0xD800 <= v && v < 0xE000 {
                    return None;
                }
                let c2 = match char_from_u32(v) {
                    Some(c2) => c2,
                    None => {
                        proof {
                            assert(false);
                        }
                        return None;
                    },
                };
                acc.push(c2);
                proof {
                    lemma_skip_skip(s@, i as int, 6);
                    assert(u.skip(6) =~= s@.skip(i + 6));
                }
                match parse_str_body(s, i + 6, acc) {
                    Some(n2) => {
                        proof {
                            let content0 = sp_str_body(s@.skip(i + 6)).unwrap().0;
                            assert(acc@ == (old(acc)@ + seq![c2]) + content0);
                            assert((old(acc)@ + seq![c2]) + content0 =~= old(acc)@ + (seq![c2]
                                + content0));
                        }
                        Some(n2)
                    },
                    None => None,
                }
            } else {
                None
            }
        } else {
            match unescape_short_x(e) {
                Some(c2) => {
                    acc.push(c2);
                    proof {
                        lemma_skip_skip(s@, i as int, 2);
                        assert(u.skip(2) =~= s@.skip(i + 2));
                    }
                    match parse_str_body(s, i + 2, acc) {
                        Some(n2) => {
                            proof {
                                let content0 = sp_str_body(s@.skip(i + 2)).unwrap().0;
                                assert(acc@ == (old(acc)@ + seq![c2]) + content0);
                                assert((old(acc)@ + seq![c2]) + content0 =~= old(acc)@ + (seq![c2]
                                    + content0));
                            }
                            Some(n2)
                        },
                        None => None,
                    }
                },
                None => None,
            }
        }
    } else if (c as u32) < 0x20 {
        None
    } else {
        acc.push(c);
        proof {
            lemma_skip_skip(s@, i as int, 1);
            assert(u.skip(1) =~= s@.skip(i + 1));
        }
        match parse_str_body(s, i + 1, acc) {
            Some(n2) => {
                proof {
                    let content0 = sp_str_body(s@.skip(i + 1)).unwrap().0;
                    assert(acc@ == (old(acc)@ + seq![c]) + content0);
                    assert((old(acc)@ + seq![c]) + content0 =~= old(acc)@ + (seq![c] + content0));
                }
                Some(n2)
            },
            None => None,
        }
    }
}

fn is_hex_x(c: char) -> (r: bool)
    ensures
        r == is_hex(c),
{
    ('0' <= c && c <= '9') || ('a' <= c && c <= 'f') || ('A' <= c && c <= 'F')
}

/// Parses one JSON value starting at `i`, leading whitespace included;
/// returns it with the position just past it.
#[verifier::rlimit(100)]
#[verifier::spinoff_prover]
fn parse_value(s: &Vec<char>, i: usize) -> (r: Option<(Json, usize)>)
    requires
        i <= s@.len(),
    ensures
        match r {
            Some((j, n)) => i < n <= s@.len() && sp_value(
                s@.skip(i as int),
                sp_fuel(s@.len() - i as int),
            ) == Some((j@, n as int - i as int)),
            None => sp_value(s@.skip(i as int), sp_fuel(s@.len() - i as int)) is None,
        },
    decreases s@.len() - i, 0int,
{
    let ghost u = s@.skip(i as int);
    let ghost flen: int = s@.len() - i as int;
    let j = skip_ws(s, i);
    let ghost w: int = j - i as int;
    proof {
        lemma_skip_skip(s@, i as int, w);
        assert(u.skip(w) =~= s@.skip(j as int));
    }
    if j >= s.len() {
        return None;
    }
    let ghost t = u.skip(w);
    let c = s[j];
    proof {
        assert(t[0] == s@[j as int]);
    }
    if c == 'n' {
        if s.len() - j >= 4 && s[j + 1] == 'u' && s[j + 2] == 'l' && s[j + 3] == 'l' {
            proof {
                assert(t[1] == s@[j + 1] && t[2] == s@[j + 2] && t[3] == s@[j + 3]);
            }
            Some((Json::Null, j + 4))
        } else {
            None
        }
    } else if c == 't' {
        if s.len() - j >= 4 && s[j + 1] == 'r' && s[j + 2] == 'u' && s[j + 3] == 'e' {
            proof {
                assert(t[1] == s@[j + 1] && t[2] == s@[j + 2] && t[3] == s@[j + 3]);
            }
            Some((Json::Bool(true), j + 4))
        } else {
            None
        }
    } else if c == 'f' {
        if s.len() - j >= 5 && s[j + 1] == 'a' && s[j + 2] == 'l' && s[j + 3] == 's' && s[j + 4]
            == 'e' {
            proof {
                assert(t[1] == s@[j + 1] && t[2] == s@[j + 2] && t[3] == s@[j + 3] && t[4] == s@[j
                    + 4]);
            }
            Some((Json::Bool(false), j + 5))
        } else {
            None
        }
    } else if c == '"' {
        proof {
            lemma_skip_skip(s@, j as int, 1);
            assert(t.skip(1) =~= s@.skip(j + 1));
            lemma_sp_str_body_bounds(t.skip(1));
        }
        let mut content: Vec<char> = Vec::new();
        match parse_str_body(s, j + 1, &mut content) {
            Some(n2) => {
                proof {
                    assert(content@ =~= sp_str_body(t.skip(1)).unwrap().0);
                }
                Some((Json::Str(crate::text::string_of(&content)), n2))
            },
            None => None,
        }
    } else if c == '-' || ('0' <= c && c <= '9') {
        let n = scan_num(s, j);
        proof {
            assert(t =~= s@.skip(j as int));
        }
        if n > j {
            let lit = vec_slice(s, j, n);
            proof {
                assert(t.take(n as int - j as int) =~= s@.subrange(j as int, n as int));
            }
            Some((Json::Num(crate::text::string_of(&lit)), n))
        } else {
            None
        }
    } else if c == '[' {
        let j2 = skip_ws(s, j + 1);
        proof {
            lemma_skip_skip(s@, j as int, 1);
            assert(t.skip(1) =~= s@.skip(j + 1));
        }
        let ghost w2: int = j2 - (j + 1) as int;
        if j2 < s.len() && s[j2] == ']' {
            proof {
                assert(t[1 + w2] == s@[j2 as int]);
                assert(view_items(Seq::<Json>::empty()) == Seq::<JsonV>::empty());
            }
            Some((Json::Arr(Vec::new()), j2 + 1))
        } else {
            proof {
                if 1 + w2 < t.len() {
                    assert(t[1 + w2] == s@[j2 as int]);
                }
                lemma_sp_fuel(
                    s@.skip(j + 1),
                    (sp_fuel(flen) - 1) as nat,
                    sp_fuel(s@.len() - (j + 1) as int),
                );
                lemma_sp_bounds(s@.skip(j + 1), sp_fuel(s@.len() - (j + 1) as int));
            }
            let mut items: Vec<Json> = Vec::new();
            match parse_items(s, j + 1, &mut items) {
                Some(n2) => {
                    proof {
                        assert(view_items(Seq::<Json>::empty()) == Seq::<JsonV>::empty());
                        let spec_items = sp_items(
                            s@.skip(j + 1),
                            sp_fuel(s@.len() - (j + 1) as int),
                        ).unwrap().0;
                        assert(Seq::<JsonV>::empty() + spec_items =~= spec_items);
                    }
                    Some((Json::Arr(items), n2))
                },
                None => None,
            }
        }
    } else if c == '{' {
        let j2 = skip_ws(s, j + 1);
        proof {
            lemma_skip_skip(s@, j as int, 1);
            assert(t.skip(1) =~= s@.skip(j + 1));
        }
        let ghost w2: int = j2 - (j + 1) as int;
        if j2 < s.len() && s[j2] == '}' {
            proof {
                assert(t[1 + w2] == s@[j2 as int]);
                assert(view_entries(Seq::<(String, Json)>::empty()) == Seq::<(
                    Seq<char>,
                    JsonV,
                )>::empty());
            }
            Some((Json::Obj(Vec::new()), j2 + 1))
        } else {
            proof {
                if 1 + w2 < t.len() {
                    assert(t[1 + w2] == s@[j2 as int]);
                }
                lemma_sp_fuel(
                    s@.skip(j + 1),
                    (sp_fuel(flen) - 1) as nat,
                    sp_fuel(s@.len() - (j + 1) as int),
                );
                lemma_sp_bounds(s@.skip(j + 1), sp_fuel(s@.len() - (j + 1) as int));
            }
            let mut entries: Vec<(String, Json)> = Vec::new();
            match parse_entries(s, j + 1, &mut entries) {
                Some(n2) => {
                    proof {
                        assert(view_entries(Seq::<(String, Json)>::empty()) == Seq::<(
                            Seq<char>,
                            JsonV,
                        )>::empty());
                        let spec_entries = sp_entries(
                            s@.skip(j + 1),
                            sp_fuel(s@.len() - (j + 1) as int),
                        ).unwrap().0;
                        assert(Seq::<(Seq<char>, JsonV)>::empty() + spec_entries =~= spec_entries);
                    }
                    Some((Json::Obj(entries), n2))
                },
                None => None,
            }
        }
    } else {
        None
    }
}

/// Parses the items of a non-empty array starting at `i` (just past the
/// opening bracket), appending them to `acc`; returns the position just past
/// the closing bracket.
fn parse_items(s: &Vec<char>, i: usize, acc: &mut Vec<Json>) -> (r: Option<usize>)
    requires
        i <= s@.len(),
    ensures
        match sp_items(s@.skip(i as int), sp_fuel(s@.len() - i as int)) {
            Some((items, n)) => r == Some((i + n) as usize) && view_items(final(acc)@)
                == view_items(old(acc)@) + items,
            None => r is None,
        },
    decreases s@.len() - i, 1int,
{
    let ghost u = s@.skip(i as int);
    let ghost flen: int = s@.len() - i as int;
    proof {
        lemma_sp_fuel(u, sp_fuel(flen), (sp_fuel(flen) - 1) as nat);
    }
    match parse_value(s, i) {
        Some((v, n)) => {
            acc.push(v);
            proof {
                lemma_view_items_push(old(acc)@, v);
            }
            let ghost after_first = acc@;
            let p = skip_ws(s, n);
            proof {
                lemma_skip_skip(s@, i as int, n as int - i as int);
                assert(u.skip(n as int - i as int) =~= s@.skip(n as int));
                assert(p - i as int == (n as int - i as int) + ws_len(u.skip(n as int - i as int)));
                if (p as int - i as int) < u.len() {
                    assert(u[p as int - i as int] == s@[p as int]);
                }
            }
            if p < s.len() && s[p] == ',' {
                proof {
                    lemma_skip_skip(s@, i as int, p + 1 - i as int);
                    assert(u.skip(p + 1 - i as int) =~= s@.skip(p + 1));
                    lemma_sp_fuel(
                        s@.skip(p + 1),
                        (sp_fuel(flen) - 1) as nat,
                        sp_fuel(s@.len() - (p + 1) as int),
                    );
                    lemma_sp_bounds(s@.skip(p + 1), sp_fuel(s@.len() - (p + 1) as int));
                }
                match parse_items(s, p + 1, acc) {
                    Some(n3) => {
                        proof {
                            let spec_rest = sp_items(
                                s@.skip(p + 1),
                                sp_fuel(s@.len() - (p + 1) as int),
                            ).unwrap().0;
                            assert(view_items(acc@) == (view_items(old(acc)@) + seq![v@])
                                + spec_rest);
                            assert((view_items(old(acc)@) + seq![v@]) + spec_rest =~= view_items(
                                old(acc)@,
                            ) + (seq![v@] + spec_rest));
                        }
                        Some(n3)
                    },
                    None => None,
                }
            } else if p < s.len() && s[p] == ']' {
                Some(p + 1)
            } else {
                None
            }
        },
        None => None,
    }
}

/// Parses the members of a non-empty object starting at `i` (just past the
/// opening brace), appending them to `acc`; returns the position just past
/// the closing brace.
#[verifier::rlimit(100)]
#[verifier::spinoff_prover]
fn parse_entries(s: &Vec<char>, i: usize, acc: &mut Vec<(String, Json)>) -> (r: Option<usize>)
    requires
        i <= s@.len(),
    ensures
        match sp_entries(s@.skip(i as int), sp_fuel(s@.len() - i as int)) {
            Some((entries, n)) => r == Some((i + n) as usize) && view_entries(final(acc)@)
                == view_entries(old(acc)@) + entries,
            None => r is None,
        },
    decreases s@.len() - i, 1int,
{
    let ghost u = s@.skip(i as int);
    let ghost flen: int = s@.len() - i as int;
    let j = skip_ws(s, i);
    let ghost w: int = j - i as int;
    proof {
        lemma_skip_skip(s@, i as int, w);
        assert(u.skip(w) =~= s@.skip(j as int));
        if j < s.len() {
            assert(u.skip(w)[0] == s@[j as int]);
        }
    }
    if j >= s.len() {
        return None;
    }
    if s[j] != '"' {
        return None;
    }
    proof {
        lemma_skip_skip(s@, j as int, 1);
        assert(u.skip(w).skip(1) =~= s@.skip(j + 1));
        lemma_sp_str_body_bounds(s@.skip(j + 1));
    }
    let mut key: Vec<char> = Vec::new();
    match parse_str_body(s, j + 1, &mut key) {
        Some(k_end) => {
            let ghost kn: int = k_end as int - (j + 1) as int;
            let p = skip_ws(s, k_end);
            proof {
                lemma_skip_skip(s@, i as int, k_end as int - i as int);
                assert(u.skip(k_end as int - i as int) =~= s@.skip(k_end as int));
                assert(w + 1 + kn == k_end as int - i as int);
                if (p as int - i as int) < u.len() {
                    assert(u[p as int - i as int] == s@[p as int]);
                }
            }
            if p < s.len() && s[p] == ':' {
                proof {
                    lemma_skip_skip(s@, i as int, p + 1 - i as int);
                    assert(u.skip(p + 1 - i as int) =~= s@.skip(p + 1));
                    lemma_sp_fuel(
                        s@.skip(p + 1),
                        (sp_fuel(flen) - 1) as nat,
                        sp_fuel(s@.len() - (p + 1) as int),
                    );
                }
                match parse_value(s, p + 1) {
                    Some((v, vend)) => {
                        let key_string = crate::text::string_of(&key);
                        proof {
                            lemma_view_entries_push(acc@, (key_string, v));
                        }
                        acc.push((key_string, v));
                        let r2 = skip_ws(s, vend);
                        proof {
                            lemma_skip_skip(s@, i as int, vend as int - i as int);
                            assert(u.skip(vend as int - i as int) =~= s@.skip(vend as int));
                            if (r2 as int - i as int) < u.len() {
                                assert(u[r2 as int - i as int] == s@[r2 as int]);
                            }
                        }
                        if r2 < s.len() && s[r2] == ',' {
                            proof {
                                lemma_skip_skip(s@, i as int, r2 + 1 - i as int);
                                assert(u.skip(r2 + 1 - i as int) =~= s@.skip(r2 + 1));
                                lemma_sp_fuel(
                                    s@.skip(r2 + 1),
                                    (sp_fuel(flen) - 1) as nat,
                                    sp_fuel(s@.len() - (r2 + 1) as int),
                                );
                                lemma_sp_bounds(
                                    s@.skip(r2 + 1),
                                    sp_fuel(s@.len() - (r2 + 1) as int),
                                );
                            }
                            match parse_entries(s, r2 + 1, acc) {
                                Some(n3) => {
                                    proof {
                                        let spec_rest = sp_entries(
                                            s@.skip(r2 + 1),
                                            sp_fuel(s@.len() - (r2 + 1) as int),
                                        ).unwrap().0;
                                        assert(view_entries(acc@) == (view_entries(old(acc)@)
                                            + seq![(key@, v@)]) + spec_rest);
                                        assert((view_entries(old(acc)@) + seq![(key@, v@)])
                                            + spec_rest =~= view_entries(old(acc)@) + (
                                        seq![(key@, v@)] + spec_rest));
                                    }
                                    Some(n3)
                                },
                                None => None,
                            }
                        } else if r2 < s.len() && s[r2] == '}' {
                            Some(r2 + 1)
                        } else {
                            None
                        }
                    },
                    None => None,
                }
            } else {
                None
            }
        },
        None => None,
    }
}

// ---------------------------------------------------------------------------
// Decimal integers: reading numeric literals back as machine integers.
// ---------------------------------------------------------------------------

pub open spec fn all_digits(s: Seq<char>) -> bool {
    forall|i: int| 0 <= i < s.len() ==> is_digit(#[trigger] s[i])
}

/// An integer literal: decimal digits and nothing else.
pub open spec fn is_int_lit(s: Seq<char>) -> bool {
    s.len() > 0 && all_digits(s)
}

/// The value of a digit string.
pub open spec fn dec_val(s: Seq<char>) -> int
    decreases s.len(),
{
    if s.len() == 0 {
        0
    } else {
        dec_val(s.drop_last()) * 10 + (s.last() as u32 - '0' as u32)
    }
}

pub proof fn lemma_dec_val_nonneg(s: Seq<char>)
    requires
        all_digits(s),
    ensures
        dec_val(s) >= 0,
    decreases s.len(),
{
    if s.len() > 0 {
        assert(all_digits(s.drop_last())) by {
            assert(forall|i: int|
                0 <= i < s.drop_last().len() ==> #[trigger] s.drop_last()[i] == s[i]);
        }
        lemma_dec_val_nonneg(s.drop_last());
        assert(is_digit(s.last()));
    }
}

/// Appending digits never shrinks the value.
pub proof fn lemma_dec_val_take_grows(s: Seq<char>, k: int)
    requires
        all_digits(s),
        0 <= k <= s.len(),
    ensures
        dec_val(s) >= dec_val(s.take(k)),
    decreases s.len() - k,
{
    if k < s.len() {
        assert(s.take(k + 1).drop_last() =~= s.take(k));
        assert(s.take(k + 1).last() == s[k]);
        assert(all_digits(s.take(k))) by {
            assert(forall|i: int| 0 <= i < k ==> #[trigger] s.take(k)[i] == s[i]);
        }
        lemma_dec_val_nonneg(s.take(k));
        assert(dec_val(s.take(k + 1)) == dec_val(s.take(k)) * 10 + (s[k] as u32 - '0' as u32));
        assert(dec_val(s.take(k + 1)) >= dec_val(s.take(k)));
        lemma_dec_val_take_grows(s, k + 1);
        assert(s.take(s.len() as int) =~= s);
    } else {
        assert(s.take(k) =~= s);
    }
}

/// The decimal digits of `n` read back as `n`, and they form a well-formed
/// integer literal.
pub proof fn lemma_dec_digits_val(n: nat)
    ensures
        dec_digits(n).len() >= 1,
        all_digits(dec_digits(n)),
        dec_val(dec_digits(n)) == n,
    decreases n,
{
    if n < 10 {
        assert(dec_digits(n) == seq![hex_digit(n as int)]);
        assert(is_digit(hex_digit(n as int)));
        assert(dec_digits(n).drop_last() =~= Seq::<char>::empty());
        assert(dec_digits(n).last() == hex_digit(n as int));
        assert(dec_val(Seq::<char>::empty()) == 0);
        assert(dec_val(dec_digits(n)) == dec_val(Seq::<char>::empty()) * 10 + (hex_digit(
            n as int,
        ) as u32 - '0' as u32));
        assert(hex_digit(n as int) as u32 - '0' as u32 == n);
    } else {
        lemma_dec_digits_val(n / 10);
        let pre = dec_digits(n / 10);
        let d = hex_digit((n % 10) as int);
        assert(dec_digits(n) == pre + seq![d]);
        assert((pre + seq![d]).drop_last() =~= pre);
        assert((pre + seq![d]).last() == d);
        assert(is_digit(d));
        assert(all_digits(pre + seq![d])) by {
            assert(forall|i: int| 0 <= i < pre.len() ==> #[trigger] (pre + seq![d])[i] == pre[i]);
        }
        assert(d as u32 - '0' as u32 == n % 10);
        assert(dec_val(dec_digits(n)) == dec_val(pre) * 10 + n % 10);
        assert((n / 10) * 10 + n % 10 == n) by {
            vstd::arithmetic::div_mod::lemma_fundamental_div_mod(n as int, 10);
        }
    }
}

/// Digit strings are well-formed numeric literals.
pub proof fn lemma_int_lit_wf(s: Seq<char>)
    requires
        is_int_lit(s),
    ensures
        wf_num_lit(s),
{
    assert(!is_digit('-')) by {
        assert('-' as u32 == 45);
    }
    assert(s[0] != '-');
    lemma_all_digits_len(s);
    assert(s.skip(0int) =~= s);
    assert(digits_len(s) == s.len());
    let p = s.len() as int;
    assert(s.skip(p) =~= Seq::<char>::empty());
    assert(frac_len(Seq::<char>::empty()) == 0);
    assert(exp_len(Seq::<char>::empty()) == 0);
}

proof fn lemma_all_digits_len(s: Seq<char>)
    requires
        all_digits(s),
    ensures
        digits_len(s) == s.len(),
    decreases s.len(),
{
    if s.len() > 0 {
        assert(is_digit(s[0]));
        assert(all_digits(s.drop_first())) by {
            assert(forall|i: int|
                0 <= i < s.drop_first().len() ==> #[trigger] s.drop_first()[i] == s[i + 1]);
        }
        lemma_all_digits_len(s.drop_first());
    }
}

/// Reads a digit string as a `u64`. `None` when the text is not all digits
/// or the value does not fit.
pub fn parse_u64(lit: &str) -> (r: Option<u64>)
    ensures
        match r {
            Some(n) => is_int_lit(lit@) && dec_val(lit@) == n,
            None => !(is_int_lit(lit@) && dec_val(lit@) <= u64::MAX),
        },
{
    let cs = crate::text::chars_of(lit);
    if cs.len() == 0 {
        return None;
    }
    let mut acc: u64 = 0;
    let mut k: usize = 0;
    while k < cs.len()
        invariant
            0 <= k <= cs@.len(),
            cs@ == lit@,
            cs@.len() > 0,
            all_digits(lit@.take(k as int)),
            acc == dec_val(lit@.take(k as int)),
        decreases cs@.len() - k,
    {
        let c = cs[k];
        if !('0' <= c && c <= '9') {
            proof {
                assert(!is_digit(lit@[k as int]));
            }
            return None;
        }
        let d: u64 = ((c as u32) - ('0' as u32)) as u64;
        let wide: u128 = (acc as u128) * 10 + (d as u128);
        if wide > u64::MAX as u128 {
            proof {
                assert(lit@.take(k + 1).drop_last() =~= lit@.take(k as int));
                assert(lit@.take(k + 1).last() == lit@[k as int]);
                assert(all_digits(lit@.take(k + 1))) by {
                    assert(forall|i: int|
                        0 <= i < k + 1 ==> #[trigger] lit@.take(k + 1)[i] == lit@[i]);
                }
                assert(dec_val(lit@.take(k + 1)) > u64::MAX);
                if is_int_lit(lit@) {
                    lemma_dec_val_take_grows(lit@, k + 1);
                }
            }
            return None;
        }
        acc = wide as u64;
        k = k + 1;
        proof {
            assert(lit@.take(k as int).drop_last() =~= lit@.take(k - 1 as int));
            assert(lit@.take(k as int).last() == lit@[k - 1 as int]);
            assert(all_digits(lit@.take(k as int))) by {
                assert(forall|i: int|
                    0 <= i < k ==> #[trigger] lit@.take(k as int)[i] == lit@[i]);
            }
        }
    }
    proof {
        assert(lit@.take(k as int) =~= lit@);
    }
    Some(acc)
}

impl Json {
    /// A structurally equal copy.
    pub fn deep_clone(&self) -> (r: Json)
        ensures
            r@ == self@,
        decreases *self,
    {
        match self {
            Json::Null => Json::Null,
            Json::Bool(b) => Json::Bool(*b),
            Json::Num(s) => Json::Num(s.clone()),
            Json::Str(s) => Json::Str(s.clone()),
            Json::Arr(items) => {
                let mut out: Vec<Json> = Vec::new();
                let mut k: usize = 0;
                proof {
                    lemma_view_items(items@);
                }
                while k < items.len()
                    invariant
                        *self is Arr && self->Arr_0 == *items,
                        k <= items@.len(),
                        view_items(out@) == view_items(items@).take(k as int),
                        view_items(items@).len() == items@.len(),
                        forall|i: int|
                            0 <= i < items@.len() ==> view_items(items@)[i] == #[trigger] items@[i]@,
                    decreases items@.len() - k,
                {
                    proof {
                        assert(self->Arr_0 == *items);
                        assert(decreases_to!(*self => self->Arr_0));
                        assert(decreases_to!(*items => items@));
                        assert(decreases_to!(items@ => items@[k as int]));
                    }
                    let c = items[k].deep_clone();
                    proof {
                        lemma_view_items_push(out@, c);
                    }
                    out.push(c);
                    k = k + 1;
                    proof {
                        assert(view_items(out@) =~= view_items(items@).take(k as int));
                    }
                }
                proof {
                    assert(view_items(items@).take(items@.len() as int) =~= view_items(items@));
                }
                Json::Arr(out)
            },
            Json::Obj(entries) => {
                let mut out: Vec<(String, Json)> = Vec::new();
                let mut k: usize = 0;
                proof {
                    lemma_view_entries(entries@);
                }
                while k < entries.len()
                    invariant
                        *self is Obj && self->Obj_0 == *entries,
                        k <= entries@.len(),
                        view_entries(out@) == view_entries(entries@).take(k as int),
                        view_entries(entries@).len() == entries@.len(),
                        forall|i: int|
                            0 <= i < entries@.len() ==> view_entries(entries@)[i] == (
                            #[trigger] entries@[i].0@,
                            entries@[i].1@,
                            ),
                    decreases entries@.len() - k,
                {
                    proof {
                        assert(self->Obj_0 == *entries);
                        assert(decreases_to!(*self => self->Obj_0));
                        assert(decreases_to!(*entries => entries@));
                        assert(decreases_to!(entries@ => entries@[k as int]));
                        assert(decreases_to!(entries@[k as int] => entries@[k as int].1));
                    }
                    let key = entries[k].0.clone();
                    let val = entries[k].1.deep_clone();
                    proof {
                        lemma_view_entries_push(out@, (key, val));
                    }
                    out.push((key, val));
                    k = k + 1;
                    proof {
                        assert(view_entries(out@) =~= view_entries(entries@).take(k as int));
                    }
                }
                proof {
                    assert(view_entries(entries@).take(entries@.len() as int) =~= view_entries(
                        entries@,
                    ));
                }
                Json::Obj(out)
            },
        }
    }
}

// ---------------------------------------------------------------------------
// Parsing inverts encoding.
// ---------------------------------------------------------------------------

/// Characters that may legally follow an encoded value inside a document.
pub open spec fn safe_follow(rest: Seq<char>) -> bool {
    rest.len() == 0 || rest[0] == ',' || rest[0] == ']' || rest[0] == '}'
}

proof fn lemma_digits_concat(a: Seq<char>, b: Seq<char>)
    ensures
        digits_len(a + b) == if digits_len(a) == a.len() {
            a.len() + digits_len(b)
        } else {
            digits_len(a)
        },
    decreases a.len(),
{
    lemma_digits_len_bounds(a);
    if a.len() == 0 {
        assert(a + b =~= b);
    } else {
        assert((a + b)[0] == a[0]);
        if is_digit(a[0]) {
            assert((a + b).drop_first() =~= a.drop_first() + b);
            lemma_digits_concat(a.drop_first(), b);
            lemma_digits_len_bounds(a.drop_first());
        }
    }
}

proof fn lemma_num_lit_extend(lit: Seq<char>, rest: Seq<char>)
    requires
        wf_num_lit(lit),
        safe_follow(rest),
    ensures
        num_lit_len(lit + rest) == lit.len(),
{
    let s = lit + rest;
    assert(s[0] == lit[0]);
    let g: int = if lit[0] == '-' {
        1
    } else {
        0
    };
    lemma_digits_len_bounds(lit.skip(g));
    let d = digits_len(lit.skip(g));
    assert(d > 0);
    assert(s.skip(g) =~= lit.skip(g) + rest);
    lemma_digits_concat(lit.skip(g), rest);
    if rest.len() > 0 {
        assert(!is_digit(rest[0]));
        assert(digits_len(rest) == 0);
    }
    assert(digits_len(s.skip(g)) == d);
    let p = g + d;
    assert(p <= lit.len());
    assert(s.skip(p) =~= lit.skip(p) + rest);
    let f = frac_len(lit.skip(p));
    lemma_frac_len_bounds(lit.skip(p));
    // the fraction part reads the same in `lit` and in `s`
    if f > 0 {
        assert(lit.skip(p)[0] == '.' && is_digit(lit.skip(p)[1]));
        assert(s.skip(p)[0] == '.' && s.skip(p)[1] == lit.skip(p)[1]);
        assert(s.skip(p).drop_first() =~= lit.skip(p).drop_first() + rest);
        lemma_digits_concat(lit.skip(p).drop_first(), rest);
        lemma_digits_len_bounds(lit.skip(p).drop_first());
        assert(frac_len(s.skip(p)) == f);
    } else {
        if p == lit.len() {
            assert(s.skip(p) =~= rest);
            if rest.len() >= 2 {
                assert(rest[0] != '.');
            }
            assert(frac_len(s.skip(p)) == 0);
        } else {
            assert(s.skip(p)[0] == lit.skip(p)[0]);
            if lit.skip(p)[0] == '.' {
                // no digit follows the dot, in `lit` or in `s`
                if p + 1 < lit.len() {
                    assert(s.skip(p)[1] == lit.skip(p)[1]);
                    assert(!is_digit(s.skip(p)[1]));
                } else {
                    if rest.len() > 0 {
                        assert(s.skip(p)[1] == rest[0]);
                        assert(!is_digit(s.skip(p)[1]));
                    }
                }
                assert(frac_len(s.skip(p)) == 0);
            } else {
                assert(frac_len(s.skip(p)) == 0);
            }
        }
    }
    let q = p + f;
    assert(q <= lit.len());
    assert(s.skip(q) =~= lit.skip(q) + rest);
    let e = exp_len(lit.skip(q));
    lemma_exp_len_bounds(lit.skip(q));
    assert(q + e == lit.len());
    if e > 0 {
        let el = lit.skip(q);
        let es = s.skip(q);
        assert(es[0] == el[0]);
        let sg: int = if el.len() > 1 && (el[1] == '+' || el[1] == '-') {
            1
        } else {
            0
        };
        let d2 = digits_len(el.skip(1 + sg));
        assert(d2 > 0);
        assert(1 + sg < el.len());
        assert(es[1] == el[1]);
        let sg_s: int = if es.len() > 1 && (es[1] == '+' || es[1] == '-') {
            1
        } else {
            0
        };
        assert(sg_s == sg);
        assert(es.skip(1 + sg) =~= el.skip(1 + sg) + rest);
        lemma_digits_concat(el.skip(1 + sg), rest);
        lemma_digits_len_bounds(el.skip(1 + sg));
        assert(digits_len(es.skip(1 + sg)) == d2);
        assert(exp_len(es) == e);
    } else {
        assert(q == lit.len());
        assert(s.skip(q) =~= rest);
        if rest.len() > 0 {
            assert(rest[0] != 'e' && rest[0] != 'E');
        }
        assert(exp_len(s.skip(q)) == 0);
    }
    assert(num_lit_len(s) == g + d + f + e);
}

proof fn lemma_hex_digit_val(x: int)
    requires
        0 <= x < 16,
    ensures
        is_hex(hex_digit(x)),
        hex_val(hex_digit(x)) == x,
{
}

proof fn lemma_sp_str_body_enc(content: Seq<char>, rest: Seq<char>)
    ensures
        sp_str_body(enc_str_body(content) + seq!['"'] + rest) == Some(
            (content, enc_str_body(content).len() as int + 1),
        ),
    decreases content.len(),
{
    let s = enc_str_body(content) + seq!['"'] + rest;
    if content.len() == 0 {
        assert(enc_str_body(content) == Seq::<char>::empty());
        assert(s[0] == '"');
        assert(content =~= Seq::<char>::empty());
    } else {
        let c = content[0];
        let tail = content.drop_first();
        assert(enc_str_body(content) == esc_char(c) + enc_str_body(tail));
        let s_tail = enc_str_body(tail) + seq!['"'] + rest;
        lemma_sp_str_body_enc(tail, rest);
        if c == '"' {
            assert(s[0] == '\\' && s[1] == '"');
            assert(s.skip(2) =~= s_tail);
            assert(unescape_short('"') == Some('"'));
            assert(seq![c] + tail =~= content);
        } else if c == '\\' {
            assert(s[0] == '\\' && s[1] == '\\');
            assert(s.skip(2) =~= s_tail);
            assert(seq![c] + tail =~= content);
        } else if (c as u32) < 0x20 {
            let hi = (c as u32) as int / 16;
            let lo = (c as u32) as int % 16;
            assert(esc_char(c) == seq!['\\', 'u', '0', '0', hex_digit(hi), hex_digit(lo)]);
            assert(s[0] == '\\' && s[1] == 'u' && s[2] == '0' && s[3] == '0' && s[4] == hex_digit(
                hi,
            ) && s[5] == hex_digit(lo));
            assert(0 <= hi < 16 && 0 <= lo < 16) by {
                assert((c as u32) < 0x20);
            }
            lemma_hex_digit_val(hi);
            lemma_hex_digit_val(lo);
            assert(is_hex('0') && hex_val('0') == 0);
            let v = hex_val(s[2]) * 0x1000 + hex_val(s[3]) * 0x100 + hex_val(s[4]) * 0x10 + hex_val(
                s[5],
            );
            assert(v == hi * 16 + lo);
            assert(v == c as u32) by {
                vstd::arithmetic::div_mod::lemma_fundamental_div_mod(c as u32 as int, 16);
            }
            assert(!(0xD800 <= v && v < 0xE000));
            assert((v as char) == c) by {
                vstd::utf8::char_u32_cast(c, c as u32);
            }
            assert(s.skip(6) =~= s_tail);
            assert(seq![c] + tail =~= content);
            assert(sp_str_body(s) == Some((content, 6 + enc_str_body(tail).len() as int + 1)));
        } else {
            assert(esc_char(c) == seq![c]);
            assert(s[0] == c);
            assert(s.skip(1) =~= s_tail);
            assert(seq![c] + tail =~= content);
        }
    }
}

/// The first character of an encoded well-formed value: one of the value
/// openers, so never whitespace and never a closer or separator.
proof fn lemma_enc_value_first(v: JsonV)
    requires
        wf_json(v),
    ensures
        enc_value(v).len() >= 1,
        enc_value(v)[0] == 'n' || enc_value(v)[0] == 't' || enc_value(v)[0] == 'f' || enc_value(
            v,
        )[0] == '"' || enc_value(v)[0] == '-' || is_digit(enc_value(v)[0]) || enc_value(v)[0] == '['
            || enc_value(v)[0] == '{',
{
    match v {
        JsonV::Null => {},
        JsonV::Bool(b) => {},
        JsonV::Num(lit) => {
            assert(lit.len() >= 1);
            if lit[0] != '-' {
                assert(num_lit_len(lit) == lit.len());
                if digits_len(lit.skip(0int)) == 0 {
                    assert(num_lit_len(lit) == 0);
                    assert(false);
                }
                assert(lit.skip(0int) =~= lit);
                assert(is_digit(lit[0]));
            }
        },
        JsonV::Str(s) => {
            assert(enc_value(v)[0] == '"');
        },
        JsonV::Arr(items) => {
            assert(enc_value(v)[0] == '[');
        },
        JsonV::Obj(entries) => {
            assert(enc_value(v)[0] == '{');
        },
    }
}

#[verifier::rlimit(100)]
#[verifier::spinoff_prover]
proof fn lemma_enc_value_parses(v: JsonV, rest: Seq<char>, fuel: nat)
    requires
        wf_json(v),
        safe_follow(rest),
        fuel >= 2 * (enc_value(v) + rest).len() + 2,
    ensures
        sp_value(enc_value(v) + rest, fuel) == Some((v, enc_value(v).len() as int)),
    decreases v,
{
    let e = enc_value(v);
    let s = e + rest;
    lemma_enc_value_first(v);
    assert(s[0] == e[0]);
    assert(!is_ws(s[0]));
    assert(ws_len(s) == 0);
    assert(s.skip(0int) =~= s);
    match v {
        JsonV::Null => {
            assert(s[0] == 'n' && s[1] == 'u' && s[2] == 'l' && s[3] == 'l');
        },
        JsonV::Bool(b) => {
            if b {
                assert(s[0] == 't' && s[1] == 'r' && s[2] == 'u' && s[3] == 'e');
            } else {
                assert(s[0] == 'f' && s[1] == 'a' && s[2] == 'l' && s[3] == 's' && s[4] == 'e');
            }
        },
        JsonV::Num(lit) => {
            lemma_num_lit_extend(lit, rest);
            assert(s[0] == '-' || is_digit(s[0]));
            assert(num_lit_len(s) == lit.len());
            assert(s.take(lit.len() as int) =~= lit);
        },
        JsonV::Str(content) => {
            assert(s[0] == '"');
            assert(s.skip(1) =~= enc_str_body(content) + seq!['"'] + rest);
            lemma_sp_str_body_enc(content, rest);
        },
        JsonV::Arr(items) => {
            assert(s[0] == '[');
            if items.len() == 0 {
                assert(enc_items(items) == Seq::<char>::empty());
                assert(e =~= seq!['['] + seq![']']);
                assert(s.skip(1) =~= seq![']'] + rest);
                assert(s.skip(1)[0] == ']');
                assert(ws_len(s.skip(1)) == 0);
                assert(s[1] == ']');
                assert(items =~= Seq::<JsonV>::empty());
            } else {
                assert(wf_json(items[0]));
                lemma_enc_value_first(items[0]);
                let s1 = enc_items(items) + seq![']'] + rest;
                assert(s.skip(1) =~= s1);
                if items.len() == 1 {
                    assert(enc_items(items) == enc_value(items[0]));
                } else {
                    assert(enc_items(items) == enc_value(items[0]) + seq![','] + enc_items(
                        items.drop_first(),
                    ));
                }
                assert(s1[0] == enc_value(items[0])[0]);
                assert(!is_ws(s1[0]));
                assert(ws_len(s1) == 0);
                assert(s1[0] != ']');
                assert(s[1] == s1[0]);
                                    assert(decreases_to!(v => items));
                lemma_enc_items_parses(items, rest, (fuel - 1) as nat);
                assert(sp_items(s.skip(1), (fuel - 1) as nat) == Some(
                    (items, enc_items(items).len() as int + 1),
                ));
            }
        },
        JsonV::Obj(entries) => {
            assert(s[0] == '{');
            if entries.len() == 0 {
                assert(enc_entries(entries) == Seq::<char>::empty());
                assert(e =~= seq!['{'] + seq!['}']);
                assert(s.skip(1) =~= seq!['}'] + rest);
                assert(s.skip(1)[0] == '}');
                assert(ws_len(s.skip(1)) == 0);
                assert(s[1] == '}');
                assert(entries =~= Seq::<(Seq<char>, JsonV)>::empty());
            } else {
                let s1 = enc_entries(entries) + seq!['}'] + rest;
                assert(s.skip(1) =~= s1);
                if entries.len() == 1 {
                    assert(enc_entries(entries) == enc_entry(entries[0]));
                } else {
                    assert(enc_entries(entries) == enc_entry(entries[0]) + seq![','] + enc_entries(
                        entries.drop_first(),
                    ));
                }
                assert(enc_entry(entries[0]) == enc_string(entries[0].0) + seq![':'] + enc_value(
                    entries[0].1,
                ));
                assert(enc_entry(entries[0])[0] == '"');
                assert(s1[0] == '"');
                assert(ws_len(s1) == 0);
                assert(s1[0] != '}');
                assert(s[1] == s1[0]);
                                    assert(decreases_to!(v => entries));
                lemma_enc_entries_parses(entries, rest, (fuel - 1) as nat);
                assert(sp_entries(s.skip(1), (fuel - 1) as nat) == Some(
                    (entries, enc_entries(entries).len() as int + 1),
                ));
            }
        },
    }
}

#[verifier::rlimit(100)]
#[verifier::spinoff_prover]
proof fn lemma_enc_items_parses(items: Seq<JsonV>, rest: Seq<char>, fuel: nat)
    requires
        items.len() >= 1,
        forall|i: int| 0 <= i < items.len() ==> wf_json(#[trigger] items[i]),
        safe_follow(rest),
        fuel >= 2 * (enc_items(items) + seq![']'] + rest).len() + 3,
    ensures
        sp_items(enc_items(items) + seq![']'] + rest, fuel) == Some(
            (items, enc_items(items).len() as int + 1),
        ),
    decreases items,
{
    let s = enc_items(items) + seq![']'] + rest;
    let v0 = items[0];
    assert(wf_json(v0));
    let el = enc_value(v0).len() as int;
    if items.len() == 1 {
        assert(enc_items(items) == enc_value(v0));
        let rest1 = seq![']'] + rest;
        assert(s =~= enc_value(v0) + rest1);
        assert(rest1[0] == ']');
                    assert(decreases_to!(items => items[0]));
        lemma_enc_value_parses(v0, rest1, (fuel - 1) as nat);
        assert(sp_value(s, (fuel - 1) as nat) == Some((v0, el)));
        assert(s.skip(el) =~= rest1);
        assert(ws_len(rest1) == 0);
        assert(s[el] == ']');
        assert(seq![v0] =~= items);
    } else {
        let tail = items.drop_first();
        assert(enc_items(items) == enc_value(v0) + seq![','] + enc_items(tail));
        let rest1 = seq![','] + enc_items(tail) + seq![']'] + rest;
        assert(s =~= enc_value(v0) + rest1);
        assert(rest1[0] == ',');
                    assert(decreases_to!(items => items[0]));
        lemma_enc_value_parses(v0, rest1, (fuel - 1) as nat);
        assert(sp_value(s, (fuel - 1) as nat) == Some((v0, el)));
        assert(s.skip(el) =~= rest1);
        assert(ws_len(rest1) == 0);
        assert(s[el] == ',');
        assert(s.skip(el + 1) =~= enc_items(tail) + seq![']'] + rest);
        assert(forall|i: int| 0 <= i < tail.len() ==> wf_json(#[trigger] tail[i])) by {
            assert(forall|i: int| 0 <= i < tail.len() ==> #[trigger] tail[i] == items[i + 1]);
        }
        lemma_enc_items_parses(tail, rest, (fuel - 1) as nat);
        assert(seq![v0] + tail =~= items);
        assert(sp_items(s, fuel) == Some(
            (items, el + 1 + (enc_items(tail).len() as int + 1)),
        ));
        assert(enc_items(items).len() == el + 1 + enc_items(tail).len());
    }
}

#[verifier::rlimit(100)]
#[verifier::spinoff_prover]
proof fn lemma_enc_entries_parses(entries: Seq<(Seq<char>, JsonV)>, rest: Seq<char>, fuel: nat)
    requires
        entries.len() >= 1,
        forall|i: int| 0 <= i < entries.len() ==> wf_json(#[trigger] entries[i].1),
        safe_follow(rest),
        fuel >= 2 * (enc_entries(entries) + seq!['}'] + rest).len() + 3,
    ensures
        sp_entries(enc_entries(entries) + seq!['}'] + rest, fuel) == Some(
            (entries, enc_entries(entries).len() as int + 1),
        ),
    decreases entries,
{
    let s = enc_entries(entries) + seq!['}'] + rest;
    let kv = entries[0];
    let k0 = kv.0;
    let v0 = kv.1;
    assert(wf_json(v0));
    assert(enc_entry(kv) == enc_string(k0) + seq![':'] + enc_value(v0));
    let ebl = enc_str_body(k0).len() as int;
    let el = enc_value(v0).len() as int;
    let x: Seq<char> = if entries.len() == 1 {
        seq!['}'] + rest
    } else {
        seq![','] + enc_entries(entries.drop_first()) + seq!['}'] + rest
    };
    if entries.len() == 1 {
        assert(enc_entries(entries) == enc_entry(kv));
    } else {
        assert(enc_entries(entries) == enc_entry(kv) + seq![','] + enc_entries(
            entries.drop_first(),
        ));
    }
    assert(s =~= enc_string(k0) + seq![':'] + enc_value(v0) + x);
    assert(s[0] == '"');
    assert(ws_len(s) == 0);
    assert(s.skip(0int) =~= s);
    // the key
    let rst2 = seq![':'] + enc_value(v0) + x;
    assert(s.skip(1) =~= enc_str_body(k0) + seq!['"'] + rst2);
    lemma_sp_str_body_enc(k0, rst2);
    assert(sp_str_body(s.skip(1)) == Some((k0, ebl + 1)));
    let kn = ebl + 1;
    assert(s.skip(1 + kn) =~= rst2);
    assert(ws_len(rst2) == 0);
    let p = 1 + kn;
    assert(s[p] == ':');
    // the value
    assert(s.skip(p + 1) =~= enc_value(v0) + x);
    assert(safe_follow(x));
            assert(decreases_to!(entries => entries[0]));
        assert(decreases_to!(entries[0] => entries[0].1));
    lemma_enc_value_parses(v0, x, (fuel - 1) as nat);
    let q = p + 1 + el;
    assert(q == enc_entry(kv).len());
    assert(s.skip(q) =~= x);
    assert(ws_len(x) == 0);
    assert(s[q] == x[0]);
    if entries.len() == 1 {
        assert(s[q] == '}');
        assert(seq![(k0, v0)] =~= entries);
        assert(sp_entries(s, fuel) == Some((seq![(k0, v0)], q + 1)));
    } else {
        assert(s[q] == ',');
        let tail = entries.drop_first();
        assert(s.skip(q + 1) =~= enc_entries(tail) + seq!['}'] + rest);
        assert(forall|i: int| 0 <= i < tail.len() ==> wf_json(#[trigger] tail[i].1)) by {
            assert(forall|i: int| 0 <= i < tail.len() ==> #[trigger] tail[i] == entries[i + 1]);
        }
        lemma_enc_entries_parses(tail, rest, (fuel - 1) as nat);
        assert(seq![(k0, v0)] + tail =~= entries);
        assert(sp_entries(s, fuel) == Some(
            (entries, q + 1 + (enc_entries(tail).len() as int + 1)),
        ));
        assert(enc_entries(entries).len() == q + 1 + enc_entries(tail).len());
    }
}

/// Parsing inverts encoding: a well-formed document reads back as itself.
pub proof fn lemma_json_round_trip(v: JsonV)
    requires
        wf_json(v),
    ensures
        sp_json(enc_value(v)) == Some(v),
{
    let s = enc_value(v);
    assert(s + Seq::<char>::empty() =~= s);
    assert(safe_follow(Seq::<char>::empty()));
    lemma_enc_value_parses(v, Seq::empty(), sp_fuel(s.len() as int));
    assert(sp_value(s, sp_fuel(s.len() as int)) == Some((v, s.len() as int)));
    assert(s.skip(s.len() as int) =~= Seq::<char>::empty());
    assert(ws_len(Seq::<char>::empty()) == 0);
}

/// Parses a string as one JSON document: a single value, possibly surrounded
/// by whitespace. Returns `None` exactly when the text is not in the grammar
/// `sp_json` describes.
pub fn parse_json(s: &str) -> (r: Option<Json>)
    ensures
        match r {
            Some(j) => sp_json(s@) == Some(j@),
            None => sp_json(s@) is None,
        },
{
    let cs = crate::text::chars_of(s);
    proof {
        assert(cs@.skip(0) =~= s@);
    }
    match parse_value(&cs, 0) {
        Some((j, n)) => {
            let e = skip_ws(&cs, n);
            if e == cs.len() {
                Some(j)
            } else {
                proof {
                    lemma_ws_len_bounds(s@.skip(n as int));
                }
                None
            }
        },
        None => None,
    }
}

} // verus!
