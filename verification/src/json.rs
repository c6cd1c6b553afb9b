//! The wire grammar: the tree of JSON values this protocol carries, its
//! mathematical view, the canonical serialization, and the parser, each
//! defined as spec-level functions that the executable codec is proved
//! against. The value space is what the protocol needs: unsigned numbers,
//! byte strings, arrays and objects, plus `null` and booleans (which the
//! parser accepts and the schema then refuses field by field). Strings
//! carry the standard escapes in both directions. Numbers beyond an
//! unsigned 64-bit integer — negatives, fractions, exponents — parse as
//! raw tokens that the schema then refuses field by field.
use vstd::prelude::*;

use crate::codec::dec_rep;

verus! {

/// One JSON value as it stands on the wire. A number beyond an unsigned
/// 64-bit integer — negative, fractional or with an exponent — is kept as
/// the raw text of its token (`NumText`); the message schema then refuses
/// it wherever a field needs a value.
pub enum Json {
    Null,
    Bool(bool),
    Num(u64),
    NumText(Vec<u8>),
    Str(Vec<u8>),
    Arr(Vec<Json>),
    Obj(Vec<(Vec<u8>, Json)>),
}

/// Mathematical shape of a [`Json`] value.
pub enum JsonV {
    Null,
    Bool(bool),
    Num(u64),
    NumText(Seq<u8>),
    Str(Seq<u8>),
    Arr(Seq<JsonV>),
    Obj(Seq<(Seq<u8>, JsonV)>),
}

impl Json {
    pub open spec fn jv(self) -> JsonV
        decreases self,
    {
        match self {
            Json::Null => JsonV::Null,
            Json::Bool(b) => JsonV::Bool(b),
            Json::Num(n) => JsonV::Num(n),
            Json::NumText(t) => JsonV::NumText(t@),
            Json::Str(s) => JsonV::Str(s@),
            Json::Arr(v) => JsonV::Arr(jv_elems(v@)),
            Json::Obj(v) => JsonV::Obj(jv_entries(v@)),
        }
    }
}

pub open spec fn jv_elems(s: Seq<Json>) -> Seq<JsonV>
    decreases s,
{
    if s.len() == 0 {
        Seq::empty()
    } else {
        jv_elems(s.drop_last()).push(s.last().jv())
    }
}

pub open spec fn jv_entries(s: Seq<(Vec<u8>, Json)>) -> Seq<(Seq<u8>, JsonV)>
    decreases s,
{
    if s.len() == 0 {
        Seq::empty()
    } else {
        jv_entries(s.drop_last()).push((s.last().0@, s.last().1.jv()))
    }
}

/// `jv_elems` is the elementwise view.
pub proof fn lemma_jv_elems(s: Seq<Json>)
    ensures
        jv_elems(s).len() == s.len(),
        forall|i: int| 0 <= i < s.len() ==> jv_elems(s)[i] == s[i].jv(),
    decreases s,
{
    if s.len() > 0 {
        lemma_jv_elems(s.drop_last());
    }
}

/// `jv_entries` is the elementwise view.
pub proof fn lemma_jv_entries(s: Seq<(Vec<u8>, Json)>)
    ensures
        jv_entries(s).len() == s.len(),
        forall|i: int| 0 <= i < s.len() ==> jv_entries(s)[i] == (s[i].0@, s[i].1.jv()),
    decreases s,
{
    if s.len() > 0 {
        lemma_jv_entries(s.drop_last());
    }
}

pub const QUOTE: u8 = 34;

pub const BACKSLASH: u8 = 92;

pub const LBRACE: u8 = 123;

pub const RBRACE: u8 = 125;

pub const LBRACKET: u8 = 91;

pub const RBRACKET: u8 = 93;

pub const COMMA: u8 = 44;

pub const COLON: u8 = 58;

/// JSON insignificant whitespace.
pub open spec fn is_ws(b: u8) -> bool {
    b == 32 || b == 9 || b == 10 || b == 13
}

/// An ASCII decimal digit.
pub open spec fn is_digit(b: u8) -> bool {
    48 <= b <= 57
}

/// The lower-case hex digit for a value below sixteen.
pub open spec fn hex_digit(n: u8) -> u8 {
    if n < 10 {
        (48 + n) as u8
    } else {
        (87 + n) as u8
    }
}

/// An ASCII hex digit, either case.
pub open spec fn is_hex(b: u8) -> bool {
    48 <= b <= 57 || 97 <= b <= 102 || 65 <= b <= 70
}

/// The value of an ASCII hex digit.
pub open spec fn hex_val(b: u8) -> int {
    if 48 <= b <= 57 {
        b - 48
    } else if 97 <= b <= 102 {
        b - 87
    } else {
        b - 55
    }
}

/// The byte a short escape letter stands for: `\b`, `\f`, `\n`, `\r`,
/// `\t`.
pub open spec fn esc_code(c: u8) -> Option<u8> {
    if c == 98 {
        Some(8u8)
    } else if c == 102 {
        Some(12u8)
    } else if c == 110 {
        Some(10u8)
    } else if c == 114 {
        Some(13u8)
    } else if c == 116 {
        Some(9u8)
    } else {
        None
    }
}

/// The UTF-8 bytes of a code point above 0xFFFF.
pub open spec fn utf8_enc4(c: int) -> Seq<u8> {
    seq![
        (0xF0 + c / 262144) as u8,
        (0x80 + (c / 4096) % 64) as u8,
        (0x80 + (c / 64) % 64) as u8,
        (0x80 + c % 64) as u8,
    ]
}

/// The UTF-8 bytes of a code point below 0x10000.
pub open spec fn utf8_enc(v: int) -> Seq<u8> {
    if v < 0x80 {
        seq![v as u8]
    } else if v < 0x800 {
        seq![(0xC0 + v / 64) as u8, (0x80 + v % 64) as u8]
    } else {
        seq![
            (0xE0 + v / 4096) as u8,
            (0x80 + (v / 64) % 64) as u8,
            (0x80 + v % 64) as u8,
        ]
    }
}

/// How one byte of string content is written: quotes and backslashes get
/// their own escapes, control bytes a `\u00XX` escape, everything else
/// passes through.
pub open spec fn esc1(b: u8) -> Seq<u8> {
    if b == QUOTE || b == BACKSLASH {
        seq![BACKSLASH, b]
    } else if b < 32 {
        seq![BACKSLASH, 117u8, 48u8, 48u8, hex_digit(b / 16), hex_digit(b % 16)]
    } else {
        seq![b]
    }
}

/// How string content is written: every quote, backslash and control
/// byte escaped.
pub open spec fn esc_bytes(s: Seq<u8>) -> Seq<u8>
    decreases s.len(),
{
    if s.len() == 0 {
        Seq::empty()
    } else {
        esc1(s[0]) + esc_bytes(s.drop_first())
    }
}

/// How a string is written: quoted and escaped.
pub open spec fn ser_str(s: Seq<u8>) -> Seq<u8> {
    seq![QUOTE] + esc_bytes(s) + seq![QUOTE]
}

/// Canonical serialization of a value: no insignificant whitespace, object
/// entries in the order given.
pub open spec fn ser_value(v: JsonV) -> Seq<u8>
    decreases v,
{
    match v {
        JsonV::Null => seq![110u8, 117u8, 108u8, 108u8],
        JsonV::Bool(b) => if b {
            seq![116u8, 114u8, 117u8, 101u8]
        } else {
            seq![102u8, 97u8, 108u8, 115u8, 101u8]
        },
        JsonV::Num(n) => dec_rep(n as nat),
        JsonV::NumText(t) => t,
        JsonV::Str(s) => ser_str(s),
        JsonV::Arr(items) => seq![LBRACKET] + ser_items(items) + seq![RBRACKET],
        JsonV::Obj(ents) => seq![LBRACE] + ser_ents(ents) + seq![RBRACE],
    }
}

/// Array items, comma-separated.
pub open spec fn ser_items(items: Seq<JsonV>) -> Seq<u8>
    decreases items,
{
    if items.len() == 0 {
        Seq::empty()
    } else {
        ser_value(items.first()) + ser_items_tail(items.drop_first())
    }
}

pub open spec fn ser_items_tail(items: Seq<JsonV>) -> Seq<u8>
    decreases items,
{
    if items.len() == 0 {
        Seq::empty()
    } else {
        seq![COMMA] + ser_value(items.first()) + ser_items_tail(items.drop_first())
    }
}

/// Object entries, comma-separated `key:value` pairs.
pub open spec fn ser_ents(ents: Seq<(Seq<u8>, JsonV)>) -> Seq<u8>
    decreases ents,
{
    if ents.len() == 0 {
        Seq::empty()
    } else {
        ser_str(ents.first().0) + seq![COLON] + ser_value(ents.first().1) + ser_ents_tail(
            ents.drop_first(),
        )
    }
}

pub open spec fn ser_ents_tail(ents: Seq<(Seq<u8>, JsonV)>) -> Seq<u8>
    decreases ents,
{
    if ents.len() == 0 {
        Seq::empty()
    } else {
        seq![COMMA] + ser_str(ents.first().0) + seq![COLON] + ser_value(ents.first().1)
            + ser_ents_tail(ents.drop_first())
    }
}

/// Values the canonical serializer is faithful on: everything the schema
/// ever produces. A raw `NumText` token only arises from parsing and has
/// no canonical form of its own.
pub open spec fn no_numtext(v: JsonV) -> bool
    decreases v,
{
    match v {
        JsonV::NumText(_) => false,
        JsonV::Arr(items) => no_numtext_items(items),
        JsonV::Obj(ents) => no_numtext_ents(ents),
        _ => true,
    }
}

pub open spec fn no_numtext_items(s: Seq<JsonV>) -> bool
    decreases s,
{
    if s.len() == 0 {
        true
    } else {
        no_numtext_items(s.drop_last()) && no_numtext(s.last())
    }
}

pub open spec fn no_numtext_ents(s: Seq<(Seq<u8>, JsonV)>) -> bool
    decreases s,
{
    if s.len() == 0 {
        true
    } else {
        no_numtext_ents(s.drop_last()) && no_numtext(s.last().1)
    }
}

/// A list is in the serializer's domain when each item is.
pub proof fn lemma_no_numtext_items(s: Seq<JsonV>)
    requires
        forall|i: int| 0 <= i < s.len() ==> no_numtext(#[trigger] s[i]),
    ensures
        no_numtext_items(s),
    decreases s.len(),
{
    if s.len() > 0 {
        assert(forall|i: int| 0 <= i < s.len() - 1 ==> s.drop_last()[i] == s[i]);
        lemma_no_numtext_items(s.drop_last());
    }
}

/// An entry list is in the serializer's domain when each value is.
pub proof fn lemma_no_numtext_ents(s: Seq<(Seq<u8>, JsonV)>)
    requires
        forall|i: int| 0 <= i < s.len() ==> no_numtext((#[trigger] s[i]).1),
    ensures
        no_numtext_ents(s),
    decreases s.len(),
{
    if s.len() > 0 {
        assert(forall|i: int| 0 <= i < s.len() - 1 ==> s.drop_last()[i] == s[i]);
        lemma_no_numtext_ents(s.drop_last());
    }
}

proof fn lemma_no_numtext_items_split(items: Seq<JsonV>)
    requires
        no_numtext_items(items),
        items.len() >= 1,
    ensures
        no_numtext(items.first()),
        no_numtext_items(items.drop_first()),
    decreases items.len(),
{
    if items.len() == 1 {
        assert(items.first() == items.last());
    } else {
        lemma_no_numtext_items_split(items.drop_last());
        assert(items.drop_last().first() == items.first());
        assert(items.drop_first().drop_last() =~= items.drop_last().drop_first());
        assert(items.drop_first().last() == items.last());
    }
}

proof fn lemma_no_numtext_ents_split(ents: Seq<(Seq<u8>, JsonV)>)
    requires
        no_numtext_ents(ents),
        ents.len() >= 1,
    ensures
        no_numtext(ents.first().1),
        no_numtext_ents(ents.drop_first()),
    decreases ents.len(),
{
    if ents.len() == 1 {
        assert(ents.first() == ents.last());
    } else {
        lemma_no_numtext_ents_split(ents.drop_last());
        assert(ents.drop_last().first() == ents.first());
        assert(ents.drop_first().drop_last() =~= ents.drop_last().drop_first());
        assert(ents.drop_first().last() == ents.last());
    }
}

/// First position at or after `i` holding no whitespace.
pub open spec fn ws_end(s: Seq<u8>, i: int) -> int
    decreases s.len() - i,
{
    if 0 <= i < s.len() && is_ws(s[i]) {
        ws_end(s, i + 1)
    } else {
        i
    }
}

/// First position at or after `i` holding no digit.
pub open spec fn num_end(s: Seq<u8>, i: int) -> int
    decreases s.len() - i,
{
    if 0 <= i < s.len() && is_digit(s[i]) {
        num_end(s, i + 1)
    } else {
        i
    }
}

/// Value of the digit run in `[i, j)`.
pub open spec fn dec_val(s: Seq<u8>, i: int, j: int) -> int
    decreases j - i,
{
    if j <= i {
        0
    } else {
        dec_val(s, i, j - 1) * 10 + (s[j - 1] as int - 48)
    }
}

/// End of an optional fraction part at `j`: a dot must be followed by at
/// least one digit.
pub open spec fn frac_end(s: Seq<u8>, j: int) -> Option<int> {
    if 0 <= j < s.len() && s[j] == 46 {
        if num_end(s, j + 1) <= j + 1 {
            None
        } else {
            Some(num_end(s, j + 1))
        }
    } else {
        Some(j)
    }
}

/// End of an optional exponent part at `j`: `e`/`E`, an optional sign, and
/// at least one digit.
pub open spec fn exp_end(s: Seq<u8>, j: int) -> Option<int> {
    if 0 <= j < s.len() && (s[j] == 101 || s[j] == 69) {
        if j + 1 < s.len() && (s[j + 1] == 43 || s[j + 1] == 45) {
            if num_end(s, j + 2) <= j + 2 {
                None
            } else {
                Some(num_end(s, j + 2))
            }
        } else {
            if num_end(s, j + 1) <= j + 1 {
                None
            } else {
                Some(num_end(s, j + 1))
            }
        }
    } else {
        Some(j)
    }
}

/// Parses a number at `i`: a plain digit run in range becomes a value, any
/// other well-formed number token (negative, fractional, exponent, or
/// beyond the unsigned 64-bit range) is kept as its raw text.
pub open spec fn sp_num(s: Seq<u8>, i: int) -> Option<(JsonV, int)> {
    let d0 = if 0 <= i < s.len() && s[i] == 45 {
        i + 1
    } else {
        i
    };
    let j = num_end(s, d0);
    if j <= d0 {
        None
    } else {
        match frac_end(s, j) {
            None => None,
            Some(f) => match exp_end(s, f) {
                None => None,
                Some(g) => {
                    if d0 == i && f == j && g == j && dec_val(s, i, j) <= u64::MAX as int {
                        Some((JsonV::Num(dec_val(s, i, j) as u64), j))
                    } else {
                        Some((JsonV::NumText(s.subrange(i, g)), g))
                    }
                },
            },
        }
    }
}

/// Parses string content from `i` up to and including the closing quote:
/// raw bytes above the control range, the `\"` `\\` `\/` `\b` `\f` `\n`
/// `\r` `\t` escapes, and `\uXXXX` decoded to UTF-8 (a high surrogate
/// must pair with a following low one; lone surrogates are refused).
pub open spec fn sp_str_body(s: Seq<u8>, i: int) -> Option<(Seq<u8>, int)>
    decreases s.len() - i,
{
    if i < 0 || i >= s.len() {
        None
    } else if s[i] == QUOTE {
        Some((Seq::empty(), i + 1))
    } else if s[i] == BACKSLASH {
        if i + 1 >= s.len() {
            None
        } else if s[i + 1] == QUOTE || s[i + 1] == BACKSLASH || s[i + 1] == 47 {
            match sp_str_body(s, i + 2) {
                Some((t, e)) => Some((seq![s[i + 1]] + t, e)),
                None => None,
            }
        } else if esc_code(s[i + 1]) is Some {
            match sp_str_body(s, i + 2) {
                Some((t, e)) => Some((seq![esc_code(s[i + 1])->0] + t, e)),
                None => None,
            }
        } else if s[i + 1] == 117 {
            if i + 5 < s.len() && is_hex(s[i + 2]) && is_hex(s[i + 3]) && is_hex(s[i + 4])
                && is_hex(s[i + 5]) {
                let v = hex_val(s[i + 2]) * 4096 + hex_val(s[i + 3]) * 256 + hex_val(
                    s[i + 4],
                ) * 16 + hex_val(s[i + 5]);
                if 0xD800 <= v < 0xDC00 {
                    if i + 11 < s.len() && s[i + 6] == BACKSLASH && s[i + 7] == 117 && is_hex(
                        s[i + 8],
                    ) && is_hex(s[i + 9]) && is_hex(s[i + 10]) && is_hex(s[i + 11]) {
                        let w = hex_val(s[i + 8]) * 4096 + hex_val(s[i + 9]) * 256 + hex_val(
                            s[i + 10],
                        ) * 16 + hex_val(s[i + 11]);
                        if 0xDC00 <= w < 0xE000 {
                            match sp_str_body(s, i + 12) {
                                Some((t, e)) => Some(
                                    (utf8_enc4(
                                        0x10000 + (v - 0xD800) * 1024 + (w - 0xDC00),
                                    ) + t, e),
                                ),
                                None => None,
                            }
                        } else {
                            None
                        }
                    } else {
                        None
                    }
                } else if 0xDC00 <= v < 0xE000 {
                    None
                } else {
                    match sp_str_body(s, i + 6) {
                        Some((t, e)) => Some((utf8_enc(v) + t, e)),
                        None => None,
                    }
                }
            } else {
                None
            }
        } else {
            None
        }
    } else if s[i] >= 32 {
        match sp_str_body(s, i + 1) {
            Some((t, e)) => Some((seq![s[i]] + t, e)),
            None => None,
        }
    } else {
        None
    }
}

/// Parses one value at `i`, after optional whitespace.
pub open spec fn sp_value(s: Seq<u8>, i: int) -> Option<(JsonV, int)>
    decreases s.len() - i, 0int,
{
    let j = ws_end(s, i);
    if j < i || j >= s.len() {
        None
    } else {
        let b = s[j];
        if is_digit(b) || b == 45 {
            sp_num(s, j)
        } else if b == QUOTE {
            match sp_str_body(s, j + 1) {
                Some((t, e)) => Some((JsonV::Str(t), e)),
                None => None,
            }
        } else if b == LBRACKET {
            let k = ws_end(s, j + 1);
            if k < j + 1 || k >= s.len() {
                None
            } else if s[k] == RBRACKET {
                Some((JsonV::Arr(Seq::empty()), k + 1))
            } else {
                match sp_items(s, j + 1) {
                    Some((items, e)) => Some((JsonV::Arr(items), e)),
                    None => None,
                }
            }
        } else if b == LBRACE {
            let k = ws_end(s, j + 1);
            if k < j + 1 || k >= s.len() {
                None
            } else if s[k] == RBRACE {
                Some((JsonV::Obj(Seq::empty()), k + 1))
            } else {
                match sp_ents(s, j + 1) {
                    Some((ents, e)) => Some((JsonV::Obj(ents), e)),
                    None => None,
                }
            }
        } else if b == 110 {
            if j + 4 <= s.len() && s[j + 1] == 117 && s[j + 2] == 108 && s[j + 3] == 108 {
                Some((JsonV::Null, j + 4))
            } else {
                None
            }
        } else if b == 116 {
            if j + 4 <= s.len() && s[j + 1] == 114 && s[j + 2] == 117 && s[j + 3] == 101 {
                Some((JsonV::Bool(true), j + 4))
            } else {
                None
            }
        } else if b == 102 {
            if j + 5 <= s.len() && s[j + 1] == 97 && s[j + 2] == 108 && s[j + 3] == 115
                && s[j + 4] == 101 {
                Some((JsonV::Bool(false), j + 5))
            } else {
                None
            }
        } else {
            None
        }
    }
}

/// Parses the items of a non-empty array from `i`, up to and including the
/// closing bracket.
pub open spec fn sp_items(s: Seq<u8>, i: int) -> Option<(Seq<JsonV>, int)>
    decreases s.len() - i, 1int,
{
    match sp_value(s, i) {
        None => None,
        Some((v, e)) => {
            if e <= i || e > s.len() {
                None
            } else {
                let m = ws_end(s, e);
                if m < e || m >= s.len() {
                    None
                } else if s[m] == RBRACKET {
                    Some((seq![v], m + 1))
                } else if s[m] == COMMA {
                    match sp_items(s, m + 1) {
                        Some((rest, e2)) => Some((seq![v] + rest, e2)),
                        None => None,
                    }
                } else {
                    None
                }
            }
        },
    }
}

/// Parses the entries of a non-empty object from `i`, up to and including
/// the closing brace.
pub open spec fn sp_ents(s: Seq<u8>, i: int) -> Option<(Seq<(Seq<u8>, JsonV)>, int)>
    decreases s.len() - i, 1int,
{
    let j = ws_end(s, i);
    if j < i || j >= s.len() {
        None
    } else if s[j] != QUOTE {
        None
    } else {
        match sp_str_body(s, j + 1) {
            None => None,
            Some((key, e1)) => {
                if e1 <= j || e1 > s.len() {
                    None
                } else {
                    let c = ws_end(s, e1);
                    if c < e1 || c >= s.len() {
                        None
                    } else if s[c] != COLON {
                        None
                    } else {
                        match sp_value(s, c + 1) {
                            None => None,
                            Some((v, e2)) => {
                                if e2 <= c || e2 > s.len() {
                                    None
                                } else {
                                    let m = ws_end(s, e2);
                                    if m < e2 || m >= s.len() {
                                        None
                                    } else if s[m] == RBRACE {
                                        Some((seq![(key, v)], m + 1))
                                    } else if s[m] == COMMA {
                                        match sp_ents(s, m + 1) {
                                            Some((rest, e3)) => Some(
                                                (seq![(key, v)] + rest, e3),
                                            ),
                                            None => None,
                                        }
                                    } else {
                                        None
                                    }
                                }
                            },
                        }
                    }
                }
            },
        }
    }
}

/// A maximal digit run bounded on both sides parses back to its own end.
proof fn lemma_num_end(s: Seq<u8>, i: int, j: int)
    requires
        0 <= i <= j <= s.len(),
        forall|k: int| i <= k < j ==> is_digit(#[trigger] s[k]),
        j == s.len() || !is_digit(s[j]),
    ensures
        num_end(s, i) == j,
    decreases j - i,
{
    if i < j {
        lemma_num_end(s, i + 1, j);
    }
}

/// The decimal spelling is one or more digits.
proof fn lemma_dec_rep_digits(n: nat)
    ensures
        dec_rep(n).len() >= 1,
        forall|k: int| 0 <= k < dec_rep(n).len() ==> is_digit(#[trigger] dec_rep(n)[k]),
    decreases n,
{
    if n >= 10 {
        lemma_dec_rep_digits(n / 10);
        assert(forall|k: int|
            0 <= k < dec_rep(n).len() - 1 ==> dec_rep(n)[k] == dec_rep(n / 10)[k]);
    }
}

/// Reading the decimal spelling of `n` back gives `n`.
proof fn lemma_dec_val_rep(n: nat, s: Seq<u8>, i: int)
    requires
        0 <= i,
        i + dec_rep(n).len() <= s.len(),
        s.subrange(i, i + dec_rep(n).len() as int) == dec_rep(n),
    ensures
        dec_val(s, i, i + dec_rep(n).len() as int) == n,
    decreases n,
{
    let l = dec_rep(n).len() as int;
    assert(s.subrange(i, i + l)[l - 1] == s[i + l - 1]);
    if n < 10 {
        assert(s[i] == dec_rep(n)[0]);
        assert(dec_val(s, i, i) == 0);
    } else {
        let l0 = dec_rep(n / 10).len() as int;
        assert(dec_rep(n) == dec_rep(n / 10).push((48 + (n % 10)) as u8));
        assert(l == l0 + 1);
        assert(s.subrange(i, i + l0) =~= dec_rep(n / 10)) by {
            assert(forall|k: int|
                0 <= k < l0 ==> #[trigger] s.subrange(i, i + l0)[k] == s.subrange(i, i + l)[k]);
        }
        lemma_dec_val_rep(n / 10, s, i);
        assert(s[i + l - 1] == dec_rep(n)[l - 1]);
        assert(dec_rep(n)[l - 1] == (48 + (n % 10)) as u8);
        assert(dec_val(s, i, i + l) == dec_val(s, i, i + l - 1) * 10 + (s[i + l - 1] as int
            - 48));
        assert((n / 10) * 10 + n % 10 == n) by (nonlinear_arith);
    }
}

/// A concatenation sitting at `i` splits into its two parts.
proof fn lemma_cat_split(s: Seq<u8>, i: int, a: Seq<u8>, b: Seq<u8>)
    requires
        0 <= i,
        i + a.len() + b.len() <= s.len(),
        s.subrange(i, i + a.len() + b.len()) == a + b,
    ensures
        s.subrange(i, i + a.len() as int) == a,
        s.subrange(i + a.len() as int, i + a.len() + b.len()) == b,
{
    let al = a.len() as int;
    let bl = b.len() as int;
    assert(s.subrange(i, i + al) =~= a) by {
        assert(forall|k: int|
            0 <= k < al ==> #[trigger] s.subrange(i, i + al)[k] == s.subrange(
                i,
                i + al + bl,
            )[k]);
    }
    assert(s.subrange(i + al, i + al + bl) =~= b) by {
        assert(forall|k: int|
            0 <= k < bl ==> #[trigger] s.subrange(i + al, i + al + bl)[k] == s.subrange(
                i,
                i + al + bl,
            )[k + al]);
    }
}

proof fn lemma_hex_digit(n: u8)
    requires
        n < 16,
    ensures
        is_hex(hex_digit(n)),
        hex_val(hex_digit(n)) == n,
{
}

/// Escaped, quoted string content parses back to itself, for any content.
proof fn lemma_inv_strbody(t: Seq<u8>, s: Seq<u8>, i: int)
    requires
        0 <= i,
        i + esc_bytes(t).len() + 1 <= s.len(),
        s.subrange(i, i + esc_bytes(t).len() as int) == esc_bytes(t),
        s[i + esc_bytes(t).len() as int] == QUOTE,
    ensures
        sp_str_body(s, i) == Some((t, i + esc_bytes(t).len() + 1)),
    decreases t.len(),
{
    let el = esc_bytes(t).len() as int;
    if t.len() == 0 {
        assert(s[i] == QUOTE);
    } else {
        let b = t[0];
        let rest = t.drop_first();
        assert(esc_bytes(t) == esc1(b) + esc_bytes(rest));
        lemma_cat_split(s, i, esc1(b), esc_bytes(rest));
        let e1l = esc1(b).len() as int;
        lemma_inv_strbody(rest, s, i + e1l);
        if b == QUOTE || b == BACKSLASH {
            assert(s.subrange(i, i + 2)[0] == s[i]);
            assert(s.subrange(i, i + 2)[1] == s[i + 1]);
            assert(s[i] == BACKSLASH);
            assert(s[i + 1] == b);
            assert(seq![s[i + 1]] + rest =~= t);
        } else if b < 32 {
            lemma_hex_digit(b / 16);
            lemma_hex_digit(b % 16);
            assert(s.subrange(i, i + 6)[0] == s[i]);
            assert(s.subrange(i, i + 6)[1] == s[i + 1]);
            assert(s.subrange(i, i + 6)[2] == s[i + 2]);
            assert(s.subrange(i, i + 6)[3] == s[i + 3]);
            assert(s.subrange(i, i + 6)[4] == s[i + 4]);
            assert(s.subrange(i, i + 6)[5] == s[i + 5]);
            assert(s[i] == BACKSLASH);
            assert(s[i + 1] == 117);
            assert(s[i + 2] == 48);
            assert(s[i + 3] == 48);
            assert(s[i + 4] == hex_digit(b / 16));
            assert(s[i + 5] == hex_digit(b % 16));
            assert(esc_code(117u8) is None);
            let v = hex_val(s[i + 2]) * 4096 + hex_val(s[i + 3]) * 256 + hex_val(s[i + 4])
                * 16 + hex_val(s[i + 5]);
            assert((b / 16) * 16 + (b % 16) == b) by (nonlinear_arith);
            assert(v == b);
            assert(utf8_enc(v) =~= seq![b]);
            assert(utf8_enc(v) + rest =~= t);
        } else {
            assert(s.subrange(i, i + 1)[0] == s[i]);
            assert(s[i] == b);
            assert(seq![s[i]] + rest =~= t);
        }
    }
}

/// A canonical serialization is never empty, and its first byte names the
/// kind of the value.
proof fn lemma_ser_value_first(v: JsonV)
    requires
        !(v is NumText),
    ensures
        ser_value(v).len() >= 1,
        v is Null ==> ser_value(v)[0] == 110,
        v is Bool ==> (ser_value(v)[0] == 116 || ser_value(v)[0] == 102),
        v is Num ==> is_digit(ser_value(v)[0]),
        v is Str ==> ser_value(v)[0] == QUOTE,
        v is Arr ==> ser_value(v)[0] == LBRACKET,
        v is Obj ==> ser_value(v)[0] == LBRACE,
        !is_ws(ser_value(v)[0]),
        ser_value(v)[0] != RBRACKET,
        ser_value(v)[0] != RBRACE,
        ser_value(v)[0] != COMMA,
        ser_value(v)[0] != COLON,
{
    match v {
        JsonV::Num(n) => {
            lemma_dec_rep_digits(n as nat);
        },
        _ => {},
    }
}

/// The parser reads back exactly what the canonical serializer wrote: one
/// value, wherever it sits in a longer text (a number must not be followed
/// by a further digit, which no canonical context produces).
#[verifier::rlimit(50)]
proof fn lemma_inv_value_lit(v: JsonV, s: Seq<u8>, i: int)
    requires
        v is Null || v is Bool,
        0 <= i,
        i + ser_value(v).len() <= s.len(),
        s.subrange(i, i + ser_value(v).len() as int) == ser_value(v),
    ensures
        sp_value(s, i) == Some((v, i + ser_value(v).len() as int)),
{
    let l = ser_value(v).len() as int;
    assert(s.subrange(i, i + l)[0] == s[i]);
    assert(s.subrange(i, i + l)[1] == s[i + 1]);
    assert(s.subrange(i, i + l)[2] == s[i + 2]);
    assert(s.subrange(i, i + l)[3] == s[i + 3]);
    assert(!is_ws(s[i]));
    assert(ws_end(s, i) == i);
    match v {
        JsonV::Null => {
            assert(s[i] == 110);
            assert(s[i + 1] == 117);
            assert(s[i + 2] == 108);
            assert(s[i + 3] == 108);
        },
        JsonV::Bool(bv) => {
            if bv {
                assert(s[i] == 116);
                assert(s[i + 1] == 114);
                assert(s[i + 2] == 117);
                assert(s[i + 3] == 101);
            } else {
                assert(s.subrange(i, i + l)[4] == s[i + 4]);
                assert(s[i] == 102);
                assert(s[i + 1] == 97);
                assert(s[i + 2] == 108);
                assert(s[i + 3] == 115);
                assert(s[i + 4] == 101);
            }
        },
        _ => {},
    }
}

proof fn lemma_inv_value_num(n: u64, s: Seq<u8>, i: int)
    requires
        0 <= i,
        i + dec_rep(n as nat).len() <= s.len(),
        s.subrange(i, i + dec_rep(n as nat).len() as int) == dec_rep(n as nat),
        i + dec_rep(n as nat).len() == s.len() || (!is_digit(
            s[i + dec_rep(n as nat).len() as int],
        ) && s[i + dec_rep(n as nat).len() as int] != 46 && s[i + dec_rep(
            n as nat,
        ).len() as int] != 101 && s[i + dec_rep(n as nat).len() as int] != 69),
    ensures
        sp_value(s, i) == Some((JsonV::Num(n), i + dec_rep(n as nat).len() as int)),
{
    let l = dec_rep(n as nat).len() as int;
    lemma_dec_rep_digits(n as nat);
    assert(s.subrange(i, i + l)[0] == s[i]);
    assert(is_digit(s[i]));
    assert(ws_end(s, i) == i);
    assert forall|k: int| i <= k < i + l implies is_digit(#[trigger] s[k]) by {
        assert(s.subrange(i, i + l)[k - i] == s[k]);
    }
    lemma_num_end(s, i, i + l);
    lemma_dec_val_rep(n as nat, s, i);
    assert(s[i] != 45);
    assert(frac_end(s, i + l) == Some(i + l));
    assert(exp_end(s, i + l) == Some(i + l));
    assert(sp_num(s, i) == Some((JsonV::Num(n), i + l)));
}

proof fn lemma_inv_value_str(t: Seq<u8>, s: Seq<u8>, i: int)
    requires
        0 <= i,
        i + ser_str(t).len() <= s.len(),
        s.subrange(i, i + ser_str(t).len() as int) == ser_str(t),
    ensures
        sp_value(s, i) == Some((JsonV::Str(t), i + ser_str(t).len() as int)),
{
    let l = ser_str(t).len() as int;
    let el = esc_bytes(t).len() as int;
    assert(s.subrange(i, i + l)[0] == s[i]);
    assert(s[i] == QUOTE);
    assert(ws_end(s, i) == i);
    lemma_cat_split(s, i, seq![QUOTE] + esc_bytes(t), seq![QUOTE]);
    lemma_cat_split(s, i, seq![QUOTE], esc_bytes(t));
    assert(s.subrange(i + 1 + el, i + l)[0] == s[i + 1 + el]);
    assert(s[i + 1 + el] == QUOTE);
    lemma_inv_strbody(t, s, i + 1);
}

/// The parser reads back exactly what the canonical serializer wrote: one
/// value, wherever it sits in a longer text (a number must not be followed
/// by a digit or by a fraction or exponent mark, which no canonical
/// context produces).
pub proof fn lemma_inv_value(v: JsonV, s: Seq<u8>, i: int)
    requires
        no_numtext(v),
        0 <= i,
        i + ser_value(v).len() <= s.len(),
        s.subrange(i, i + ser_value(v).len() as int) == ser_value(v),
        (v is Num) ==> (i + ser_value(v).len() == s.len() || (!is_digit(
            s[i + ser_value(v).len() as int],
        ) && s[i + ser_value(v).len() as int] != 46 && s[i + ser_value(v).len() as int]
            != 101 && s[i + ser_value(v).len() as int] != 69)),
    ensures
        sp_value(s, i) == Some((v, i + ser_value(v).len() as int)),
    decreases v, 0int,
{
    let l = ser_value(v).len() as int;
    match v {
        JsonV::Null => {
            lemma_inv_value_lit(v, s, i);
        },
        JsonV::Bool(_) => {
            lemma_inv_value_lit(v, s, i);
        },
        JsonV::Num(n) => {
            lemma_inv_value_num(n, s, i);
        },
        JsonV::NumText(_) => {
            assert(false);
        },
        JsonV::Str(t) => {
            lemma_inv_value_str(t, s, i);
        },
        JsonV::Arr(items) => {
            lemma_ser_value_first(v);
            assert(s.subrange(i, i + l)[0] == s[i]);
            assert(s[i] == ser_value(v)[0]);
            assert(ws_end(s, i) == i);
            if items.len() == 0 {
                assert(ser_value(v) =~= seq![LBRACKET, RBRACKET]);
                assert(s.subrange(i, i + l)[1] == s[i + 1]);
                assert(s[i + 1] == RBRACKET);
                assert(ws_end(s, i + 1) == i + 1);
                assert(items =~= Seq::<JsonV>::empty());
            } else {
                let il = ser_items(items).len() as int;
                lemma_cat_split(s, i, seq![LBRACKET] + ser_items(items), seq![RBRACKET]);
                lemma_cat_split(s, i, seq![LBRACKET], ser_items(items));
                assert(s.subrange(i + 1 + il, i + l)[0] == s[i + 1 + il]);
                assert(s[i + 1 + il] == RBRACKET);
                lemma_no_numtext_items_split(items);
                lemma_ser_value_first(items.first());
                assert(ser_items(items)[0] == ser_value(items.first())[0]);
                assert(s.subrange(i + 1, i + 1 + il)[0] == s[i + 1]);
                assert(s[i + 1] == ser_value(items.first())[0]);
                assert(ws_end(s, i + 1) == i + 1);
                lemma_inv_items(items, s, i + 1);
            }
        },
        JsonV::Obj(ents) => {
            lemma_ser_value_first(v);
            assert(s.subrange(i, i + l)[0] == s[i]);
            assert(s[i] == ser_value(v)[0]);
            assert(ws_end(s, i) == i);
            if ents.len() == 0 {
                assert(ser_value(v) =~= seq![LBRACE, RBRACE]);
                assert(s.subrange(i, i + l)[1] == s[i + 1]);
                assert(s[i + 1] == RBRACE);
                assert(ws_end(s, i + 1) == i + 1);
                assert(ents =~= Seq::<(Seq<u8>, JsonV)>::empty());
            } else {
                let el = ser_ents(ents).len() as int;
                lemma_cat_split(s, i, seq![LBRACE] + ser_ents(ents), seq![RBRACE]);
                lemma_cat_split(s, i, seq![LBRACE], ser_ents(ents));
                assert(s.subrange(i + 1 + el, i + l)[0] == s[i + 1 + el]);
                assert(s[i + 1 + el] == RBRACE);
                assert(ser_ents(ents)[0] == QUOTE);
                assert(s.subrange(i + 1, i + 1 + el)[0] == s[i + 1]);
                assert(s[i + 1] == QUOTE);
                assert(ws_end(s, i + 1) == i + 1);
                lemma_inv_ents(ents, s, i + 1);
            }
        },
    }
}

/// Non-empty array items followed by the closing bracket parse back.
#[verifier::rlimit(60)]
pub proof fn lemma_inv_items(items: Seq<JsonV>, s: Seq<u8>, i: int)
    requires
        items.len() >= 1,
        no_numtext_items(items),
        0 <= i,
        i + ser_items(items).len() + 1 <= s.len(),
        s.subrange(i, i + ser_items(items).len() as int) == ser_items(items),
        s[i + ser_items(items).len() as int] == RBRACKET,
    ensures
        sp_items(s, i) == Some((items, i + ser_items(items).len() + 1)),
    decreases items, 1int,
{
    let v0 = items.first();
    let rest = items.drop_first();
    let sl = ser_items(items).len() as int;
    lemma_no_numtext_items_split(items);
    lemma_ser_value_first(v0);
    assert(ser_items(items) == ser_value(v0) + ser_items_tail(rest));
    lemma_cat_split(s, i, ser_value(v0), ser_items_tail(rest));
    let e = i + ser_value(v0).len() as int;
    if rest.len() == 0 {
        assert(ser_items_tail(rest) == Seq::<u8>::empty());
        assert(sl == ser_value(v0).len());
        lemma_inv_value(v0, s, i);
        assert(ws_end(s, e) == e);
        assert(seq![v0] =~= items);
    } else {
        let rl = ser_items(rest).len() as int;
        assert(ser_items_tail(rest) =~= seq![COMMA] + ser_items(rest));
        assert(s.subrange(e, i + sl)[0] == s[e]);
        assert(s[e] == COMMA);
        lemma_inv_value(v0, s, i);
        assert(ws_end(s, e) == e);
        lemma_cat_split(s, e, seq![COMMA], ser_items(rest));
        assert(e + 1 + rl == i + sl);
        lemma_inv_items(rest, s, e + 1);
        assert(seq![v0] + rest =~= items);
    }
}

/// Non-empty object entries followed by the closing brace parse back.
#[verifier::rlimit(60)]
pub proof fn lemma_inv_ents(ents: Seq<(Seq<u8>, JsonV)>, s: Seq<u8>, i: int)
    requires
        ents.len() >= 1,
        no_numtext_ents(ents),
        0 <= i,
        i + ser_ents(ents).len() + 1 <= s.len(),
        s.subrange(i, i + ser_ents(ents).len() as int) == ser_ents(ents),
        s[i + ser_ents(ents).len() as int] == RBRACE,
    ensures
        sp_ents(s, i) == Some((ents, i + ser_ents(ents).len() + 1)),
    decreases ents, 1int,
{
    let k0 = ents.first().0;
    let v0 = ents.first().1;
    let rest = ents.drop_first();
    let sl = ser_ents(ents).len() as int;
    lemma_no_numtext_ents_split(ents);
    lemma_ser_value_first(v0);
    assert(ser_ents(ents) == ser_str(k0) + seq![COLON] + ser_value(v0) + ser_ents_tail(rest));
    lemma_cat_split(
        s,
        i,
        ser_str(k0) + seq![COLON] + ser_value(v0),
        ser_ents_tail(rest),
    );
    lemma_cat_split(s, i, ser_str(k0) + seq![COLON], ser_value(v0));
    lemma_cat_split(s, i, ser_str(k0), seq![COLON]);
    let kl = ser_str(k0).len() as int;
    let el = esc_bytes(k0).len() as int;
    assert(kl == el + 2);
    assert(s.subrange(i, i + kl)[0] == s[i]);
    assert(ser_str(k0)[0] == QUOTE);
    assert(s[i] == QUOTE);
    assert(ws_end(s, i) == i);
    lemma_cat_split(s, i, seq![QUOTE] + esc_bytes(k0), seq![QUOTE]);
    lemma_cat_split(s, i, seq![QUOTE], esc_bytes(k0));
    assert(s.subrange(i + 1 + el, i + kl)[0] == s[i + 1 + el]);
    assert(ser_str(k0)[kl - 1] == QUOTE);
    assert(s[i + 1 + el] == QUOTE);
    lemma_inv_strbody(k0, s, i + 1);
    let e1 = i + kl;
    assert(s.subrange(e1, e1 + 1)[0] == s[e1]);
    assert(s[e1] == COLON);
    assert(ws_end(s, e1) == e1);
    let e2 = e1 + 1 + ser_value(v0).len() as int;
    if rest.len() == 0 {
        assert(ser_ents_tail(rest) == Seq::<u8>::empty());
        assert(e2 == i + sl);
        lemma_inv_value(v0, s, e1 + 1);
        assert(ws_end(s, e2) == e2);
        assert(seq![(k0, v0)] =~= ents);
    } else {
        let rl = ser_ents(rest).len() as int;
        assert(ser_ents_tail(rest) =~= seq![COMMA] + ser_ents(rest));
        assert(s.subrange(e2, i + sl)[0] == s[e2]);
        assert(s[e2] == COMMA);
        lemma_inv_value(v0, s, e1 + 1);
        assert(ws_end(s, e2) == e2);
        lemma_cat_split(s, e2, seq![COMMA], ser_ents(rest));
        assert(e2 + 1 + rl == i + sl);
        lemma_inv_ents(rest, s, e2 + 1);
        assert(seq![(k0, v0)] + rest =~= ents);
    }
}

proof fn lemma_dec_val_nonneg(s: Seq<u8>, i: int, j: int)
    requires
        0 <= i <= j <= s.len(),
        forall|t: int| i <= t < j ==> is_digit(#[trigger] s[t]),
    ensures
        dec_val(s, i, j) >= 0,
    decreases j - i,
{
    if j > i {
        lemma_dec_val_nonneg(s, i, j - 1);
    }
}

proof fn lemma_dec_val_mono(s: Seq<u8>, i: int, k: int, j: int)
    requires
        0 <= i <= k <= j <= s.len(),
        forall|t: int| i <= t < j ==> is_digit(#[trigger] s[t]),
    ensures
        dec_val(s, i, j) >= dec_val(s, i, k),
    decreases j - k,
{
    if k < j {
        lemma_dec_val_mono(s, i, k, j - 1);
        lemma_dec_val_nonneg(s, i, j - 1);
    }
}

/// Skips insignificant whitespace.
pub fn ws_skip(s: &[u8], i: usize) -> (r: usize)
    requires
        i <= s@.len(),
    ensures
        r as int == ws_end(s@, i as int),
        i <= r <= s@.len(),
{
    let mut k = i;
    while k < s.len() && (s[k] == 32 || s[k] == 9 || s[k] == 10 || s[k] == 13)
        invariant
            i <= k <= s@.len(),
            ws_end(s@, i as int) == ws_end(s@, k as int),
        decreases s@.len() - k,
    {
        k += 1;
    }
    k
}

/// Parses a number at `i`, matching [`sp_num`].
fn digits_val(s: &[u8], i: usize, j: usize) -> (r: Option<u64>)
    requires
        i < j <= s@.len(),
        forall|t: int| i <= t < j ==> is_digit(#[trigger] s@[t]),
    ensures
        (match r {
            Some(v) => v as int == dec_val(s@, i as int, j as int) && dec_val(
                s@,
                i as int,
                j as int,
            ) <= u64::MAX as int,
            None => dec_val(s@, i as int, j as int) > u64::MAX as int,
        }),
{
    let ghost jj = j as int;
    let mut acc: u64 = 0;
    let mut k = i;
    while k < j
        invariant
            i <= k <= j <= s@.len(),
            j as int == jj,
            forall|t: int| i <= t < jj ==> is_digit(#[trigger] s@[t]),
            acc as int == dec_val(s@, i as int, k as int),
        decreases j - k,
    {
        let d: u8 = s[k] - 48;
        if acc > (u64::MAX - (d as u64)) / 10 {
            proof {
                let b = u64::MAX as int - d as int;
                assert(b == 10 * (b / 10) + b % 10) by (nonlinear_arith);
                assert(b % 10 <= 9) by (nonlinear_arith);
                assert(10 * (b / 10) <= 10 * (acc as int - 1)) by (nonlinear_arith)
                    requires
                        b / 10 <= acc as int - 1,
                ;
                assert((u64::MAX as int) < (acc as int) * 10 + d as int);
                assert(dec_val(s@, i as int, k as int + 1) == acc as int * 10 + (s@[k as int]
                    as int - 48));
                lemma_dec_val_mono(s@, i as int, k as int + 1, jj);
            }
            return None;
        }
        proof {
            let b = u64::MAX as int - d as int;
            assert(b == 10 * (b / 10) + b % 10) by (nonlinear_arith);
            assert(b % 10 >= 0) by (nonlinear_arith);
            assert(10 * (b / 10) >= 10 * acc as int) by (nonlinear_arith)
                requires
                    b / 10 >= acc as int,
            ;
            assert((acc as int) * 10 + d as int <= u64::MAX as int);
        }
        acc = acc * 10 + (d as u64);
        k += 1;
        proof {
            assert(acc as int == dec_val(s@, i as int, k as int));
        }
    }
    Some(acc)
}

/// Parses a number token at `i`, matching [`sp_num`].
fn parse_num(s: &[u8], i: usize) -> (r: Option<(Json, usize)>)
    requires
        i <= s@.len(),
    ensures
        (match r {
            Some(p) => sp_num(s@, i as int) == Some((p.0.jv(), p.1 as int)) && i < p.1
                <= s@.len(),
            None => sp_num(s@, i as int) is None,
        }),
{
    let d0: usize = if i < s.len() && s[i] == 45 {
        i + 1
    } else {
        i
    };
    let mut j = d0;
    while j < s.len() && s[j] >= 48 && s[j] <= 57
        invariant
            d0 <= j <= s@.len(),
            num_end(s@, d0 as int) == num_end(s@, j as int),
            forall|t: int| d0 <= t < j ==> is_digit(#[trigger] s@[t]),
        decreases s@.len() - j,
    {
        j += 1;
    }
    if j == d0 {
        return None;
    }
    let ghost jj = j as int;
    proof {
        assert(num_end(s@, d0 as int) == jj);
    }
    let mut g = j;
    let mut plain: bool = d0 == i;
    let ghost mut gf: int = jj;
    if j < s.len() && s[j] == 46 {
        let mut f = j + 1;
        while f < s.len() && s[f] >= 48 && s[f] <= 57
            invariant
                j + 1 <= f <= s@.len(),
                num_end(s@, j as int + 1) == num_end(s@, f as int),
            decreases s@.len() - f,
        {
            f += 1;
        }
        if f == j + 1 {
            proof {
                assert(frac_end(s@, jj) is None);
            }
            return None;
        }
        g = f;
        plain = false;
        proof {
            gf = f as int;
        }
    }
    proof {
        assert(frac_end(s@, jj) == Some(gf));
        assert(gf == g as int);
        assert(gf >= jj);
    }
    let ghost mut ge: int = gf;
    if g < s.len() && (s[g] == 101 || s[g] == 69) {
        let estart: usize = if g + 1 < s.len() && (s[g + 1] == 43 || s[g + 1] == 45) {
            g + 2
        } else {
            g + 1
        };
        let mut h = estart;
        while h < s.len() && s[h] >= 48 && s[h] <= 57
            invariant
                estart <= h <= s@.len(),
                num_end(s@, estart as int) == num_end(s@, h as int),
            decreases s@.len() - h,
        {
            h += 1;
        }
        if h == estart {
            proof {
                assert(exp_end(s@, gf) is None);
            }
            return None;
        }
        proof {
            ge = h as int;
            assert(exp_end(s@, gf) == Some(ge));
        }
        g = h;
        plain = false;
    }
    proof {
        assert(exp_end(s@, gf) == Some(ge));
        assert(ge == g as int);
        assert(ge >= gf);
    }
    if plain {
        match digits_val(s, i, j) {
            Some(acc) => {
                return Some((Json::Num(acc), j));
            },
            None => {},
        }
    }
    proof {
        assert(!(d0 as int == i as int && gf == jj && ge == jj && dec_val(s@, i as int, jj)
            <= u64::MAX as int));
    }
    let mut tok: Vec<u8> = Vec::new();
    let mut k = i;
    while k < g
        invariant
            i <= k <= g <= s@.len(),
            tok@ == s@.subrange(i as int, k as int),
        decreases g - k,
    {
        tok.push(s[k]);
        proof {
            assert(tok@ =~= s@.subrange(i as int, k as int + 1));
        }
        k += 1;
    }
    Some((Json::NumText(tok), g))
}

fn hex_of(b: u8) -> (r: Option<u8>)
    ensures
        (match r {
            Some(v) => is_hex(b) && v as int == hex_val(b) && v < 16,
            None => !is_hex(b),
        }),
{
    if b >= 48 && b <= 57 {
        Some(b - 48)
    } else if b >= 97 && b <= 102 {
        Some(b - 87)
    } else if b >= 65 && b <= 70 {
        Some(b - 55)
    } else {
        None
    }
}

/// Parses string content at `i`, matching [`sp_str_body`].
#[verifier::rlimit(60)]
fn parse_str_body(s: &[u8], i: usize) -> (r: Option<(Vec<u8>, usize)>)
    requires
        i <= s@.len(),
    ensures
        (match r {
            Some(p) => sp_str_body(s@, i as int) == Some((p.0@, p.1 as int)) && i < p.1
                <= s@.len(),
            None => sp_str_body(s@, i as int) is None,
        }),
    decreases s@.len() - i,
{
    if i >= s.len() {
        return None;
    }
    let b = s[i];
    if b == QUOTE {
        let t: Vec<u8> = Vec::new();
        proof {
            assert(t@ =~= Seq::<u8>::empty());
        }
        Some((t, i + 1))
    } else if b == BACKSLASH {
        if i + 1 >= s.len() {
            return None;
        }
        let c = s[i + 1];
        if c == QUOTE || c == BACKSLASH || c == 47 {
            match parse_str_body(s, i + 2) {
                Some((mut t, e)) => {
                    let ghost t0 = t@;
                    t.insert(0, c);
                    proof {
                        assert(t@ =~= seq![s@[i as int + 1]] + t0);
                    }
                    Some((t, e))
                },
                None => None,
            }
        } else if c == 98 || c == 102 || c == 110 || c == 114 || c == 116 {
            let m: u8 = if c == 98 {
                8
            } else if c == 102 {
                12
            } else if c == 110 {
                10
            } else if c == 114 {
                13
            } else {
                9
            };
            proof {
                assert(esc_code(s@[i as int + 1]) == Some(m));
            }
            match parse_str_body(s, i + 2) {
                Some((mut t, e)) => {
                    let ghost t0 = t@;
                    t.insert(0, m);
                    proof {
                        assert(t@ =~= seq![m] + t0);
                    }
                    Some((t, e))
                },
                None => None,
            }
        } else if c == 117 {
            if s.len() - i < 6 {
                return None;
            }
            match (hex_of(s[i + 2]), hex_of(s[i + 3]), hex_of(s[i + 4]), hex_of(s[i + 5])) {
                (Some(ha), Some(hb), Some(hc), Some(hd)) => {
                    let v: u32 = (ha as u32) * 4096 + (hb as u32) * 256 + (hc as u32) * 16
                        + (hd as u32);
                    proof {
                        assert(v as int == hex_val(s@[i as int + 2]) * 4096 + hex_val(
                            s@[i as int + 3],
                        ) * 256 + hex_val(s@[i as int + 4]) * 16 + hex_val(s@[i as int + 5]));
                    }
                    if 0xD800 <= v && v < 0xDC00 {
                        if s.len() - i < 12 || s[i + 6] != BACKSLASH || s[i + 7] != 117 {
                            return None;
                        }
                        match (hex_of(s[i + 8]), hex_of(s[i + 9]), hex_of(s[i + 10]), hex_of(
                            s[i + 11],
                        )) {
                            (Some(wa), Some(wb), Some(wc), Some(wd)) => {
                                let w: u32 = (wa as u32) * 4096 + (wb as u32) * 256 + (wc
                                    as u32) * 16 + (wd as u32);
                                proof {
                                    assert(w as int == hex_val(s@[i as int + 8]) * 4096
                                        + hex_val(s@[i as int + 9]) * 256 + hex_val(
                                        s@[i as int + 10],
                                    ) * 16 + hex_val(s@[i as int + 11]));
                                }
                                if !(0xDC00 <= w && w < 0xE000) {
                                    return None;
                                }
                                let c: u32 = 0x10000 + (v - 0xD800) * 1024 + (w - 0xDC00);
                                match parse_str_body(s, i + 12) {
                                    Some((mut t, e)) => {
                                        let ghost t0 = t@;
                                        t.insert(0, (0x80 + (c % 64)) as u8);
                                        t.insert(0, (0x80 + ((c / 64) % 64)) as u8);
                                        t.insert(0, (0x80 + ((c / 4096) % 64)) as u8);
                                        t.insert(0, (0xF0 + c / 262144) as u8);
                                        proof {
                                            assert(t@ =~= utf8_enc4(c as int) + t0);
                                        }
                                        Some((t, e))
                                    },
                                    None => None,
                                }
                            },
                            _ => None,
                        }
                    } else if 0xDC00 <= v && v < 0xE000 {
                        return None;
                    } else {
                        match parse_str_body(s, i + 6) {
                            Some((mut t, e)) => {
                                let ghost t0 = t@;
                                if v < 0x80 {
                                    t.insert(0, v as u8);
                                } else if v < 0x800 {
                                    t.insert(0, (0x80 + (v % 64)) as u8);
                                    t.insert(0, (0xC0 + v / 64) as u8);
                                } else {
                                    t.insert(0, (0x80 + (v % 64)) as u8);
                                    t.insert(0, (0x80 + ((v / 64) % 64)) as u8);
                                    t.insert(0, (0xE0 + v / 4096) as u8);
                                }
                                proof {
                                    assert(t@ =~= utf8_enc(v as int) + t0);
                                }
                                Some((t, e))
                            },
                            None => None,
                        }
                    }
                },
                _ => None,
            }
        } else {
            None
        }
    } else if b >= 32 {
        match parse_str_body(s, i + 1) {
            Some((mut t, e)) => {
                let ghost t0 = t@;
                t.insert(0, b);
                proof {
                    assert(t@ =~= seq![s@[i as int]] + t0);
                }
                Some((t, e))
            },
            None => None,
        }
    } else {
        None
    }
}

/// Parses one value at `i`, matching [`sp_value`].
pub fn parse_value(s: &[u8], i: usize) -> (r: Option<(Json, usize)>)
    requires
        i <= s@.len(),
    ensures
        (match r {
            Some(p) => sp_value(s@, i as int) == Some((p.0.jv(), p.1 as int)) && i <= p.1
                <= s@.len(),
            None => sp_value(s@, i as int) is None,
        }),
    decreases s@.len() - i, 0int,
{
    let j = ws_skip(s, i);
    if j >= s.len() {
        return None;
    }
    let b = s[j];
    if (b >= 48 && b <= 57) || b == 45 {
        parse_num(s, j)
    } else if b == QUOTE {
        match parse_str_body(s, j + 1) {
            Some((t, e)) => Some((Json::Str(t), e)),
            None => None,
        }
    } else if b == LBRACKET {
        let k = ws_skip(s, j + 1);
        if k >= s.len() {
            return None;
        }
        if s[k] == RBRACKET {
            let items: Vec<Json> = Vec::new();
            proof {
                assert(jv_elems(items@) =~= Seq::<JsonV>::empty());
            }
            Some((Json::Arr(items), k + 1))
        } else {
            match parse_items(s, j + 1) {
                Some((vs, e)) => Some((Json::Arr(vs), e)),
                None => None,
            }
        }
    } else if b == LBRACE {
        let k = ws_skip(s, j + 1);
        if k >= s.len() {
            return None;
        }
        if s[k] == RBRACE {
            let ents: Vec<(Vec<u8>, Json)> = Vec::new();
            proof {
                assert(jv_entries(ents@) =~= Seq::<(Seq<u8>, JsonV)>::empty());
            }
            Some((Json::Obj(ents), k + 1))
        } else {
            match parse_ents(s, j + 1) {
                Some((es, e)) => Some((Json::Obj(es), e)),
                None => None,
            }
        }
    } else if b == 110 {
        if s.len() - j >= 4 && s[j + 1] == 117 && s[j + 2] == 108 && s[j + 3] == 108 {
            Some((Json::Null, j + 4))
        } else {
            None
        }
    } else if b == 116 {
        if s.len() - j >= 4 && s[j + 1] == 114 && s[j + 2] == 117 && s[j + 3] == 101 {
            Some((Json::Bool(true), j + 4))
        } else {
            None
        }
    } else if b == 102 {
        if s.len() - j >= 5 && s[j + 1] == 97 && s[j + 2] == 108 && s[j + 3] == 115 && s[j
            + 4] == 101 {
            Some((Json::Bool(false), j + 5))
        } else {
            None
        }
    } else {
        None
    }
}

/// Parses non-empty array items at `i`, matching [`sp_items`].
fn parse_items(s: &[u8], i: usize) -> (r: Option<(Vec<Json>, usize)>)
    requires
        i <= s@.len(),
    ensures
        (match r {
            Some(p) => sp_items(s@, i as int) == Some((jv_elems(p.0@), p.1 as int)) && i < p.1
                <= s@.len(),
            None => sp_items(s@, i as int) is None,
        }),
    decreases s@.len() - i, 1int,
{
    match parse_value(s, i) {
        None => None,
        Some((v, e)) => {
            if e <= i {
                return None;
            }
            let m = ws_skip(s, e);
            if m >= s.len() {
                return None;
            }
            if s[m] == RBRACKET {
                let mut vs: Vec<Json> = Vec::new();
                vs.push(v);
                proof {
                    lemma_jv_elems(vs@);
                    assert(jv_elems(vs@) =~= seq![vs@[0].jv()]);
                }
                Some((vs, m + 1))
            } else if s[m] == COMMA {
                match parse_items(s, m + 1) {
                    Some((mut rest, e2)) => {
                        let ghost r0 = rest@;
                        rest.insert(0, v);
                        proof {
                            lemma_jv_elems(rest@);
                            lemma_jv_elems(r0);
                            assert(jv_elems(rest@) =~= seq![rest@[0].jv()] + jv_elems(r0));
                        }
                        Some((rest, e2))
                    },
                    None => None,
                }
            } else {
                None
            }
        },
    }
}

/// Parses non-empty object entries at `i`, matching [`sp_ents`].
fn parse_ents(s: &[u8], i: usize) -> (r: Option<(Vec<(Vec<u8>, Json)>, usize)>)
    requires
        i <= s@.len(),
    ensures
        (match r {
            Some(p) => sp_ents(s@, i as int) == Some((jv_entries(p.0@), p.1 as int)) && i < p.1
                <= s@.len(),
            None => sp_ents(s@, i as int) is None,
        }),
    decreases s@.len() - i, 1int,
{
    let j = ws_skip(s, i);
    if j >= s.len() {
        return None;
    }
    if s[j] != QUOTE {
        return None;
    }
    match parse_str_body(s, j + 1) {
        None => None,
        Some((key, e1)) => {
            if e1 <= j {
                return None;
            }
            let c = ws_skip(s, e1);
            if c >= s.len() {
                return None;
            }
            if s[c] != COLON {
                return None;
            }
            match parse_value(s, c + 1) {
                None => None,
                Some((v, e2)) => {
                    if e2 <= c {
                        return None;
                    }
                    let m = ws_skip(s, e2);
                    if m >= s.len() {
                        return None;
                    }
                    if s[m] == RBRACE {
                        let mut es: Vec<(Vec<u8>, Json)> = Vec::new();
                        es.push((key, v));
                        proof {
                            lemma_jv_entries(es@);
                            assert(jv_entries(es@) =~= seq![(es@[0].0@, es@[0].1.jv())]);
                        }
                        Some((es, m + 1))
                    } else if s[m] == COMMA {
                        match parse_ents(s, m + 1) {
                            Some((mut rest, e3)) => {
                                let ghost r0 = rest@;
                                rest.insert(0, (key, v));
                                proof {
                                    lemma_jv_entries(rest@);
                                    lemma_jv_entries(r0);
                                    assert(jv_entries(rest@) =~= seq![
                                        (rest@[0].0@, rest@[0].1.jv()),
                                    ] + jv_entries(r0));
                                }
                                Some((rest, e3))
                            },
                            None => None,
                        }
                    } else {
                        None
                    }
                },
            }
        },
    }
}

fn hexd(n: u8) -> (r: u8)
    requires
        n < 16,
    ensures
        r == hex_digit(n),
{
    if n < 10 {
        48 + n
    } else {
        87 + n
    }
}

fn write_esc_from(v: &Vec<u8>, k: usize, out: &mut Vec<u8>)
    requires
        k <= v@.len(),
    ensures
        final(out)@ == old(out)@ + esc_bytes(v@.skip(k as int)),
    decreases v@.len() - k,
{
    if k >= v.len() {
        proof {
            assert(v@.skip(k as int) =~= Seq::<u8>::empty());
            assert(out@ =~= out@ + esc_bytes(v@.skip(k as int)));
        }
        return ;
    }
    let b = v[k];
    if b == QUOTE || b == BACKSLASH {
        out.push(BACKSLASH);
        out.push(b);
    } else if b < 32 {
        out.push(BACKSLASH);
        out.push(117);
        out.push(48);
        out.push(48);
        out.push(hexd(b / 16));
        out.push(hexd(b % 16));
    } else {
        out.push(b);
    }
    write_esc_from(v, k + 1, out);
    proof {
        assert(v@.skip(k as int).drop_first() =~= v@.skip(k as int + 1));
        assert(v@.skip(k as int)[0] == v@[k as int]);
        assert(esc_bytes(v@.skip(k as int)) == esc1(v@[k as int]) + esc_bytes(
            v@.skip(k as int + 1),
        ));
        assert(out@ =~= old(out)@ + esc_bytes(v@.skip(k as int)));
    }
}

fn write_str(v: &Vec<u8>, out: &mut Vec<u8>)
    ensures
        final(out)@ == old(out)@ + ser_str(v@),
{
    out.push(QUOTE);
    write_esc_from(v, 0, out);
    out.push(QUOTE);
    proof {
        assert(v@.skip(0) =~= v@);
        assert(out@ =~= old(out)@ + ser_str(v@));
    }
}

/// Writes the canonical serialization of `j`.
pub fn write_json(j: &Json, out: &mut Vec<u8>)
    ensures
        final(out)@ == old(out)@ + ser_value(j.jv()),
    decreases *j, 0int, 0int,
{
    match j {
        Json::Null => {
            out.push(110);
            out.push(117);
            out.push(108);
            out.push(108);
            proof {
                assert(out@ =~= old(out)@ + ser_value(j.jv()));
            }
        },
        Json::Bool(bv) => {
            if *bv {
                out.push(116);
                out.push(114);
                out.push(117);
                out.push(101);
            } else {
                out.push(102);
                out.push(97);
                out.push(108);
                out.push(115);
                out.push(101);
            }
            proof {
                assert(out@ =~= old(out)@ + ser_value(j.jv()));
            }
        },
        Json::Num(n) => {
            crate::codec::push_u64_dec(out, *n);
        },
        Json::NumText(t) => {
            crate::codec::push_bytes(out, t);
        },
        Json::Str(s) => {
            write_str(s, out);
        },
        Json::Arr(v) => {
            proof {
                assert(decreases_to!(*j => *v));
                assert(decreases_to!(*v => v@));
            }
            out.push(LBRACKET);
            write_items_from(v, 0, out);
            out.push(RBRACKET);
            proof {
                assert(jv_elems(v@).skip(0) =~= jv_elems(v@));
                assert(out@ =~= old(out)@ + ser_value(j.jv()));
            }
        },
        Json::Obj(v) => {
            proof {
                assert(decreases_to!(*j => *v));
                assert(decreases_to!(*v => v@));
            }
            out.push(LBRACE);
            write_ents_from(v, 0, out);
            out.push(RBRACE);
            proof {
                assert(jv_entries(v@).skip(0) =~= jv_entries(v@));
                assert(out@ =~= old(out)@ + ser_value(j.jv()));
            }
        },
    }
}

fn write_items_from(v: &Vec<Json>, k: usize, out: &mut Vec<u8>)
    requires
        k <= v@.len(),
    ensures
        final(out)@ == old(out)@ + ser_items(jv_elems(v@).skip(k as int)),
    decreases *v, 1int, v@.len() - k,
{
    proof {
        lemma_jv_elems(v@);
    }
    if k >= v.len() {
        proof {
            assert(jv_elems(v@).skip(k as int) =~= Seq::<JsonV>::empty());
            assert(out@ =~= out@ + ser_items(jv_elems(v@).skip(k as int)));
        }
        return ;
    }
    proof {
        assert(decreases_to!(*v => v@));
        assert(decreases_to!(v@ => v@[k as int]));
    }
    write_json(&v[k], out);
    write_items_tail_from(v, k + 1, out);
    proof {
        assert(jv_elems(v@).skip(k as int).drop_first() =~= jv_elems(v@).skip(k as int + 1));
        assert(jv_elems(v@).skip(k as int)[0] == v@[k as int].jv());
        assert(ser_items(jv_elems(v@).skip(k as int)) == ser_value(v@[k as int].jv())
            + ser_items_tail(jv_elems(v@).skip(k as int + 1)));
        assert(out@ =~= old(out)@ + ser_items(jv_elems(v@).skip(k as int)));
    }
}

fn write_items_tail_from(v: &Vec<Json>, k: usize, out: &mut Vec<u8>)
    requires
        k <= v@.len(),
    ensures
        final(out)@ == old(out)@ + ser_items_tail(jv_elems(v@).skip(k as int)),
    decreases *v, 1int, v@.len() - k,
{
    proof {
        lemma_jv_elems(v@);
    }
    if k >= v.len() {
        proof {
            assert(jv_elems(v@).skip(k as int) =~= Seq::<JsonV>::empty());
            assert(out@ =~= out@ + ser_items_tail(jv_elems(v@).skip(k as int)));
        }
        return ;
    }
    proof {
        assert(decreases_to!(*v => v@));
        assert(decreases_to!(v@ => v@[k as int]));
    }
    out.push(COMMA);
    write_json(&v[k], out);
    write_items_tail_from(v, k + 1, out);
    proof {
        assert(jv_elems(v@).skip(k as int).drop_first() =~= jv_elems(v@).skip(k as int + 1));
        assert(jv_elems(v@).skip(k as int)[0] == v@[k as int].jv());
        assert(ser_items_tail(jv_elems(v@).skip(k as int)) == seq![COMMA] + ser_value(
            v@[k as int].jv(),
        ) + ser_items_tail(jv_elems(v@).skip(k as int + 1)));
        assert(out@ =~= old(out)@ + ser_items_tail(jv_elems(v@).skip(k as int)));
    }
}

fn write_ents_from(v: &Vec<(Vec<u8>, Json)>, k: usize, out: &mut Vec<u8>)
    requires
        k <= v@.len(),
    ensures
        final(out)@ == old(out)@ + ser_ents(jv_entries(v@).skip(k as int)),
    decreases *v, 1int, v@.len() - k,
{
    proof {
        lemma_jv_entries(v@);
    }
    if k >= v.len() {
        proof {
            assert(jv_entries(v@).skip(k as int) =~= Seq::<(Seq<u8>, JsonV)>::empty());
            assert(out@ =~= out@ + ser_ents(jv_entries(v@).skip(k as int)));
        }
        return ;
    }
    proof {
        assert(decreases_to!(*v => v@));
        assert(decreases_to!(v@ => v@[k as int]));
        assert(decreases_to!(v@[k as int] => v@[k as int].1));
    }
    write_str(&v[k].0, out);
    out.push(COLON);
    write_json(&v[k].1, out);
    write_ents_tail_from(v, k + 1, out);
    proof {
        assert(jv_entries(v@).skip(k as int).drop_first() =~= jv_entries(v@).skip(
            k as int + 1,
        ));
        assert(jv_entries(v@).skip(k as int)[0] == (v@[k as int].0@, v@[k as int].1.jv()));
        assert(ser_ents(jv_entries(v@).skip(k as int)) == ser_str(v@[k as int].0@)
            + seq![COLON] + ser_value(v@[k as int].1.jv()) + ser_ents_tail(
            jv_entries(v@).skip(k as int + 1),
        ));
        assert(out@ =~= old(out)@ + ser_ents(jv_entries(v@).skip(k as int)));
    }
}

fn write_ents_tail_from(v: &Vec<(Vec<u8>, Json)>, k: usize, out: &mut Vec<u8>)
    requires
        k <= v@.len(),
    ensures
        final(out)@ == old(out)@ + ser_ents_tail(jv_entries(v@).skip(k as int)),
    decreases *v, 1int, v@.len() - k,
{
    proof {
        lemma_jv_entries(v@);
    }
    if k >= v.len() {
        proof {
            assert(jv_entries(v@).skip(k as int) =~= Seq::<(Seq<u8>, JsonV)>::empty());
            assert(out@ =~= out@ + ser_ents_tail(jv_entries(v@).skip(k as int)));
        }
        return ;
    }
    proof {
        assert(decreases_to!(*v => v@));
        assert(decreases_to!(v@ => v@[k as int]));
        assert(decreases_to!(v@[k as int] => v@[k as int].1));
    }
    out.push(COMMA);
    write_str(&v[k].0, out);
    out.push(COLON);
    write_json(&v[k].1, out);
    write_ents_tail_from(v, k + 1, out);
    proof {
        assert(jv_entries(v@).skip(k as int).drop_first() =~= jv_entries(v@).skip(
            k as int + 1,
        ));
        assert(jv_entries(v@).skip(k as int)[0] == (v@[k as int].0@, v@[k as int].1.jv()));
        assert(ser_ents_tail(jv_entries(v@).skip(k as int)) == seq![COMMA] + ser_str(
            v@[k as int].0@,
        ) + seq![COLON] + ser_value(v@[k as int].1.jv()) + ser_ents_tail(
            jv_entries(v@).skip(k as int + 1),
        ));
        assert(out@ =~= old(out)@ + ser_ents_tail(jv_entries(v@).skip(k as int)));
    }
}

/// Free of control bytes: what may sit inside one newline-delimited
/// record.
pub open spec fn no_ctl(s: Seq<u8>) -> bool {
    forall|k: int| 0 <= k < s.len() ==> s[k] >= 32
}

proof fn lemma_cat_no_ctl(a: Seq<u8>, b: Seq<u8>)
    requires
        no_ctl(a),
        no_ctl(b),
    ensures
        no_ctl(a + b),
{
    assert forall|k: int| 0 <= k < (a + b).len() implies (a + b)[k] >= 32 by {
        if k < a.len() {
            assert((a + b)[k] == a[k]);
        } else {
            assert((a + b)[k] == b[k - a.len()]);
        }
    }
}

proof fn lemma_esc1_no_ctl(b: u8)
    ensures
        no_ctl(esc1(b)),
{
}

proof fn lemma_esc_bytes_no_ctl(s: Seq<u8>)
    ensures
        no_ctl(esc_bytes(s)),
    decreases s.len(),
{
    if s.len() > 0 {
        lemma_esc1_no_ctl(s[0]);
        lemma_esc_bytes_no_ctl(s.drop_first());
        lemma_cat_no_ctl(esc1(s[0]), esc_bytes(s.drop_first()));
    }
}

/// The canonical serialization of any value stays on one line: every
/// escape the serializer writes keeps the output free of control bytes.
pub proof fn lemma_ser_value_no_ctl(v: JsonV)
    requires
        no_numtext(v),
    ensures
        no_ctl(ser_value(v)),
    decreases v, 0int,
{
    match v {
        JsonV::Null => {},
        JsonV::Bool(_) => {},
        JsonV::NumText(_) => {},
        JsonV::Num(n) => {
            lemma_dec_rep_digits(n as nat);
        },
        JsonV::Str(t) => {
            lemma_esc_bytes_no_ctl(t);
            lemma_cat_no_ctl(seq![QUOTE], esc_bytes(t));
            lemma_cat_no_ctl(seq![QUOTE] + esc_bytes(t), seq![QUOTE]);
        },
        JsonV::Arr(items) => {
            lemma_ser_items_no_ctl(items);
            lemma_cat_no_ctl(seq![LBRACKET], ser_items(items));
            lemma_cat_no_ctl(seq![LBRACKET] + ser_items(items), seq![RBRACKET]);
        },
        JsonV::Obj(ents) => {
            lemma_ser_ents_no_ctl(ents);
            lemma_cat_no_ctl(seq![LBRACE], ser_ents(ents));
            lemma_cat_no_ctl(seq![LBRACE] + ser_ents(ents), seq![RBRACE]);
        },
    }
}

proof fn lemma_ser_items_no_ctl(items: Seq<JsonV>)
    requires
        no_numtext_items(items),
    ensures
        no_ctl(ser_items(items)),
    decreases items, 1int,
{
    if items.len() > 0 {
        lemma_no_numtext_items_split(items);
        lemma_ser_value_no_ctl(items.first());
        lemma_ser_items_tail_no_ctl(items.drop_first());
        lemma_cat_no_ctl(ser_value(items.first()), ser_items_tail(items.drop_first()));
    }
}

proof fn lemma_ser_items_tail_no_ctl(items: Seq<JsonV>)
    requires
        no_numtext_items(items),
    ensures
        no_ctl(ser_items_tail(items)),
    decreases items, 1int,
{
    if items.len() > 0 {
        lemma_no_numtext_items_split(items);
        lemma_ser_value_no_ctl(items.first());
        lemma_ser_items_tail_no_ctl(items.drop_first());
        lemma_cat_no_ctl(seq![COMMA], ser_value(items.first()));
        lemma_cat_no_ctl(
            seq![COMMA] + ser_value(items.first()),
            ser_items_tail(items.drop_first()),
        );
    }
}

proof fn lemma_ser_str_no_ctl(t: Seq<u8>)
    ensures
        no_ctl(ser_str(t)),
{
    lemma_esc_bytes_no_ctl(t);
    lemma_cat_no_ctl(seq![QUOTE], esc_bytes(t));
    lemma_cat_no_ctl(seq![QUOTE] + esc_bytes(t), seq![QUOTE]);
}

proof fn lemma_ser_ents_no_ctl(ents: Seq<(Seq<u8>, JsonV)>)
    requires
        no_numtext_ents(ents),
    ensures
        no_ctl(ser_ents(ents)),
    decreases ents, 1int,
{
    if ents.len() > 0 {
        lemma_no_numtext_ents_split(ents);
        lemma_ser_str_no_ctl(ents.first().0);
        lemma_ser_value_no_ctl(ents.first().1);
        lemma_ser_ents_tail_no_ctl(ents.drop_first());
        lemma_cat_no_ctl(ser_str(ents.first().0), seq![COLON]);
        lemma_cat_no_ctl(ser_str(ents.first().0) + seq![COLON], ser_value(ents.first().1));
        lemma_cat_no_ctl(
            ser_str(ents.first().0) + seq![COLON] + ser_value(ents.first().1),
            ser_ents_tail(ents.drop_first()),
        );
    }
}

proof fn lemma_ser_ents_tail_no_ctl(ents: Seq<(Seq<u8>, JsonV)>)
    requires
        no_numtext_ents(ents),
    ensures
        no_ctl(ser_ents_tail(ents)),
    decreases ents, 1int,
{
    if ents.len() > 0 {
        lemma_no_numtext_ents_split(ents);
        lemma_ser_str_no_ctl(ents.first().0);
        lemma_ser_value_no_ctl(ents.first().1);
        lemma_ser_ents_tail_no_ctl(ents.drop_first());
        lemma_cat_no_ctl(seq![COMMA], ser_str(ents.first().0));
        lemma_cat_no_ctl(seq![COMMA] + ser_str(ents.first().0), seq![COLON]);
        lemma_cat_no_ctl(
            seq![COMMA] + ser_str(ents.first().0) + seq![COLON],
            ser_value(ents.first().1),
        );
        lemma_cat_no_ctl(
            seq![COMMA] + ser_str(ents.first().0) + seq![COLON] + ser_value(ents.first().1),
            ser_ents_tail(ents.drop_first()),
        );
    }
}

} // verus!
