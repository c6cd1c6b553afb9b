//! The wire codec: how a message is laid out as a JSON object, the
//! canonical serializer, the parser back, and the proof that they
//! round-trip. The JSON grammar itself lives in [`crate::json`]; this
//! module also holds the byte-level helpers shared with the error texts.
use vstd::prelude::*;

use crate::json::{
    jv_elems, jv_entries, lemma_inv_value, lemma_jv_elems, lemma_jv_entries, lemma_no_numtext_ents,
    lemma_no_numtext_items, lemma_ser_value_no_ctl, no_ctl, no_numtext, parse_value, ser_value,
    sp_value, write_json, ws_end, Json, JsonV,
};
use crate::protocol::{tag_lit, Body, BodyV, Message, MessageV};

verus! {

/// Bytes of an ASCII-only character sequence.
pub open spec fn ascii_bytes(s: Seq<char>) -> Seq<u8> {
    Seq::new(s.len(), |i: int| s[i] as u8)
}

/// Appends the bytes of an ASCII literal.
pub fn push_lit(out: &mut Vec<u8>, s: &str)
    requires
        vstd::string::is_ascii(s),
    ensures
        final(out)@ == old(out)@ + ascii_bytes(s@),
{
    proof {
        vstd::string::is_ascii_spec_bytes(s);
    }
    let bs = s.as_bytes();
    let mut k: usize = 0;
    while k < bs.len()
        invariant
            k <= bs@.len(),
            bs@ == ascii_bytes(s@),
            out@ == old(out)@ + bs@.take(k as int),
        decreases bs@.len() - k,
    {
        out.push(bs[k]);
        proof {
            assert(out@ =~= old(out)@ + bs@.take(k as int + 1));
        }
        k += 1;
    }
    proof {
        assert(out@ =~= old(out)@ + ascii_bytes(s@));
    }
}

/// The bytes of an ASCII literal as a fresh vector.
pub fn lit_vec(s: &str) -> (r: Vec<u8>)
    requires
        vstd::string::is_ascii(s),
    ensures
        r@ == ascii_bytes(s@),
{
    let mut out: Vec<u8> = Vec::new();
    push_lit(&mut out, s);
    out
}

/// Appends a copy of the given bytes.
pub fn push_bytes(out: &mut Vec<u8>, s: &Vec<u8>)
    ensures
        final(out)@ == old(out)@ + s@,
{
    let mut k: usize = 0;
    while k < s.len()
        invariant
            k <= s@.len(),
            out@ == old(out)@ + s@.take(k as int),
        decreases s@.len() - k,
    {
        out.push(s[k]);
        proof {
            assert(out@ =~= old(out)@ + s@.take(k as int + 1));
        }
        k += 1;
    }
    proof {
        assert(out@ =~= old(out)@ + s@);
    }
}

/// The decimal spelling of an unsigned number, most significant digit
/// first, no leading zeroes (a lone zero for zero).
pub open spec fn dec_rep(n: nat) -> Seq<u8>
    decreases n,
{
    if n < 10 {
        seq![(48 + n) as u8]
    } else {
        dec_rep(n / 10).push((48 + (n % 10)) as u8)
    }
}

/// Appends the decimal spelling of `n`.
pub fn push_u64_dec(out: &mut Vec<u8>, n: u64)
    ensures
        final(out)@ == old(out)@ + dec_rep(n as nat),
{
    if n < 10 {
        out.push(48 + (n as u8));
        proof {
            assert(out@ =~= old(out)@ + dec_rep(n as nat));
        }
        return ;
    }
    let mut tmp: Vec<u8> = Vec::new();
    let mut x: u64 = n;
    while x > 0
        invariant
            dec_rep(n as nat) == (if x > 0 {
                dec_rep(x as nat)
            } else {
                Seq::<u8>::empty()
            }) + tmp@.reverse(),
        decreases x,
    {
        let d: u8 = 48 + ((x % 10) as u8);
        let ghost old_tmp = tmp@;
        let ghost old_x = x;
        tmp.push(d);
        x = x / 10;
        proof {
            assert(tmp@.reverse() =~= seq![d] + old_tmp.reverse());
            if old_x < 10 {
                assert(dec_rep(old_x as nat) == seq![d]);
                assert(dec_rep(old_x as nat) + old_tmp.reverse() =~= Seq::<u8>::empty()
                    + tmp@.reverse());
            } else {
                assert(dec_rep(old_x as nat) == dec_rep(x as nat).push(d));
                assert(dec_rep(x as nat).push(d) + old_tmp.reverse() =~= dec_rep(x as nat)
                    + tmp@.reverse());
            }
        }
    }
    let mut i: usize = 0;
    while i < tmp.len()
        invariant
            i <= tmp@.len(),
            tmp@.len() > 0,
            out@ == old(out)@ + tmp@.reverse().take(i as int),
            dec_rep(n as nat) == tmp@.reverse(),
        decreases tmp@.len() - i,
    {
        out.push(tmp[tmp.len() - 1 - i]);
        proof {
            assert(tmp@.reverse()[i as int] == tmp@[tmp@.len() - 1 - i]);
            assert(out@ =~= old(out)@ + tmp@.reverse().take(i as int + 1));
        }
        i += 1;
    }
    proof {
        assert(tmp@.reverse().take(tmp@.len() as int) =~= tmp@.reverse());
    }
}

/// A fresh copy of the given bytes.
pub fn clone_bytes(v: &Vec<u8>) -> (r: Vec<u8>)
    ensures
        r@ == v@,
{
    let mut out: Vec<u8> = Vec::new();
    push_bytes(&mut out, v);
    out
}

/// A fresh copy of the given values.
pub fn clone_nums(v: &Vec<u64>) -> (r: Vec<u64>)
    ensures
        r@ == v@,
{
    let mut out: Vec<u64> = Vec::new();
    let mut k: usize = 0;
    while k < v.len()
        invariant
            k <= v@.len(),
            out@ == v@.take(k as int),
        decreases v@.len() - k,
    {
        out.push(v[k]);
        proof {
            assert(out@ =~= v@.take(k as int + 1));
        }
        k += 1;
    }
    proof {
        assert(out@ =~= v@);
    }
    out
}

/// Whether two byte vectors hold the same bytes.
pub fn bytes_eq(a: &Vec<u8>, b: &Vec<u8>) -> (r: bool)
    ensures
        r == (a@ == b@),
{
    if a.len() != b.len() {
        proof {
            assert(a@.len() != b@.len());
        }
        return false;
    }
    let mut k: usize = 0;
    while k < a.len()
        invariant
            k <= a@.len(),
            a@.len() == b@.len(),
            forall|i: int| 0 <= i < k ==> a@[i] == b@[i],
        decreases a@.len() - k,
    {
        if a[k] != b[k] {
            return false;
        }
        k += 1;
    }
    proof {
        assert(a@ =~= b@);
    }
    true
}

/// Why a line was refused: not well-formed JSON, a `type` tag this
/// protocol does not know, or a required field missing or of the wrong
/// shape for its tag.
#[derive(Clone, Copy, Debug, PartialEq, Eq, Structural)]
pub enum ParseError {
    Syntax,
    UnknownType,
    BadField,
}

/// A roster or neighbor list as JSON: an array of strings.
pub open spec fn ids_jv(ids: Seq<Seq<u8>>) -> JsonV {
    JsonV::Arr(ids.map_values(|x: Seq<u8>| JsonV::Str(x)))
}

/// A set of seen values as JSON: an array of numbers.
pub open spec fn nums_jv(xs: Seq<u64>) -> JsonV {
    JsonV::Arr(xs.map_values(|x: u64| JsonV::Num(x)))
}

/// A topology as JSON: an object from node name to neighbor array.
pub open spec fn topo_jv(t: Seq<(Seq<u8>, Seq<Seq<u8>>)>) -> JsonV {
    JsonV::Obj(t.map_values(|e: (Seq<u8>, Seq<Seq<u8>>)| (e.0, ids_jv(e.1))))
}

/// The `type` entry of a payload object.
pub open spec fn tag_ent(b: BodyV) -> (Seq<u8>, JsonV) {
    (ascii_bytes("type"@), JsonV::Str(ascii_bytes(tag_lit(b))))
}

/// How a payload is laid out as a JSON object: the `type` tag first, then
/// the tag's fields in their canonical order.
pub open spec fn body_jv(b: BodyV) -> JsonV {
    match b {
        BodyV::Broadcast { msg_id, message } => JsonV::Obj(
            seq![
                tag_ent(b),
                (ascii_bytes("msg_id"@), JsonV::Num(msg_id)),
                (ascii_bytes("message"@), JsonV::Num(message)),
            ],
        ),
        BodyV::BroadcastOk { in_reply_to } => JsonV::Obj(
            seq![tag_ent(b), (ascii_bytes("in_reply_to"@), JsonV::Num(in_reply_to))],
        ),
        BodyV::Echo { msg_id, echo } => JsonV::Obj(
            seq![
                tag_ent(b),
                (ascii_bytes("msg_id"@), JsonV::Num(msg_id)),
                (ascii_bytes("echo"@), JsonV::Str(echo)),
            ],
        ),
        BodyV::EchoOk { msg_id, in_reply_to, echo } => JsonV::Obj(
            seq![
                tag_ent(b),
                (ascii_bytes("msg_id"@), JsonV::Num(msg_id)),
                (ascii_bytes("in_reply_to"@), JsonV::Num(in_reply_to)),
                (ascii_bytes("echo"@), JsonV::Str(echo)),
            ],
        ),
        BodyV::Error { in_reply_to, code, text } => JsonV::Obj(
            seq![
                tag_ent(b),
                (ascii_bytes("in_reply_to"@), JsonV::Num(in_reply_to)),
                (ascii_bytes("code"@), JsonV::Num(code)),
                (ascii_bytes("text"@), JsonV::Str(text)),
            ],
        ),
        BodyV::Generate { msg_id } => JsonV::Obj(
            seq![tag_ent(b), (ascii_bytes("msg_id"@), JsonV::Num(msg_id))],
        ),
        BodyV::GenerateOk { in_reply_to, id } => JsonV::Obj(
            seq![
                tag_ent(b),
                (ascii_bytes("in_reply_to"@), JsonV::Num(in_reply_to)),
                (ascii_bytes("id"@), JsonV::Str(id)),
            ],
        ),
        BodyV::Init { msg_id, node_id, node_ids } => JsonV::Obj(
            seq![
                tag_ent(b),
                (ascii_bytes("msg_id"@), JsonV::Num(msg_id)),
                (ascii_bytes("node_id"@), JsonV::Str(node_id)),
                (ascii_bytes("node_ids"@), ids_jv(node_ids)),
            ],
        ),
        BodyV::InitOk { in_reply_to } => JsonV::Obj(
            seq![tag_ent(b), (ascii_bytes("in_reply_to"@), JsonV::Num(in_reply_to))],
        ),
        BodyV::Read { msg_id } => JsonV::Obj(
            seq![tag_ent(b), (ascii_bytes("msg_id"@), JsonV::Num(msg_id))],
        ),
        BodyV::ReadOk { in_reply_to, messages } => JsonV::Obj(
            seq![
                tag_ent(b),
                (ascii_bytes("in_reply_to"@), JsonV::Num(in_reply_to)),
                (ascii_bytes("messages"@), nums_jv(messages)),
            ],
        ),
        BodyV::Topology { msg_id, topology } => JsonV::Obj(
            seq![
                tag_ent(b),
                (ascii_bytes("msg_id"@), JsonV::Num(msg_id)),
                (ascii_bytes("topology"@), topo_jv(topology)),
            ],
        ),
        BodyV::TopologyOk { in_reply_to } => JsonV::Obj(
            seq![tag_ent(b), (ascii_bytes("in_reply_to"@), JsonV::Num(in_reply_to))],
        ),
    }
}

/// How a whole message is laid out: `src`, `dest`, then the payload.
pub open spec fn msg_jv(m: MessageV) -> JsonV {
    JsonV::Obj(
        seq![
            (ascii_bytes("src"@), JsonV::Str(m.src)),
            (ascii_bytes("dest"@), JsonV::Str(m.dest)),
            (ascii_bytes("body"@), body_jv(m.body)),
        ],
    )
}

/// First entry for `key` in an object, if any.
pub open spec fn jlookup(ents: Seq<(Seq<u8>, JsonV)>, key: Seq<u8>) -> Option<JsonV>
    decreases ents.len(),
{
    if ents.len() == 0 {
        None
    } else if ents.first().0 == key {
        Some(ents.first().1)
    } else {
        jlookup(ents.drop_first(), key)
    }
}

/// The entry for `key`, where it is a number.
pub open spec fn num_field(ents: Seq<(Seq<u8>, JsonV)>, key: Seq<u8>) -> Option<u64> {
    match jlookup(ents, key) {
        Some(JsonV::Num(n)) => Some(n),
        _ => None,
    }
}

/// The entry for `key`, where it is a string.
pub open spec fn str_field(ents: Seq<(Seq<u8>, JsonV)>, key: Seq<u8>) -> Option<Seq<u8>> {
    match jlookup(ents, key) {
        Some(JsonV::Str(s)) => Some(s),
        _ => None,
    }
}

/// The strings of an all-string array.
pub open spec fn strs_of(items: Seq<JsonV>) -> Option<Seq<Seq<u8>>>
    decreases items.len(),
{
    if items.len() == 0 {
        Some(Seq::empty())
    } else {
        match items.first() {
            JsonV::Str(s) => match strs_of(items.drop_first()) {
                Some(r) => Some(seq![s] + r),
                None => None,
            },
            _ => None,
        }
    }
}

/// The numbers of an all-number array.
pub open spec fn nums_of(items: Seq<JsonV>) -> Option<Seq<u64>>
    decreases items.len(),
{
    if items.len() == 0 {
        Some(Seq::empty())
    } else {
        match items.first() {
            JsonV::Num(n) => match nums_of(items.drop_first()) {
                Some(r) => Some(seq![n] + r),
                None => None,
            },
            _ => None,
        }
    }
}

/// The adjacency entries of an object whose values are string arrays.
pub open spec fn topo_of(ents: Seq<(Seq<u8>, JsonV)>) -> Option<Seq<(Seq<u8>, Seq<Seq<u8>>)>>
    decreases ents.len(),
{
    if ents.len() == 0 {
        Some(Seq::empty())
    } else {
        match ents.first().1 {
            JsonV::Arr(items) => match strs_of(items) {
                Some(ids) => match topo_of(ents.drop_first()) {
                    Some(r) => Some(seq![(ents.first().0, ids)] + r),
                    None => None,
                },
                None => None,
            },
            _ => None,
        }
    }
}

/// Reads a payload back from its object form: exactly which tags are
/// known, and which fields each requires.
pub open spec fn jv_to_body(ents: Seq<(Seq<u8>, JsonV)>) -> Result<BodyV, ParseError> {
    match str_field(ents, ascii_bytes("type"@)) {
        None => Err(ParseError::BadField),
        Some(t) => {
            if t == ascii_bytes("broadcast"@) {
                match (num_field(ents, ascii_bytes("msg_id"@)), num_field(
                    ents,
                    ascii_bytes("message"@),
                )) {
                    (Some(a), Some(b)) => Ok(BodyV::Broadcast { msg_id: a, message: b }),
                    _ => Err(ParseError::BadField),
                }
            } else if t == ascii_bytes("broadcast_ok"@) {
                match num_field(ents, ascii_bytes("in_reply_to"@)) {
                    Some(a) => Ok(BodyV::BroadcastOk { in_reply_to: a }),
                    _ => Err(ParseError::BadField),
                }
            } else if t == ascii_bytes("echo"@) {
                match (num_field(ents, ascii_bytes("msg_id"@)), str_field(
                    ents,
                    ascii_bytes("echo"@),
                )) {
                    (Some(a), Some(e)) => Ok(BodyV::Echo { msg_id: a, echo: e }),
                    _ => Err(ParseError::BadField),
                }
            } else if t == ascii_bytes("echo_ok"@) {
                match (num_field(ents, ascii_bytes("msg_id"@)), num_field(
                    ents,
                    ascii_bytes("in_reply_to"@),
                ), str_field(ents, ascii_bytes("echo"@))) {
                    (Some(a), Some(b), Some(e)) => Ok(
                        BodyV::EchoOk { msg_id: a, in_reply_to: b, echo: e },
                    ),
                    _ => Err(ParseError::BadField),
                }
            } else if t == ascii_bytes("error"@) {
                match (num_field(ents, ascii_bytes("in_reply_to"@)), num_field(
                    ents,
                    ascii_bytes("code"@),
                ), str_field(ents, ascii_bytes("text"@))) {
                    (Some(a), Some(c), Some(x)) => Ok(
                        BodyV::Error { in_reply_to: a, code: c, text: x },
                    ),
                    _ => Err(ParseError::BadField),
                }
            } else if t == ascii_bytes("generate"@) {
                match num_field(ents, ascii_bytes("msg_id"@)) {
                    Some(a) => Ok(BodyV::Generate { msg_id: a }),
                    _ => Err(ParseError::BadField),
                }
            } else if t == ascii_bytes("generate_ok"@) {
                match (num_field(ents, ascii_bytes("in_reply_to"@)), str_field(
                    ents,
                    ascii_bytes("id"@),
                )) {
                    (Some(a), Some(x)) => Ok(BodyV::GenerateOk { in_reply_to: a, id: x }),
                    _ => Err(ParseError::BadField),
                }
            } else if t == ascii_bytes("init"@) {
                match (num_field(ents, ascii_bytes("msg_id"@)), str_field(
                    ents,
                    ascii_bytes("node_id"@),
                ), jlookup(ents, ascii_bytes("node_ids"@))) {
                    (Some(a), Some(nid), Some(JsonV::Arr(items))) => match strs_of(items) {
                        Some(ids) => Ok(
                            BodyV::Init { msg_id: a, node_id: nid, node_ids: ids },
                        ),
                        None => Err(ParseError::BadField),
                    },
                    _ => Err(ParseError::BadField),
                }
            } else if t == ascii_bytes("init_ok"@) {
                match num_field(ents, ascii_bytes("in_reply_to"@)) {
                    Some(a) => Ok(BodyV::InitOk { in_reply_to: a }),
                    _ => Err(ParseError::BadField),
                }
            } else if t == ascii_bytes("read"@) {
                match num_field(ents, ascii_bytes("msg_id"@)) {
                    Some(a) => Ok(BodyV::Read { msg_id: a }),
                    _ => Err(ParseError::BadField),
                }
            } else if t == ascii_bytes("read_ok"@) {
                match (num_field(ents, ascii_bytes("in_reply_to"@)), jlookup(
                    ents,
                    ascii_bytes("messages"@),
                )) {
                    (Some(a), Some(JsonV::Arr(items))) => match nums_of(items) {
                        Some(xs) => Ok(BodyV::ReadOk { in_reply_to: a, messages: xs }),
                        None => Err(ParseError::BadField),
                    },
                    _ => Err(ParseError::BadField),
                }
            } else if t == ascii_bytes("topology"@) {
                match (num_field(ents, ascii_bytes("msg_id"@)), jlookup(
                    ents,
                    ascii_bytes("topology"@),
                )) {
                    (Some(a), Some(JsonV::Obj(tents))) => match topo_of(tents) {
                        Some(topo) => Ok(BodyV::Topology { msg_id: a, topology: topo }),
                        None => Err(ParseError::BadField),
                    },
                    _ => Err(ParseError::BadField),
                }
            } else if t == ascii_bytes("topology_ok"@) {
                match num_field(ents, ascii_bytes("in_reply_to"@)) {
                    Some(a) => Ok(BodyV::TopologyOk { in_reply_to: a }),
                    _ => Err(ParseError::BadField),
                }
            } else {
                Err(ParseError::UnknownType)
            }
        },
    }
}

/// Reads a whole message back from its object form.
pub open spec fn jv_to_msg(v: JsonV) -> Result<MessageV, ParseError> {
    match v {
        JsonV::Obj(ents) => {
            match (str_field(ents, ascii_bytes("src"@)), str_field(
                ents,
                ascii_bytes("dest"@),
            ), jlookup(ents, ascii_bytes("body"@))) {
                (Some(src), Some(dest), Some(JsonV::Obj(bents))) => match jv_to_body(bents) {
                    Ok(b) => Ok(MessageV { src, dest, body: b }),
                    Err(e) => Err(e),
                },
                _ => Err(ParseError::BadField),
            }
        },
        _ => Err(ParseError::BadField),
    }
}

/// What `serialize` writes: the canonical text of the message's object
/// form.
pub open spec fn spec_serialize(m: MessageV) -> Seq<u8> {
    ser_value(msg_jv(m))
}

/// What `parse` accepts: one JSON value covering the whole line (modulo
/// whitespace), read back through the schema.
pub open spec fn spec_parse(s: Seq<u8>) -> Result<MessageV, ParseError> {
    match sp_value(s, 0) {
        None => Err(ParseError::Syntax),
        Some((v, e)) => {
            if ws_end(s, e) != s.len() {
                Err(ParseError::Syntax)
            } else {
                jv_to_msg(v)
            }
        },
    }
}

/// A lookup finds the entry at `i` when no earlier entry shares its key.
pub proof fn lemma_jlookup_at(ents: Seq<(Seq<u8>, JsonV)>, i: int)
    requires
        0 <= i < ents.len(),
        forall|j: int| 0 <= j < i ==> (#[trigger] ents[j]).0 != ents[i].0,
    ensures
        jlookup(ents, ents[i].0) == Some(ents[i].1),
    decreases i,
{
    if i > 0 {
        lemma_jlookup_at(ents.drop_first(), i - 1);
        assert(forall|j: int|
            0 <= j < ents.len() - 1 ==> #[trigger] ents.drop_first()[j] == ents[j + 1]);
    }
}

proof fn lemma_strs_of(ids: Seq<Seq<u8>>)
    ensures
        ids_jv(ids) is Arr,
        strs_of(ids_jv(ids)->Arr_0) == Some(ids),
    decreases ids.len(),
{
    let m = ids_jv(ids)->Arr_0;
    if ids.len() == 0 {
        assert(ids =~= Seq::<Seq<u8>>::empty());
    } else {
        lemma_strs_of(ids.drop_first());
        assert(m.first() == JsonV::Str(ids.first()));
        assert(m.drop_first() =~= ids_jv(ids.drop_first())->Arr_0);
        assert(seq![ids.first()] + ids.drop_first() =~= ids);
    }
}

proof fn lemma_nums_of(xs: Seq<u64>)
    ensures
        nums_jv(xs) is Arr,
        nums_of(nums_jv(xs)->Arr_0) == Some(xs),
    decreases xs.len(),
{
    let m = nums_jv(xs)->Arr_0;
    if xs.len() == 0 {
        assert(xs =~= Seq::<u64>::empty());
    } else {
        lemma_nums_of(xs.drop_first());
        assert(m.first() == JsonV::Num(xs.first()));
        assert(m.drop_first() =~= nums_jv(xs.drop_first())->Arr_0);
        assert(seq![xs.first()] + xs.drop_first() =~= xs);
    }
}

proof fn lemma_topo_of(t: Seq<(Seq<u8>, Seq<Seq<u8>>)>)
    ensures
        topo_jv(t) is Obj,
        topo_of(topo_jv(t)->Obj_0) == Some(t),
    decreases t.len(),
{
    let m = topo_jv(t)->Obj_0;
    if t.len() == 0 {
        assert(t =~= Seq::<(Seq<u8>, Seq<Seq<u8>>)>::empty());
    } else {
        lemma_topo_of(t.drop_first());
        lemma_strs_of(t.first().1);
        assert(m.first() == (t.first().0, ids_jv(t.first().1)));
        assert(m.drop_first() =~= topo_jv(t.drop_first())->Obj_0);
        assert(seq![(t.first().0, t.first().1)] + t.drop_first() =~= t);
    }
}

/// The object form of a message reads back as exactly that message.
pub proof fn lemma_schema_inv(m: MessageV)
    ensures
        jv_to_msg(msg_jv(m)) == Ok::<MessageV, ParseError>(m),
{
    reveal_strlit("src");
    reveal_strlit("dest");
    reveal_strlit("body");
    reveal_strlit("type");
    reveal_strlit("msg_id");
    reveal_strlit("message");
    reveal_strlit("in_reply_to");
    reveal_strlit("echo");
    reveal_strlit("code");
    reveal_strlit("text");
    reveal_strlit("id");
    reveal_strlit("node_id");
    reveal_strlit("node_ids");
    reveal_strlit("messages");
    reveal_strlit("topology");
    reveal_strlit("broadcast");
    reveal_strlit("broadcast_ok");
    reveal_strlit("echo_ok");
    reveal_strlit("error");
    reveal_strlit("generate");
    reveal_strlit("generate_ok");
    reveal_strlit("init");
    reveal_strlit("init_ok");
    reveal_strlit("read");
    reveal_strlit("read_ok");
    reveal_strlit("topology_ok");
    let ents = msg_jv(m)->Obj_0;
    assert(ascii_bytes("src"@).len() == 3);
    assert(ascii_bytes("dest"@).len() == 4);
    assert(ascii_bytes("body"@).len() == 4);
    assert(ascii_bytes("dest"@)[0] == 100);
    assert(ascii_bytes("body"@)[0] == 98);
    lemma_jlookup_at(ents, 0);
    lemma_jlookup_at(ents, 1);
    lemma_jlookup_at(ents, 2);
    let b = m.body;
    let bents = body_jv(b)->Obj_0;
    assert(bents[0].0 == ascii_bytes("type"@));
    assert(ascii_bytes("type"@).len() == 4);
    assert(ascii_bytes("msg_id"@).len() == 6);
    assert(ascii_bytes("message"@).len() == 7);
    assert(ascii_bytes("in_reply_to"@).len() == 11);
    assert(ascii_bytes("echo"@).len() == 4);
    assert(ascii_bytes("code"@).len() == 4);
    assert(ascii_bytes("text"@).len() == 4);
    assert(ascii_bytes("id"@).len() == 2);
    assert(ascii_bytes("node_id"@).len() == 7);
    assert(ascii_bytes("node_ids"@).len() == 8);
    assert(ascii_bytes("messages"@).len() == 8);
    assert(ascii_bytes("topology"@).len() == 8);
    assert(ascii_bytes("type"@)[0] == 116);
    assert(ascii_bytes("type"@)[1] == 121);
    assert(ascii_bytes("echo"@)[0] == 101);
    assert(ascii_bytes("code"@)[0] == 99);
    assert(ascii_bytes("text"@)[0] == 116);
    assert(ascii_bytes("text"@)[1] == 101);
    assert(ascii_bytes("broadcast"@).len() == 9);
    assert(ascii_bytes("broadcast_ok"@).len() == 12);
    assert(ascii_bytes("echo_ok"@).len() == 7);
    assert(ascii_bytes("error"@).len() == 5);
    assert(ascii_bytes("generate"@).len() == 8);
    assert(ascii_bytes("generate_ok"@).len() == 11);
    assert(ascii_bytes("init"@).len() == 4);
    assert(ascii_bytes("init_ok"@).len() == 7);
    assert(ascii_bytes("read"@).len() == 4);
    assert(ascii_bytes("read_ok"@).len() == 7);
    assert(ascii_bytes("topology_ok"@).len() == 11);
    assert(ascii_bytes("init"@)[0] == 105);
    assert(ascii_bytes("init_ok"@)[0] == 105);
    assert(ascii_bytes("echo"@)[0] == 101);
    assert(ascii_bytes("echo_ok"@)[0] == 101);
    assert(ascii_bytes("read"@)[0] == 114);
    assert(ascii_bytes("read_ok"@)[0] == 114);
    assert(ascii_bytes("topology"@)[0] == 116);
    assert(ascii_bytes("generate"@)[0] == 103);
    assert(ascii_bytes("topology_ok"@)[0] == 116);
    assert(ascii_bytes("generate_ok"@)[0] == 103);
    assert(ascii_bytes("broadcast_ok"@)[0] == 98);
    lemma_jlookup_at(bents, 0);
    match b {
        BodyV::Broadcast { .. } => {
            lemma_jlookup_at(bents, 1);
            lemma_jlookup_at(bents, 2);
        },
        BodyV::BroadcastOk { .. } => {
            lemma_jlookup_at(bents, 1);
        },
        BodyV::Echo { .. } => {
            lemma_jlookup_at(bents, 1);
            lemma_jlookup_at(bents, 2);
        },
        BodyV::EchoOk { .. } => {
            lemma_jlookup_at(bents, 1);
            lemma_jlookup_at(bents, 2);
            lemma_jlookup_at(bents, 3);
        },
        BodyV::Error { .. } => {
            lemma_jlookup_at(bents, 1);
            lemma_jlookup_at(bents, 2);
            lemma_jlookup_at(bents, 3);
        },
        BodyV::Generate { .. } => {
            lemma_jlookup_at(bents, 1);
        },
        BodyV::GenerateOk { .. } => {
            lemma_jlookup_at(bents, 1);
            lemma_jlookup_at(bents, 2);
        },
        BodyV::Init { node_ids, .. } => {
            lemma_jlookup_at(bents, 1);
            lemma_jlookup_at(bents, 2);
            lemma_jlookup_at(bents, 3);
            lemma_strs_of(node_ids);
        },
        BodyV::InitOk { .. } => {
            lemma_jlookup_at(bents, 1);
        },
        BodyV::Read { .. } => {
            lemma_jlookup_at(bents, 1);
        },
        BodyV::ReadOk { messages, .. } => {
            lemma_jlookup_at(bents, 1);
            lemma_jlookup_at(bents, 2);
            lemma_nums_of(messages);
        },
        BodyV::Topology { topology, .. } => {
            lemma_jlookup_at(bents, 1);
            lemma_jlookup_at(bents, 2);
            lemma_topo_of(topology);
        },
        BodyV::TopologyOk { .. } => {
            lemma_jlookup_at(bents, 1);
        },
    }
}

/// Round trip: parsing the canonical serialization of any message yields
/// exactly that message.
pub proof fn lemma_round_trip(m: MessageV)
    ensures
        spec_parse(spec_serialize(m)) == Ok::<MessageV, ParseError>(m),
{
    let jv = msg_jv(m);
    let s = ser_value(jv);
    lemma_msg_jv_domain(m);
    assert(s.subrange(0, s.len() as int) =~= s);
    lemma_inv_value(jv, s, 0);
    assert(sp_value(s, 0) == Some((jv, s.len() as int)));
    assert(ws_end(s, s.len() as int) == s.len());
    lemma_schema_inv(m);
}

fn ids_to_json(ids: &Vec<Vec<u8>>) -> (j: Json)
    ensures
        j.jv() == ids_jv(crate::protocol::ids_view(ids@)),
{
    let mut items: Vec<Json> = Vec::new();
    let mut k: usize = 0;
    while k < ids.len()
        invariant
            k <= ids@.len(),
            items@.len() == k,
            forall|i: int| 0 <= i < k ==> (#[trigger] items@[i]).jv() == JsonV::Str(ids@[i]@),
        decreases ids@.len() - k,
    {
        items.push(Json::Str(clone_bytes(&ids[k])));
        k += 1;
    }
    proof {
        lemma_jv_elems(items@);
        assert(jv_elems(items@) =~= ids_jv(crate::protocol::ids_view(ids@))->Arr_0);
    }
    Json::Arr(items)
}

fn nums_to_json(xs: &Vec<u64>) -> (j: Json)
    ensures
        j.jv() == nums_jv(xs@),
{
    let mut items: Vec<Json> = Vec::new();
    let mut k: usize = 0;
    while k < xs.len()
        invariant
            k <= xs@.len(),
            items@.len() == k,
            forall|i: int| 0 <= i < k ==> #[trigger] items@[i] == Json::Num(xs@[i]),
        decreases xs@.len() - k,
    {
        items.push(Json::Num(xs[k]));
        k += 1;
    }
    proof {
        lemma_jv_elems(items@);
        assert(jv_elems(items@) =~= nums_jv(xs@)->Arr_0);
    }
    Json::Arr(items)
}

fn topo_to_json(t: &Vec<(Vec<u8>, Vec<Vec<u8>>)>) -> (j: Json)
    ensures
        j.jv() == topo_jv(crate::protocol::topo_view(t@)),
{
    let mut ents: Vec<(Vec<u8>, Json)> = Vec::new();
    let mut k: usize = 0;
    while k < t.len()
        invariant
            k <= t@.len(),
            ents@.len() == k,
            forall|i: int|
                0 <= i < k ==> (#[trigger] ents@[i]).0@ == t@[i].0@ && ents@[i].1.jv()
                    == ids_jv(crate::protocol::ids_view(t@[i].1@)),
        decreases t@.len() - k,
    {
        let key = clone_bytes(&t[k].0);
        let val = ids_to_json(&t[k].1);
        ents.push((key, val));
        k += 1;
    }
    proof {
        lemma_jv_entries(ents@);
        assert(jv_entries(ents@) =~= topo_jv(crate::protocol::topo_view(t@))->Obj_0);
    }
    Json::Obj(ents)
}

/// Lays a payload out as its JSON object form.
fn body_to_json(b: &Body) -> (j: Json)
    ensures
        j.jv() == body_jv(b@),
{
    proof {
        reveal_strlit("type");
        reveal_strlit("msg_id");
        reveal_strlit("message");
        reveal_strlit("in_reply_to");
        reveal_strlit("echo");
        reveal_strlit("code");
        reveal_strlit("text");
        reveal_strlit("id");
        reveal_strlit("node_id");
        reveal_strlit("node_ids");
        reveal_strlit("messages");
        reveal_strlit("topology");
    }
    let tag_entry = (lit_vec("type"), Json::Str(lit_vec(b.tag())));
    let mut es: Vec<(Vec<u8>, Json)> = Vec::new();
    match b {
        Body::Broadcast { msg_id, message } => {
            es.push(tag_entry);
            es.push((lit_vec("msg_id"), Json::Num(*msg_id)));
            es.push((lit_vec("message"), Json::Num(*message)));
        },
        Body::BroadcastOk { in_reply_to } => {
            es.push(tag_entry);
            es.push((lit_vec("in_reply_to"), Json::Num(*in_reply_to)));
        },
        Body::Echo { msg_id, echo } => {
            es.push(tag_entry);
            es.push((lit_vec("msg_id"), Json::Num(*msg_id)));
            es.push((lit_vec("echo"), Json::Str(clone_bytes(echo))));
        },
        Body::EchoOk { msg_id, in_reply_to, echo } => {
            es.push(tag_entry);
            es.push((lit_vec("msg_id"), Json::Num(*msg_id)));
            es.push((lit_vec("in_reply_to"), Json::Num(*in_reply_to)));
            es.push((lit_vec("echo"), Json::Str(clone_bytes(echo))));
        },
        Body::Error { in_reply_to, code, text } => {
            es.push(tag_entry);
            es.push((lit_vec("in_reply_to"), Json::Num(*in_reply_to)));
            es.push((lit_vec("code"), Json::Num(*code)));
            es.push((lit_vec("text"), Json::Str(clone_bytes(text))));
        },
        Body::Generate { msg_id } => {
            es.push(tag_entry);
            es.push((lit_vec("msg_id"), Json::Num(*msg_id)));
        },
        Body::GenerateOk { in_reply_to, id } => {
            es.push(tag_entry);
            es.push((lit_vec("in_reply_to"), Json::Num(*in_reply_to)));
            es.push((lit_vec("id"), Json::Str(clone_bytes(id))));
        },
        Body::Init { msg_id, node_id, node_ids } => {
            es.push(tag_entry);
            es.push((lit_vec("msg_id"), Json::Num(*msg_id)));
            es.push((lit_vec("node_id"), Json::Str(clone_bytes(node_id))));
            es.push((lit_vec("node_ids"), ids_to_json(node_ids)));
        },
        Body::InitOk { in_reply_to } => {
            es.push(tag_entry);
            es.push((lit_vec("in_reply_to"), Json::Num(*in_reply_to)));
        },
        Body::Read { msg_id } => {
            es.push(tag_entry);
            es.push((lit_vec("msg_id"), Json::Num(*msg_id)));
        },
        Body::ReadOk { in_reply_to, messages } => {
            es.push(tag_entry);
            es.push((lit_vec("in_reply_to"), Json::Num(*in_reply_to)));
            es.push((lit_vec("messages"), nums_to_json(messages)));
        },
        Body::Topology { msg_id, topology } => {
            es.push(tag_entry);
            es.push((lit_vec("msg_id"), Json::Num(*msg_id)));
            es.push((lit_vec("topology"), topo_to_json(topology)));
        },
        Body::TopologyOk { in_reply_to } => {
            es.push(tag_entry);
            es.push((lit_vec("in_reply_to"), Json::Num(*in_reply_to)));
        },
    }
    proof {
        lemma_jv_entries(es@);
        assert(jv_entries(es@) =~= body_jv(b@)->Obj_0);
    }
    Json::Obj(es)
}

/// Lays a whole message out as its JSON object form.
fn msg_to_json(m: &Message) -> (j: Json)
    ensures
        j.jv() == msg_jv(m@),
{
    proof {
        reveal_strlit("src");
        reveal_strlit("dest");
        reveal_strlit("body");
    }
    let mut es: Vec<(Vec<u8>, Json)> = Vec::new();
    es.push((lit_vec("src"), Json::Str(clone_bytes(&m.src))));
    es.push((lit_vec("dest"), Json::Str(clone_bytes(&m.dest))));
    es.push((lit_vec("body"), body_to_json(&m.body)));
    proof {
        lemma_jv_entries(es@);
        assert(jv_entries(es@) =~= msg_jv(m@)->Obj_0);
    }
    Json::Obj(es)
}

proof fn lemma_ids_jv_domain(ids: Seq<Seq<u8>>)
    ensures
        no_numtext(ids_jv(ids)),
{
    let items = ids_jv(ids)->Arr_0;
    assert forall|i: int| 0 <= i < items.len() implies no_numtext(#[trigger] items[i]) by {
        assert(items[i] == JsonV::Str(ids[i]));
    }
    lemma_no_numtext_items(items);
}

proof fn lemma_nums_jv_domain(xs: Seq<u64>)
    ensures
        no_numtext(nums_jv(xs)),
{
    let items = nums_jv(xs)->Arr_0;
    assert forall|i: int| 0 <= i < items.len() implies no_numtext(#[trigger] items[i]) by {
        assert(items[i] == JsonV::Num(xs[i]));
    }
    lemma_no_numtext_items(items);
}

proof fn lemma_topo_jv_domain(t: Seq<(Seq<u8>, Seq<Seq<u8>>)>)
    ensures
        no_numtext(topo_jv(t)),
{
    let ents = topo_jv(t)->Obj_0;
    assert forall|i: int| 0 <= i < ents.len() implies no_numtext((#[trigger] ents[i]).1) by {
        assert(ents[i] == (t[i].0, ids_jv(t[i].1)));
        lemma_ids_jv_domain(t[i].1);
    }
    lemma_no_numtext_ents(ents);
}

/// A message's object form lies in the serializer's domain: the schema
/// never produces a raw number token.
proof fn lemma_msg_jv_domain(m: MessageV)
    ensures
        no_numtext(msg_jv(m)),
{
    let b = m.body;
    let bents = body_jv(b)->Obj_0;
    match b {
        BodyV::Init { node_ids, .. } => {
            lemma_ids_jv_domain(node_ids);
        },
        BodyV::ReadOk { messages, .. } => {
            lemma_nums_jv_domain(messages);
        },
        BodyV::Topology { topology, .. } => {
            lemma_topo_jv_domain(topology);
        },
        _ => {},
    }
    assert forall|i: int| 0 <= i < bents.len() implies no_numtext((#[trigger] bents[i]).1) by {
        if i == 0 {
        } else if i == 1 {
        } else if i == 2 {
        } else {
        }
    }
    lemma_no_numtext_ents(bents);
    let ents = msg_jv(m)->Obj_0;
    assert forall|i: int| 0 <= i < ents.len() implies no_numtext((#[trigger] ents[i]).1) by {
        if i == 0 {
        } else if i == 1 {
        } else {
        }
    }
    lemma_no_numtext_ents(ents);
}

/// Every message serializes to a single line: the canonical text never
/// holds a control byte (the serializer escapes them), so newline framing
/// can never be broken from inside a record.
pub proof fn lemma_serialize_one_line(m: MessageV)
    ensures
        no_ctl(spec_serialize(m)),
{
    lemma_msg_jv_domain(m);
    lemma_ser_value_no_ctl(msg_jv(m));
}

/// Serializes one message to its canonical JSON text (without newline).
/// The output is always a single line: it holds no byte below 0x20.
pub fn serialize(m: &Message) -> (out: Vec<u8>)
    ensures
        out@ == spec_serialize(m@),
        no_ctl(out@),
{
    let j = msg_to_json(m);
    let mut out: Vec<u8> = Vec::new();
    write_json(&j, &mut out);
    proof {
        assert(out@ =~= spec_serialize(m@));
        lemma_serialize_one_line(m@);
    }
    out
}

/// Whether `v` spells the same bytes as the ASCII literal `s`.
fn bytes_eq_lit(v: &Vec<u8>, s: &str) -> (r: bool)
    requires
        vstd::string::is_ascii(s),
    ensures
        r == (v@ == ascii_bytes(s@)),
{
    let lit = lit_vec(s);
    bytes_eq(v, &lit)
}

/// First entry for an ASCII key in an object's entry list.
fn jget<'a>(ents: &'a Vec<(Vec<u8>, Json)>, key: &str) -> (r: Option<&'a Json>)
    requires
        vstd::string::is_ascii(key),
    ensures
        (match r {
            Some(v) => jlookup(jv_entries(ents@), ascii_bytes(key@)) == Some(v.jv()),
            None => jlookup(jv_entries(ents@), ascii_bytes(key@)) is None,
        }),
{
    let ghost ev = jv_entries(ents@);
    let ghost kb = ascii_bytes(key@);
    proof {
        lemma_jv_entries(ents@);
        assert(ev.skip(0) =~= ev);
    }
    let mut k: usize = 0;
    while k < ents.len()
        invariant
            vstd::string::is_ascii(key),
            k <= ents@.len(),
            ev == jv_entries(ents@),
            kb == ascii_bytes(key@),
            ev.len() == ents@.len(),
            forall|i: int| 0 <= i < ents@.len() ==> ev[i] == (ents@[i].0@, ents@[i].1.jv()),
            jlookup(ev, kb) == jlookup(ev.skip(k as int), kb),
        decreases ents@.len() - k,
    {
        if bytes_eq_lit(&ents[k].0, key) {
            proof {
                let rest = ev.skip(k as int);
                assert(rest[0] == ev[k as int]);
                assert(jlookup(rest, kb) == Some(ev[k as int].1));
            }
            return Some(&ents[k].1);
        }
        proof {
            let rest = ev.skip(k as int);
            assert(rest[0] == ev[k as int]);
            assert(rest.drop_first() =~= ev.skip(k as int + 1));
        }
        k += 1;
    }
    proof {
        assert(ev.skip(k as int) =~= Seq::<(Seq<u8>, JsonV)>::empty());
    }
    None
}

/// The strings of an all-string array, refused otherwise.
fn strs_from(items: &Vec<Json>) -> (r: Option<Vec<Vec<u8>>>)
    ensures
        (match r {
            Some(ids) => strs_of(jv_elems(items@)) == Some(crate::protocol::ids_view(ids@)),
            None => strs_of(jv_elems(items@)) is None,
        }),
{
    let ghost jvs = jv_elems(items@);
    proof {
        lemma_jv_elems(items@);
        assert(jvs.skip(0) =~= jvs);
    }
    let mut acc: Vec<Vec<u8>> = Vec::new();
    let mut k: usize = 0;
    while k < items.len()
        invariant
            k <= items@.len(),
            jvs == jv_elems(items@),
            jvs.len() == items@.len(),
            forall|i: int| 0 <= i < items@.len() ==> jvs[i] == items@[i].jv(),
            acc@.len() == k,
            (match strs_of(jvs.skip(k as int)) {
                Some(r) => strs_of(jvs) == Some(crate::protocol::ids_view(acc@) + r),
                None => strs_of(jvs) is None,
            }),
        decreases items@.len() - k,
    {
        proof {
            let rest = jvs.skip(k as int);
            assert(rest[0] == jvs[k as int]);
            assert(rest.drop_first() =~= jvs.skip(k as int + 1));
        }
        match &items[k] {
            Json::Str(s) => {
                let ghost acc0 = acc@;
                acc.push(clone_bytes(s));
                proof {
                    assert(crate::protocol::ids_view(acc@) =~= crate::protocol::ids_view(acc0)
                        + seq![s@]);
                    if let Some(r2) = strs_of(jvs.skip(k as int + 1)) {
                        assert(crate::protocol::ids_view(acc0) + (seq![s@] + r2) =~= crate::protocol::ids_view(
                            acc@,
                        ) + r2);
                    }
                }
            },
            _ => {
                return None;
            },
        }
        k += 1;
    }
    proof {
        assert(jvs.skip(k as int) =~= Seq::<JsonV>::empty());
        assert(crate::protocol::ids_view(acc@) + Seq::<Seq<u8>>::empty() =~= crate::protocol::ids_view(
            acc@,
        ));
    }
    Some(acc)
}

/// The numbers of an all-number array, refused otherwise.
fn nums_from(items: &Vec<Json>) -> (r: Option<Vec<u64>>)
    ensures
        (match r {
            Some(xs) => nums_of(jv_elems(items@)) == Some(xs@),
            None => nums_of(jv_elems(items@)) is None,
        }),
{
    let ghost jvs = jv_elems(items@);
    proof {
        lemma_jv_elems(items@);
        assert(jvs.skip(0) =~= jvs);
    }
    let mut acc: Vec<u64> = Vec::new();
    let mut k: usize = 0;
    while k < items.len()
        invariant
            k <= items@.len(),
            jvs == jv_elems(items@),
            jvs.len() == items@.len(),
            forall|i: int| 0 <= i < items@.len() ==> jvs[i] == items@[i].jv(),
            acc@.len() == k,
            (match nums_of(jvs.skip(k as int)) {
                Some(r) => nums_of(jvs) == Some(acc@ + r),
                None => nums_of(jvs) is None,
            }),
        decreases items@.len() - k,
    {
        proof {
            let rest = jvs.skip(k as int);
            assert(rest[0] == jvs[k as int]);
            assert(rest.drop_first() =~= jvs.skip(k as int + 1));
        }
        match &items[k] {
            Json::Num(n) => {
                let ghost acc0 = acc@;
                acc.push(*n);
                proof {
                    if let Some(r2) = nums_of(jvs.skip(k as int + 1)) {
                        assert(acc0 + (seq![*n] + r2) =~= acc@ + r2);
                    }
                }
            },
            _ => {
                return None;
            },
        }
        k += 1;
    }
    proof {
        assert(jvs.skip(k as int) =~= Seq::<JsonV>::empty());
        assert(acc@ + Seq::<u64>::empty() =~= acc@);
    }
    Some(acc)
}

/// The adjacency list of an object whose values are all string arrays.
fn topo_from(tents: &Vec<(Vec<u8>, Json)>) -> (r: Option<Vec<(Vec<u8>, Vec<Vec<u8>>)>>)
    ensures
        (match r {
            Some(t) => topo_of(jv_entries(tents@)) == Some(crate::protocol::topo_view(t@)),
            None => topo_of(jv_entries(tents@)) is None,
        }),
{
    let ghost ev = jv_entries(tents@);
    proof {
        lemma_jv_entries(tents@);
        assert(ev.skip(0) =~= ev);
    }
    let mut acc: Vec<(Vec<u8>, Vec<Vec<u8>>)> = Vec::new();
    let mut k: usize = 0;
    while k < tents.len()
        invariant
            k <= tents@.len(),
            ev == jv_entries(tents@),
            ev.len() == tents@.len(),
            forall|i: int|
                0 <= i < tents@.len() ==> ev[i] == (tents@[i].0@, tents@[i].1.jv()),
            acc@.len() == k,
            (match topo_of(ev.skip(k as int)) {
                Some(r) => topo_of(ev) == Some(crate::protocol::topo_view(acc@) + r),
                None => topo_of(ev) is None,
            }),
        decreases tents@.len() - k,
    {
        proof {
            let rest = ev.skip(k as int);
            assert(rest[0] == ev[k as int]);
            assert(rest.drop_first() =~= ev.skip(k as int + 1));
        }
        match &tents[k].1 {
            Json::Arr(items) => {
                match strs_from(items) {
                    Some(ids) => {
                        let ghost acc0 = acc@;
                        let key = clone_bytes(&tents[k].0);
                        acc.push((key, ids));
                        proof {
                            let idsv = crate::protocol::ids_view(acc@[k as int].1@);
                            assert(crate::protocol::topo_view(acc@) =~= crate::protocol::topo_view(
                                acc0,
                            ) + seq![(tents@[k as int].0@, idsv)]);
                            if let Some(r2) = topo_of(ev.skip(k as int + 1)) {
                                assert(crate::protocol::topo_view(acc0) + (seq![
                                    (tents@[k as int].0@, idsv),
                                ] + r2) =~= crate::protocol::topo_view(acc@) + r2);
                            }
                        }
                    },
                    None => {
                        return None;
                    },
                }
            },
            _ => {
                return None;
            },
        }
        k += 1;
    }
    proof {
        assert(ev.skip(k as int) =~= Seq::<(Seq<u8>, JsonV)>::empty());
        assert(crate::protocol::topo_view(acc@) + Seq::<(Seq<u8>, Seq<Seq<u8>>)>::empty()
            =~= crate::protocol::topo_view(acc@));
    }
    Some(acc)
}

/// Reads a message back from a parsed JSON value.
fn json_to_msg(j: &Json) -> (r: Result<Message, ParseError>)
    ensures
        (match r {
            Ok(m) => jv_to_msg(j.jv()) == Ok::<MessageV, ParseError>(m@),
            Err(e) => jv_to_msg(j.jv()) == Err::<MessageV, ParseError>(e),
        }),
{
    proof {
        reveal_strlit("src");
        reveal_strlit("dest");
        reveal_strlit("body");
        reveal_strlit("type");
        reveal_strlit("msg_id");
        reveal_strlit("message");
        reveal_strlit("in_reply_to");
        reveal_strlit("echo");
        reveal_strlit("code");
        reveal_strlit("text");
        reveal_strlit("id");
        reveal_strlit("node_id");
        reveal_strlit("node_ids");
        reveal_strlit("messages");
        reveal_strlit("topology");
        reveal_strlit("broadcast");
        reveal_strlit("broadcast_ok");
        reveal_strlit("echo_ok");
        reveal_strlit("error");
        reveal_strlit("generate");
        reveal_strlit("generate_ok");
        reveal_strlit("init");
        reveal_strlit("init_ok");
        reveal_strlit("read");
        reveal_strlit("read_ok");
        reveal_strlit("topology_ok");
    }
    let ents = match j {
        Json::Obj(ents) => ents,
        _ => {
            return Err(ParseError::BadField);
        },
    };
    let src = match jget(ents, "src") {
        Some(Json::Str(s)) => clone_bytes(s),
        _ => {
            return Err(ParseError::BadField);
        },
    };
    let dest = match jget(ents, "dest") {
        Some(Json::Str(s)) => clone_bytes(s),
        _ => {
            return Err(ParseError::BadField);
        },
    };
    let bents = match jget(ents, "body") {
        Some(Json::Obj(bents)) => bents,
        _ => {
            return Err(ParseError::BadField);
        },
    };
    let tag = match jget(bents, "type") {
        Some(Json::Str(t)) => t,
        _ => {
            return Err(ParseError::BadField);
        },
    };
    let body: Body = if bytes_eq_lit(tag, "broadcast") {
        match (jget(bents, "msg_id"), jget(bents, "message")) {
            (Some(Json::Num(a)), Some(Json::Num(b))) => Body::Broadcast {
                msg_id: *a,
                message: *b,
            },
            _ => {
                return Err(ParseError::BadField);
            },
        }
    } else if bytes_eq_lit(tag, "broadcast_ok") {
        match jget(bents, "in_reply_to") {
            Some(Json::Num(a)) => Body::BroadcastOk { in_reply_to: *a },
            _ => {
                return Err(ParseError::BadField);
            },
        }
    } else if bytes_eq_lit(tag, "echo") {
        match (jget(bents, "msg_id"), jget(bents, "echo")) {
            (Some(Json::Num(a)), Some(Json::Str(e))) => Body::Echo {
                msg_id: *a,
                echo: clone_bytes(e),
            },
            _ => {
                return Err(ParseError::BadField);
            },
        }
    } else if bytes_eq_lit(tag, "echo_ok") {
        match (jget(bents, "msg_id"), jget(bents, "in_reply_to"), jget(bents, "echo")) {
            (Some(Json::Num(a)), Some(Json::Num(b)), Some(Json::Str(e))) => Body::EchoOk {
                msg_id: *a,
                in_reply_to: *b,
                echo: clone_bytes(e),
            },
            _ => {
                return Err(ParseError::BadField);
            },
        }
    } else if bytes_eq_lit(tag, "error") {
        match (jget(bents, "in_reply_to"), jget(bents, "code"), jget(bents, "text")) {
            (Some(Json::Num(a)), Some(Json::Num(c)), Some(Json::Str(x))) => Body::Error {
                in_reply_to: *a,
                code: *c,
                text: clone_bytes(x),
            },
            _ => {
                return Err(ParseError::BadField);
            },
        }
    } else if bytes_eq_lit(tag, "generate") {
        match jget(bents, "msg_id") {
            Some(Json::Num(a)) => Body::Generate { msg_id: *a },
            _ => {
                return Err(ParseError::BadField);
            },
        }
    } else if bytes_eq_lit(tag, "generate_ok") {
        match (jget(bents, "in_reply_to"), jget(bents, "id")) {
            (Some(Json::Num(a)), Some(Json::Str(x))) => Body::GenerateOk {
                in_reply_to: *a,
                id: clone_bytes(x),
            },
            _ => {
                return Err(ParseError::BadField);
            },
        }
    } else if bytes_eq_lit(tag, "init") {
        match (jget(bents, "msg_id"), jget(bents, "node_id"), jget(bents, "node_ids")) {
            (Some(Json::Num(a)), Some(Json::Str(nid)), Some(Json::Arr(items))) => {
                match strs_from(items) {
                    Some(ids) => Body::Init {
                        msg_id: *a,
                        node_id: clone_bytes(nid),
                        node_ids: ids,
                    },
                    None => {
                        return Err(ParseError::BadField);
                    },
                }
            },
            _ => {
                return Err(ParseError::BadField);
            },
        }
    } else if bytes_eq_lit(tag, "init_ok") {
        match jget(bents, "in_reply_to") {
            Some(Json::Num(a)) => Body::InitOk { in_reply_to: *a },
            _ => {
                return Err(ParseError::BadField);
            },
        }
    } else if bytes_eq_lit(tag, "read") {
        match jget(bents, "msg_id") {
            Some(Json::Num(a)) => Body::Read { msg_id: *a },
            _ => {
                return Err(ParseError::BadField);
            },
        }
    } else if bytes_eq_lit(tag, "read_ok") {
        match (jget(bents, "in_reply_to"), jget(bents, "messages")) {
            (Some(Json::Num(a)), Some(Json::Arr(items))) => {
                match nums_from(items) {
                    Some(xs) => Body::ReadOk { in_reply_to: *a, messages: xs },
                    None => {
                        return Err(ParseError::BadField);
                    },
                }
            },
            _ => {
                return Err(ParseError::BadField);
            },
        }
    } else if bytes_eq_lit(tag, "topology") {
        match (jget(bents, "msg_id"), jget(bents, "topology")) {
            (Some(Json::Num(a)), Some(Json::Obj(tents))) => {
                match topo_from(tents) {
                    Some(t) => Body::Topology { msg_id: *a, topology: t },
                    None => {
                        return Err(ParseError::BadField);
                    },
                }
            },
            _ => {
                return Err(ParseError::BadField);
            },
        }
    } else if bytes_eq_lit(tag, "topology_ok") {
        match jget(bents, "in_reply_to") {
            Some(Json::Num(a)) => Body::TopologyOk { in_reply_to: *a },
            _ => {
                return Err(ParseError::BadField);
            },
        }
    } else {
        return Err(ParseError::UnknownType);
    };
    Ok(Message { src, dest, body })
}

/// Parses one line into a message: one JSON value covering the whole line,
/// read back through the schema.
pub fn parse(line: &[u8]) -> (r: Result<Message, ParseError>)
    ensures
        (match r {
            Ok(m) => spec_parse(line@) == Ok::<MessageV, ParseError>(m@),
            Err(e) => spec_parse(line@) == Err::<MessageV, ParseError>(e),
        }),
{
    match parse_value(line, 0) {
        None => Err(ParseError::Syntax),
        Some((j, e)) => {
            let e2 = crate::json::ws_skip(line, e);
            if e2 != line.len() {
                Err(ParseError::Syntax)
            } else {
                json_to_msg(&j)
            }
        },
    }
}

} // verus!
