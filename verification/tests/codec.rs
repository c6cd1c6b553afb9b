use gossip::codec::{parse, serialize, ParseError};
use gossip::protocol::{Body, Message};

fn msg(src: &[u8], dest: &[u8], body: Body) -> Message {
    Message { src: src.to_vec(), dest: dest.to_vec(), body }
}

#[test]
fn serialize_init_ok_is_canonical() {
    let m = msg(b"n1", b"c1", Body::InitOk { in_reply_to: 1 });
    assert_eq!(
        serialize(&m),
        br#"{"src":"n1","dest":"c1","body":{"type":"init_ok","in_reply_to":1}}"#.to_vec()
    );
}

#[test]
fn serialize_broadcast_is_canonical() {
    let m = msg(b"n1", b"n2", Body::Broadcast { msg_id: 0, message: 5 });
    assert_eq!(
        serialize(&m),
        br#"{"src":"n1","dest":"n2","body":{"type":"broadcast","msg_id":0,"message":5}}"#.to_vec()
    );
}

#[test]
fn parse_init_message() {
    let line =
        br#"{"src":"c1","dest":"n1","body":{"type":"init","msg_id":1,"node_id":"n1","node_ids":["n1","n2"]}}"#;
    let m = parse(line).unwrap();
    assert_eq!(
        m,
        msg(
            b"c1",
            b"n1",
            Body::Init {
                msg_id: 1,
                node_id: b"n1".to_vec(),
                node_ids: vec![b"n1".to_vec(), b"n2".to_vec()],
            }
        )
    );
}

#[test]
fn parse_accepts_whitespace_and_any_field_order() {
    let line = br#" { "dest" : "n1" , "src" : "c1" , "body" : { "msg_id" : 7 , "type" : "read" } } "#;
    let m = parse(line).unwrap();
    assert_eq!(m, msg(b"c1", b"n1", Body::Read { msg_id: 7 }));
}

#[test]
fn parse_topology_message() {
    let line =
        br#"{"src":"c1","dest":"n1","body":{"type":"topology","msg_id":2,"topology":{"n1":["n2"],"n2":["n1"]}}}"#;
    let m = parse(line).unwrap();
    assert_eq!(
        m,
        msg(
            b"c1",
            b"n1",
            Body::Topology {
                msg_id: 2,
                topology: vec![
                    (b"n1".to_vec(), vec![b"n2".to_vec()]),
                    (b"n2".to_vec(), vec![b"n1".to_vec()]),
                ],
            }
        )
    );
}

#[test]
fn round_trip_every_variant() {
    let samples = vec![
        Body::Broadcast { msg_id: 3, message: 5 },
        Body::BroadcastOk { in_reply_to: 3 },
        Body::Echo { msg_id: 1, echo: b"hello \"quoted\" and \\slashed\\".to_vec() },
        Body::EchoOk { msg_id: 2, in_reply_to: 1, echo: b"hello".to_vec() },
        Body::Error { in_reply_to: 9, code: 10, text: b"no such type".to_vec() },
        Body::Generate { msg_id: 4 },
        Body::GenerateOk { in_reply_to: 4, id: b"n1-0".to_vec() },
        Body::Init {
            msg_id: 1,
            node_id: b"n1".to_vec(),
            node_ids: vec![b"n1".to_vec(), b"n2".to_vec(), b"n3".to_vec()],
        },
        Body::InitOk { in_reply_to: 1 },
        Body::Read { msg_id: 5 },
        Body::ReadOk { in_reply_to: 5, messages: vec![5, 7, 0, u64::MAX] },
        Body::Topology {
            msg_id: 2,
            topology: vec![
                (b"n1".to_vec(), vec![b"n2".to_vec(), b"n3".to_vec()]),
                (b"n2".to_vec(), vec![]),
            ],
        },
        Body::TopologyOk { in_reply_to: 2 },
    ];
    for body in samples {
        let m = Message { src: b"a".to_vec(), dest: b"b".to_vec(), body };
        let line = serialize(&m);
        let back = parse(&line).unwrap_or_else(|e| panic!("{:?} on {:?}", e, line));
        assert_eq!(back, m);
    }
}

#[test]
fn parse_rejects_bad_json() {
    assert_eq!(parse(b"not json"), Err(ParseError::Syntax));
    assert_eq!(parse(b"{\"src\":"), Err(ParseError::Syntax));
    assert_eq!(parse(b""), Err(ParseError::Syntax));
    assert_eq!(parse(b"{} trailing"), Err(ParseError::Syntax));
}

#[test]
fn parse_rejects_unknown_type() {
    let line = br#"{"src":"a","dest":"b","body":{"type":"gossip_all","msg_id":1}}"#;
    assert_eq!(parse(line), Err(ParseError::UnknownType));
}

#[test]
fn parse_rejects_missing_or_mistyped_fields() {
    let missing = br#"{"src":"a","dest":"b","body":{"type":"broadcast","msg_id":1}}"#;
    assert_eq!(parse(missing), Err(ParseError::BadField));
    let mistyped = br#"{"src":"a","dest":"b","body":{"type":"read","msg_id":"seven"}}"#;
    assert_eq!(parse(mistyped), Err(ParseError::BadField));
    let no_body = br#"{"src":"a","dest":"b"}"#;
    assert_eq!(parse(no_body), Err(ParseError::BadField));
    let top_level_array = br#"[1,2,3]"#;
    assert_eq!(parse(top_level_array), Err(ParseError::BadField));
}

#[test]
fn parse_number_bounds() {
    let max = format!(
        "{{\"src\":\"a\",\"dest\":\"b\",\"body\":{{\"type\":\"broadcast\",\"msg_id\":1,\"message\":{}}}}}",
        u64::MAX
    );
    let m = parse(max.as_bytes()).unwrap();
    assert_eq!(m.body, Body::Broadcast { msg_id: 1, message: u64::MAX });
    let over = br#"{"src":"a","dest":"b","body":{"type":"broadcast","msg_id":1,"message":18446744073709551616}}"#;
    assert_eq!(parse(over), Err(ParseError::BadField));
}

#[test]
fn numbers_beyond_u64_are_tokens_not_values() {
    let ignored = br#"{"src":"a","dest":"b","load":-1.5e3,"big":18446744073709551616,"body":{"type":"read","msg_id":1,"note":0.25}}"#;
    let m = parse(ignored).unwrap();
    assert_eq!(m.body, Body::Read { msg_id: 1 });
    let negative_field = br#"{"src":"a","dest":"b","body":{"type":"read","msg_id":-1}}"#;
    assert_eq!(parse(negative_field), Err(ParseError::BadField));
    let fraction_field = br#"{"src":"a","dest":"b","body":{"type":"broadcast","msg_id":1,"message":2.5}}"#;
    assert_eq!(parse(fraction_field), Err(ParseError::BadField));
}

#[test]
fn malformed_number_tokens_are_refused() {
    assert_eq!(
        parse(br#"{"src":"a","dest":"b","body":{"type":"read","msg_id":-}}"#),
        Err(ParseError::Syntax)
    );
    assert_eq!(
        parse(br#"{"src":"a","dest":"b","body":{"type":"read","msg_id":1.}}"#),
        Err(ParseError::Syntax)
    );
    assert_eq!(
        parse(br#"{"src":"a","dest":"b","body":{"type":"read","msg_id":1e}}"#),
        Err(ParseError::Syntax)
    );
    assert_eq!(
        parse(br#"{"src":"a","dest":"b","body":{"type":"read","msg_id":1e+}}"#),
        Err(ParseError::Syntax)
    );
}

#[test]
fn msg_id_and_in_reply_to_accessors() {
    let req = msg(b"a", b"b", Body::Broadcast { msg_id: 3, message: 5 });
    assert_eq!(req.msg_id(), Some(3));
    assert_eq!(req.in_reply_to(), None);
    let rep = msg(b"b", b"a", Body::BroadcastOk { in_reply_to: 3 });
    assert_eq!(rep.msg_id(), None);
    assert_eq!(rep.in_reply_to(), Some(3));
    let echo_ok = msg(b"b", b"a", Body::EchoOk { msg_id: 8, in_reply_to: 3, echo: vec![] });
    assert_eq!(echo_ok.msg_id(), None);
    assert_eq!(echo_ok.in_reply_to(), Some(3));
}

#[test]
fn body_tag_names() {
    assert_eq!(Body::Broadcast { msg_id: 0, message: 0 }.tag(), "broadcast");
    assert_eq!(Body::InitOk { in_reply_to: 0 }.tag(), "init_ok");
    assert_eq!(Body::Error { in_reply_to: 0, code: 0, text: vec![] }.tag(), "error");
}

#[test]
fn string_escapes_round_trip() {
    let m = msg(b"a\"b", b"c\\d", Body::Echo { msg_id: 1, echo: b"\"\\\"".to_vec() });
    let line = serialize(&m);
    assert_eq!(parse(&line).unwrap(), m);
}

#[test]
fn duplicate_keys_first_entry_wins() {
    let line = br#"{"src":"a","src":"z","dest":"b","body":{"type":"read","msg_id":1,"msg_id":2}}"#;
    let m = parse(line).unwrap();
    assert_eq!(m.src, b"a".to_vec());
    assert_eq!(m.body, Body::Read { msg_id: 1 });
}

#[test]
fn mistyped_collections_are_refused() {
    let topo_not_obj = br#"{"src":"a","dest":"b","body":{"type":"topology","msg_id":1,"topology":[1]}}"#;
    assert_eq!(parse(topo_not_obj), Err(ParseError::BadField));
    let ids_not_strings = br#"{"src":"a","dest":"b","body":{"type":"init","msg_id":1,"node_id":"n1","node_ids":[1,2]}}"#;
    assert_eq!(parse(ids_not_strings), Err(ParseError::BadField));
    let values_not_numbers = br#"{"src":"a","dest":"b","body":{"type":"read_ok","in_reply_to":1,"messages":["x"]}}"#;
    assert_eq!(parse(values_not_numbers), Err(ParseError::BadField));
}

#[test]
fn control_bytes_are_escaped_and_round_trip() {
    let m = msg(
        b"n\x01",
        b"b",
        Body::Echo { msg_id: 1, echo: b"line\nbreak\ttab\x00nul\x1f".to_vec() },
    );
    let line = serialize(&m);
    for b in &line {
        assert!(*b >= 0x20, "control byte {:#x} in serialized line {:?}", b, line);
    }
    assert_eq!(parse(&line).unwrap(), m);
}

#[test]
fn serialize_writes_u00_escapes_for_control_bytes() {
    let m = msg(b"a", b"b", Body::Echo { msg_id: 1, echo: b"\n".to_vec() });
    assert_eq!(
        serialize(&m),
        br#"{"src":"a","dest":"b","body":{"type":"echo","msg_id":1,"echo":"\u000a"}}"#.to_vec()
    );
}

#[test]
fn parse_reads_standard_string_escapes() {
    let line = br#"{"src":"a","dest":"b","body":{"type":"echo","msg_id":1,"echo":"a\nb\tc\rd\be\ff\/g\u0041\u00e9\u20ac"}}"#;
    let m = parse(line).unwrap();
    assert_eq!(
        m.body,
        Body::Echo {
            msg_id: 1,
            echo: b"a\nb\tc\rd\x08e\x0cf/gA\xc3\xa9\xe2\x82\xac".to_vec(),
        }
    );
}

#[test]
fn parse_combines_surrogate_pairs() {
    let line = br#"{"src":"a","dest":"b","body":{"type":"echo","msg_id":1,"echo":"\ud83d\ude00"}}"#;
    let m = parse(line).unwrap();
    assert_eq!(
        m.body,
        Body::Echo { msg_id: 1, echo: b"\xf0\x9f\x98\x80".to_vec() }
    );
}

#[test]
fn parse_rejects_lone_surrogate_escape() {
    let high_alone = br#"{"src":"a","dest":"b","body":{"type":"echo","msg_id":1,"echo":"\ud800"}}"#;
    assert_eq!(parse(high_alone), Err(ParseError::Syntax));
    let low_alone = br#"{"src":"a","dest":"b","body":{"type":"echo","msg_id":1,"echo":"\udc00"}}"#;
    assert_eq!(parse(low_alone), Err(ParseError::Syntax));
    let high_then_text = br#"{"src":"a","dest":"b","body":{"type":"echo","msg_id":1,"echo":"\ud800x"}}"#;
    assert_eq!(parse(high_then_text), Err(ParseError::Syntax));
}

#[test]
fn null_and_booleans_in_ignored_fields_are_accepted() {
    let line = br#"{"src":"a","dest":"b","extra":null,"body":{"type":"read","msg_id":1,"flag":true,"other":false}}"#;
    let m = parse(line).unwrap();
    assert_eq!(m.body, Body::Read { msg_id: 1 });
}

#[test]
fn null_in_a_required_field_is_a_field_error() {
    let line = br#"{"src":"a","dest":"b","body":{"type":"read","msg_id":null}}"#;
    assert_eq!(parse(line), Err(ParseError::BadField));
    assert_eq!(parse(b"null"), Err(ParseError::BadField));
}
