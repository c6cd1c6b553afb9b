use gossip::agent::echo::EchoAgent;
use gossip::agent::unique_id::UniqueIdAgent;
use gossip::node::Node;
use gossip::protocol::{Body, Message};
use gossip::Runtime;

fn envelope(body: Body) -> Message {
    Message { src: b"c1".to_vec(), dest: b"n1".to_vec(), body }
}

fn init() -> Message {
    envelope(Body::Init {
        msg_id: 1,
        node_id: b"n1".to_vec(),
        node_ids: vec![b"n1".to_vec()],
    })
}

#[test]
fn echo_agent_repeats_the_payload() {
    let mut agent = EchoAgent::new();
    let outs = agent.handler(&init()).unwrap();
    assert_eq!(outs[0].body, Body::InitOk { in_reply_to: 1 });
    let outs = agent
        .handler(&envelope(Body::Echo { msg_id: 7, echo: b"hello there".to_vec() }))
        .unwrap();
    assert_eq!(outs.len(), 1);
    assert_eq!(outs[0].src, b"n1".to_vec());
    assert_eq!(outs[0].dest, b"c1".to_vec());
    assert_eq!(
        outs[0].body,
        Body::EchoOk { msg_id: 0, in_reply_to: 7, echo: b"hello there".to_vec() }
    );
    let outs = agent
        .handler(&envelope(Body::Echo { msg_id: 8, echo: b"again".to_vec() }))
        .unwrap();
    assert_eq!(
        outs[0].body,
        Body::EchoOk { msg_id: 1, in_reply_to: 8, echo: b"again".to_vec() }
    );
}

#[test]
fn echo_agent_gates_and_rejects_unknown() {
    let mut agent = EchoAgent::new();
    let err = agent
        .handler(&envelope(Body::Echo { msg_id: 7, echo: vec![] }))
        .unwrap_err();
    match err {
        gossip::error::Error::NodeError { msg: Some(reply), .. } => match reply.body {
            Body::Error { code, .. } => assert_eq!(code, 11),
            other => panic!("expected an error body, got {:?}", other),
        },
        other => panic!("expected a node error, got {:?}", other),
    }
    agent.handler(&init()).unwrap();
    let err = agent
        .handler(&envelope(Body::Broadcast { msg_id: 2, message: 5 }))
        .unwrap_err();
    match err {
        gossip::error::Error::NodeError { msg: Some(reply), .. } => match reply.body {
            Body::Error { code, text, .. } => {
                assert_eq!(code, 10);
                assert_eq!(
                    text,
                    b"This node does not handle messages with body type: 'broadcast'".to_vec()
                );
            },
            other => panic!("expected an error body, got {:?}", other),
        },
        other => panic!("expected a node error, got {:?}", other),
    }
}

#[test]
fn unique_id_agent_concatenates_name_and_counter() {
    let mut agent = UniqueIdAgent::new();
    agent.handler(&init()).unwrap();
    let outs = agent.handler(&envelope(Body::Generate { msg_id: 5 })).unwrap();
    assert_eq!(
        outs[0].body,
        Body::GenerateOk { in_reply_to: 5, id: b"n1-0".to_vec() }
    );
    let outs = agent.handler(&envelope(Body::Generate { msg_id: 6 })).unwrap();
    assert_eq!(
        outs[0].body,
        Body::GenerateOk { in_reply_to: 6, id: b"n1-1".to_vec() }
    );
    assert_eq!(agent.msg_id, 2);
}

#[test]
fn unique_id_agent_renders_large_counters_in_decimal() {
    let mut agent = UniqueIdAgent::new();
    agent.handler(&init()).unwrap();
    agent.msg_id = 1234567890123;
    let outs = agent.handler(&envelope(Body::Generate { msg_id: 5 })).unwrap();
    assert_eq!(
        outs[0].body,
        Body::GenerateOk { in_reply_to: 5, id: b"n1-1234567890123".to_vec() }
    );
}

#[test]
fn unique_id_agent_gates_before_init() {
    let mut agent = UniqueIdAgent::new();
    let err = agent.handler(&envelope(Body::Generate { msg_id: 5 })).unwrap_err();
    match err {
        gossip::error::Error::NodeError { msg: Some(reply), .. } => match reply.body {
            Body::Error { code, .. } => assert_eq!(code, 11),
            other => panic!("expected an error body, got {:?}", other),
        },
        other => panic!("expected a node error, got {:?}", other),
    }
}

#[test]
fn echo_agent_through_the_runtime() {
    let mut rt = Runtime::new(EchoAgent::new());
    let out = rt.process_line(
        br#"{"src":"c1","dest":"n1","body":{"type":"init","msg_id":1,"node_id":"n1","node_ids":["n1"]}}"#,
    );
    assert_eq!(
        out.outputs,
        vec![br#"{"src":"n1","dest":"c1","body":{"type":"init_ok","in_reply_to":1}}"#.to_vec()]
    );
    let out = rt.process_line(
        br#"{"src":"c1","dest":"n1","body":{"type":"echo","msg_id":2,"echo":"ping"}}"#,
    );
    assert_eq!(
        out.outputs,
        vec![
            br#"{"src":"n1","dest":"c1","body":{"type":"echo_ok","msg_id":0,"in_reply_to":2,"echo":"ping"}}"#
                .to_vec()
        ]
    );
}

#[test]
fn generate_message_counter_never_repeats() {
    let mut agent = UniqueIdAgent::new();
    agent.handler(&init()).unwrap();
    let mut seen = Vec::new();
    for i in 0..5u64 {
        let outs = agent.handler(&envelope(Body::Generate { msg_id: i })).unwrap();
        match &outs[0].body {
            Body::GenerateOk { id, .. } => {
                assert!(!seen.contains(id));
                seen.push(id.clone());
            },
            other => panic!("expected generate_ok, got {:?}", other),
        }
    }
}
