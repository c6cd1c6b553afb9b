use gossip::agent::broadcast::BroadcastAgent;
use gossip::node::Node;
use gossip::protocol::{Body, Message};
use gossip::Runtime;

fn line(rt: &mut Runtime<BroadcastAgent>, s: &[u8]) -> Vec<Vec<u8>> {
    let out = rt.process_line(s);
    assert!(out.diagnostics.is_empty(), "unexpected diagnostics: {:?}", out.diagnostics);
    out.outputs
}

#[test]
fn scenario_init_topology_broadcast_dedup_read() {
    let mut rt = Runtime::new(BroadcastAgent::new());

    let outs = line(
        &mut rt,
        br#"{"src":"c1","dest":"n1","body":{"type":"init","msg_id":1,"node_id":"n1","node_ids":["n1","n2"]}}"#,
    );
    assert_eq!(
        outs,
        vec![br#"{"src":"n1","dest":"c1","body":{"type":"init_ok","in_reply_to":1}}"#.to_vec()]
    );

    let outs = line(
        &mut rt,
        br#"{"src":"c1","dest":"n1","body":{"type":"topology","msg_id":2,"topology":{"n1":["n2"],"n2":["n1"]}}}"#,
    );
    assert_eq!(
        outs,
        vec![
            br#"{"src":"n1","dest":"c1","body":{"type":"topology_ok","in_reply_to":2}}"#.to_vec()
        ]
    );
    assert_eq!(rt.node.neighbors, Some(vec![b"n2".to_vec()]));

    let outs = line(
        &mut rt,
        br#"{"src":"c1","dest":"n1","body":{"type":"broadcast","msg_id":3,"message":5}}"#,
    );
    assert_eq!(
        outs,
        vec![
            br#"{"src":"n1","dest":"c1","body":{"type":"broadcast_ok","in_reply_to":3}}"#.to_vec(),
            br#"{"src":"n1","dest":"n2","body":{"type":"broadcast","msg_id":0,"message":5}}"#
                .to_vec(),
        ]
    );

    let outs = line(
        &mut rt,
        br#"{"src":"c1","dest":"n1","body":{"type":"broadcast","msg_id":4,"message":5}}"#,
    );
    assert_eq!(
        outs,
        vec![
            br#"{"src":"n1","dest":"c1","body":{"type":"broadcast_ok","in_reply_to":4}}"#.to_vec()
        ]
    );

    let outs = line(
        &mut rt,
        br#"{"src":"c1","dest":"n1","body":{"type":"read","msg_id":5}}"#,
    );
    assert_eq!(
        outs,
        vec![
            br#"{"src":"n1","dest":"c1","body":{"type":"read_ok","in_reply_to":5,"messages":[5]}}"#
                .to_vec()
        ]
    );
}

fn init_with_neighbors(neighbors: &[&[u8]]) -> BroadcastAgent {
    let mut agent = BroadcastAgent::new();
    let init = Message {
        src: b"c1".to_vec(),
        dest: b"n1".to_vec(),
        body: Body::Init {
            msg_id: 1,
            node_id: b"n1".to_vec(),
            node_ids: vec![b"n1".to_vec()],
        },
    };
    agent.handler(&init).unwrap();
    agent.neighbors = Some(neighbors.iter().map(|n| n.to_vec()).collect());
    agent
}

#[test]
fn fanout_is_one_forward_per_neighbor_with_increasing_ids() {
    let mut agent = init_with_neighbors(&[b"n2", b"n3", b"n4"]);
    let bcast = Message {
        src: b"c1".to_vec(),
        dest: b"n1".to_vec(),
        body: Body::Broadcast { msg_id: 9, message: 42 },
    };
    let outs = agent.handler(&bcast).unwrap();
    assert_eq!(outs.len(), 4);
    assert_eq!(outs[0].body, Body::BroadcastOk { in_reply_to: 9 });
    for (k, dest) in [b"n2", b"n3", b"n4"].iter().enumerate() {
        assert_eq!(outs[k + 1].src, b"n1".to_vec());
        assert_eq!(outs[k + 1].dest, dest.to_vec());
        assert_eq!(outs[k + 1].body, Body::Broadcast { msg_id: k as u64, message: 42 });
    }
    assert_eq!(agent.msg_id, 3);
}

#[test]
fn duplicate_broadcast_is_acked_but_not_reforwarded() {
    let mut agent = init_with_neighbors(&[b"n2"]);
    let first = Message {
        src: b"c1".to_vec(),
        dest: b"n1".to_vec(),
        body: Body::Broadcast { msg_id: 1, message: 7 },
    };
    assert_eq!(agent.handler(&first).unwrap().len(), 2);
    let again = Message {
        src: b"n2".to_vec(),
        dest: b"n1".to_vec(),
        body: Body::Broadcast { msg_id: 2, message: 7 },
    };
    let outs = agent.handler(&again).unwrap();
    assert_eq!(outs, vec![Message {
        src: b"n1".to_vec(),
        dest: b"n2".to_vec(),
        body: Body::BroadcastOk { in_reply_to: 2 },
    }]);
    assert_eq!(agent.messages, vec![7]);
}

#[test]
fn broadcast_before_topology_is_recorded_but_not_forwarded() {
    let mut agent = init_with_neighbors(&[]);
    agent.neighbors = None;
    let bcast = Message {
        src: b"c1".to_vec(),
        dest: b"n1".to_vec(),
        body: Body::Broadcast { msg_id: 1, message: 3 },
    };
    let outs = agent.handler(&bcast).unwrap();
    assert_eq!(outs.len(), 1);
    assert_eq!(agent.messages, vec![3]);
}

#[test]
fn fresh_node_rejects_all_non_init_traffic() {
    let bodies = vec![
        Body::Broadcast { msg_id: 1, message: 5 },
        Body::Read { msg_id: 2 },
        Body::Topology { msg_id: 3, topology: vec![] },
        Body::BroadcastOk { in_reply_to: 1 },
        Body::Echo { msg_id: 4, echo: b"x".to_vec() },
        Body::InitOk { in_reply_to: 9 },
    ];
    for body in bodies {
        let mut agent = BroadcastAgent::new();
        let m = Message { src: b"c1".to_vec(), dest: b"n1".to_vec(), body };
        let err = agent.handler(&m).unwrap_err();
        match err {
            gossip::error::Error::NodeError { msg: Some(reply), detail } => {
                match reply.body {
                    Body::Error { code, .. } => assert_eq!(code, 11),
                    other => panic!("expected an error body, got {:?}", other),
                }
                assert!(!detail.is_empty());
            },
            other => panic!("expected a node error with a reply, got {:?}", other),
        }
        assert_eq!(agent.node_id, None);
        assert_eq!(agent.msg_id, 0);
        assert!(agent.messages.is_empty());
    }
}

#[test]
fn unsupported_type_gets_code_ten_with_tag_in_text() {
    let mut agent = init_with_neighbors(&[]);
    let m = Message {
        src: b"c1".to_vec(),
        dest: b"n1".to_vec(),
        body: Body::Generate { msg_id: 6 },
    };
    let err = agent.handler(&m).unwrap_err();
    match err {
        gossip::error::Error::NodeError { msg: Some(reply), detail } => {
            assert_eq!(reply.src, b"n1".to_vec());
            assert_eq!(reply.dest, b"c1".to_vec());
            match reply.body {
                Body::Error { in_reply_to, code, text } => {
                    assert_eq!(in_reply_to, 6);
                    assert_eq!(code, 10);
                    assert_eq!(
                        text,
                        b"This node does not handle messages with body type: 'generate'".to_vec()
                    );
                },
                other => panic!("expected an error body, got {:?}", other),
            }
            assert!(!detail.is_empty());
        },
        other => panic!("expected a node error with a reply, got {:?}", other),
    }
}

#[test]
fn broadcast_ok_is_ignored_once_initialized() {
    let mut agent = init_with_neighbors(&[b"n2"]);
    let m = Message {
        src: b"n2".to_vec(),
        dest: b"n1".to_vec(),
        body: Body::BroadcastOk { in_reply_to: 0 },
    };
    assert_eq!(agent.handler(&m).unwrap(), vec![]);
}

#[test]
fn reinit_is_acknowledged_without_state_change() {
    let mut agent = init_with_neighbors(&[b"n2"]);
    let reinit = Message {
        src: b"c1".to_vec(),
        dest: b"n1".to_vec(),
        body: Body::Init {
            msg_id: 8,
            node_id: b"n9".to_vec(),
            node_ids: vec![b"n9".to_vec()],
        },
    };
    let outs = agent.handler(&reinit).unwrap();
    assert_eq!(outs.len(), 1);
    assert_eq!(outs[0].body, Body::InitOk { in_reply_to: 8 });
    assert_eq!(agent.node_id, Some(b"n1".to_vec()));
}

#[test]
fn topology_without_own_entry_leaves_neighbors_unset() {
    let mut agent = BroadcastAgent::new();
    let init = Message {
        src: b"c1".to_vec(),
        dest: b"n1".to_vec(),
        body: Body::Init {
            msg_id: 1,
            node_id: b"n1".to_vec(),
            node_ids: vec![b"n1".to_vec()],
        },
    };
    agent.handler(&init).unwrap();
    let topo = Message {
        src: b"c1".to_vec(),
        dest: b"n1".to_vec(),
        body: Body::Topology {
            msg_id: 2,
            topology: vec![(b"n2".to_vec(), vec![b"n1".to_vec()])],
        },
    };
    let outs = agent.handler(&topo).unwrap();
    assert_eq!(outs[0].body, Body::TopologyOk { in_reply_to: 2 });
    assert_eq!(agent.neighbors, None);
}

#[test]
fn read_returns_all_distinct_values_in_any_order() {
    let mut agent = init_with_neighbors(&[]);
    for (i, v) in [5u64, 9, 5, 2, 9, 9, 7].iter().enumerate() {
        let m = Message {
            src: b"c1".to_vec(),
            dest: b"n1".to_vec(),
            body: Body::Broadcast { msg_id: i as u64, message: *v },
        };
        agent.handler(&m).unwrap();
    }
    let read = Message {
        src: b"c1".to_vec(),
        dest: b"n1".to_vec(),
        body: Body::Read { msg_id: 99 },
    };
    let outs = agent.handler(&read).unwrap();
    match &outs[0].body {
        Body::ReadOk { in_reply_to, messages } => {
            assert_eq!(*in_reply_to, 99);
            let mut got = messages.clone();
            got.sort();
            assert_eq!(got, vec![2, 5, 7, 9]);
        },
        other => panic!("expected read_ok, got {:?}", other),
    }
}

#[test]
fn parse_failures_are_diagnosed_and_change_nothing() {
    let mut rt = Runtime::new(BroadcastAgent::new());
    let out = rt.process_line(b"this is not json");
    assert!(out.outputs.is_empty());
    assert_eq!(out.diagnostics.len(), 1);
    assert_eq!(rt.node.node_id, None);
}

#[test]
fn uninitialized_error_goes_to_both_streams() {
    let mut rt = Runtime::new(BroadcastAgent::new());
    let out = rt.process_line(
        br#"{"src":"c1","dest":"n1","body":{"type":"broadcast","msg_id":3,"message":5}}"#,
    );
    assert_eq!(out.outputs.len(), 1);
    assert_eq!(
        out.outputs[0],
        br#"{"src":"n1","dest":"c1","body":{"type":"error","in_reply_to":3,"code":11,"text":"This node has not received an init message yet"}}"#.to_vec()
    );
    assert_eq!(out.diagnostics.len(), 1);
}

#[test]
fn send_appends_a_newline() {
    let m = Message {
        src: b"n1".to_vec(),
        dest: b"c1".to_vec(),
        body: Body::InitOk { in_reply_to: 1 },
    };
    let line = Runtime::<BroadcastAgent>::send(&m);
    assert_eq!(
        line,
        br#"{"src":"n1","dest":"c1","body":{"type":"init_ok","in_reply_to":1}}
"#
        .to_vec()
    );
}
