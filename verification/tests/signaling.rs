use wasmhive::setup::{
    distribute_args, distributed_name, pick_examples_dir, server_url, signaling_url, DirCandidate,
};
use wasmhive::signaling::{
    answer_message, candidate_message, read_signal, register_message, Membership, SignalAction,
};
use serde_json::Value;

fn welcome(m: &mut Membership) {
    let text = r#"{"type":"welcome","id":"me","peers":["a","me",7,"b"]}"#;
    let action = m.take_signal(read_signal(text));
    assert!(matches!(action, SignalAction::Nothing));
}

#[test]
fn own_id_is_left_out_of_the_peers() {
    let mut m = Membership::new();
    assert!(m.my_id.is_none());
    welcome(&mut m);
    assert_eq!(m.my_id.as_deref(), Some("me"));
    assert_eq!(m.workers, vec!["a", "b"]);
    m.take_signal(read_signal(r#"{"type":"peerList","peers":["me","c"]}"#));
    assert_eq!(m.workers, vec!["c"]);
    // A greeting without a list leaves the workers as they are.
    m.take_signal(read_signal(r#"{"type":"welcome","id":"you"}"#));
    assert_eq!(m.my_id.as_deref(), Some("you"));
    assert_eq!(m.workers, vec!["c"]);
}

#[test]
fn peers_before_the_greeting_are_all_taken() {
    let mut m = Membership::new();
    m.take_signal(read_signal(r#"{"type":"peerList","peers":["","x"]}"#));
    assert_eq!(m.workers, vec!["x"]);
}

#[test]
fn offers_to_this_node_are_answered() {
    let mut m = Membership::new();
    let offer = r#"{"type":"offer","from":"a","to":"me","offer":{"sdp":"v=0\n"}}"#;
    assert!(matches!(m.take_signal(read_signal(offer)), SignalAction::Nothing));
    welcome(&mut m);
    match m.take_signal(read_signal(offer)) {
        SignalAction::Offer { from, my_id, offered } => {
            assert_eq!(from, "a");
            assert_eq!(my_id, "me");
            assert_eq!(offered.as_deref(), Some("v=0\n"));
        }
        _ => panic!("no offer"),
    }
    let other = r#"{"type":"offer","from":"a","to":"you","offer":{"sdp":"x"}}"#;
    assert!(matches!(m.take_signal(read_signal(other)), SignalAction::Nothing));
    let none = r#"{"type":"offer","from":"a","to":"me"}"#;
    assert!(matches!(m.take_signal(read_signal(none)), SignalAction::Nothing));
    let odd = r#"{"type":"offer","from":"a","to":"me","offer":3}"#;
    match m.take_signal(read_signal(odd)) {
        SignalAction::Offer { offered, .. } => assert!(offered.is_none()),
        _ => panic!("no offer"),
    }
}

#[test]
fn answers_and_candidates_are_handed_on() {
    let mut m = Membership::new();
    let text = r#"{"type":"answer","from":"a","answer":{"type":"answer","sdp":"s"}}"#;
    match m.take_signal(read_signal(text)) {
        SignalAction::Answer { from, sdp } => assert_eq!((from.as_str(), sdp.as_str()), ("a", "s")),
        _ => panic!("no answer"),
    }
    let text = r#"{"type":"candidate","from":"a","candidate":{"candidate":"c"}}"#;
    match m.take_signal(read_signal(text)) {
        SignalAction::Candidate { from, candidate } => {
            assert_eq!((from.as_str(), candidate.as_str()), ("a", "c"))
        }
        _ => panic!("no candidate"),
    }
    for text in [
        r#"{"type":"answer","from":"a","answer":{}}"#,
        r#"{"type":"candidate","candidate":{"candidate":"c"}}"#,
        r#"{"type":"allocation"}"#,
        r#"{"type":5}"#,
        "[]",
        "not json",
    ] {
        assert!(matches!(m.take_signal(read_signal(text)), SignalAction::Nothing));
    }
}

#[test]
fn outgoing_messages_are_json() {
    let v: Value = serde_json::from_str(&register_message()).unwrap();
    assert_eq!(v["type"], Value::from("registerMaster"));
    let v: Value = serde_json::from_str(&candidate_message("w\"1", "me", "cand\\1\n")).unwrap();
    assert_eq!(v["type"], Value::from("candidate"));
    assert_eq!(v["to"], Value::from("w\"1"));
    assert_eq!(v["from"], Value::from("me"));
    assert_eq!(v["candidate"]["candidate"], Value::from("cand\\1\n"));
    assert_eq!(v["candidate"]["sdpMid"], Value::from("0"));
    assert_eq!(v["candidate"]["sdpMLineIndex"], Value::from(0));
    let v: Value = serde_json::from_str(&answer_message("w", "me", "sdp\t")).unwrap();
    assert_eq!(v["type"], Value::from("answer"));
    assert_eq!(v["to"], Value::from("w"));
    assert_eq!(v["from"], Value::from("me"));
    assert_eq!(v["answer"]["type"], Value::from("answer"));
    assert_eq!(v["answer"]["sdp"], Value::from("sdp\t"));
    assert_eq!(
        answer_message("w", "me", "s"),
        r#"{"answer":{"sdp":"s","type":"answer"},"from":"me","to":"w","type":"answer"}"#
    );
}

#[test]
fn the_signaling_server_has_a_default() {
    assert_eq!(signaling_url(None), "ws://localhost:3000");
    assert_eq!(signaling_url(Some("ws://x".to_string())), "ws://x");
    assert_eq!(server_url(None).unwrap(), "ws://localhost:3000/");
    assert_eq!(
        server_url(Some("WS://Example.org/a b".to_string())).unwrap(),
        "ws://example.org/a%20b"
    );
    assert_eq!(
        server_url(Some("localhost".to_string())).unwrap_err(),
        "relative URL without a base"
    );
}

#[test]
fn the_first_examples_directory_is_taken() {
    let dir = |path: &str, name: &str, exists: bool| DirCandidate {
        path: path.to_string(),
        name: Some(name.to_string()),
        exists,
    };
    let all = vec![
        dir("/a", "a", true),
        dir("/b/examples", "examples", false),
        dir("/c/examples", "examples", true),
        dir("/d/examples", "examples", true),
    ];
    assert_eq!(pick_examples_dir(&all), Ok(2));
    let none = all[..2].to_vec();
    assert_eq!(
        pick_examples_dir(&none).unwrap_err(),
        "Unable to locate examples directory. Tried: /a, /b/examples"
    );
}

#[test]
fn the_attribute_takes_two_names() {
    let (a, b) = distribute_args(" chunker , reducer ").unwrap();
    assert_eq!((a.as_str(), b.as_str()), ("chunker", "reducer"));
    for bad in ["", "one", "a,b,c"] {
        assert_eq!(
            distribute_args(bad).unwrap_err(),
            "distribute macro expects exactly 2 arguments: chunker and reducer function names"
        );
    }
    assert_eq!(distributed_name("square"), "square_run_distributed");
}
