use p2p_board::codec::{
    decode_inbound, decode_message, decode_message_list, decode_request, decode_response,
    encode_message, encode_message_list, encode_request, encode_response,
};
use p2p_board::command::parse_command;
use p2p_board::event_loop::{step, Command, Effect, Event, ListTarget};
use p2p_board::message::{ListMode, ListRequest, ListResponse, Message};
use p2p_board::protocol::{react, Inbound, Membership, Reaction};
use p2p_board::store::{append, mark_public, next_id, public_messages, respond_with_public_messages};

fn msg(id: usize, name: &str, sender: &str, content: &str, public: bool) -> Message {
    Message {
        id,
        name: name.to_string(),
        sender: sender.to_string(),
        content: content.to_string(),
        public,
    }
}

fn same(a: &Message, b: &Message) -> bool {
    a.id == b.id && a.name == b.name && a.sender == b.sender && a.content == b.content && a.public == b.public
}

fn same_all(a: &[Message], b: &[Message]) -> bool {
    a.len() == b.len() && a.iter().zip(b.iter()).all(|(x, y)| same(x, y))
}

fn mode_eq(a: &ListMode, b: &ListMode) -> bool {
    match (a, b) {
        (ListMode::All, ListMode::All) => true,
        (ListMode::One(x), ListMode::One(y)) => x == y,
        _ => false,
    }
}

#[test]
fn appends_number_messages_from_zero() {
    let mut store: Vec<Message> = Vec::new();
    for (k, name) in ["a", "b", "c", "d"].iter().enumerate() {
        let m = append(&mut store, name, "bob", "text").unwrap();
        assert_eq!(m.id, k);
        assert!(!m.public);
    }
    let ids: Vec<usize> = store.iter().map(|m| m.id).collect();
    assert_eq!(ids, vec![0, 1, 2, 3]);
}

#[test]
fn next_id_is_one_past_the_largest() {
    let store = vec![msg(4, "a", "b", "c", false), msg(9, "a", "b", "c", true), msg(2, "a", "b", "c", false)];
    assert_eq!(next_id(&store), Some(10));
    assert_eq!(next_id(&Vec::new()), Some(0));
}

#[test]
fn append_refuses_when_id_space_is_used_up() {
    let mut store = vec![msg(usize::MAX, "a", "b", "c", false)];
    assert_eq!(next_id(&store), None);
    assert!(append(&mut store, "x", "y", "z").is_none());
    assert_eq!(store.len(), 1);
}

#[test]
fn scenario_append_publish_load() {
    let mut store: Vec<Message> = Vec::new();
    let m = append(&mut store, "A", "bob", "hi").unwrap();
    assert_eq!(m.id, 0);
    assert!(!m.public);
    mark_public(&mut store, 0);
    let text = encode_message_list(&store);
    let loaded = decode_message_list(&text).unwrap();
    assert_eq!(loaded.len(), 1);
    assert!(same(&loaded[0], &msg(0, "A", "bob", "hi", true)));
}

#[test]
fn mark_public_of_missing_id_changes_nothing() {
    let mut store = vec![msg(0, "a", "b", "c", false), msg(1, "d", "e", "f", true)];
    let before = vec![msg(0, "a", "b", "c", false), msg(1, "d", "e", "f", true)];
    mark_public(&mut store, 7);
    assert!(same_all(&store, &before));
}

#[test]
fn mark_public_twice_is_once() {
    let mut once = vec![msg(0, "a", "b", "c", false), msg(1, "d", "e", "f", false)];
    let mut twice = vec![msg(0, "a", "b", "c", false), msg(1, "d", "e", "f", false)];
    mark_public(&mut once, 1);
    mark_public(&mut twice, 1);
    mark_public(&mut twice, 1);
    assert!(same_all(&once, &twice));
    assert!(!once[0].public);
    assert!(once[1].public);
}

#[test]
fn responder_sends_only_public_messages() {
    let store = vec![
        msg(0, "a", "b", "c", true),
        msg(1, "d", "e", "f", false),
        msg(2, "g", "h", "i", true),
    ];
    let resp = respond_with_public_messages(&store, "peer-9");
    assert!(matches!(resp.mode, ListMode::All));
    assert_eq!(resp.receiver, "peer-9");
    assert!(same_all(&resp.data, &[msg(0, "a", "b", "c", true), msg(2, "g", "h", "i", true)]));
    assert!(resp.data.iter().all(|m| m.public));
    assert_eq!(public_messages(&vec![msg(0, "a", "b", "c", false)]).len(), 0);
}

#[test]
fn message_text_is_exact() {
    let text = encode_message(&msg(0, "A", "bob", "hi", false));
    assert_eq!(text, r#"{"id":0,"name":"A","sender":"bob","content":"hi","public":false}"#);
    let text = encode_message(&msg(1234, "q\"b\\", "line\nbreak", "\u{1}\t", true));
    assert_eq!(
        text,
        r#"{"id":1234,"name":"q\"b\\","sender":"line\nbreak","content":"\u0001\t","public":true}"#
    );
}

#[test]
fn request_and_response_text_is_exact() {
    assert_eq!(encode_request(&ListRequest { mode: ListMode::All }), r#"{"mode":"All"}"#);
    assert_eq!(
        encode_request(&ListRequest { mode: ListMode::One("Y".to_string()) }),
        r#"{"mode":{"One":"Y"}}"#
    );
    let resp = ListResponse {
        mode: ListMode::All,
        data: vec![msg(3, "n", "s", "c", true)],
        receiver: "R".to_string(),
    };
    assert_eq!(
        encode_response(&resp),
        r#"{"mode":"All","data":[{"id":3,"name":"n","sender":"s","content":"c","public":true}],"receiver":"R"}"#
    );
    assert_eq!(encode_message_list(&Vec::new()), "[]");
}

#[test]
fn text_is_valid_json_for_serde() {
    let text = encode_message(&msg(7, "é \"x\"", "\u{1f}", "\r\u{8}\u{c}/", true));
    let v: serde_json::Value = serde_json::from_str(&text).unwrap();
    assert_eq!(v["id"].as_u64(), Some(7));
    assert_eq!(v["name"].as_str(), Some("é \"x\""));
    assert_eq!(v["sender"].as_str(), Some("\u{1f}"));
    assert_eq!(v["content"].as_str(), Some("\r\u{8}\u{c}/"));
    assert_eq!(v["public"].as_bool(), Some(true));
    assert_eq!(serde_json::to_string(&v["name"]).unwrap(), r#""é \"x\"""#);
}

#[test]
fn message_round_trip() {
    for m in [
        msg(0, "", "", "", false),
        msg(usize::MAX, "ü∑ 😀", "a|b", "\"\\\n\r\t\u{0}\u{7f}", true),
    ] {
        let back = decode_message(&encode_message(&m)).unwrap();
        assert!(same(&back, &m));
    }
}

#[test]
fn request_round_trip() {
    for mode in [ListMode::All, ListMode::One("12D3Koo\"w".to_string())] {
        let text = encode_request(&ListRequest { mode: match &mode { ListMode::All => ListMode::All, ListMode::One(p) => ListMode::One(p.clone()) } });
        let back = decode_request(&text).unwrap();
        assert!(mode_eq(&back.mode, &mode));
    }
}

#[test]
fn response_round_trip() {
    let resp = ListResponse {
        mode: ListMode::One("P".to_string()),
        data: vec![msg(0, "a", "b", "c", true), msg(5, "d\n", "e", "f", true), msg(6, "", "", "", false)],
        receiver: "peer".to_string(),
    };
    let back = decode_response(&encode_response(&resp)).unwrap();
    assert!(mode_eq(&back.mode, &resp.mode));
    assert!(same_all(&back.data, &resp.data));
    assert_eq!(back.receiver, resp.receiver);
}

#[test]
fn decoding_rejects_malformed_text() {
    assert!(decode_message(r#"{"id":0,"name":"A","sender":"bob","content":"hi","public":false} "#).is_none());
    assert!(decode_message(r#"{"id":18446744073709551616,"name":"A","sender":"b","content":"h","public":false}"#).is_none());
    assert!(decode_message(r#"{"id":1,"name":"A","sender":"b","content":"h","public":maybe}"#).is_none());
    assert!(decode_message(r#"{"id":1,"name":"A","sender":"b","content":"h"#).is_none());
    assert!(decode_message_list("[").is_none());
    assert!(decode_request(r#"{"mode":"Some"}"#).is_none());
}

#[test]
fn decoding_accepts_other_escapes() {
    let m = decode_message(r#"{"id":2,"name":"a\/b","sender":"éA","content":"\b\f","public":true}"#).unwrap();
    assert_eq!(m.name, "a/b");
    assert_eq!(m.sender, "éA");
    assert_eq!(m.content, "\u{8}\u{c}");
}

#[test]
fn unknown_payload_is_unrecognized() {
    assert!(matches!(decode_inbound("hello"), Inbound::Unrecognized));
    assert!(matches!(decode_inbound(""), Inbound::Unrecognized));
    assert!(matches!(decode_inbound(r#"{"mode":"All","data":[}"#), Inbound::Unrecognized));
    assert!(matches!(decode_inbound(r#"{"mode":"All"}"#), Inbound::Request(_)));
    assert!(matches!(
        decode_inbound(r#"{"mode":"All","data":[],"receiver":"X"}"#),
        Inbound::Response(_)
    ));
}

#[test]
fn request_for_another_peer_is_ignored() {
    let local = "X".to_string();
    let payload = encode_request(&ListRequest { mode: ListMode::One("Y".to_string()) });
    let effect = step(Event::Gossip { origin: "Z".to_string(), payload }, &local);
    assert!(matches!(effect, Effect::Nothing));
}

#[test]
fn request_for_this_peer_spawns_responder() {
    let local = "X".to_string();
    let payload = encode_request(&ListRequest { mode: ListMode::One("X".to_string()) });
    match step(Event::Gossip { origin: "Z".to_string(), payload }, &local) {
        Effect::SpawnResponder(p) => assert_eq!(p, "Z"),
        _ => panic!("expected a responder"),
    }
}

#[test]
fn request_for_all_is_answered_with_public_messages() {
    let local = "X".to_string();
    let store = vec![msg(0, "a", "b", "c", false), msg(1, "d", "e", "f", true)];
    let payload = encode_request(&ListRequest { mode: ListMode::All });
    let origin = match step(Event::Gossip { origin: "W".to_string(), payload }, &local) {
        Effect::SpawnResponder(p) => p,
        _ => panic!("expected a responder"),
    };
    let resp = respond_with_public_messages(&store, &origin);
    let text = match step(Event::Response(resp), &local) {
        Effect::Publish(t) => t,
        _ => panic!("expected a publish"),
    };
    let back = decode_response(&text).unwrap();
    assert_eq!(back.receiver, "W");
    assert!(same_all(&back.data, &[msg(1, "d", "e", "f", true)]));
}

#[test]
fn response_is_shown_only_to_its_receiver() {
    let resp = ListResponse { mode: ListMode::All, data: vec![msg(1, "d", "e", "f", true)], receiver: "X".to_string() };
    let payload = encode_response(&resp);
    match step(Event::Gossip { origin: "W".to_string(), payload: payload.clone() }, &"X".to_string()) {
        Effect::Display(d) => assert!(same_all(&d, &[msg(1, "d", "e", "f", true)])),
        _ => panic!("expected a display"),
    }
    assert!(matches!(
        step(Event::Gossip { origin: "W".to_string(), payload }, &"Q".to_string()),
        Effect::Nothing
    ));
    let r = react(Inbound::Unrecognized, &"X".to_string(), &"W".to_string());
    assert!(matches!(r, Reaction::Ignore));
}

#[test]
fn commands_lead_to_their_effects() {
    let local = "X".to_string();
    assert!(matches!(step(Event::Command(Command::ListPeers), &local), Effect::ShowPeers));
    assert!(matches!(
        step(Event::Command(Command::ListMessages(ListTarget::LocalOnly)), &local),
        Effect::ShowLocalMessages
    ));
    match step(Event::Command(Command::ListMessages(ListTarget::One("Y".to_string()))), &local) {
        Effect::Publish(t) => assert_eq!(t, r#"{"mode":{"One":"Y"}}"#),
        _ => panic!("expected a publish"),
    }
    assert!(matches!(step(Event::Command(Command::PublishMessage(3)), &local), Effect::MarkPublic(3)));
    assert!(matches!(step(Event::Command(Command::Unrecognized), &local), Effect::ReportUnknownCommand));
}

#[test]
fn live_peer_survives_expiry() {
    let mut m = Membership::new();
    let a = "A".to_string();
    let b = "B".to_string();
    m.peer_appeared(&a);
    m.peer_appeared(&b);
    m.peer_appeared(&a);
    m.peer_vanished(&a, true);
    assert!(m.contains(&a));
    assert!(m.contains(&b));
    assert_eq!(m.peers().len(), 2);
    m.peer_vanished(&a, false);
    assert!(!m.contains(&a));
    assert!(m.contains(&b));
    assert_eq!(m.peers(), vec!["B".to_string()]);
}

#[test]
fn lines_resolve_into_commands() {
    assert!(matches!(parse_command("ls p"), Command::ListPeers));
    assert!(matches!(parse_command("ls m"), Command::ListMessages(ListTarget::LocalOnly)));
    assert!(matches!(parse_command("ls m all"), Command::ListMessages(ListTarget::All)));
    match parse_command("ls m 12D3KooW") {
        Command::ListMessages(ListTarget::One(p)) => assert_eq!(p, "12D3KooW"),
        _ => panic!("expected a one-peer listing"),
    }
    match parse_command("create m Title|alice|hello there|extra") {
        Command::CreateMessage { name, sender, content } => {
            assert_eq!(name, "Title");
            assert_eq!(sender, "alice");
            assert_eq!(content, "hello there");
        }
        _ => panic!("expected a create"),
    }
    assert!(matches!(parse_command("create m only|two"), Command::Unrecognized));
    assert!(matches!(parse_command("publish m 42"), Command::PublishMessage(42)));
    assert!(matches!(parse_command("publish m x"), Command::Unrecognized));
    assert!(matches!(parse_command("ls mx"), Command::Unrecognized));
    assert!(matches!(parse_command("hello"), Command::Unrecognized));
}
