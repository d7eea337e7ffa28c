use protohackers_rs::budget_chat::message::OutgoingMessage;
use protohackers_rs::budget_chat::room::{Delivery, PeerAddr, Room};
use protohackers_rs::budget_chat::session::{ChatAction, ChatEvent, ChatSession, SessionError};
use protohackers_rs::budget_chat::username::{char_is_whitespace, Username, UsernameError};

fn addr(port: u16) -> PeerAddr {
    PeerAddr {
        ip: 0xffff_0000_0000,
        is_v6: false,
        port,
        flowinfo: 0,
        scope_id: 0,
    }
}

fn name(s: &str) -> Username {
    Username::parse(s.to_string()).unwrap()
}

fn only_message_for(deliveries: &[Delivery], to: PeerAddr) -> &OutgoingMessage {
    let found: Vec<&Delivery> = deliveries.iter().filter(|d| d.to == to).collect();
    assert_eq!(found.len(), 1);
    &found[0].message
}

#[test]
fn room_test() {
    let mut room = Room::new();
    let alice_username = Username::parse("alice".to_string()).unwrap();
    let bob_username = Username::parse("bob".to_string()).unwrap();

    let (alice, sent) = room.join(addr(100), alice_username.clone());

    // alice should receive an empty participants list on join
    assert_eq!(sent.len(), 1);
    assert!(only_message_for(&sent, addr(100)).same_as(&OutgoingMessage::Participants(vec![])));

    let (bob, sent) = room.join(addr(200), bob_username.clone());

    // bob should receive participants list on join with only alice
    assert!(only_message_for(&sent, addr(200))
        .same_as(&OutgoingMessage::Participants(vec![alice_username.clone()])));

    // alice should receive bob join notification
    assert!(only_message_for(&sent, addr(100)).same_as(&OutgoingMessage::Join(bob_username.clone())));
    assert_eq!(sent.len(), 2);

    let sent = alice.send_message(&room, "Hi Bob".to_string());

    // bob should receive alice message
    assert_eq!(sent.len(), 1);
    assert!(only_message_for(&sent, addr(200)).same_as(&OutgoingMessage::Chat {
        msg: "Hi Bob".to_string(),
        from: alice_username.clone(),
    }));

    let sent = alice.leave(&mut room);

    // bob should receive alice left notification
    assert_eq!(sent.len(), 1);
    assert!(only_message_for(&sent, addr(200)).same_as(&OutgoingMessage::Leave(alice_username.clone())));

    let sent = bob.leave(&mut room);
    assert!(sent.is_empty());
}

#[test]
fn leaving_twice_tells_nobody() {
    let mut room = Room::new();
    let _ = room.join(addr(1), name("a"));
    let _ = room.join(addr(2), name("b"));
    assert_eq!(room.leave(addr(1)).len(), 1);
    assert!(room.leave(addr(1)).is_empty());
    assert!(room.leave(addr(3)).is_empty());
}

#[test]
fn rejoining_an_address_replaces_the_participant() {
    let mut room = Room::new();
    let _ = room.join(addr(1), name("old"));
    let _ = room.join(addr(2), name("other"));
    let (_, sent) = room.join(addr(1), name("new"));
    // the participant list still names the one being replaced
    assert!(only_message_for(&sent, addr(1)).same_as(&OutgoingMessage::Participants(vec![
        name("old"),
        name("other"),
    ])));
    assert!(only_message_for(&sent, addr(2)).same_as(&OutgoingMessage::Join(name("new"))));
    let (_, sent) = room.join(addr(3), name("third"));
    assert!(only_message_for(&sent, addr(3)).same_as(&OutgoingMessage::Participants(vec![
        name("other"),
        name("new"),
    ])));
}

#[test]
fn broadcast_skips_the_sender() {
    let mut room = Room::new();
    let _ = room.join(addr(1), name("a"));
    let _ = room.join(addr(2), name("b"));
    let _ = room.join(addr(3), name("c"));
    let sent = room.broadcast(addr(2), OutgoingMessage::Welcome);
    let targets: Vec<PeerAddr> = sent.iter().map(|d| d.to).collect();
    assert_eq!(targets, vec![addr(1), addr(3)]);
    let sent = room.broadcast(addr(9), OutgoingMessage::Welcome);
    assert_eq!(sent.len(), 3);
}

#[test]
fn parse_accepts_alphanumeric_names() {
    let u = Username::parse("alice42".to_string()).unwrap();
    assert_eq!(u.as_str(), "alice42");
    let u = Username::parse("José".to_string()).unwrap();
    assert_eq!(u.as_str(), "José");
}

#[test]
fn parse_keeps_surrounding_whitespace() {
    let u = Username::parse("  bob \t".to_string()).unwrap();
    assert_eq!(u.as_str(), "  bob \t");
}

#[test]
fn parse_rejects_empty_names() {
    assert_eq!(Username::parse(String::new()).unwrap_err(), UsernameError::Empty);
    assert_eq!(Username::parse(" \t\n".to_string()).unwrap_err(), UsernameError::Empty);
}

#[test]
fn parse_rejects_other_characters() {
    assert_eq!(
        Username::parse("bob!".to_string()).unwrap_err(),
        UsernameError::NotAlphanumeric
    );
    assert_eq!(
        Username::parse("bo b".to_string()).unwrap_err(),
        UsernameError::NotAlphanumeric
    );
}

#[test]
fn error_messages() {
    assert_eq!(
        UsernameError::Empty.message(),
        "Name should be at least 1 character"
    );
    assert_eq!(
        UsernameError::NotAlphanumeric.message(),
        "Name should contains only alphanumeric characters"
    );
}

#[test]
fn messages_render_as_lines() {
    assert_eq!(
        OutgoingMessage::Welcome.to_string(),
        "Welcome to budgetchat! What shall I call you?"
    );
    assert_eq!(
        OutgoingMessage::Join(name("bob")).to_string(),
        "* bob has entered the room"
    );
    assert_eq!(
        OutgoingMessage::Leave(name("bob")).to_string(),
        "* bob has left the room"
    );
    assert_eq!(
        OutgoingMessage::Chat {
            from: name("alice"),
            msg: "Hi Bob".to_string()
        }
        .to_string(),
        "[alice] Hi Bob"
    );
    assert_eq!(
        OutgoingMessage::InvalidUsername("too short".to_string()).to_string(),
        "Invalid username too short"
    );
    assert_eq!(
        OutgoingMessage::Participants(vec![]).to_string(),
        "* The room contains: "
    );
    assert_eq!(
        OutgoingMessage::Participants(vec![name("a"), name("b"), name("c")]).to_string(),
        "* The room contains: a, b, c"
    );
}

#[test]
fn participants_join_with_commas() {
    let m = OutgoingMessage::Welcome;
    assert_eq!(m.participants(&vec![]), "");
    assert_eq!(m.participants(&vec![name("x")]), "x");
    assert_eq!(m.participants(&vec![name("x"), name("y")]), "x, y");
}

#[test]
fn same_as_compares_contents() {
    assert!(OutgoingMessage::Join(name("a")).same_as(&OutgoingMessage::Join(name("a"))));
    assert!(!OutgoingMessage::Join(name("a")).same_as(&OutgoingMessage::Leave(name("a"))));
    assert!(!OutgoingMessage::Participants(vec![name("a")])
        .same_as(&OutgoingMessage::Participants(vec![name("b")])));
    let m = OutgoingMessage::Chat {
        from: name("a"),
        msg: "x".to_string(),
    };
    assert!(m.clone().same_as(&m));
}

#[test]
fn session_greets_then_joins() {
    let (state, greeting) = ChatSession::start();
    assert_eq!(state, ChatSession::AwaitingName);
    assert!(matches!(greeting, ChatAction::Send(OutgoingMessage::Welcome)));
    let (state, actions) = state.step(ChatEvent::Line("alice".to_string()));
    assert_eq!(state, ChatSession::Chatting);
    assert_eq!(actions.len(), 1);
    assert!(matches!(&actions[0], ChatAction::Join(u) if u.as_str() == "alice"));
    let (state, actions) = state.step(ChatEvent::Line("hello".to_string()));
    assert_eq!(state, ChatSession::Chatting);
    assert!(matches!(&actions[0], ChatAction::Say(s) if s == "hello"));
    let (state, actions) = state.step(ChatEvent::InputEnded);
    assert_eq!(state, ChatSession::Closed);
    assert!(matches!(actions[..], [ChatAction::Leave, ChatAction::Finish]));
    let (state, actions) = state.step(ChatEvent::Line("ignored".to_string()));
    assert_eq!(state, ChatSession::Closed);
    assert!(actions.is_empty());
}

#[test]
fn session_refuses_bad_name() {
    let (state, actions) = ChatSession::AwaitingName.step(ChatEvent::Line("!!".to_string()));
    assert_eq!(state, ChatSession::Closed);
    assert_eq!(actions.len(), 2);
    match &actions[0] {
        ChatAction::Send(m) => assert_eq!(
            m.to_string(),
            "Invalid username Name should contains only alphanumeric characters"
        ),
        _ => panic!("expected a refusal"),
    }
    assert!(matches!(actions[1], ChatAction::Finish));
}

#[test]
fn session_fails_without_name() {
    let (state, actions) = ChatSession::AwaitingName.step(ChatEvent::InputEnded);
    assert_eq!(state, ChatSession::Closed);
    assert!(matches!(actions[..], [ChatAction::Fail(SessionError::NoUsername)]));
    let (_, actions) = ChatSession::AwaitingName.step(ChatEvent::InputFailed);
    assert!(matches!(actions[..], [ChatAction::Fail(SessionError::InputFailed)]));
    let (state, actions) = ChatSession::Chatting.step(ChatEvent::InputFailed);
    assert_eq!(state, ChatSession::Closed);
    assert!(matches!(actions[..], [ChatAction::Leave, ChatAction::Finish]));
}

#[test]
fn join_then_leave_restores_the_room() {
    let mut room = Room::new();
    let _ = room.join(addr(1), name("a"));
    let _ = room.join(addr(2), name("b"));
    let (_, _) = room.join(addr(3), name("c"));
    let _ = room.leave(addr(3));
    let sent = room.broadcast(addr(9), OutgoingMessage::Welcome);
    let targets: Vec<PeerAddr> = sent.iter().map(|d| d.to).collect();
    assert_eq!(targets, vec![addr(1), addr(2)]);
    let (_, sent) = room.join(addr(4), name("d"));
    assert!(only_message_for(&sent, addr(4)).same_as(&OutgoingMessage::Participants(vec![
        name("a"),
        name("b"),
    ])));
}

#[test]
fn whitespace_class_matches_std() {
    for c in char::MIN..=char::MAX {
        assert_eq!(char_is_whitespace(c), c.is_whitespace(), "{:?}", c);
    }
}

#[test]
fn addresses_differing_in_family_are_different_participants() {
    let mut room = Room::new();
    let v4 = addr(5);
    let v6 = PeerAddr { is_v6: true, ..v4 };
    let _ = room.join(v4, name("four"));
    let (_, sent) = room.join(v6, name("six"));
    assert!(only_message_for(&sent, v6).same_as(&OutgoingMessage::Participants(vec![name("four")])));
    assert!(only_message_for(&sent, v4).same_as(&OutgoingMessage::Join(name("six"))));
}
