use chatbot_core::consts::{DRAW_RANGE, MAX_CONTEXT_MESSAGES, RANDOM_REPLY_CHANCE};
use chatbot_core::handlers::commands::Command;
use chatbot_core::handlers::msgs::{
    draw, is_bot_mentioned, random_reply, route, should_random_reply, should_respond, Routed,
};
use chatbot_core::message::{conversation_kind, ConversationKind, Inbound, Me, Sender};

fn text_message(text: Option<&str>, reply_to: Option<Sender>) -> Inbound {
    Inbound {
        chat_id: -1,
        id: 1,
        from: None,
        text: text.map(|t| t.to_string()),
        date: 0,
        reply_to,
        raw: String::new(),
    }
}

fn bot(name: &str) -> Sender {
    Sender { id: 99, username: Some(name.to_string()), is_bot: true }
}

#[test]
fn kind_follows_the_sign_of_the_identifier() {
    assert_eq!(conversation_kind(1), ConversationKind::Private);
    assert_eq!(conversation_kind(i64::MAX), ConversationKind::Private);
    assert_eq!(conversation_kind(-1), ConversationKind::Group);
    assert_eq!(conversation_kind(i64::MIN), ConversationKind::Group);
    assert_eq!(conversation_kind(0), ConversationKind::Unknown);
    let m = text_message(None, None);
    assert_eq!(m.kind(), ConversationKind::Group);
}

#[test]
fn mention_in_a_group_always_responds() {
    for d in [0, 1, RANDOM_REPLY_CHANCE, DRAW_RANGE - 1] {
        for chance in [0, RANDOM_REPLY_CHANCE, DRAW_RANGE] {
            assert!(should_respond(true, false, ConversationKind::Group, true, d, chance));
        }
    }
}

#[test]
fn private_conversation_always_responds() {
    for d in [0, 1, RANDOM_REPLY_CHANCE, DRAW_RANGE - 1] {
        for chance in [0, RANDOM_REPLY_CHANCE, DRAW_RANGE] {
            assert!(should_respond(true, false, ConversationKind::Private, false, d, chance));
        }
    }
}

#[test]
fn group_without_mention_follows_the_draw() {
    for d in 0..DRAW_RANGE {
        assert!(!should_respond(true, false, ConversationKind::Group, false, d, 0));
        assert!(should_respond(true, false, ConversationKind::Group, false, d, DRAW_RANGE));
        assert_eq!(
            should_respond(true, false, ConversationKind::Group, false, d, RANDOM_REPLY_CHANCE),
            d < 100
        );
    }
}

#[test]
fn unknown_conversation_responds_to_mentions_only() {
    assert!(should_respond(true, false, ConversationKind::Unknown, true, 0, DRAW_RANGE));
    assert!(!should_respond(true, false, ConversationKind::Unknown, false, 0, DRAW_RANGE));
}

#[test]
fn no_text_and_commands_never_respond() {
    for kind in [ConversationKind::Private, ConversationKind::Group, ConversationKind::Unknown] {
        assert!(!should_respond(false, false, kind, true, 0, DRAW_RANGE));
        assert!(!should_respond(true, true, kind, true, 0, DRAW_RANGE));
    }
}

#[test]
fn settings_have_their_values() {
    assert_eq!(DRAW_RANGE, 1000);
    assert_eq!(RANDOM_REPLY_CHANCE, 100);
    assert_eq!(MAX_CONTEXT_MESSAGES, 10);
}

#[test]
fn random_reply_compares_draw_and_chance() {
    assert!(random_reply(99, 100));
    assert!(!random_reply(100, 100));
    assert!(!random_reply(0, 0));
}

#[test]
fn draws_stay_in_range_and_vary() {
    let mut seen = std::collections::HashSet::new();
    for _ in 0..2000 {
        let d = draw();
        assert!(d < DRAW_RANGE);
        seen.insert(d);
    }
    assert!(seen.len() > 100);
    let mut yes = 0;
    for _ in 0..2000 {
        if should_random_reply() {
            yes += 1;
        }
    }
    assert!(yes > 0 && yes < 2000);
}

#[test]
fn route_tells_commands_from_free_text() {
    assert_eq!(route(&None, "bot"), Routed::Silent);
    assert_eq!(route(&Some("/ping".to_string()), "bot"), Routed::Command(Command::Ping));
    assert_eq!(route(&Some("/ping@other".to_string()), "bot"), Routed::FreeText);
    assert_eq!(route(&Some("/unknown".to_string()), "bot"), Routed::FreeText);
    assert_eq!(route(&Some("hello".to_string()), "bot"), Routed::FreeText);
    assert_eq!(route(&Some(String::new()), "bot"), Routed::FreeText);
}

#[test]
fn mention_by_handle() {
    assert!(is_bot_mentioned(&text_message(Some("hi @my_bot!"), None), "my_bot"));
    assert!(is_bot_mentioned(&text_message(Some("@my_bot"), None), "my_bot"));
    assert!(!is_bot_mentioned(&text_message(Some("hi my_bot"), None), "my_bot"));
    assert!(!is_bot_mentioned(&text_message(Some("hi @My_bot"), None), "my_bot"));
    assert!(!is_bot_mentioned(&text_message(None, None), "my_bot"));
    assert!(is_bot_mentioned(&text_message(Some("mail@host"), None), ""));
}

#[test]
fn mention_by_reply_to_the_bot() {
    assert!(is_bot_mentioned(&text_message(Some("yes"), Some(bot("my_bot"))), "my_bot"));
    assert!(!is_bot_mentioned(&text_message(Some("yes"), Some(bot("other_bot"))), "my_bot"));
    let human = Sender { id: 1, username: Some("my_bot".to_string()), is_bot: false };
    assert!(!is_bot_mentioned(&text_message(Some("yes"), Some(human)), "my_bot"));
    let nameless = Sender { id: 1, username: None, is_bot: true };
    assert!(!is_bot_mentioned(&text_message(Some("yes"), Some(nameless)), ""));
    assert!(!is_bot_mentioned(&text_message(None, Some(bot("my_bot"))), "my_bot"));
}

#[test]
fn names_of_message_and_bot() {
    let me = Me { id: 1, username: Some("my_bot".to_string()) };
    assert_eq!(me.name(), "my_bot");
    assert_eq!(Me { id: 1, username: None }.name(), "");
    let mut m = text_message(None, None);
    assert_eq!(m.username(), "");
    assert_eq!(m.user_id(), 0);
    m.from = Some(Sender { id: 7, username: Some("ann".to_string()), is_bot: false });
    assert_eq!(m.username(), "ann");
    assert_eq!(m.user_id(), 7);
    m.from = Some(Sender { id: 8, username: None, is_bot: false });
    assert_eq!(m.username(), "");
    assert_eq!(m.user_id(), 8);
}
