use chatbot_core::ai::{
    ChatCompletionChoice, ChatCompletionResponse, ChatResponseMessage, Exchange, OpenAI,
};
use chatbot_core::db::window::MessageHistory;
use chatbot_core::db::Chat;
use chatbot_core::handler::{handle, handle_drawn, record_reply};
use chatbot_core::handlers::msgs::{
    handle_message, prepare_context, resolve_names, store_inbound, Reaction,
};
use chatbot_core::message::{Inbound, Me, Sender};
use std::collections::HashMap;

const NEVER: u32 = 999;
const ALWAYS: u32 = 0;

fn me() -> Me {
    Me { id: 900, username: Some("my_bot".to_string()) }
}

fn inbound(chat_id: i64, id: i32, name: &str, user: u64, text: Option<&str>, date: i64) -> Inbound {
    Inbound {
        chat_id,
        id,
        from: Some(Sender { id: user, username: Some(name.to_string()), is_bot: false }),
        text: text.map(|t| t.to_string()),
        date,
        reply_to: None,
        raw: "{}".to_string(),
    }
}

fn turn(name: &str, text: &str) -> (String, String) {
    (name.to_string(), text.to_string())
}

#[test]
fn private_message_is_stored_answered_and_the_reply_recorded() {
    let mut cs = Chat::in_memory();
    cs.store_msg(42, 1, "ann", Some("earlier"), 10, 7, "").unwrap();
    cs.store_msg(-42, 2, "bob", Some("in a group"), 11, 8, "").unwrap();
    cs.store_msg(43, 3, "cy", Some("other chat"), 12, 9, "").unwrap();
    let reaction = handle_drawn(&mut cs, &inbound(42, 4, "ann", 7, Some("hello"), 20), &me(), NEVER);
    assert_eq!(cs.get_tot_msg(42), 2);
    assert_eq!(reaction, Reaction::Generate(vec![turn("ann", "earlier")]));
    let context = match reaction {
        Reaction::Generate(context) => context,
        _ => unreachable!(),
    };
    let ai = OpenAI::new(Some("k".to_string()), None, None).unwrap();
    assert_eq!(ai.request(&context).messages[1].content, "[ann]: [earlier]");
    let exchange = Exchange::Answered {
        status: 200,
        body: String::new(),
        parsed: Some(ChatCompletionResponse {
            choices: Some(vec![ChatCompletionChoice {
                message: ChatResponseMessage { content: "hi ann".to_string() },
            }]),
            error: None,
        }),
    };
    let reply = ai.generate_response(exchange).unwrap();
    assert_eq!(record_reply(&mut cs, 42, 5, 21, &me(), &reply, "{sent}"), Ok(()));
    assert_eq!(cs.get_tot_msg(42), 3);
    let stored = &cs.rows()[cs.rows().len() - 1];
    assert_eq!(stored.author_display_name, "my_bot");
    assert_eq!(stored.author_id, 900);
    assert_eq!(stored.text, Some("hi ann".to_string()));
    assert_eq!(stored.message_id, 5);
    assert_eq!(stored.sent_at, 21);
    assert_eq!(stored.raw, "{sent}");
    let next = handle_drawn(&mut cs, &inbound(42, 6, "ann", 7, Some("more"), 30), &me(), NEVER);
    assert_eq!(
        next,
        Reaction::Generate(vec![
            turn("ann", "earlier"),
            turn("ann", "hello"),
            turn("my_bot", "hi ann")
        ])
    );
}

#[test]
fn groupstats_command_in_a_populated_group() {
    let mut cs = Chat::in_memory();
    let mut id = 0;
    for (name, user, n) in [("ann", 1u64, 5), ("bob", 2, 3), ("cy", 3, 1)] {
        for _ in 0..n {
            id += 1;
            let m = inbound(-10, id, name, user, Some("m"), id as i64);
            assert_eq!(handle_drawn(&mut cs, &m, &me(), NEVER), Reaction::Nothing);
        }
    }
    let command = inbound(-10, 100, "cy", 3, Some("/groupstats"), 100);
    assert_eq!(
        handle_drawn(&mut cs, &command, &me(), ALWAYS),
        Reaction::Reply(
            "Total: 10\n🥇 ann 50.00%\n🥈 bob 30.00%\n🥉 cy 20.00%\n\n#stats".to_string()
        )
    );
    assert_eq!(cs.get_tot_msg(-10), 10);
}

#[test]
fn duplicate_delivery_is_stored_and_answered_once() {
    let mut cs = Chat::in_memory();
    let m = inbound(42, 1, "ann", 7, Some("hello"), 10);
    assert_eq!(handle_drawn(&mut cs, &m, &me(), NEVER), Reaction::Generate(vec![]));
    assert_eq!(cs.get_tot_msg(42), 1);
    assert_eq!(handle_drawn(&mut cs, &m, &me(), ALWAYS), Reaction::Nothing);
    assert_eq!(handle(&mut cs, &m, &me()), Reaction::Nothing);
    assert_eq!(handle_message(&mut cs, &m, &me(), ALWAYS), Reaction::Nothing);
    assert_eq!(cs.get_tot_msg(42), 1);
    let ping = inbound(42, 2, "ann", 7, Some("/ping"), 11);
    assert_eq!(handle_drawn(&mut cs, &ping, &me(), NEVER), Reaction::Reply("Pong".to_string()));
    assert_eq!(handle_drawn(&mut cs, &ping, &me(), NEVER), Reaction::Nothing);
    assert_eq!(cs.get_tot_msg(42), 2);
}

#[test]
fn context_never_holds_the_triggering_message() {
    let mut cs = Chat::in_memory();
    for id in 1..=15 {
        let m = inbound(-7, id, "ann", 7, Some(&format!("m{}", id)), id as i64);
        let reaction = handle_drawn(&mut cs, &m, &me(), ALWAYS);
        let context = match reaction {
            Reaction::Generate(context) => context,
            other => panic!("no request: {:?}", other),
        };
        assert!(context.len() <= 10);
        assert_eq!(context.len(), std::cmp::min(10, (id - 1) as usize));
        assert!(context.iter().all(|(_, text)| *text != format!("m{}", id)));
        if id > 1 {
            assert_eq!(context[context.len() - 1].1, format!("m{}", id - 1));
        }
    }
}

#[test]
fn message_without_text_is_stored_and_ignored() {
    let mut cs = Chat::in_memory();
    let m = inbound(42, 1, "ann", 7, None, 10);
    assert_eq!(handle_drawn(&mut cs, &m, &me(), ALWAYS), Reaction::Nothing);
    assert_eq!(cs.get_tot_msg(42), 1);
    assert_eq!(cs.rows()[0].text, None);
}

#[test]
fn group_message_follows_mention_and_draw() {
    let mut cs = Chat::in_memory();
    let quiet = inbound(-1, 1, "ann", 7, Some("just talking"), 10);
    assert_eq!(handle_drawn(&mut cs, &quiet, &me(), 100), Reaction::Nothing);
    let lucky = inbound(-1, 2, "ann", 7, Some("still talking"), 11);
    assert_eq!(
        handle_drawn(&mut cs, &lucky, &me(), 99),
        Reaction::Generate(vec![turn("ann", "just talking")])
    );
    let asked = inbound(-1, 3, "bob", 8, Some("hey @my_bot"), 12);
    assert_eq!(
        handle_drawn(&mut cs, &asked, &me(), NEVER),
        Reaction::Generate(vec![turn("ann", "just talking"), turn("ann", "still talking")])
    );
    let mut reply = inbound(-1, 4, "bob", 8, Some("and?"), 13);
    reply.reply_to = Some(Sender { id: 900, username: Some("my_bot".to_string()), is_bot: true });
    assert!(matches!(handle_drawn(&mut cs, &reply, &me(), NEVER), Reaction::Generate(_)));
    assert_eq!(cs.get_tot_msg(-1), 4);
}

#[test]
fn command_for_another_bot_goes_the_way_of_free_text() {
    let mut cs = Chat::in_memory();
    let m = inbound(42, 1, "ann", 7, Some("/ping@other_bot"), 10);
    assert_eq!(handle_drawn(&mut cs, &m, &me(), NEVER), Reaction::Generate(vec![]));
    let m = inbound(-42, 2, "ann", 7, Some("/nonsense"), 10);
    assert_eq!(handle_drawn(&mut cs, &m, &me(), NEVER), Reaction::Nothing);
}

#[test]
fn handle_message_does_not_answer_commands() {
    let mut cs = Chat::in_memory();
    let m = inbound(42, 1, "ann", 7, Some("/ping"), 10);
    assert_eq!(handle_message(&mut cs, &m, &me(), ALWAYS), Reaction::Nothing);
    assert_eq!(cs.get_tot_msg(42), 1);
    let m = inbound(42, 2, "ann", 7, Some("hello"), 11);
    assert_eq!(
        handle_message(&mut cs, &m, &me(), NEVER),
        Reaction::Generate(vec![turn("ann", "/ping")])
    );
}

#[test]
fn full_store_does_not_stop_the_answer() {
    let mut cs = Chat::with_capacity(1);
    cs.store_msg(42, 1, "ann", Some("kept"), 10, 7, "").unwrap();
    let m = inbound(42, 2, "ann", 7, Some("lost"), 11);
    assert_eq!(
        handle_drawn(&mut cs, &m, &me(), NEVER),
        Reaction::Generate(vec![turn("ann", "kept")])
    );
    assert_eq!(cs.get_tot_msg(42), 1);
    let ping = inbound(42, 3, "ann", 7, Some("/ping"), 12);
    assert_eq!(handle_drawn(&mut cs, &ping, &me(), NEVER), Reaction::Reply("Pong".to_string()));
}

#[test]
fn handle_draws_for_itself() {
    let mut cs = Chat::in_memory();
    let mut requests = 0;
    for id in 1..=400 {
        let m = inbound(-3, id, "ann", 7, Some("talk"), id as i64);
        match handle(&mut cs, &m, &me()) {
            Reaction::Generate(_) => requests += 1,
            Reaction::Nothing => {}
            Reaction::Reply(text) => panic!("unexpected reply {}", text),
        }
    }
    assert_eq!(cs.get_tot_msg(-3), 400);
    assert!(requests > 0 && requests < 400);
    let m = inbound(3, 1, "ann", 7, Some("talk"), 1);
    assert!(matches!(handle(&mut cs, &m, &me()), Reaction::Generate(_)));
}

#[test]
fn context_shows_the_latest_names() {
    let mut cs = Chat::in_memory();
    cs.store_msg(-1, 1, "old_ann", Some("one"), 10, 7, "").unwrap();
    cs.store_msg(-1, 2, "bob", Some("two"), 11, 8, "").unwrap();
    cs.store_msg(-9, 3, "new_ann", None, 12, 7, "").unwrap();
    assert_eq!(
        prepare_context(-1, &cs, None),
        vec![turn("new_ann", "one"), turn("bob", "two")]
    );
    assert_eq!(prepare_context(-1, &cs, Some(2)), vec![turn("new_ann", "one")]);
    assert_eq!(prepare_context(-2, &cs, None), vec![]);
}

#[test]
fn resolve_names_falls_back_to_the_stored_name() {
    let history = vec![
        MessageHistory { user: "stored".to_string(), user_id: 1, text: "a".to_string() },
        MessageHistory { user: "kept".to_string(), user_id: 2, text: "b".to_string() },
    ];
    let mut names = HashMap::new();
    names.insert(1, "fresh".to_string());
    assert_eq!(resolve_names(history, &names), vec![turn("fresh", "a"), turn("kept", "b")]);
    assert_eq!(resolve_names(vec![], &names), vec![]);
}

#[test]
fn store_inbound_records_sender_and_text() {
    let mut cs = Chat::in_memory();
    let mut m = inbound(5, 9, "ann", 7, Some("hello"), 33);
    m.raw = "{raw}".to_string();
    assert_eq!(store_inbound(&mut cs, &m), Ok(()));
    let r = &cs.rows()[0];
    assert_eq!(
        (r.conversation_id, r.message_id, r.author_display_name.as_str(), r.author_id),
        (5, 9, "ann", 7)
    );
    assert_eq!((r.text.clone(), r.sent_at, r.raw.as_str()), (Some("hello".to_string()), 33, "{raw}"));
    let mut anonymous = inbound(5, 10, "", 0, None, 34);
    anonymous.from = None;
    assert_eq!(store_inbound(&mut cs, &anonymous), Ok(()));
    assert_eq!(cs.rows()[1].author_id, 0);
    assert_eq!(cs.rows()[1].author_display_name, "");
}
