use chatbot_core::db::Chat;
use chatbot_core::handlers::commands::{answer, Command, ParseError, DESCRIPTIONS};
use chatbot_core::message::{Inbound, Sender};

fn message(chat_id: i64, from: Option<Sender>) -> Inbound {
    Inbound { chat_id, id: 1, from, text: None, date: 0, reply_to: None, raw: String::new() }
}

fn sender(id: u64, name: Option<&str>) -> Sender {
    Sender { id, username: name.map(|n| n.to_string()), is_bot: false }
}

#[test]
fn parse_recognises_each_command() {
    assert_eq!(Command::parse("/groupstats", "bot"), Ok(Command::GroupStats));
    assert_eq!(Command::parse("/uid", "bot"), Ok(Command::Uid));
    assert_eq!(Command::parse("/ping", "bot"), Ok(Command::Ping));
    assert_eq!(Command::parse("/help", "bot"), Ok(Command::Help));
    assert_eq!(
        Command::parse("/userstats ann lee", "bot"),
        Ok(Command::UserStats("ann lee".to_string()))
    );
    assert_eq!(Command::parse("/userstats", "bot"), Ok(Command::UserStats(String::new())));
    assert_eq!(Command::parse("/userstats ", "bot"), Ok(Command::UserStats(String::new())));
}

#[test]
fn parse_ignores_the_argument_of_a_command_without_one() {
    assert_eq!(Command::parse("/ping now please", "bot"), Ok(Command::Ping));
}

#[test]
fn parse_accepts_the_bots_own_name_in_any_case() {
    assert_eq!(Command::parse("/ping@bot", "bot"), Ok(Command::Ping));
    assert_eq!(Command::parse("/ping@BoT", "bot"), Ok(Command::Ping));
    assert_eq!(Command::parse("/ping@bot@more", "bot"), Ok(Command::Ping));
    assert_eq!(
        Command::parse("/userstats@bot ann", "Bot"),
        Ok(Command::UserStats("ann".to_string()))
    );
}

#[test]
fn parse_rejects_another_bots_name() {
    assert_eq!(
        Command::parse("/ping@other", "bot"),
        Err(ParseError::WrongBotName("other".to_string()))
    );
    assert_eq!(Command::parse("/ping@", "bot"), Err(ParseError::WrongBotName(String::new())));
    assert_eq!(
        Command::parse("/nothing@other", "bot"),
        Err(ParseError::WrongBotName("other".to_string()))
    );
}

#[test]
fn parse_rejects_unknown_words() {
    assert_eq!(
        Command::parse("hello there", "bot"),
        Err(ParseError::UnknownCommand("hello".to_string()))
    );
    assert_eq!(Command::parse("", "bot"), Err(ParseError::UnknownCommand(String::new())));
    assert_eq!(
        Command::parse("/Ping", "bot"),
        Err(ParseError::UnknownCommand("/Ping".to_string()))
    );
    assert_eq!(
        Command::parse(" /ping", "bot"),
        Err(ParseError::UnknownCommand(String::new()))
    );
    assert_eq!(
        Command::parse("/ping\nnow", "bot"),
        Err(ParseError::UnknownCommand("/ping\nnow".to_string()))
    );
    assert_eq!(
        Command::parse("ping", "bot"),
        Err(ParseError::UnknownCommand("ping".to_string()))
    );
}

#[test]
fn descriptions_list_every_command() {
    let text = Command::descriptions();
    assert_eq!(text, DESCRIPTIONS);
    assert!(text.starts_with("These commands are supported:\n\n/groupstats — "));
    for word in ["/groupstats", "/userstats", "/uid", "/ping", "/help"] {
        assert!(text.contains(&format!("\n{} — ", word)));
    }
    assert!(text.ends_with("/help — Display this help message."));
}

#[test]
fn ping_and_help_answer_everywhere() {
    let cs = Chat::in_memory();
    for chat in [5, -5, 0] {
        assert_eq!(answer(&message(chat, None), Command::Ping, &cs), "Pong");
        assert_eq!(answer(&message(chat, None), Command::Help, &cs), DESCRIPTIONS);
    }
}

#[test]
fn uid_echoes_the_sender() {
    let cs = Chat::in_memory();
    assert_eq!(
        answer(&message(5, Some(sender(4711, Some("ann")))), Command::Uid, &cs),
        "Username: ann\nUser ID: 4711"
    );
    assert_eq!(
        answer(&message(-5, Some(sender(12, None))), Command::Uid, &cs),
        "Username: \nUser ID: 12"
    );
    assert_eq!(answer(&message(-5, None), Command::Uid, &cs), "Username: \nUser ID: 0");
}

#[test]
fn group_commands_are_refused_outside_groups() {
    let mut cs = Chat::in_memory();
    cs.store_msg(5, 1, "ann", Some("x"), 1, 1, "").unwrap();
    let refusal = "This command is only available in groups.";
    assert_eq!(answer(&message(5, None), Command::GroupStats, &cs), refusal);
    assert_eq!(answer(&message(0, None), Command::GroupStats, &cs), refusal);
    assert_eq!(answer(&message(5, None), Command::UserStats("ann".to_string()), &cs), refusal);
}

#[test]
fn group_stats_of_five_three_two() {
    let mut cs = Chat::in_memory();
    let mut id = 0;
    for (name, user, n) in [("ann", 1u64, 5), ("bob", 2, 3), ("cy", 3, 2)] {
        for _ in 0..n {
            id += 1;
            cs.store_msg(-10, id, name, Some("m"), id as i64, user, "").unwrap();
        }
    }
    assert_eq!(
        answer(&message(-10, None), Command::GroupStats, &cs),
        "Total: 10\n🥇 ann 50.00%\n🥈 bob 30.00%\n🥉 cy 20.00%\n\n#stats"
    );
    assert_eq!(
        answer(&message(-10, None), Command::UserStats("bob".to_string()), &cs),
        "bob 30.00%"
    );
    assert_eq!(
        answer(&message(-10, None), Command::UserStats("dan".to_string()), &cs),
        "dan 0.00%"
    );
    assert_eq!(cs.rows().len(), 10);
}

#[test]
fn group_stats_of_an_empty_group() {
    let cs = Chat::in_memory();
    assert_eq!(answer(&message(-10, None), Command::GroupStats, &cs), "Total: 0\n\n#stats");
}
