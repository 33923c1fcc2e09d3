//! The commands: their grammar, their descriptions, and their answers.
//!
//! A command is the first word of a text, up to the first blank. The word may
//! name the bot it is meant for after an `@`; what follows the first blank is
//! the command's argument.

use crate::db::stats::{by_name, ranking, ranking_text, share_text, with_author};
use crate::db::{count, in_conversation, Chat, RecordView};
use crate::message::{kind_of, sender_id, sender_name, ConversationKind, Inbound, InboundView};
use crate::text::{
    after_first, before_first, chars_of, copy_range, decimal, eq_ignore_ascii_case, find_char,
    first_index, push_decimal, push_signed, same_chars, same_ignoring_ascii_case, signed_decimal,
    string_of,
};
use vstd::prelude::*;
use vstd::string::StringExecFns;

verus! {

/// The word of the group statistics command.
pub const GROUP_STATS: &'static str = "/groupstats";

/// The word of the user statistics command.
pub const USER_STATS: &'static str = "/userstats";

/// The word of the identity command.
pub const UID: &'static str = "/uid";

/// The word of the liveness command.
pub const PING: &'static str = "/ping";

/// The word of the help command.
pub const HELP: &'static str = "/help";

/// The commands and what they do, as the help command shows them.
pub const DESCRIPTIONS: &'static str =
    "These commands are supported:\n\n/groupstats — Show stats for the current group. (Only available in groups)\n/userstats — Show the share of a user in the current group. (Only available in groups)\n/uid — Show your Telegram user ID.\n/ping — Check if the bot is running.\n/help — Display this help message.";

/// The answer to the liveness command.
pub const PONG: &'static str = "Pong";

/// The answer to a group command outside a group.
pub const GROUPS_ONLY: &'static str = "This command is only available in groups.";

/// What precedes the number of messages in the group statistics.
pub const TOTAL_LABEL: &'static str = "Total: ";

/// What precedes the user name in the answer to the identity command.
pub const USERNAME_LABEL: &'static str = "Username: ";

/// What precedes the user number in the answer to the identity command.
pub const USER_ID_LABEL: &'static str = "\nUser ID: ";

/// A command.
#[derive(Debug, Clone, PartialEq, Eq)]
pub enum Command {
    /// The ranking of the group's authors.
    GroupStats,
    /// The share of the authors of one name.
    UserStats(String),
    /// The sender's own name and number.
    Uid,
    /// Whether the bot is alive.
    Ping,
    /// The commands and what they do.
    Help,
}

/// A command as a mathematical value.
pub enum CommandView {
    GroupStats,
    UserStats(Seq<char>),
    Uid,
    Ping,
    Help,
}

impl View for Command {
    type V = CommandView;

    open spec fn view(&self) -> CommandView {
        match self {
            Command::GroupStats => CommandView::GroupStats,
            Command::UserStats(name) => CommandView::UserStats(name@),
            Command::Uid => CommandView::Uid,
            Command::Ping => CommandView::Ping,
            Command::Help => CommandView::Help,
        }
    }
}

/// Why a text is no command.
#[derive(Debug, Clone, PartialEq, Eq)]
pub enum ParseError {
    /// The first word names another bot: the name it gives.
    WrongBotName(String),
    /// The first word is the word of no command: the word.
    UnknownCommand(String),
}

/// A parse error as a mathematical value.
pub enum ParseErrorView {
    WrongBotName(Seq<char>),
    UnknownCommand(Seq<char>),
}

impl View for ParseError {
    type V = ParseErrorView;

    open spec fn view(&self) -> ParseErrorView {
        match self {
            ParseError::WrongBotName(name) => ParseErrorView::WrongBotName(name@),
            ParseError::UnknownCommand(word) => ParseErrorView::UnknownCommand(word@),
        }
    }
}

/// The first word of a text: what stands before the first blank.
pub open spec fn head(s: Seq<char>) -> Seq<char> {
    before_first(s, ' ')
}

/// The command word of a text: its first word up to the first `@`.
pub open spec fn word(s: Seq<char>) -> Seq<char> {
    before_first(head(s), '@')
}

/// Whether the first word of a text names a bot.
pub open spec fn is_addressed(s: Seq<char>) -> bool {
    first_index(head(s), '@') < head(s).len()
}

/// The bot that the first word names: what stands between its first `@` and
/// its second, or its end.
pub open spec fn addressee(s: Seq<char>) -> Seq<char> {
    before_first(after_first(head(s), '@'), '@')
}

/// The argument of a text: what follows the first blank.
pub open spec fn argument(s: Seq<char>) -> Seq<char> {
    after_first(s, ' ')
}

/// The command that the word `w` names, with argument `arg`.
pub open spec fn named(w: Seq<char>, arg: Seq<char>) -> Option<CommandView> {
    if w == GROUP_STATS@ {
        Some(CommandView::GroupStats)
    } else if w == USER_STATS@ {
        Some(CommandView::UserStats(arg))
    } else if w == UID@ {
        Some(CommandView::Uid)
    } else if w == PING@ {
        Some(CommandView::Ping)
    } else if w == HELP@ {
        Some(CommandView::Help)
    } else {
        None
    }
}

/// What a text is to the bot named `bot_name`: a command, unless its first
/// word names another bot or is the word of no command. The bot's name is
/// compared without regard to the case of ASCII letters, the command word
/// exactly.
pub open spec fn parsed(s: Seq<char>, bot_name: Seq<char>) -> Result<CommandView, ParseErrorView> {
    if is_addressed(s) && !eq_ignore_ascii_case(addressee(s), bot_name) {
        Err(ParseErrorView::WrongBotName(addressee(s)))
    } else {
        match named(word(s), argument(s)) {
            Some(c) => Ok(c),
            None => Err(ParseErrorView::UnknownCommand(word(s))),
        }
    }
}

/// The answer to a command of a sender named `username` with number
/// `user_id` in conversation `chat_id`.
pub open spec fn answer_text(
    log: Seq<RecordView>,
    chat_id: i64,
    username: Seq<char>,
    user_id: u64,
    cmd: CommandView,
) -> Seq<char> {
    match cmd {
        CommandView::Uid => USERNAME_LABEL@ + username + USER_ID_LABEL@ + decimal(user_id as nat),
        CommandView::Ping => PONG@,
        CommandView::Help => DESCRIPTIONS@,
        CommandView::GroupStats => if kind_of(chat_id) == ConversationKind::Group {
            TOTAL_LABEL@ + signed_decimal(count(log, in_conversation(chat_id)) as int) + seq!['\n']
                + ranking_text(ranking(log, chat_id))
        } else {
            GROUPS_ONLY@
        },
        CommandView::UserStats(name) => if kind_of(chat_id) == ConversationKind::Group {
            share_text(name, count(log, by_name(chat_id, name)), count(log, with_author(chat_id)))
        } else {
            GROUPS_ONLY@
        },
    }
}

impl Command {
    /// Reads `s` as a command to the bot named `bot_name`.
    pub fn parse(s: &str, bot_name: &str) -> (r: Result<Command, ParseError>)
        ensures
            match r {
                Ok(c) => parsed(s@, bot_name@) == Ok::<CommandView, ParseErrorView>(c@),
                Err(e) => parsed(s@, bot_name@) == Err::<CommandView, ParseErrorView>(e@),
            },
    {
        let chars = chars_of(s);
        let blank = find_char(&chars, ' ');
        let first = copy_range(&chars, 0, blank);
        assert(first@ == head(s@));
        let at = find_char(&first, '@');
        let name = copy_range(&first, 0, at);
        assert(name@ == word(s@));
        if at < first.len() {
            let rest = copy_range(&first, at + 1, first.len());
            let end = find_char(&rest, '@');
            let bot = copy_range(&rest, 0, end);
            assert(bot@ == addressee(s@));
            let wanted = chars_of(bot_name);
            if !same_ignoring_ascii_case(&bot, &wanted) {
                let other = string_of(&bot, 0, bot.len());
                assert(bot@.subrange(0, bot.len() as int) =~= bot@);
                return Err(ParseError::WrongBotName(other));
            }
        }
        if same_chars(&name, &chars_of(GROUP_STATS)) {
            Ok(Command::GroupStats)
        } else if same_chars(&name, &chars_of(USER_STATS)) {
            let arg = if blank < chars.len() {
                string_of(&chars, blank + 1, chars.len())
            } else {
                String::new()
            };
            assert(arg@ =~= argument(s@));
            Ok(Command::UserStats(arg))
        } else if same_chars(&name, &chars_of(UID)) {
            Ok(Command::Uid)
        } else if same_chars(&name, &chars_of(PING)) {
            Ok(Command::Ping)
        } else if same_chars(&name, &chars_of(HELP)) {
            Ok(Command::Help)
        } else {
            let unknown = string_of(&name, 0, name.len());
            assert(name@.subrange(0, name.len() as int) =~= name@);
            Err(ParseError::UnknownCommand(unknown))
        }
    }

    /// The commands and what they do.
    pub fn descriptions() -> (s: String)
        ensures
            s@ == DESCRIPTIONS@,
    {
        DESCRIPTIONS.to_string()
    }
}

/// The answer to the command `cmd` that came with `msg`. The log is read and
/// left as it is.
pub fn answer(msg: &Inbound, cmd: Command, cs: &Chat) -> (reply: String)
    ensures
        reply@ == answer_text(cs@, msg.chat_id, sender_name(msg@), sender_id(msg@), cmd@),
        reply@.len() > 0,
{
    let is_group = msg.chat_id < 0;
    let reply = match cmd {
        Command::Uid => {
            let mut reply = USERNAME_LABEL.to_string();
            reply.append(msg.username());
            reply.append(USER_ID_LABEL);
            push_decimal(&mut reply, msg.user_id());
            reply
        },
        Command::Ping => PONG.to_string(),
        Command::Help => Command::descriptions(),
        Command::GroupStats => {
            if is_group {
                let total = cs.get_tot_msg(msg.chat_id);
                let shares = cs.get_group_percent_str(msg.chat_id);
                let mut reply = TOTAL_LABEL.to_string();
                push_signed(&mut reply, total);
                reply.push('\n');
                reply.append(shares.as_str());
                reply
            } else {
                GROUPS_ONLY.to_string()
            }
        },
        Command::UserStats(name) => {
            if is_group {
                cs.get_user_percent_str(msg.chat_id, name.as_str())
            } else {
                GROUPS_ONLY.to_string()
            }
        },
    };
    proof {
        reveal_strlit("Pong");
        reveal_strlit("This command is only available in groups.");
        reveal_strlit("Username: ");
        reveal_strlit("Total: ");
        reveal_strlit(
            "These commands are supported:\n\n/groupstats — Show stats for the current group. (Only available in groups)\n/userstats — Show the share of a user in the current group. (Only available in groups)\n/uid — Show your Telegram user ID.\n/ping — Check if the bot is running.\n/help — Display this help message.",
        );
    }
    reply
}

} // verus!
