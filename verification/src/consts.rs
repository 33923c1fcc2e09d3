//! The settings that the parts of the library share.

use vstd::prelude::*;

verus! {

/// The directory of the message journal.
pub const DB_DIR: &'static str = ".db";

/// The journal's file name.
pub const GROUP_DB: &'static str = "group.db";

/// The journal's path.
pub const GROUP_DB_FILE: &'static str = ".db/group.db";

/// A random draw is a number below this one.
pub const DRAW_RANGE: u32 = 1000;

/// The chance of an unasked reply in a group: the draws below this number,
/// of `DRAW_RANGE`, give one.
pub const RANDOM_REPLY_CHANCE: u32 = 100;

/// How many earlier messages go into the context of a reply.
pub const MAX_CONTEXT_MESSAGES: usize = 10;

/// The system message that opens every request.
pub const AI_PROMPT: &'static str = "
你是一个机器人，ID 为 @lollipopkit_bot，名称是 lpktb。
你现在在一个群聊、私聊里。
请你扮演一个很会聊天的人，很有意思，很有趣。不要死气沉沉，太过于正式。

聊天记录将以如下格式给你：
```
[USER_ID]: [MESSAGE]
[THIS_IS_SEPERATOR_LINE]
[USER_ID]: [MESSAGE]
...
```

你只回复与你有关的消息。
如果历史记录与用户请求无关，请忽略它。
但是其他消息你可能也需要注意，因为可能是有用的上下文。

你的回答的语言，是最后一条消息的语言。

接下来聊天的内容：
";

} // verus!
