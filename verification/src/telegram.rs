//! Telegram messages: the updates the webhook receives and the bot commands
//! a message may carry.
use crate::text::{
    chars_of, find_char, first_position, lemma_word_spans, range_equals, split_whitespace,
    word_bounds,
};
use vstd::prelude::*;

verus! {

/// An update as Telegram delivers it to the webhook (the parts the bot reads).
pub struct TelegramUpdate {
    pub message: Option<TelegramMessage>,
}

pub struct TelegramMessage {
    pub chat: TelegramChat,
    pub from: Option<TelegramUser>,
    pub text: Option<String>,
}

pub struct TelegramChat {
    pub id: i64,
    /// The chat type: "private", "group", "supergroup" or "channel".
    pub kind: String,
}

pub struct TelegramUser {
    pub id: i64,
}

/// A bot command.
#[derive(Debug, PartialEq, Eq)]
pub enum TelegramCommand<'a> {
    Subscribe,
    Approve(&'a str),
    Unsubscribe,
    Status,
}

pub enum CommandView {
    Subscribe,
    Approve(Seq<char>),
    Unsubscribe,
    Status,
}

impl<'a> View for TelegramCommand<'a> {
    type V = CommandView;

    open spec fn view(&self) -> CommandView {
        match self {
            TelegramCommand::Subscribe => CommandView::Subscribe,
            TelegramCommand::Approve(p) => CommandView::Approve(p@),
            TelegramCommand::Unsubscribe => CommandView::Unsubscribe,
            TelegramCommand::Status => CommandView::Status,
        }
    }
}

/// The part of a command word before its first `@` (the bot's name follows it).
pub open spec fn command_name(word: Seq<char>) -> Seq<char> {
    match first_position(word, '@') {
        Some(k) => word.take(k),
        None => word,
    }
}

/// The command a message text carries: one command word, and for `/start` at
/// most one argument; any other shape is no command.
pub open spec fn command_of(text: Seq<char>) -> Option<CommandView> {
    let words = split_whitespace(text);
    if words.len() == 0 || words.len() > 2 {
        None
    } else {
        let name = command_name(words[0]);
        if name == "/start"@ {
            if words.len() == 1 {
                Some(CommandView::Subscribe)
            } else {
                Some(CommandView::Approve(words[1]))
            }
        } else if name == "/stop"@ && words.len() == 1 {
            Some(CommandView::Unsubscribe)
        } else if name == "/status"@ && words.len() == 1 {
            Some(CommandView::Status)
        } else {
            None
        }
    }
}

pub open spec fn command_view(command: Option<TelegramCommand>) -> Option<CommandView> {
    match command {
        Some(c) => Some(c@),
        None => None,
    }
}

/// Parses a bot command out of a message text.
pub fn command<'a>(text: &'a str) -> (parsed: Option<TelegramCommand<'a>>)
    ensures
        command_view(parsed) == command_of(text@),
{
    let chars = chars_of(text);
    let spans = word_bounds(chars.as_slice());
    proof {
        lemma_word_spans(text@);
    }
    if spans.len() == 0 || spans.len() > 2 {
        return None;
    }
    let (a, b) = spans[0];
    let name_end = match find_char(chars.as_slice(), a, b, '@') {
        Some(k) => a + k,
        None => b,
    };
    let ghost word = text@.subrange(a as int, b as int);
    assert(split_whitespace(text@)[0] == word);
    assert(command_name(word) == text@.subrange(a as int, name_end as int)) by {
        match first_position(word, '@') {
            Some(k) => {
                assert(word.take(k) =~= text@.subrange(a as int, a + k));
            },
            None => {},
        }
    }
    let start_word = chars_of("/start");
    let stop_word = chars_of("/stop");
    let status_word = chars_of("/status");
    proof {
        reveal_strlit("/start");
        reveal_strlit("/stop");
        reveal_strlit("/status");
    }
    if range_equals(chars.as_slice(), a, name_end, start_word.as_slice()) {
        if spans.len() == 1 {
            Some(TelegramCommand::Subscribe)
        } else {
            let (c, d) = spans[1];
            assert(split_whitespace(text@)[1] == text@.subrange(c as int, d as int));
            Some(TelegramCommand::Approve(text.substring_char(c, d)))
        }
    } else if range_equals(chars.as_slice(), a, name_end, stop_word.as_slice()) && spans.len()
        == 1 {
        Some(TelegramCommand::Unsubscribe)
    } else if range_equals(chars.as_slice(), a, name_end, status_word.as_slice()) && spans.len()
        == 1 {
        Some(TelegramCommand::Status)
    } else {
        None
    }
}

} // verus!
