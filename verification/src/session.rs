use crate::command::spells;
use crate::command::word_is;
use crate::engine::StorageEngine;
use crate::error::message_of;
use crate::error::DatabaseError;
use crate::error::Failure;
use crate::lexer::first_word;
use crate::lexer::first_word_of;
use crate::lexer::is_space;
use crate::lexer::is_space_char;
use crate::lexer::without_leading;
use crate::query::effect;
use crate::query::reply_of;
use crate::query::QueryEngine;
use crate::text::chars_of;
use crate::text::join2;
use vstd::prelude::*;
use vstd::string::*;

verus! {

/// Where a line of input comes from.
#[derive(Debug, Clone, Copy, PartialEq, Eq, Structural)]
pub enum FrontEnd {
    /// The interactive session.
    Console,
    /// A connected client.
    Network,
}

/// What a front end does with a line of input.
#[derive(Debug, Clone, Copy, PartialEq, Eq, Structural)]
pub enum LineAction {
    /// Nothing: the line is empty.
    Skip,
    /// End the session.
    Quit,
    /// Show the help text.
    Help,
    /// Start serving clients.
    StartServer,
    /// Replace the engine by the one in the snapshot.
    Reload,
    /// Run the line as a command.
    Execute,
}

/// `s` without the white space at its end.
pub open spec fn without_trailing(s: Seq<char>) -> Seq<char>
    decreases s.len(),
{
    if s.len() > 0 && is_space(s.last()) {
        without_trailing(s.drop_last())
    } else {
        s
    }
}

/// `s` without the white space at its start and at its end.
pub open spec fn trimmed(s: Seq<char>) -> Seq<char> {
    without_trailing(without_leading(s))
}

/// What `front` does with `line`. The words that a front end takes for
/// itself are matched whatever their case, with white space around them
/// dropped; every other line that is not empty is a command.
pub open spec fn action_for(line: Seq<char>, front: FrontEnd) -> LineAction {
    let word = trimmed(line);
    if word.len() == 0 {
        LineAction::Skip
    } else if spells(word, "quit"@) || (front == FrontEnd::Console && spells(word, "exit"@)) {
        LineAction::Quit
    } else if spells(word, "help"@) {
        LineAction::Help
    } else if front == FrontEnd::Console && spells(word, "server"@) {
        LineAction::StartServer
    } else if spells(word, "load"@) {
        LineAction::Reload
    } else {
        LineAction::Execute
    }
}

/// Whether a command is one that changes the engine, going by its first
/// word as white space delimits it: `create`, `insert` or `drop`, whatever
/// the case.
pub open spec fn mutating(command: Seq<char>) -> bool {
    let word = first_word(command);
    spells(word, "create"@) || spells(word, "insert"@) || spells(word, "drop"@)
}

/// The line that answers a command: the reply itself, or the reason of the
/// failure behind `Error: `.
pub open spec fn response_of(reply: Result<Seq<char>, Failure>) -> Seq<char> {
    match reply {
        Ok(text) => text,
        Err(failure) => "Error: "@ + message_of(failure),
    }
}

/// `text` without the white space at its start and at its end.
pub fn trim(text: &str) -> (out: &str)
    ensures
        out@ == trimmed(text@),
{
    let chars = chars_of(text);
    let n: usize = chars.len();
    let mut start: usize = 0;
    assert(text@.skip(0) =~= text@);
    while start < n && is_space_char(chars[start])
        invariant
            start <= n,
            n == text@.len(),
            chars@ == text@,
            without_leading(text@) == without_leading(text@.skip(start as int)),
        decreases n - start,
    {
        assert(text@.skip(start as int).skip(1) =~= text@.skip(start + 1));
        start += 1;
    }
    let ghost rest = text@.skip(start as int);
    assert(without_leading(text@) == rest);
    let mut end: usize = n;
    assert(rest =~= text@.subrange(start as int, end as int));
    while end > start && is_space_char(chars[end - 1])
        invariant
            start <= end <= n,
            n == text@.len(),
            chars@ == text@,
            without_trailing(rest) == without_trailing(text@.subrange(start as int, end as int)),
        decreases end - start,
    {
        assert(text@.subrange(start as int, end as int).drop_last() =~= text@.subrange(
            start as int,
            end - 1,
        ));
        end -= 1;
    }
    text.substring_char(start, end)
}

/// What `front` does with `line`.
pub fn classify_line(line: &str, front: FrontEnd) -> (action: LineAction)
    ensures
        action == action_for(line@, front),
{
    let word = trim(line);
    let console = match front {
        FrontEnd::Console => true,
        FrontEnd::Network => false,
    };
    if word.unicode_len() == 0 {
        LineAction::Skip
    } else if word_is(word, "quit") || (console && word_is(word, "exit")) {
        LineAction::Quit
    } else if word_is(word, "help") {
        LineAction::Help
    } else if console && word_is(word, "server") {
        LineAction::StartServer
    } else if word_is(word, "load") {
        LineAction::Reload
    } else {
        LineAction::Execute
    }
}

/// Whether `command` is one that changes the engine, going by its first
/// word.
pub fn is_mutating(command: &str) -> (yes: bool)
    ensures
        yes == mutating(command@),
{
    let word = first_word_of(command);
    word_is(word, "create") || word_is(word, "insert") || word_is(word, "drop")
}

/// The line that answers a command.
pub fn response_text(result: &Result<String, DatabaseError>) -> (text: String)
    ensures
        text@ == response_of(reply_of(*result)),
{
    match result {
        Ok(reply) => reply.clone(),
        Err(e) => join2("Error: ", e.message().as_str()),
    }
}

/// What came of one command: the line that answers it, and whether the
/// engine is to be saved before the caller lets go of it.
pub struct Turn {
    pub response: String,
    pub save: bool,
}

/// Runs `line` as one command against `storage` and says what the front
/// end owes next. The engine is to be saved exactly after a mutating
/// command that succeeded; a command that fails leaves the engine as it
/// was.
pub fn run_line(storage: &mut StorageEngine, line: &str) -> (turn: Turn)
    requires
        old(storage).wf(),
    ensures
        final(storage).wf(),
        final(storage)@ == effect(old(storage)@, line@).0,
        turn.response@ == response_of(effect(old(storage)@, line@).1),
        turn.save == (effect(old(storage)@, line@).1 is Ok && mutating(line@)),
{
    let mut queries = QueryEngine::new(storage);
    let result = queries.execute(line);
    let save = result.is_ok() && is_mutating(line);
    Turn { response: response_text(&result), save }
}

} // verus!
