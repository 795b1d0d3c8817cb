use crate::error::DatabaseError;
use crate::error::Failure;
use crate::lexer::first_word;
use crate::lexer::first_word_of;
use crate::lexer::in_word;
use crate::lexer::lemma_first_word_token;
use crate::lexer::lex;
use crate::lexer::lexemes;
use crate::lexer::tokenize;
use crate::lexer::Lexeme;
use crate::lexer::Token;
use crate::schema::Fields;
use crate::text::chars_of;
use crate::text::pair_texts;
use crate::text::str_eq;
use crate::text::texts;
use vstd::prelude::*;

verus! {

/// One command of the language, as mathematics.
pub enum Request {
    CreateTable { name: Seq<char>, columns: Seq<Seq<char>> },
    Insert { table: Seq<char>, fields: Fields },
    SelectAll { table: Seq<char> },
    SelectWhere { table: Seq<char>, column: Seq<char>, value: Seq<char> },
    Describe { table: Seq<char> },
    ShowTables,
    DropTable { table: Seq<char> },
}

/// One command of the language. Names and values are kept as written; in
/// `Insert` the fields stand in the order in which they were written.
#[derive(Debug, PartialEq, Eq)]
pub enum Command {
    CreateTable { name: String, columns: Vec<String> },
    Insert { table: String, fields: Vec<(String, String)> },
    SelectAll { table: String },
    SelectWhere { table: String, column: String, value: String },
    Describe { table: String },
    ShowTables,
    DropTable { table: String },
}

impl View for Command {
    type V = Request;

    open spec fn view(&self) -> Request {
        match self {
            Command::CreateTable { name, columns } => Request::CreateTable {
                name: name@,
                columns: texts(columns@),
            },
            Command::Insert { table, fields } => Request::Insert {
                table: table@,
                fields: pair_texts(fields@),
            },
            Command::SelectAll { table } => Request::SelectAll { table: table@ },
            Command::SelectWhere { table, column, value } => Request::SelectWhere {
                table: table@,
                column: column@,
                value: value@,
            },
            Command::Describe { table } => Request::Describe { table: table@ },
            Command::ShowTables => Request::ShowTables,
            Command::DropTable { table } => Request::DropTable { table: table@ },
        }
    }
}

/// Whether `written` is `letter` or its ASCII capital.
pub open spec fn same_letter(written: char, letter: char) -> bool {
    written as u32 == letter as u32 || (0x41 <= written as u32 <= 0x5A && written as u32 + 0x20
        == letter as u32)
}

/// Whether `word` is `keyword`, whatever the case of its ASCII letters.
/// `keyword` is given in lower case.
pub open spec fn spells(word: Seq<char>, keyword: Seq<char>) -> bool {
    word.len() == keyword.len() && forall|i: int|
        0 <= i < word.len() ==> same_letter(#[trigger] word[i], keyword[i])
}

/// The characters of a word; of another token, nothing.
pub open spec fn text_of(token: Lexeme) -> Seq<char> {
    match token {
        Lexeme::Word(text) => text,
        _ => Seq::empty(),
    }
}

/// Whether a word stands at place `i`.
pub open spec fn word_at(tokens: Seq<Lexeme>, i: int) -> bool {
    0 <= i < tokens.len() && tokens[i] is Word
}

/// Whether the word at place `i` is `keyword`, whatever its case.
pub open spec fn keyword_at(tokens: Seq<Lexeme>, i: int, keyword: Seq<char>) -> bool {
    word_at(tokens, i) && spells(text_of(tokens[i]), keyword)
}

/// Whether the tokens from place `from` on start with `(` and end with `)`.
pub open spec fn enclosed(tokens: Seq<Lexeme>, from: int) -> bool {
    tokens.len() >= from + 2 && tokens[from] is Open && tokens[tokens.len() - 1] is Close
}

/// The tokens between the `(` at place `from` and the `)` at the end.
pub open spec fn inner(tokens: Seq<Lexeme>, from: int) -> Seq<Lexeme> {
    tokens.subrange(from + 1, tokens.len() - 1)
}

/// `more` behind `done`, where there is more.
pub open spec fn prefixed<T>(done: Seq<T>, more: Option<Seq<T>>) -> Option<Seq<T>> {
    match more {
        Some(rest) => Some(done + rest),
        None => None,
    }
}

/// The names of a list: commas separate its places, and each place holds
/// one word or nothing, which stands for the empty name. Anything else is
/// no list of names.
pub open spec fn names_in(list: Seq<Lexeme>) -> Option<Seq<Seq<char>>>
    decreases list.len(),
{
    let end: int = if word_at(list, 0) {
        1
    } else {
        0
    };
    let name = if end == 1 {
        text_of(list[0])
    } else {
        Seq::empty()
    };
    if end == list.len() {
        Some(seq![name])
    } else if list[end] is Comma {
        prefixed(seq![name], names_in(list.skip(end + 1)))
    } else {
        None
    }
}

/// The pairs of a list: commas separate its places, and each place holds
/// `=` with one word or nothing on either side; nothing stands for the
/// empty string. Anything else is no list of pairs.
pub open spec fn pairs_in(list: Seq<Lexeme>) -> Option<Fields>
    decreases list.len(),
{
    let at: int = if word_at(list, 0) {
        1
    } else {
        0
    };
    let end: int = if word_at(list, at + 1) {
        at + 2
    } else {
        at + 1
    };
    let column = if at == 1 {
        text_of(list[0])
    } else {
        Seq::empty()
    };
    let value = if end == at + 2 {
        text_of(list[at + 1])
    } else {
        Seq::empty()
    };
    if !(at < list.len() && list[at] is Equals) {
        None
    } else if end == list.len() {
        Some(seq![(column, value)])
    } else if list[end] is Comma {
        prefixed(seq![(column, value)], pairs_in(list.skip(end + 1)))
    } else {
        None
    }
}

/// The one condition that `list` spells: a single pair.
pub open spec fn condition_in(list: Seq<Lexeme>) -> Option<(Seq<char>, Seq<char>)> {
    match pairs_in(list) {
        Some(pairs) => if pairs.len() == 1 {
            Some(pairs[0])
        } else {
            None
        },
        None => None,
    }
}

/// `CREATE TABLE <name> ( col1, col2, ... )`, read from the tokens behind
/// the keyword.
pub open spec fn parse_create(tokens: Seq<Lexeme>) -> Result<Request, Failure> {
    if !(keyword_at(tokens, 1, "table"@) && word_at(tokens, 2)) {
        Err(Failure::InvalidSyntax("Invalid CREATE TABLE syntax"@))
    } else if !enclosed(tokens, 3) {
        Err(Failure::InvalidSyntax("Columns must be in parentheses"@))
    } else {
        match names_in(inner(tokens, 3)) {
            Some(columns) => Ok(Request::CreateTable { name: text_of(tokens[2]), columns }),
            None => Err(Failure::InvalidSyntax("Invalid column list"@)),
        }
    }
}

/// `INSERT INTO <name> ( col1=val1, col2=val2, ... )`, read from the tokens
/// behind the keyword.
pub open spec fn parse_insert(tokens: Seq<Lexeme>) -> Result<Request, Failure> {
    if !(keyword_at(tokens, 1, "into"@) && word_at(tokens, 2)) {
        Err(Failure::InvalidSyntax("Invalid INSERT syntax"@))
    } else if !enclosed(tokens, 3) {
        Err(Failure::InvalidSyntax("Values must be in parentheses"@))
    } else {
        match pairs_in(inner(tokens, 3)) {
            Some(fields) => Ok(Request::Insert { table: text_of(tokens[2]), fields }),
            None => Err(Failure::InvalidSyntax("Invalid key=value format"@)),
        }
    }
}

/// `SELECT * FROM <name> [WHERE col=val]`, read from the tokens behind the
/// keyword.
pub open spec fn parse_select(tokens: Seq<Lexeme>) -> Result<Request, Failure> {
    if !(word_at(tokens, 1) && text_of(tokens[1]) == "*"@ && keyword_at(tokens, 2, "from"@)
        && word_at(tokens, 3)) {
        Err(Failure::InvalidSyntax("Invalid SELECT syntax"@))
    } else if tokens.len() == 4 {
        Ok(Request::SelectAll { table: text_of(tokens[3]) })
    } else if !keyword_at(tokens, 4, "where"@) {
        Err(Failure::InvalidSyntax("Invalid SELECT syntax"@))
    } else if tokens.len() == 5 {
        Err(Failure::InvalidSyntax("Invalid WHERE clause"@))
    } else {
        match condition_in(tokens.skip(5)) {
            Some(condition) => Ok(
                Request::SelectWhere {
                    table: text_of(tokens[3]),
                    column: condition.0,
                    value: condition.1,
                },
            ),
            None => Err(Failure::InvalidSyntax("Invalid WHERE condition"@)),
        }
    }
}

/// `DESCRIBE <name>`, read from the tokens behind the keyword.
pub open spec fn parse_describe(tokens: Seq<Lexeme>) -> Result<Request, Failure> {
    if tokens.len() <= 1 {
        Err(Failure::InvalidSyntax("Table name required"@))
    } else if !(tokens.len() == 2 && word_at(tokens, 1)) {
        Err(Failure::InvalidSyntax("Invalid DESCRIBE syntax"@))
    } else {
        Ok(Request::Describe { table: text_of(tokens[1]) })
    }
}

/// `SHOW TABLES`, read from the tokens behind the keyword.
pub open spec fn parse_show(tokens: Seq<Lexeme>) -> Result<Request, Failure> {
    if tokens.len() == 2 && keyword_at(tokens, 1, "tables"@) {
        Ok(Request::ShowTables)
    } else {
        Err(Failure::InvalidSyntax("Only 'SHOW TABLES' is supported"@))
    }
}

/// `DROP TABLE <name>`, read from the tokens behind the keyword.
pub open spec fn parse_drop(tokens: Seq<Lexeme>) -> Result<Request, Failure> {
    if tokens.len() == 3 && keyword_at(tokens, 1, "table"@) && word_at(tokens, 2) {
        Ok(Request::DropTable { table: text_of(tokens[2]) })
    } else {
        Err(Failure::InvalidSyntax("Invalid DROP TABLE syntax"@))
    }
}

/// Whether `word` is one of the six keywords that start a command.
pub open spec fn is_keyword(word: Seq<char>) -> bool {
    ||| spells(word, "create"@)
    ||| spells(word, "insert"@)
    ||| spells(word, "select"@)
    ||| spells(word, "describe"@)
    ||| spells(word, "show"@)
    ||| spells(word, "drop"@)
}

/// The command that `text` spells. Its first word, as white space delimits
/// it, decides which of the six forms is meant: a text without a word, and
/// one whose first word is no keyword, is no command. The form itself is
/// read from the tokens.
pub open spec fn command_of(text: Seq<char>) -> Result<Request, Failure> {
    let word = first_word(text);
    let tokens = lex(text);
    if spells(word, "create"@) {
        parse_create(tokens)
    } else if spells(word, "insert"@) {
        parse_insert(tokens)
    } else if spells(word, "select"@) {
        parse_select(tokens)
    } else if spells(word, "describe"@) {
        parse_describe(tokens)
    } else if spells(word, "show"@) {
        parse_show(tokens)
    } else if spells(word, "drop"@) {
        parse_drop(tokens)
    } else {
        Err(Failure::UnknownCommand)
    }
}

/// A first word that is a keyword is the first token of the text, so the
/// forms count their places from it.
pub proof fn lemma_keyword_leads(text: Seq<char>)
    requires
        is_keyword(first_word(text)),
    ensures
        lex(text).len() > 0,
        lex(text)[0] == Lexeme::Word(first_word(text)),
{
    reveal_strlit("create");
    reveal_strlit("insert");
    reveal_strlit("select");
    reveal_strlit("describe");
    reveal_strlit("show");
    reveal_strlit("drop");
    let word = first_word(text);
    assert forall|i: int| 0 <= i < word.len() implies in_word(#[trigger] word[i]) by {
        let code = word[i] as u32;
        assert(0x41 <= code <= 0x5A || 0x61 <= code <= 0x7A);
    }
    lemma_first_word_token(text);
}

/// A text is no command exactly when its first word is none of the six
/// keywords.
pub proof fn lemma_unknown_command(text: Seq<char>)
    ensures
        command_of(text) == Err::<Request, Failure>(Failure::UnknownCommand) <==> !is_keyword(
            first_word(text),
        ),
{
}

/// Whether a parsing result is the one that the grammar gives.
pub open spec fn agrees(result: Result<Command, DatabaseError>, wanted: Result<Request, Failure>) -> bool {
    match result {
        Ok(command) => wanted == Ok::<Request, Failure>(command@),
        Err(e) => wanted == Err::<Request, Failure>(e@),
    }
}

/// Whether `word` is `keyword`, whatever the case of its ASCII letters.
pub fn word_is(word: &str, keyword: &str) -> (same: bool)
    ensures
        same == spells(word@, keyword@),
{
    let w = chars_of(word);
    let k = chars_of(keyword);
    if w.len() != k.len() {
        return false;
    }
    let mut i: usize = 0;
    while i < w.len()
        invariant
            i <= w.len(),
            w.len() == k.len(),
            w@ == word@,
            k@ == keyword@,
            forall|j: int| 0 <= j < i ==> same_letter(#[trigger] w@[j], k@[j]),
        decreases w.len() - i,
    {
        let a: u32 = w[i] as u32;
        let b: u32 = k[i] as u32;
        if !(a == b || (0x41 <= a && a <= 0x5A && a + 0x20 == b)) {
            assert(!same_letter(word@[i as int], keyword@[i as int]));
            return false;
        }
        i += 1;
    }
    true
}

/// The word at place `i`, if a word stands there.
fn get_word(tokens: &Vec<Token>, i: usize) -> (found: Option<&String>)
    ensures
        match found {
            Some(text) => word_at(lexemes(tokens@), i as int) && text@ == text_of(
                lexemes(tokens@)[i as int],
            ),
            None => !word_at(lexemes(tokens@), i as int),
        },
{
    if i < tokens.len() {
        match &tokens[i] {
            Token::Word(text) => Some(text),
            _ => None,
        }
    } else {
        None
    }
}

/// Whether the word at place `i` is `keyword`, whatever its case.
fn has_keyword(tokens: &Vec<Token>, i: usize, keyword: &str) -> (same: bool)
    ensures
        same == keyword_at(lexemes(tokens@), i as int, keyword@),
{
    match get_word(tokens, i) {
        Some(text) => word_is(text.as_str(), keyword),
        None => false,
    }
}

/// Whether the tokens from place `from` on start with `(` and end with `)`.
fn is_enclosed(tokens: &Vec<Token>, from: usize) -> (yes: bool)
    requires
        from + 2 <= usize::MAX,
    ensures
        yes == enclosed(lexemes(tokens@), from as int),
{
    if tokens.len() < from + 2 {
        return false;
    }
    let opens = match &tokens[from] {
        Token::Open => true,
        _ => false,
    };
    let closes = match &tokens[tokens.len() - 1] {
        Token::Close => true,
        _ => false,
    };
    opens && closes
}

/// An `InvalidSyntax` error with the given reason.
fn syntax_error(reason: &str) -> (e: DatabaseError)
    ensures
        e@ == Failure::InvalidSyntax(reason@),
{
    DatabaseError::InvalidSyntax(reason.to_owned())
}

/// The word at place `k`, if `k` is before `end` and a word stands there.
fn word_before(tokens: &Vec<Token>, k: usize, end: usize) -> (found: Option<&String>)
    requires
        k <= end <= tokens@.len(),
    ensures
        match found {
            Some(text) => word_at(lexemes(tokens@).subrange(k as int, end as int), 0) && text@
                == text_of(lexemes(tokens@)[k as int]),
            None => !word_at(lexemes(tokens@).subrange(k as int, end as int), 0),
        },
{
    if k < end {
        assert(lexemes(tokens@).subrange(k as int, end as int)[0] == lexemes(tokens@)[k as int]);
        get_word(tokens, k)
    } else {
        None
    }
}

/// Whether a comma stands at place `k`.
fn comma_at(tokens: &Vec<Token>, k: usize) -> (yes: bool)
    requires
        k < tokens@.len(),
    ensures
        yes == (lexemes(tokens@)[k as int] is Comma),
{
    match &tokens[k] {
        Token::Comma => true,
        _ => false,
    }
}

/// Whether `=` stands at place `k`.
fn equals_at(tokens: &Vec<Token>, k: usize) -> (yes: bool)
    requires
        k < tokens@.len(),
    ensures
        yes == (lexemes(tokens@)[k as int] is Equals),
{
    match &tokens[k] {
        Token::Equals => true,
        _ => false,
    }
}

/// The names that the tokens from `first` up to `end` list, if they list
/// names.
fn read_names(tokens: &Vec<Token>, first: usize, end: usize) -> (found: Option<Vec<String>>)
    requires
        first <= end <= tokens@.len(),
    ensures
        match found {
            Some(names) => names_in(lexemes(tokens@).subrange(first as int, end as int)) == Some(
                texts(names@),
            ),
            None => names_in(lexemes(tokens@).subrange(first as int, end as int)) is None,
        },
{
    let ghost all = lexemes(tokens@);
    let ghost list = all.subrange(first as int, end as int);
    let mut names: Vec<String> = Vec::new();
    let mut k: usize = first;
    assert(all.subrange(k as int, end as int) =~= list);
    assert(prefixed(texts(names@), names_in(list)) == names_in(list)) by {
        assert(texts(names@) =~= Seq::<Seq<char>>::empty());
        if names_in(list) is Some {
            assert(texts(names@) + names_in(list).unwrap() =~= names_in(list).unwrap());
        }
    }
    loop
        invariant
            first <= k <= end <= tokens@.len(),
            all == lexemes(tokens@),
            list == all.subrange(first as int, end as int),
            names_in(list) == prefixed(texts(names@), names_in(all.subrange(k as int, end as int))),
        decreases end - k,
    {
        let ghost here = all.subrange(k as int, end as int);
        let ghost done = texts(names@);
        let (name, next): (String, usize) = match word_before(tokens, k, end) {
            Some(text) => (text.clone(), k + 1),
            None => (String::new(), k),
        };
        let ghost place = name@;
        names.push(name);
        assert(texts(names@) =~= done + seq![place]);
        if next == end {
            proof {
                assert(names_in(here) == Some(seq![place]));
            }
            return Some(names);
        }
        assert(here[next - k] == all[next as int]);
        if !comma_at(tokens, next) {
            return None;
        }
        proof {
            assert(here.skip(next - k + 1) =~= all.subrange(next + 1, end as int));
            let rest = names_in(all.subrange(next + 1, end as int));
            assert(names_in(here) == prefixed(seq![place], rest));
            if rest is Some {
                assert(done + (seq![place] + rest.unwrap()) =~= (done + seq![place])
                    + rest.unwrap());
            }
        }
        k = next + 1;
    }
}

/// The pairs that the tokens from `first` up to `end` list, if they list
/// pairs.
fn read_pairs(tokens: &Vec<Token>, first: usize, end: usize) -> (found: Option<
    Vec<(String, String)>,
>)
    requires
        first <= end <= tokens@.len(),
    ensures
        match found {
            Some(pairs) => pairs_in(lexemes(tokens@).subrange(first as int, end as int)) == Some(
                pair_texts(pairs@),
            ),
            None => pairs_in(lexemes(tokens@).subrange(first as int, end as int)) is None,
        },
{
    let ghost all = lexemes(tokens@);
    let ghost list = all.subrange(first as int, end as int);
    let mut pairs: Vec<(String, String)> = Vec::new();
    let mut k: usize = first;
    assert(all.subrange(k as int, end as int) =~= list);
    assert(prefixed(pair_texts(pairs@), pairs_in(list)) == pairs_in(list)) by {
        assert(pair_texts(pairs@) =~= Seq::<(Seq<char>, Seq<char>)>::empty());
        if pairs_in(list) is Some {
            assert(pair_texts(pairs@) + pairs_in(list).unwrap() =~= pairs_in(list).unwrap());
        }
    }
    loop
        invariant
            first <= k <= end <= tokens@.len(),
            all == lexemes(tokens@),
            list == all.subrange(first as int, end as int),
            pairs_in(list) == prefixed(
                pair_texts(pairs@),
                pairs_in(all.subrange(k as int, end as int)),
            ),
        decreases end - k,
    {
        let ghost here = all.subrange(k as int, end as int);
        let ghost done = pair_texts(pairs@);
        let (column, at): (String, usize) = match word_before(tokens, k, end) {
            Some(text) => (text.clone(), k + 1),
            None => (String::new(), k),
        };
        if at >= end {
            return None;
        }
        assert(here[at - k] == all[at as int]);
        if !equals_at(tokens, at) {
            return None;
        }
        assert(here.subrange(at - k + 1, here.len() as int) =~= all.subrange(at + 1, end as int));
        let (value, next): (String, usize) = match word_before(tokens, at + 1, end) {
            Some(text) => (text.clone(), at + 2),
            None => (String::new(), at + 1),
        };
        proof {
            if at + 1 < end {
                assert(here[at - k + 1] == all[at + 1]);
                assert(all.subrange(at + 1, end as int)[0] == all[at + 1]);
            }
            assert(word_at(here, at - k + 1) == word_at(all.subrange(at + 1, end as int), 0));
        }
        let ghost pair = (column@, value@);
        pairs.push((column, value));
        assert(pair_texts(pairs@) =~= done + seq![pair]);
        if next == end {
            proof {
                assert(pairs_in(here) == Some(seq![pair]));
            }
            return Some(pairs);
        }
        assert(here[next - k] == all[next as int]);
        if !comma_at(tokens, next) {
            return None;
        }
        proof {
            assert(here.skip(next - k + 1) =~= all.subrange(next + 1, end as int));
            let rest = pairs_in(all.subrange(next + 1, end as int));
            assert(pairs_in(here) == prefixed(seq![pair], rest));
            if rest is Some {
                assert(done + (seq![pair] + rest.unwrap()) =~= (done + seq![pair])
                    + rest.unwrap());
            }
        }
        k = next + 1;
    }
}

/// Reads a `CREATE TABLE` command; the first word of the text is known to be `create`.
fn read_create(tokens: &Vec<Token>) -> (result: Result<Command, DatabaseError>)
    ensures
        agrees(result, parse_create(lexemes(tokens@))),
{
    let name = match get_word(tokens, 2) {
        Some(text) => text,
        None => {
            return Err(syntax_error("Invalid CREATE TABLE syntax"));
        },
    };
    if !has_keyword(tokens, 1, "table") {
        return Err(syntax_error("Invalid CREATE TABLE syntax"));
    }
    if !is_enclosed(tokens, 3) {
        return Err(syntax_error("Columns must be in parentheses"));
    }
    assert(lexemes(tokens@).len() == tokens@.len());
    match read_names(tokens, 4, tokens.len() - 1) {
        Some(columns) => Ok(Command::CreateTable { name: name.clone(), columns }),
        None => Err(syntax_error("Invalid column list")),
    }
}

/// Reads an `INSERT INTO` command; the first word of the text is known to be `insert`.
fn read_insert(tokens: &Vec<Token>) -> (result: Result<Command, DatabaseError>)
    ensures
        agrees(result, parse_insert(lexemes(tokens@))),
{
    let table = match get_word(tokens, 2) {
        Some(text) => text,
        None => {
            return Err(syntax_error("Invalid INSERT syntax"));
        },
    };
    if !has_keyword(tokens, 1, "into") {
        return Err(syntax_error("Invalid INSERT syntax"));
    }
    if !is_enclosed(tokens, 3) {
        return Err(syntax_error("Values must be in parentheses"));
    }
    assert(lexemes(tokens@).len() == tokens@.len());
    match read_pairs(tokens, 4, tokens.len() - 1) {
        Some(fields) => Ok(Command::Insert { table: table.clone(), fields }),
        None => Err(syntax_error("Invalid key=value format")),
    }
}

/// Reads a `SELECT` command; the first word of the text is known to be `select`.
fn read_select(tokens: &Vec<Token>) -> (result: Result<Command, DatabaseError>)
    ensures
        agrees(result, parse_select(lexemes(tokens@))),
{
    let star = match get_word(tokens, 1) {
        Some(text) => str_eq(text.as_str(), "*"),
        None => false,
    };
    let table = match get_word(tokens, 3) {
        Some(text) => text,
        None => {
            return Err(syntax_error("Invalid SELECT syntax"));
        },
    };
    if !star || !has_keyword(tokens, 2, "from") {
        return Err(syntax_error("Invalid SELECT syntax"));
    }
    assert(lexemes(tokens@).len() == tokens@.len());
    if tokens.len() == 4 {
        return Ok(Command::SelectAll { table: table.clone() });
    }
    if !has_keyword(tokens, 4, "where") {
        return Err(syntax_error("Invalid SELECT syntax"));
    }
    if tokens.len() == 5 {
        return Err(syntax_error("Invalid WHERE clause"));
    }
    assert(lexemes(tokens@).skip(5) =~= lexemes(tokens@).subrange(5, tokens@.len() as int));
    match read_pairs(tokens, 5, tokens.len()) {
        Some(pairs) => {
            if pairs.len() == 1 {
                assert(pair_texts(pairs@)[0] == (pairs@[0].0@, pairs@[0].1@));
                Ok(
                    Command::SelectWhere {
                        table: table.clone(),
                        column: pairs[0].0.clone(),
                        value: pairs[0].1.clone(),
                    },
                )
            } else {
                Err(syntax_error("Invalid WHERE condition"))
            }
        },
        None => Err(syntax_error("Invalid WHERE condition")),
    }
}

/// Reads a `DESCRIBE` command; the first word of the text is known to be `describe`.
fn read_describe(tokens: &Vec<Token>) -> (result: Result<Command, DatabaseError>)
    ensures
        agrees(result, parse_describe(lexemes(tokens@))),
{
    assert(lexemes(tokens@).len() == tokens@.len());
    if tokens.len() <= 1 {
        return Err(syntax_error("Table name required"));
    }
    if tokens.len() != 2 {
        return Err(syntax_error("Invalid DESCRIBE syntax"));
    }
    match get_word(tokens, 1) {
        Some(table) => Ok(Command::Describe { table: table.clone() }),
        None => Err(syntax_error("Invalid DESCRIBE syntax")),
    }
}

/// Reads a `SHOW` command; the first word of the text is known to be `show`.
fn read_show(tokens: &Vec<Token>) -> (result: Result<Command, DatabaseError>)
    ensures
        agrees(result, parse_show(lexemes(tokens@))),
{
    assert(lexemes(tokens@).len() == tokens@.len());
    if tokens.len() == 2 && has_keyword(tokens, 1, "tables") {
        Ok(Command::ShowTables)
    } else {
        Err(syntax_error("Only 'SHOW TABLES' is supported"))
    }
}

/// Reads a `DROP TABLE` command; the first word of the text is known to be `drop`.
fn read_drop(tokens: &Vec<Token>) -> (result: Result<Command, DatabaseError>)
    ensures
        agrees(result, parse_drop(lexemes(tokens@))),
{
    assert(lexemes(tokens@).len() == tokens@.len());
    if tokens.len() != 3 || !has_keyword(tokens, 1, "table") {
        return Err(syntax_error("Invalid DROP TABLE syntax"));
    }
    match get_word(tokens, 2) {
        Some(table) => Ok(Command::DropTable { table: table.clone() }),
        None => Err(syntax_error("Invalid DROP TABLE syntax")),
    }
}

/// The command that `text` spells, or why it spells none.
///
/// A first word that is none of the six keywords gives `UnknownCommand`;
/// a keyword followed by anything but its form gives `InvalidSyntax` with
/// the reason.
pub fn parse_command(text: &str) -> (result: Result<Command, DatabaseError>)
    ensures
        agrees(result, command_of(text@)),
{
    let word = first_word_of(text);
    let tokens = tokenize(text);
    if word_is(word, "create") {
        read_create(&tokens)
    } else if word_is(word, "insert") {
        read_insert(&tokens)
    } else if word_is(word, "select") {
        read_select(&tokens)
    } else if word_is(word, "describe") {
        read_describe(&tokens)
    } else if word_is(word, "show") {
        read_show(&tokens)
    } else if word_is(word, "drop") {
        read_drop(&tokens)
    } else {
        Err(DatabaseError::UnknownCommand)
    }
}

} // verus!
