use crate::text::chars_of;
use vstd::prelude::*;
use vstd::string::*;

verus! {

/// White space, as Unicode defines it.
pub open spec fn is_space(c: char) -> bool {
    let n = c as u32;
    ||| 0x09 <= n <= 0x0D
    ||| n == 0x20
    ||| n == 0x85
    ||| n == 0xA0
    ||| n == 0x1680
    ||| 0x2000 <= n <= 0x200A
    ||| n == 0x2028
    ||| n == 0x2029
    ||| n == 0x202F
    ||| n == 0x205F
    ||| n == 0x3000
}

/// The four characters that are tokens by themselves.
pub open spec fn is_mark(c: char) -> bool {
    c == '(' || c == ')' || c == ',' || c == '='
}

/// A character that can stand in a word.
pub open spec fn in_word(c: char) -> bool {
    !is_space(c) && !is_mark(c)
}

/// A token as mathematics.
pub enum Lexeme {
    Word(Seq<char>),
    Open,
    Close,
    Comma,
    Equals,
}

/// The token that a mark stands for.
pub open spec fn mark_of(c: char) -> Lexeme {
    if c == '(' {
        Lexeme::Open
    } else if c == ')' {
        Lexeme::Close
    } else if c == ',' {
        Lexeme::Comma
    } else {
        Lexeme::Equals
    }
}

/// The number of word characters at the start of `s`.
pub open spec fn word_len(s: Seq<char>) -> nat
    decreases s.len(),
{
    if s.len() == 0 || !in_word(s[0]) {
        0
    } else {
        1 + word_len(s.skip(1))
    }
}

/// The word at the start of `s` ends within `s`.
pub proof fn lemma_word_len(s: Seq<char>)
    ensures
        word_len(s) <= s.len(),
        s.len() > 0 && in_word(s[0]) ==> word_len(s) >= 1,
    decreases s.len(),
{
    if s.len() > 0 && in_word(s[0]) {
        lemma_word_len(s.skip(1));
    }
}

/// The tokens of `s`: white space separates tokens and is dropped, each
/// mark is a token, and every longest run of other characters is a word.
pub open spec fn lex(s: Seq<char>) -> Seq<Lexeme>
    decreases s.len(),
{
    if s.len() == 0 {
        Seq::empty()
    } else if is_space(s[0]) {
        lex(s.skip(1))
    } else if is_mark(s[0]) {
        seq![mark_of(s[0])] + lex(s.skip(1))
    } else {
        proof {
            lemma_word_len(s);
        }
        let n = word_len(s) as int;
        seq![Lexeme::Word(s.take(n))] + lex(s.skip(n))
    }
}

/// `s` without the white space at its start.
pub open spec fn without_leading(s: Seq<char>) -> Seq<char>
    decreases s.len(),
{
    if s.len() > 0 && is_space(s[0]) {
        without_leading(s.skip(1))
    } else {
        s
    }
}

/// The number of characters at the start of `s` before the first white
/// space.
pub open spec fn reach(s: Seq<char>) -> nat
    decreases s.len(),
{
    if s.len() == 0 || is_space(s[0]) {
        0
    } else {
        1 + reach(s.skip(1))
    }
}

/// The first word of `text` as white space delimits it: what stands
/// between the white space at the start, if any, and the next white space
/// or the end. Marks count as part of it.
pub open spec fn first_word(text: Seq<char>) -> Seq<char> {
    let rest = without_leading(text);
    rest.take(reach(rest) as int)
}

/// The first word is what stands from the first character that is no
/// white space up to the next white space or the end.
pub proof fn lemma_first_word(text: Seq<char>, start: int, end: int)
    requires
        0 <= start <= end <= text.len(),
        forall|i: int| 0 <= i < start ==> is_space(#[trigger] text[i]),
        start == text.len() || !is_space(text[start]),
        forall|i: int| start <= i < end ==> !is_space(#[trigger] text[i]),
        end == text.len() || is_space(text[end]),
    ensures
        first_word(text) == text.subrange(start, end),
    decreases text.len(),
{
    if start > 0 {
        let rest = text.skip(1);
        assert forall|i: int| 0 <= i < start - 1 implies is_space(#[trigger] rest[i]) by {
            assert(rest[i] == text[i + 1]);
        }
        assert forall|i: int| start - 1 <= i < end - 1 implies !is_space(#[trigger] rest[i]) by {
            assert(rest[i] == text[i + 1]);
        }
        assert(start - 1 == rest.len() || rest[start - 1] == text[start]);
        assert(end - 1 == rest.len() || rest[end - 1] == text[end]);
        lemma_first_word(rest, start - 1, end - 1);
        assert(rest.subrange(start - 1, end - 1) =~= text.subrange(start, end));
    } else {
        assert(without_leading(text) == text);
        lemma_reach_to(text, end);
        assert(text.take(end) =~= text.subrange(0, end));
    }
}

proof fn lemma_reach_to(s: Seq<char>, end: int)
    requires
        0 <= end <= s.len(),
        forall|i: int| 0 <= i < end ==> !is_space(#[trigger] s[i]),
        end == s.len() || is_space(s[end]),
    ensures
        reach(s) == end,
    decreases s.len(),
{
    if end > 0 {
        let rest = s.skip(1);
        assert forall|i: int| 0 <= i < end - 1 implies !is_space(#[trigger] rest[i]) by {
            assert(rest[i] == s[i + 1]);
        }
        lemma_reach_to(rest, end - 1);
    }
}

/// The characters before the first white space end within `s`.
pub proof fn lemma_reach(s: Seq<char>)
    ensures
        reach(s) <= s.len(),
    decreases s.len(),
{
    if s.len() > 0 && !is_space(s[0]) {
        lemma_reach(s.skip(1));
    }
}

proof fn lemma_lex_skips_leading(s: Seq<char>)
    ensures
        lex(s) == lex(without_leading(s)),
    decreases s.len(),
{
    if s.len() > 0 && is_space(s[0]) {
        lemma_lex_skips_leading(s.skip(1));
    }
}

proof fn lemma_word_reaches(s: Seq<char>)
    requires
        forall|i: int| 0 <= i < reach(s) ==> in_word(#[trigger] s[i]),
    ensures
        word_len(s) == reach(s),
    decreases s.len(),
{
    if s.len() > 0 && !is_space(s[0]) {
        lemma_reach(s.skip(1));
        assert(in_word(s[0]));
        assert forall|i: int| 0 <= i < reach(s.skip(1)) implies in_word(
            #[trigger] s.skip(1)[i],
        ) by {
            assert(s.skip(1)[i] == s[i + 1]);
        }
        lemma_word_reaches(s.skip(1));
    }
}

/// A first word that holds no mark is the first token.
pub proof fn lemma_first_word_token(text: Seq<char>)
    requires
        first_word(text).len() > 0,
        forall|i: int| 0 <= i < first_word(text).len() ==> in_word(#[trigger] first_word(text)[i]),
    ensures
        lex(text).len() > 0,
        lex(text)[0] == Lexeme::Word(first_word(text)),
{
    let rest = without_leading(text);
    lemma_reach(rest);
    let word = first_word(text);
    assert forall|i: int| 0 <= i < reach(rest) implies in_word(#[trigger] rest[i]) by {
        assert(word[i] == rest[i]);
    }
    lemma_word_reaches(rest);
    lemma_lex_skips_leading(text);
    assert(in_word(rest[0]));
}

/// A token of a command.
#[derive(Debug, PartialEq, Eq)]
pub enum Token {
    Word(String),
    Open,
    Close,
    Comma,
    Equals,
}

impl View for Token {
    type V = Lexeme;

    open spec fn view(&self) -> Lexeme {
        match self {
            Token::Word(text) => Lexeme::Word(text@),
            Token::Open => Lexeme::Open,
            Token::Close => Lexeme::Close,
            Token::Comma => Lexeme::Comma,
            Token::Equals => Lexeme::Equals,
        }
    }
}

/// The tokens of a sequence of `Token`s as mathematics.
pub open spec fn lexemes(tokens: Seq<Token>) -> Seq<Lexeme> {
    tokens.map_values(|t: Token| t@)
}

/// Whether `c` is white space.
pub fn is_space_char(c: char) -> (space: bool)
    ensures
        space == is_space(c),
{
    let n: u32 = c as u32;
    (0x09 <= n && n <= 0x0D) || n == 0x20 || n == 0x85 || n == 0xA0 || n == 0x1680 || (0x2000 <= n
        && n <= 0x200A) || n == 0x2028 || n == 0x2029 || n == 0x202F || n == 0x205F || n == 0x3000
}

/// Whether `c` is one of the four marks.
pub fn is_mark_char(c: char) -> (mark: bool)
    ensures
        mark == is_mark(c),
{
    c == '(' || c == ')' || c == ',' || c == '='
}

/// The first word of `text` as white space delimits it.
pub fn first_word_of(text: &str) -> (word: &str)
    ensures
        word@ == first_word(text@),
{
    let chars = chars_of(text);
    let n: usize = chars.len();
    let mut start: usize = 0;
    assert(text@.skip(0) =~= text@);
    while start < n && is_space_char(chars[start])
        invariant
            start <= n,
            n == text@.len(),
            chars@ == text@,
            without_leading(text@) == without_leading(text@.skip(start as int)),
        decreases n - start,
    {
        assert(text@.skip(start as int).skip(1) =~= text@.skip(start + 1));
        start += 1;
    }
    let ghost rest = text@.skip(start as int);
    assert(without_leading(text@) == rest);
    let mut end: usize = start;
    while end < n && !is_space_char(chars[end])
        invariant
            start <= end <= n,
            n == text@.len(),
            chars@ == text@,
            reach(text@.skip(start as int)) == (end - start) + reach(text@.skip(end as int)),
        decreases n - end,
    {
        assert(text@.skip(end as int).skip(1) =~= text@.skip(end + 1));
        end += 1;
    }
    assert(reach(text@.skip(end as int)) == 0);
    assert(rest.take(end - start) =~= text@.subrange(start as int, end as int));
    text.substring_char(start, end)
}

/// Splits a command into its tokens, in one pass from left to right.
pub fn tokenize(text: &str) -> (tokens: Vec<Token>)
    ensures
        lexemes(tokens@) == lex(text@),
{
    let chars = chars_of(text);
    let n: usize = chars.len();
    let mut tokens: Vec<Token> = Vec::new();
    let mut i: usize = 0;
    assert(text@.skip(0) =~= text@);
    assert(lexemes(tokens@) =~= Seq::<Lexeme>::empty());
    while i < n
        invariant
            i <= n,
            n == text@.len(),
            chars@ == text@,
            lex(text@) == lexemes(tokens@) + lex(text@.skip(i as int)),
        decreases n - i,
    {
        let c = chars[i];
        let ghost rest = text@.skip(i as int);
        let ghost done = lexemes(tokens@);
        assert(rest[0] == c);
        if is_space_char(c) {
            i += 1;
            assert(rest.skip(1) =~= text@.skip(i as int));
        } else if is_mark_char(c) {
            let token = if c == '(' {
                Token::Open
            } else if c == ')' {
                Token::Close
            } else if c == ',' {
                Token::Comma
            } else {
                Token::Equals
            };
            tokens.push(token);
            i += 1;
            proof {
                assert(rest.skip(1) =~= text@.skip(i as int));
                assert(lexemes(tokens@) =~= done + seq![mark_of(c)]);
                assert(lex(text@) =~= lexemes(tokens@) + lex(text@.skip(i as int)));
            }
        } else {
            let start: usize = i;
            i += 1;
            assert(rest.skip(1) =~= text@.skip(i as int));
            while i < n && !is_space_char(chars[i]) && !is_mark_char(chars[i])
                invariant
                    start < i <= n,
                    n == text@.len(),
                    chars@ == text@,
                    word_len(text@.skip(start as int)) == (i - start) + word_len(
                        text@.skip(i as int),
                    ),
                decreases n - i,
            {
                assert(text@.skip(i as int).skip(1) =~= text@.skip(i + 1));
                i += 1;
            }
            let word = text.substring_char(start, i).to_owned();
            tokens.push(Token::Word(word));
            proof {
                assert(word_len(text@.skip(i as int)) == 0);
                assert(rest.take(i - start) =~= text@.subrange(start as int, i as int));
                assert(rest.skip(i - start) =~= text@.skip(i as int));
                assert(lexemes(tokens@) =~= done + seq![Lexeme::Word(word@)]);
                assert(lex(text@) =~= lexemes(tokens@) + lex(text@.skip(i as int)));
            }
        }
    }
    assert(text@.skip(n as int) =~= Seq::<char>::empty());
    tokens
}

} // verus!
