//! The tokenizer: source text to a sequence of tokens.
use vstd::prelude::*;
use crate::text::{chars_of, string_from, is_space, is_whitespace};
use crate::tokens::{Token, TokenType, keyword_kind, word_kind};

verus! {

/// Why source text could not be tokenized.
#[derive(Debug, Clone, Copy, PartialEq, Eq, Structural)]
pub enum LexError {
    UnexpectedCharacter(char),
}

pub open spec fn is_digit(c: char) -> bool {
    '0' <= c && c <= '9'
}

pub open spec fn is_alpha(c: char) -> bool {
    ('a' <= c && c <= 'z') || ('A' <= c && c <= 'Z')
}

/// A character that may start a word.
pub open spec fn starts_word(c: char) -> bool {
    is_alpha(c) || c == '_'
}

/// A character that may continue a word.
pub open spec fn in_word(c: char) -> bool {
    is_alpha(c) || is_digit(c) || c == '_'
}

/// A character that may continue a number.
pub open spec fn in_number(c: char) -> bool {
    is_digit(c) || c == '.'
}

/// The kind of a token made of the one character `c`, if it is one.
pub open spec fn single_kind(c: char) -> Option<TokenType> {
    if c == '(' || c == ')' {
        Some(TokenType::Parenthesis)
    } else if c == '{' || c == '}' {
        Some(TokenType::Brace)
    } else if c == ',' {
        Some(TokenType::Comma)
    } else if c == '=' {
        Some(TokenType::Equal)
    } else if c == '+' || c == '-' || c == '*' || c == '/' {
        Some(TokenType::Operator)
    } else {
        None
    }
}

/// The kind of the word `w`.
pub open spec fn word_type(w: Seq<char>) -> TokenType {
    match keyword_kind(w) {
        Some(k) => k,
        None => TokenType::Identifier,
    }
}

/// How many characters from `j` on continue a number.
pub open spec fn number_run(s: Seq<char>, j: int) -> nat
    decreases s.len() - j,
{
    if 0 <= j < s.len() && in_number(s[j]) {
        1 + number_run(s, j + 1)
    } else {
        0
    }
}

/// How many characters from `j` on continue a word.
pub open spec fn word_run(s: Seq<char>, j: int) -> nat
    decreases s.len() - j,
{
    if 0 <= j < s.len() && in_word(s[j]) {
        1 + word_run(s, j + 1)
    } else {
        0
    }
}

/// How many characters from `j` on precede the next double quote (or the end).
pub open spec fn string_run(s: Seq<char>, j: int) -> nat
    decreases s.len() - j,
{
    if 0 <= j < s.len() && s[j] != '"' {
        1 + string_run(s, j + 1)
    } else {
        0
    }
}

pub open spec fn prepend<T, E>(t: T, r: Result<Seq<T>, E>) -> Result<Seq<T>, E> {
    match r {
        Ok(ts) => Ok(seq![t] + ts),
        Err(e) => Err(e),
    }
}

/// The tokens of `s` from index `i` on, each as its kind and its text.
pub open spec fn lex(s: Seq<char>, i: int) -> Result<Seq<(TokenType, Seq<char>)>, LexError>
    decreases if i <= s.len() { s.len() - i } else { 0 },
{
    if i < 0 || i >= s.len() {
        Ok(Seq::empty())
    } else {
        let c = s[i];
        if is_space(c) {
            lex(s, i + 1)
        } else if c == '"' {
            let j = i + 1 + string_run(s, i + 1);
            prepend((TokenType::String, s.subrange(i + 1, j)), lex(s, j + 1))
        } else if single_kind(c) is Some {
            prepend((single_kind(c)->0, seq![c]), lex(s, i + 1))
        } else if is_digit(c) {
            let j = i + 1 + number_run(s, i + 1);
            prepend((TokenType::Number, s.subrange(i, j)), lex(s, j))
        } else if starts_word(c) {
            let j = i + 1 + word_run(s, i + 1);
            prepend((word_type(s.subrange(i, j)), s.subrange(i, j)), lex(s, j))
        } else {
            Err(LexError::UnexpectedCharacter(c))
        }
    }
}

pub open spec fn token_views(v: Seq<Token>) -> Seq<(TokenType, Seq<char>)> {
    v.map_values(|t: Token| t@)
}

proof fn lemma_prepend_push(
    p: Seq<(TokenType, Seq<char>)>,
    t: (TokenType, Seq<char>),
    r: Result<Seq<(TokenType, Seq<char>)>, LexError>,
)
    ensures
        prepend_all(p, prepend(t, r)) == prepend_all(p.push(t), r),
{
    if let Ok(ts) = r {
        assert(p + (seq![t] + ts) =~= p.push(t) + ts);
    }
}

pub open spec fn prepend_all<T, E>(p: Seq<T>, r: Result<Seq<T>, E>) -> Result<Seq<T>, E> {
    match r {
        Ok(ts) => Ok(p + ts),
        Err(e) => Err(e),
    }
}

fn push_token(tokens: &mut Vec<Token>, kind: TokenType, text: &Vec<char>)
    ensures
        token_views(final(tokens)@) == token_views(old(tokens)@).push((kind, text@)),
{
    let t = Token { token_type: kind, value: string_from(text) };
    tokens.push(t);
    assert(token_views(final(tokens)@) =~= token_views(old(tokens)@).push((kind, text@)));
}

fn single_kind_of(c: char) -> (r: Option<TokenType>)
    ensures
        r == single_kind(c),
{
    if c == '(' || c == ')' {
        Some(TokenType::Parenthesis)
    } else if c == '{' || c == '}' {
        Some(TokenType::Brace)
    } else if c == ',' {
        Some(TokenType::Comma)
    } else if c == '=' {
        Some(TokenType::Equal)
    } else if c == '+' || c == '-' || c == '*' || c == '/' {
        Some(TokenType::Operator)
    } else {
        None
    }
}

/// Splits `input` into tokens: whitespace is skipped, a double quote starts a
/// string that runs to the next double quote (or to the end of the input), and
/// any character that starts no token is an error.
pub fn tokenize(input: &str) -> (r: Result<Vec<Token>, LexError>)
    ensures
        r matches Ok(ts) ==> lex(input@, 0) == Ok::<_, LexError>(token_views(ts@)),
        r matches Err(e) ==> lex(input@, 0) == Err::<Seq<(TokenType, Seq<char>)>, _>(e),
{
    let chars = chars_of(input);
    let ghost s = input@;
    let mut tokens: Vec<Token> = Vec::new();
    let mut current: usize = 0;
    proof {
        assert(token_views(tokens@) =~= Seq::empty());
        assert(prepend_all(token_views(tokens@), lex(s, 0)) == lex(s, 0)) by {
            if let Ok(ts) = lex(s, 0) {
                assert(token_views(tokens@) + ts =~= ts);
            }
        }
    }
    while current < chars.len()
        invariant
            s == input@,
            chars@ == s,
            current <= s.len(),
            lex(s, 0) == prepend_all(token_views(tokens@), lex(s, current as int)),
        decreases s.len() - current,
    {
        let ch = chars[current];
        if is_whitespace(ch) {
            current = current + 1;
        } else if ch == '"' {
            let start = current + 1;
            current = start;
            let mut value: Vec<char> = Vec::new();
            while current < chars.len() && chars[current] != '"'
                invariant
                    chars@ == s,
                    start <= current <= s.len(),
                    start + string_run(s, start as int) == current + string_run(s, current as int),
                    value@ == s.subrange(start as int, current as int),
                decreases s.len() - current,
            {
                value.push(chars[current]);
                current = current + 1;
                assert(value@ =~= s.subrange(start as int, current as int));
            }
            proof {
                lemma_prepend_push(token_views(tokens@), (TokenType::String, value@), lex(s, current + 1));
            }
            push_token(&mut tokens, TokenType::String, &value);
            if current < chars.len() {
                current = current + 1;
            } else {
                assert(lex(s, current + 1) == lex(s, current as int));
            }
        } else if let Some(kind) = single_kind_of(ch) {
            let mut one: Vec<char> = Vec::new();
            one.push(ch);
            proof {
                assert(one@ =~= seq![ch]);
                lemma_prepend_push(token_views(tokens@), (kind, one@), lex(s, current + 1));
            }
            push_token(&mut tokens, kind, &one);
            current = current + 1;
        } else if '0' <= ch && ch <= '9' {
            let start = current;
            let mut value: Vec<char> = Vec::new();
            value.push(ch);
            current = current + 1;
            assert(value@ =~= s.subrange(start as int, current as int));
            while current < chars.len() && (('0' <= chars[current] && chars[current] <= '9')
                || chars[current] == '.')
                invariant
                    chars@ == s,
                    start < current <= s.len(),
                    start + 1 + number_run(s, start + 1) == current + number_run(s, current as int),
                    value@ == s.subrange(start as int, current as int),
                decreases s.len() - current,
            {
                value.push(chars[current]);
                current = current + 1;
                assert(value@ =~= s.subrange(start as int, current as int));
            }
            proof {
                lemma_prepend_push(token_views(tokens@), (TokenType::Number, value@), lex(s, current as int));
            }
            push_token(&mut tokens, TokenType::Number, &value);
        } else if ('a' <= ch && ch <= 'z') || ('A' <= ch && ch <= 'Z') || ch == '_' {
            let start = current;
            let mut value: Vec<char> = Vec::new();
            value.push(ch);
            current = current + 1;
            assert(value@ =~= s.subrange(start as int, current as int));
            while current < chars.len() && (('a' <= chars[current] && chars[current] <= 'z') || (
            'A' <= chars[current] && chars[current] <= 'Z') || ('0' <= chars[current]
                && chars[current] <= '9') || chars[current] == '_')
                invariant
                    chars@ == s,
                    start < current <= s.len(),
                    start + 1 + word_run(s, start + 1) == current + word_run(s, current as int),
                    value@ == s.subrange(start as int, current as int),
                decreases s.len() - current,
            {
                value.push(chars[current]);
                current = current + 1;
                assert(value@ =~= s.subrange(start as int, current as int));
            }
            let kind = word_kind(&value);
            proof {
                lemma_prepend_push(token_views(tokens@), (kind, value@), lex(s, current as int));
            }
            push_token(&mut tokens, kind, &value);
        } else {
            assert(lex(s, current as int) == Err::<Seq<(TokenType, Seq<char>)>, _>(
                LexError::UnexpectedCharacter(ch),
            ));
            return Err(LexError::UnexpectedCharacter(ch));
        }
    }
    proof {
        assert(token_views(tokens@) + Seq::empty() =~= token_views(tokens@));
    }
    Ok(tokens)
}

/// The characters of `s` from `i` on that are not whitespace.
pub open spec fn non_space_from(s: Seq<char>, i: int) -> Seq<char>
    decreases if i <= s.len() { s.len() - i } else { 0 },
{
    if i < 0 || i >= s.len() {
        Seq::empty()
    } else if is_space(s[i]) {
        non_space_from(s, i + 1)
    } else {
        seq![s[i]] + non_space_from(s, i + 1)
    }
}

/// The texts of the tokens, one after another.
pub open spec fn joined_texts(ts: Seq<(TokenType, Seq<char>)>) -> Seq<char>
    decreases ts.len(),
{
    if ts.len() == 0 {
        Seq::empty()
    } else {
        ts[0].1 + joined_texts(ts.drop_first())
    }
}

proof fn lemma_joined_prepend(t: (TokenType, Seq<char>), ts: Seq<(TokenType, Seq<char>)>)
    ensures
        joined_texts(seq![t] + ts) == t.1 + joined_texts(ts),
{
    assert((seq![t] + ts).drop_first() =~= ts);
}

proof fn lemma_run_non_space(s: Seq<char>, i: int, j: int)
    requires
        0 <= i <= j <= s.len(),
        forall|k: int| i <= k < j ==> !is_space(#[trigger] s[k]),
    ensures
        non_space_from(s, i) == s.subrange(i, j) + non_space_from(s, j),
    decreases j - i,
{
    if i < j {
        lemma_run_non_space(s, i + 1, j);
        assert(s.subrange(i, j) =~= seq![s[i]] + s.subrange(i + 1, j));
    } else {
        assert(s.subrange(i, j) =~= Seq::<char>::empty());
    }
}

proof fn lemma_number_run(s: Seq<char>, j: int)
    requires
        0 <= j <= s.len(),
    ensures
        j + number_run(s, j) <= s.len(),
        forall|k: int| j <= k < j + number_run(s, j) ==> in_number(#[trigger] s[k]),
    decreases s.len() - j,
{
    if j < s.len() && in_number(s[j]) {
        lemma_number_run(s, j + 1);
    }
}

proof fn lemma_word_run(s: Seq<char>, j: int)
    requires
        0 <= j <= s.len(),
    ensures
        j + word_run(s, j) <= s.len(),
        forall|k: int| j <= k < j + word_run(s, j) ==> in_word(#[trigger] s[k]),
    decreases s.len() - j,
{
    if j < s.len() && in_word(s[j]) {
        lemma_word_run(s, j + 1);
    }
}

/// Source text without double quotes is rebuilt by writing the texts of its
/// tokens one after another: each character that is not whitespace comes back
/// exactly once, in its place.
pub proof fn lemma_tokens_rejoin(s: Seq<char>, i: int)
    requires
        0 <= i <= s.len(),
        forall|k: int| 0 <= k < s.len() ==> s[k] != '"',
        lex(s, i) is Ok,
    ensures
        joined_texts(lex(s, i)->Ok_0) == non_space_from(s, i),
    decreases s.len() - i,
{
    if i < s.len() {
        let c = s[i];
        if is_space(c) {
            lemma_tokens_rejoin(s, i + 1);
        } else if single_kind(c) is Some {
            lemma_tokens_rejoin(s, i + 1);
            lemma_joined_prepend((single_kind(c)->0, seq![c]), lex(s, i + 1)->Ok_0);
        } else if is_digit(c) {
            lemma_number_run(s, i + 1);
            let j = i + 1 + number_run(s, i + 1);
            lemma_tokens_rejoin(s, j);
            lemma_joined_prepend((TokenType::Number, s.subrange(i, j)), lex(s, j)->Ok_0);
            lemma_run_non_space(s, i, j);
        } else {
            lemma_word_run(s, i + 1);
            let j = i + 1 + word_run(s, i + 1);
            lemma_tokens_rejoin(s, j);
            lemma_joined_prepend((word_type(s.subrange(i, j)), s.subrange(i, j)), lex(s, j)->Ok_0);
            lemma_run_non_space(s, i, j);
        }
    } else {
        assert(lex(s, i) == Ok::<_, LexError>(Seq::<(TokenType, Seq<char>)>::empty()));
    }
}

} // verus!
