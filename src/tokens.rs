//! Tokens and the keyword table.
use vstd::prelude::*;
use crate::text::{text, chars_of, same_chars};

verus! {

/// The kind of a token.
#[derive(Debug, Clone, Copy, PartialEq, Eq, Structural, Hash)]
pub enum TokenType {
    OwO,
    Print,
    FunctionDef,
    VarDecl,
    Identifier,
    Number,
    String,
    Bool,
    Operator,
    Parenthesis,
    Brace,
    Comma,
    Equal,
    Return,
    KindOf,
}

/// A token: its kind and the source text it stands for.
#[derive(Debug, Clone, PartialEq, Eq)]
pub struct Token {
    pub token_type: TokenType,
    pub value: String,
}

impl View for Token {
    type V = (TokenType, Seq<char>);

    open spec fn view(&self) -> (TokenType, Seq<char>) {
        (self.token_type, self.value@)
    }
}

pub fn create_token(token_type: TokenType, value: &str) -> (r: Token)
    ensures
        r@ == (token_type, value@),
{
    Token { token_type, value: text(value) }
}

/// The kind a word stands for when it is a keyword.
pub open spec fn keyword_kind(w: Seq<char>) -> Option<TokenType> {
    if w == "owo"@ {
        Some(TokenType::OwO)
    } else if w == "meow"@ {
        Some(TokenType::Print)
    } else if w == "sparkle"@ {
        Some(TokenType::FunctionDef)
    } else if w == "nyan"@ {
        Some(TokenType::VarDecl)
    } else if w == "bringback"@ || w == "bb"@ {
        Some(TokenType::Return)
    } else if w == "kindOf"@ {
        Some(TokenType::KindOf)
    } else if w == "twue"@ || w == "fawse"@ {
        Some(TokenType::Bool)
    } else {
        None
    }
}

/// The keyword table: each spelling with the kind it stands for.
pub fn keywords() -> (r: Vec<(String, TokenType)>)
    ensures
        forall|i: int| 0 <= i < r@.len() ==> keyword_kind(#[trigger] r@[i].0@) == Some(r@[i].1),
        forall|w: Seq<char>| #[trigger] keyword_kind(w) is Some ==> exists|i: int|
            0 <= i < r@.len() && r@[i].0@ == w,
{
    let mut r: Vec<(String, TokenType)> = Vec::new();
    r.push((text("owo"), TokenType::OwO));
    r.push((text("meow"), TokenType::Print));
    r.push((text("sparkle"), TokenType::FunctionDef));
    r.push((text("nyan"), TokenType::VarDecl));
    r.push((text("bringback"), TokenType::Return));
    r.push((text("bb"), TokenType::Return));
    r.push((text("kindOf"), TokenType::KindOf));
    r.push((text("twue"), TokenType::Bool));
    r.push((text("fawse"), TokenType::Bool));
    proof {
        reveal_strlit("owo");
        reveal_strlit("meow");
        reveal_strlit("sparkle");
        reveal_strlit("nyan");
        reveal_strlit("bringback");
        reveal_strlit("bb");
        reveal_strlit("kindOf");
        reveal_strlit("twue");
        reveal_strlit("fawse");
        assert("owo"@.len() == 3 && "owo"@[0] == 'o');
        assert("meow"@.len() == 4 && "meow"@[0] == 'm');
        assert("sparkle"@.len() == 7 && "sparkle"@[0] == 's');
        assert("nyan"@.len() == 4 && "nyan"@[0] == 'n');
        assert("bringback"@.len() == 9 && "bringback"@[0] == 'b');
        assert("bb"@.len() == 2 && "bb"@[0] == 'b');
        assert("kindOf"@.len() == 6 && "kindOf"@[0] == 'k');
        assert("twue"@.len() == 4 && "twue"@[0] == 't');
        assert("fawse"@.len() == 5 && "fawse"@[0] == 'f');
        assert(keyword_kind(r@[0].0@) == Some(r@[0].1));
        assert(keyword_kind(r@[1].0@) == Some(r@[1].1));
        assert(keyword_kind(r@[2].0@) == Some(r@[2].1));
        assert(keyword_kind(r@[3].0@) == Some(r@[3].1));
        assert(keyword_kind(r@[4].0@) == Some(r@[4].1));
        assert(keyword_kind(r@[5].0@) == Some(r@[5].1));
        assert(keyword_kind(r@[6].0@) == Some(r@[6].1));
        assert(keyword_kind(r@[7].0@) == Some(r@[7].1));
        assert(keyword_kind(r@[8].0@) == Some(r@[8].1));
    }
    assert forall|w: Seq<char>| #[trigger] keyword_kind(w) is Some implies exists|i: int|
        0 <= i < r@.len() && r@[i].0@ == w by {
        if w == "owo"@ {
            assert(r@[0].0@ == w);
        } else if w == "meow"@ {
            assert(r@[1].0@ == w);
        } else if w == "sparkle"@ {
            assert(r@[2].0@ == w);
        } else if w == "nyan"@ {
            assert(r@[3].0@ == w);
        } else if w == "bringback"@ {
            assert(r@[4].0@ == w);
        } else if w == "bb"@ {
            assert(r@[5].0@ == w);
        } else if w == "kindOf"@ {
            assert(r@[6].0@ == w);
        } else if w == "twue"@ {
            assert(r@[7].0@ == w);
        } else {
            assert(r@[8].0@ == w);
        }
    }
    r
}

/// The kind of the word `w`: a keyword's own kind, else `Identifier`.
pub fn word_kind(w: &Vec<char>) -> (r: TokenType)
    ensures
        r == (match keyword_kind(w@) {
            Some(k) => k,
            None => TokenType::Identifier,
        }),
{
    if same_chars(w, &chars_of("owo")) {
        TokenType::OwO
    } else if same_chars(w, &chars_of("meow")) {
        TokenType::Print
    } else if same_chars(w, &chars_of("sparkle")) {
        TokenType::FunctionDef
    } else if same_chars(w, &chars_of("nyan")) {
        TokenType::VarDecl
    } else if same_chars(w, &chars_of("bringback")) || same_chars(w, &chars_of("bb")) {
        TokenType::Return
    } else if same_chars(w, &chars_of("kindOf")) {
        TokenType::KindOf
    } else if same_chars(w, &chars_of("twue")) || same_chars(w, &chars_of("fawse")) {
        TokenType::Bool
    } else {
        TokenType::Identifier
    }
}

} // verus!
