//! The reserved words of Lua and the tokens they lex to: each reserved word is the name
//! of its token written in lower case.
use vstd::prelude::*;

use crate::debug_text::token_text;
use crate::lexer::keyword;
use crate::token::TokenStream;

verus! {

/// The character in lower case, for the letters `A` to `Z`; any other character as it is.
pub open spec fn ascii_lower_char(c: char) -> char {
    if 'A' <= c && c <= 'Z' {
        ((c as int) + 32) as char
    } else {
        c
    }
}

/// The text with the letters `A` to `Z` in lower case.
pub open spec fn ascii_lower(s: Seq<char>) -> Seq<char> {
    s.map_values(|c: char| ascii_lower_char(c))
}

/// The tokens that reserved words lex to.
pub open spec fn reserved_token(t: TokenStream) -> bool {
    t is And || t is Break || t is Do || t is Else || t is Elseif || t is End || t is For
        || t is Function || t is Goto || t is If || t is In || t is Local || t is Nil || t is Not
        || t is Or || t is Repeat || t is Return || t is Then || t is True || t is False
        || t is Until || t is While
}

/// A reserved word lexes to the token whose name it is, in lower case: `and` to `And`,
/// `elseif` to `Elseif`, and so on; no other word lexes to a reserved word's token.
pub proof fn law_keyword_spelling(w: Seq<char>)
    ensures
        keyword(w) matches Some(t) ==> reserved_token(t) && ascii_lower(token_text(t)) == w,
{
    if w == "and"@ {
        reveal_strlit("and");
        reveal_strlit("And");
        assert(ascii_lower("And"@) =~= "and"@);
    } else if w == "break"@ {
        reveal_strlit("break");
        reveal_strlit("Break");
        assert(ascii_lower("Break"@) =~= "break"@);
    } else if w == "do"@ {
        reveal_strlit("do");
        reveal_strlit("Do");
        assert(ascii_lower("Do"@) =~= "do"@);
    } else if w == "else"@ {
        reveal_strlit("else");
        reveal_strlit("Else");
        assert(ascii_lower("Else"@) =~= "else"@);
    } else if w == "elseif"@ {
        reveal_strlit("elseif");
        reveal_strlit("Elseif");
        assert(ascii_lower("Elseif"@) =~= "elseif"@);
    } else if w == "end"@ {
        reveal_strlit("end");
        reveal_strlit("End");
        assert(ascii_lower("End"@) =~= "end"@);
    } else if w == "for"@ {
        reveal_strlit("for");
        reveal_strlit("For");
        assert(ascii_lower("For"@) =~= "for"@);
    } else if w == "function"@ {
        reveal_strlit("function");
        reveal_strlit("Function");
        assert(ascii_lower("Function"@) =~= "function"@);
    } else if w == "goto"@ {
        reveal_strlit("goto");
        reveal_strlit("Goto");
        assert(ascii_lower("Goto"@) =~= "goto"@);
    } else if w == "if"@ {
        reveal_strlit("if");
        reveal_strlit("If");
        assert(ascii_lower("If"@) =~= "if"@);
    } else if w == "in"@ {
        reveal_strlit("in");
        reveal_strlit("In");
        assert(ascii_lower("In"@) =~= "in"@);
    } else if w == "local"@ {
        reveal_strlit("local");
        reveal_strlit("Local");
        assert(ascii_lower("Local"@) =~= "local"@);
    } else if w == "nil"@ {
        reveal_strlit("nil");
        reveal_strlit("Nil");
        assert(ascii_lower("Nil"@) =~= "nil"@);
    } else if w == "not"@ {
        reveal_strlit("not");
        reveal_strlit("Not");
        assert(ascii_lower("Not"@) =~= "not"@);
    } else if w == "or"@ {
        reveal_strlit("or");
        reveal_strlit("Or");
        assert(ascii_lower("Or"@) =~= "or"@);
    } else if w == "repeat"@ {
        reveal_strlit("repeat");
        reveal_strlit("Repeat");
        assert(ascii_lower("Repeat"@) =~= "repeat"@);
    } else if w == "return"@ {
        reveal_strlit("return");
        reveal_strlit("Return");
        assert(ascii_lower("Return"@) =~= "return"@);
    } else if w == "then"@ {
        reveal_strlit("then");
        reveal_strlit("Then");
        assert(ascii_lower("Then"@) =~= "then"@);
    } else if w == "true"@ {
        reveal_strlit("true");
        reveal_strlit("True");
        assert(ascii_lower("True"@) =~= "true"@);
    } else if w == "false"@ {
        reveal_strlit("false");
        reveal_strlit("False");
        assert(ascii_lower("False"@) =~= "false"@);
    } else if w == "until"@ {
        reveal_strlit("until");
        reveal_strlit("Until");
        assert(ascii_lower("Until"@) =~= "until"@);
    } else if w == "while"@ {
        reveal_strlit("while");
        reveal_strlit("While");
        assert(ascii_lower("While"@) =~= "while"@);
    }
}

/// The length and the first letters of each reserved word, enough to tell them apart.
proof fn lemma_reserved_words()
    ensures
        "and"@.len() == 3 && "and"@[0] == 'a' && "and"@[1] == 'n' && "and"@[2] == 'd',
        "break"@.len() == 5 && "break"@[0] == 'b' && "break"@[1] == 'r' && "break"@[2] == 'e',
        "do"@.len() == 2 && "do"@[0] == 'd' && "do"@[1] == 'o',
        "else"@.len() == 4 && "else"@[0] == 'e' && "else"@[1] == 'l' && "else"@[2] == 's',
        "elseif"@.len() == 6 && "elseif"@[0] == 'e' && "elseif"@[1] == 'l' && "elseif"@[2] == 's',
        "end"@.len() == 3 && "end"@[0] == 'e' && "end"@[1] == 'n' && "end"@[2] == 'd',
        "for"@.len() == 3 && "for"@[0] == 'f' && "for"@[1] == 'o' && "for"@[2] == 'r',
        "function"@.len() == 8 && "function"@[0] == 'f' && "function"@[1] == 'u' && "function"@[2] == 'n',
        "goto"@.len() == 4 && "goto"@[0] == 'g' && "goto"@[1] == 'o' && "goto"@[2] == 't',
        "if"@.len() == 2 && "if"@[0] == 'i' && "if"@[1] == 'f',
        "in"@.len() == 2 && "in"@[0] == 'i' && "in"@[1] == 'n',
        "local"@.len() == 5 && "local"@[0] == 'l' && "local"@[1] == 'o' && "local"@[2] == 'c',
        "nil"@.len() == 3 && "nil"@[0] == 'n' && "nil"@[1] == 'i' && "nil"@[2] == 'l',
        "not"@.len() == 3 && "not"@[0] == 'n' && "not"@[1] == 'o' && "not"@[2] == 't',
        "or"@.len() == 2 && "or"@[0] == 'o' && "or"@[1] == 'r',
        "repeat"@.len() == 6 && "repeat"@[0] == 'r' && "repeat"@[1] == 'e' && "repeat"@[2] == 'p',
        "return"@.len() == 6 && "return"@[0] == 'r' && "return"@[1] == 'e' && "return"@[2] == 't',
        "then"@.len() == 4 && "then"@[0] == 't' && "then"@[1] == 'h' && "then"@[2] == 'e',
        "true"@.len() == 4 && "true"@[0] == 't' && "true"@[1] == 'r' && "true"@[2] == 'u',
        "false"@.len() == 5 && "false"@[0] == 'f' && "false"@[1] == 'a' && "false"@[2] == 'l',
        "until"@.len() == 5 && "until"@[0] == 'u' && "until"@[1] == 'n' && "until"@[2] == 't',
        "while"@.len() == 5 && "while"@[0] == 'w' && "while"@[1] == 'h' && "while"@[2] == 'i',
{
    reveal_strlit("and");
    reveal_strlit("break");
    reveal_strlit("do");
    reveal_strlit("else");
    reveal_strlit("elseif");
    reveal_strlit("end");
    reveal_strlit("for");
    reveal_strlit("function");
    reveal_strlit("goto");
    reveal_strlit("if");
    reveal_strlit("in");
    reveal_strlit("local");
    reveal_strlit("nil");
    reveal_strlit("not");
    reveal_strlit("or");
    reveal_strlit("repeat");
    reveal_strlit("return");
    reveal_strlit("then");
    reveal_strlit("true");
    reveal_strlit("false");
    reveal_strlit("until");
    reveal_strlit("while");
}

/// Each reserved token is lexed from its name in lower case.
pub proof fn law_keyword_round_trip(t: TokenStream)
    requires
        reserved_token(t),
    ensures
        keyword(ascii_lower(token_text(t))) == Some(t),
{
    lemma_reserved_words();
    match t {
        TokenStream::And => {
            reveal_strlit("And");
            reveal_strlit("and");
            assert(ascii_lower(token_text(t)) =~= "and"@);
            assert(keyword("and"@) == Some(TokenStream::And));
        },
        TokenStream::Break => {
            reveal_strlit("Break");
            reveal_strlit("break");
            assert(ascii_lower(token_text(t)) =~= "break"@);
            assert(keyword("break"@) == Some(TokenStream::Break));
        },
        TokenStream::Do => {
            reveal_strlit("Do");
            reveal_strlit("do");
            assert(ascii_lower(token_text(t)) =~= "do"@);
            assert(keyword("do"@) == Some(TokenStream::Do));
        },
        TokenStream::Else => {
            reveal_strlit("Else");
            reveal_strlit("else");
            assert(ascii_lower(token_text(t)) =~= "else"@);
            assert(keyword("else"@) == Some(TokenStream::Else));
        },
        TokenStream::Elseif => {
            reveal_strlit("Elseif");
            reveal_strlit("elseif");
            assert(ascii_lower(token_text(t)) =~= "elseif"@);
            assert(keyword("elseif"@) == Some(TokenStream::Elseif));
        },
        TokenStream::End => {
            reveal_strlit("End");
            reveal_strlit("end");
            assert(ascii_lower(token_text(t)) =~= "end"@);
            assert(keyword("end"@) == Some(TokenStream::End));
        },
        TokenStream::For => {
            reveal_strlit("For");
            reveal_strlit("for");
            assert(ascii_lower(token_text(t)) =~= "for"@);
            assert(keyword("for"@) == Some(TokenStream::For));
        },
        TokenStream::Function => {
            reveal_strlit("Function");
            reveal_strlit("function");
            assert(ascii_lower(token_text(t)) =~= "function"@);
            assert(keyword("function"@) == Some(TokenStream::Function));
        },
        TokenStream::Goto => {
            reveal_strlit("Goto");
            reveal_strlit("goto");
            assert(ascii_lower(token_text(t)) =~= "goto"@);
            assert(keyword("goto"@) == Some(TokenStream::Goto));
        },
        TokenStream::If => {
            reveal_strlit("If");
            reveal_strlit("if");
            assert(ascii_lower(token_text(t)) =~= "if"@);
            assert(keyword("if"@) == Some(TokenStream::If));
        },
        TokenStream::In => {
            reveal_strlit("In");
            reveal_strlit("in");
            assert(ascii_lower(token_text(t)) =~= "in"@);
            assert(keyword("in"@) == Some(TokenStream::In));
        },
        TokenStream::Local => {
            reveal_strlit("Local");
            reveal_strlit("local");
            assert(ascii_lower(token_text(t)) =~= "local"@);
            assert(keyword("local"@) == Some(TokenStream::Local));
        },
        TokenStream::Nil => {
            reveal_strlit("Nil");
            reveal_strlit("nil");
            assert(ascii_lower(token_text(t)) =~= "nil"@);
            assert(keyword("nil"@) == Some(TokenStream::Nil));
        },
        TokenStream::Not => {
            reveal_strlit("Not");
            reveal_strlit("not");
            assert(ascii_lower(token_text(t)) =~= "not"@);
            assert(keyword("not"@) == Some(TokenStream::Not));
        },
        TokenStream::Or => {
            reveal_strlit("Or");
            reveal_strlit("or");
            assert(ascii_lower(token_text(t)) =~= "or"@);
            assert(keyword("or"@) == Some(TokenStream::Or));
        },
        TokenStream::Repeat => {
            reveal_strlit("Repeat");
            reveal_strlit("repeat");
            assert(ascii_lower(token_text(t)) =~= "repeat"@);
            assert(keyword("repeat"@) == Some(TokenStream::Repeat));
        },
        TokenStream::Return => {
            reveal_strlit("Return");
            reveal_strlit("return");
            assert(ascii_lower(token_text(t)) =~= "return"@);
            assert(keyword("return"@) == Some(TokenStream::Return));
        },
        TokenStream::Then => {
            reveal_strlit("Then");
            reveal_strlit("then");
            assert(ascii_lower(token_text(t)) =~= "then"@);
            assert(keyword("then"@) == Some(TokenStream::Then));
        },
        TokenStream::True => {
            reveal_strlit("True");
            reveal_strlit("true");
            assert(ascii_lower(token_text(t)) =~= "true"@);
            assert(keyword("true"@) == Some(TokenStream::True));
        },
        TokenStream::False => {
            reveal_strlit("False");
            reveal_strlit("false");
            assert(ascii_lower(token_text(t)) =~= "false"@);
            assert(keyword("false"@) == Some(TokenStream::False));
        },
        TokenStream::Until => {
            reveal_strlit("Until");
            reveal_strlit("until");
            assert(ascii_lower(token_text(t)) =~= "until"@);
            assert(keyword("until"@) == Some(TokenStream::Until));
        },
        TokenStream::While => {
            reveal_strlit("While");
            reveal_strlit("while");
            assert(ascii_lower(token_text(t)) =~= "while"@);
            assert(keyword("while"@) == Some(TokenStream::While));
        },
        _ => {},
    }
}

} // verus!
