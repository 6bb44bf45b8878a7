//! The lexer: turns source text into tokens, one call of `next_token` at a time.
use vstd::prelude::*;

use crate::text::{
    char_is_alphabetic, char_is_numeric, char_is_whitespace, string_from_chars,
    alphabetic, alphanumeric, numeric, unicode_white_space,
};
use crate::token::{Lexeme, TokenStream};
use vstd::std_specs::iter::IteratorSpec;

verus! {

/// Why the lexer could not produce a token.
#[derive(Clone, Copy, Debug, PartialEq, Eq)]
pub enum LexerError {
    /// A numeral that is not in the decimal syntax that `f64::from_str` accepts.
    ParseIntError,
    FirstCharIdentNotAccept,
    InvalidChar(char),
}

// ---------------------------------------------------------------------------
// The lexical grammar, as spec functions over the input characters.
// ---------------------------------------------------------------------------

/// A character that may begin a name.
pub open spec fn name_start(c: char) -> bool {
    alphabetic(c) || c == '_'
}

/// A character that may continue a name.
pub open spec fn name_char(c: char) -> bool {
    alphanumeric(c) || c == '_'
}

pub open spec fn ascii_digit(c: char) -> bool {
    '0' <= c && c <= '9'
}

/// The first position at or after `p` that is not white space.
pub open spec fn skip_space(cs: Seq<char>, p: int) -> int
    decreases cs.len() - p,
{
    if 0 <= p < cs.len() && unicode_white_space(cs[p]) {
        skip_space(cs, p + 1)
    } else {
        p
    }
}

/// The end of the name whose remaining characters start at `p`.
pub open spec fn name_end(cs: Seq<char>, p: int) -> int
    decreases cs.len() - p,
{
    if 0 <= p < cs.len() && name_char(cs[p]) {
        name_end(cs, p + 1)
    } else {
        p
    }
}

/// The end of the numeral that starts at `p`: numeric characters and dots, where a dot
/// that another dot follows ends the numeral.
pub open spec fn numeral_end(cs: Seq<char>, p: int) -> int
    decreases cs.len() - p,
{
    if 0 <= p < cs.len() && (numeric(cs[p]) || (cs[p] == '.' && !(p + 1 < cs.len()
        && cs[p + 1] == '.'))) {
        numeral_end(cs, p + 1)
    } else {
        p
    }
}

/// The position of the first `"` at or after `p`, or the end of the input.
pub open spec fn quote_at(cs: Seq<char>, p: int) -> int
    decreases cs.len() - p,
{
    if 0 <= p < cs.len() && cs[p] != '"' {
        quote_at(cs, p + 1)
    } else {
        p
    }
}

/// The position after the first line break at or after `p`, or the end of the input.
pub open spec fn line_end(cs: Seq<char>, p: int) -> int
    decreases cs.len() - p,
{
    if 0 <= p < cs.len() {
        if cs[p] == '\n' {
            p + 1
        } else {
            line_end(cs, p + 1)
        }
    } else {
        p
    }
}

/// The position after the first `]]` at or after `p`, or the end of the input.
pub open spec fn block_end(cs: Seq<char>, p: int) -> int
    decreases cs.len() - p,
{
    if 0 <= p < cs.len() {
        if cs[p] == ']' && p + 1 < cs.len() && cs[p + 1] == ']' {
            p + 2
        } else {
            block_end(cs, p + 1)
        }
    } else {
        p
    }
}

/// The decimal syntax that `f64::from_str` accepts, for text made of digits and dots:
/// ASCII digits with at most one dot, and at least one digit.
pub open spec fn decimal_float_syntax(s: Seq<char>) -> bool {
    &&& forall|i: int| 0 <= i < s.len() ==> ascii_digit(#[trigger] s[i]) || s[i] == '.'
    &&& forall|i: int, j: int| #![trigger s[i], s[j]] 0 <= i < j < s.len() && s[i] == '.' ==> s[j] != '.'
    &&& exists|i: int| 0 <= i < s.len() && ascii_digit(#[trigger] s[i])
}

/// The reserved word that `w` spells, if any.
pub open spec fn keyword(w: Seq<char>) -> Option<TokenStream> {
    if w == "and"@ {
        Some(TokenStream::And)
    } else if w == "break"@ {
        Some(TokenStream::Break)
    } else if w == "do"@ {
        Some(TokenStream::Do)
    } else if w == "else"@ {
        Some(TokenStream::Else)
    } else if w == "elseif"@ {
        Some(TokenStream::Elseif)
    } else if w == "end"@ {
        Some(TokenStream::End)
    } else if w == "for"@ {
        Some(TokenStream::For)
    } else if w == "function"@ {
        Some(TokenStream::Function)
    } else if w == "goto"@ {
        Some(TokenStream::Goto)
    } else if w == "if"@ {
        Some(TokenStream::If)
    } else if w == "in"@ {
        Some(TokenStream::In)
    } else if w == "local"@ {
        Some(TokenStream::Local)
    } else if w == "nil"@ {
        Some(TokenStream::Nil)
    } else if w == "not"@ {
        Some(TokenStream::Not)
    } else if w == "or"@ {
        Some(TokenStream::Or)
    } else if w == "repeat"@ {
        Some(TokenStream::Repeat)
    } else if w == "return"@ {
        Some(TokenStream::Return)
    } else if w == "then"@ {
        Some(TokenStream::Then)
    } else if w == "true"@ {
        Some(TokenStream::True)
    } else if w == "false"@ {
        Some(TokenStream::False)
    } else if w == "until"@ {
        Some(TokenStream::Until)
    } else if w == "while"@ {
        Some(TokenStream::While)
    } else {
        None
    }
}

/// The token that a name spells: a reserved word, or an identifier.
pub open spec fn word_lexeme(w: Seq<char>) -> Lexeme {
    match keyword(w) {
        Some(t) => Lexeme::Fixed(t),
        None => Lexeme::Name(w),
    }
}

/// A one-character token.
pub open spec fn single(t: TokenStream, q: int) -> (Result<Lexeme, LexerError>, int) {
    (Ok(Lexeme::Fixed(t)), q + 1)
}

/// The operator or punctuation token at `q`, which is not a name, numeral, string or comment.
pub open spec fn symbol_at(cs: Seq<char>, q: int) -> (Result<Lexeme, LexerError>, int) {
    let c = cs[q];
    let next_is = |d: char| q + 1 < cs.len() && cs[q + 1] == d;
    if c == '(' {
        single(TokenStream::LParen, q)
    } else if c == ')' {
        single(TokenStream::RParen, q)
    } else if c == '{' {
        single(TokenStream::LBrace, q)
    } else if c == '}' {
        single(TokenStream::RBrace, q)
    } else if c == '[' {
        single(TokenStream::LBracket, q)
    } else if c == ']' {
        single(TokenStream::RBracket, q)
    } else if c == ':' {
        single(TokenStream::Colon, q)
    } else if c == ',' {
        single(TokenStream::Comma, q)
    } else if c == ';' {
        single(TokenStream::Semicolon, q)
    } else if c == '*' {
        single(TokenStream::Asterisk, q)
    } else if c == '+' {
        single(TokenStream::Plus, q)
    } else if c == '-' {
        single(TokenStream::Minus, q)
    } else if c == '/' {
        single(TokenStream::Slash, q)
    } else if c == '%' {
        single(TokenStream::Percent, q)
    } else if c == '^' {
        single(TokenStream::Caret, q)
    } else if c == '#' {
        single(TokenStream::Hash, q)
    } else if c == '=' {
        if next_is('=') {
            (Ok(Lexeme::Fixed(TokenStream::EqualEqual)), q + 2)
        } else {
            single(TokenStream::Equal, q)
        }
    } else if c == '~' {
        if next_is('=') {
            (Ok(Lexeme::Fixed(TokenStream::NotEqual)), q + 2)
        } else {
            (Err(LexerError::InvalidChar(c)), q + 1)
        }
    } else if c == '<' {
        if next_is('=') {
            (Ok(Lexeme::Fixed(TokenStream::LessEqual)), q + 2)
        } else {
            single(TokenStream::Less, q)
        }
    } else if c == '>' {
        if next_is('=') {
            (Ok(Lexeme::Fixed(TokenStream::GreaterEqual)), q + 2)
        } else {
            single(TokenStream::Greater, q)
        }
    } else if c == '.' {
        if next_is('.') {
            if q + 2 < cs.len() && cs[q + 2] == '.' {
                (Ok(Lexeme::Fixed(TokenStream::DotDotDot)), q + 3)
            } else {
                (Ok(Lexeme::Fixed(TokenStream::DotDot)), q + 2)
            }
        } else {
            single(TokenStream::Dot, q)
        }
    } else {
        (Err(LexerError::InvalidChar(c)), q)
    }
}

/// The position at which lexing resumes after the comment whose `--` starts at `q`.
pub open spec fn comment_end(cs: Seq<char>, q: int) -> int {
    let r = q + 2;
    if r < cs.len() && cs[r] == '[' && r + 1 < cs.len() && cs[r + 1] == '[' {
        block_end(cs, r + 2)
    } else {
        line_end(cs, r)
    }
}

/// Whether a comment starts at `q`.
pub open spec fn comment_at(cs: Seq<char>, q: int) -> bool {
    0 <= q && q + 1 < cs.len() && cs[q] == '-' && cs[q + 1] == '-'
}

/// The token that lexing from position `p` gives, and the position where it stops.
pub open spec fn scan(cs: Seq<char>, p: int) -> (Result<Lexeme, LexerError>, int)
    decreases cs.len() - p,
{
    let q = skip_space(cs, p);
    if !(0 <= q < cs.len()) {
        (Ok(Lexeme::Fixed(TokenStream::EOF)), q)
    } else {
        let c = cs[q];
        if name_start(c) {
            let e = name_end(cs, q + 1);
            (Ok(word_lexeme(cs.subrange(q, e))), e)
        } else if numeric(c) {
            let e = numeral_end(cs, q);
            let w = cs.subrange(q, e);
            if decimal_float_syntax(w) {
                (Ok(Lexeme::Numeral(w)), e)
            } else {
                (Err(LexerError::ParseIntError), e)
            }
        } else if c == '"' {
            let e = quote_at(cs, q + 1);
            (Ok(Lexeme::Text(cs.subrange(q + 1, e))), if e < cs.len() { e + 1 } else { e })
        } else if comment_at(cs, q) {
            proof {
                if 0 <= p <= cs.len() {
                    lemma_positions(cs, p);
                }
                lemma_positions(cs, q + 2);
                if q + 4 <= cs.len() {
                    lemma_positions(cs, q + 4);
                }
            }
            scan(cs, comment_end(cs, q))
        } else {
            symbol_at(cs, q)
        }
    }
}

/// The scanning functions move forward and stay within the input.
pub proof fn lemma_positions(cs: Seq<char>, p: int)
    requires
        0 <= p <= cs.len(),
    ensures
        p <= skip_space(cs, p) <= cs.len(),
        p <= name_end(cs, p) <= cs.len(),
        p <= numeral_end(cs, p) <= cs.len(),
        p <= quote_at(cs, p) <= cs.len(),
        p <= line_end(cs, p) <= cs.len(),
        p <= block_end(cs, p) <= cs.len(),
    decreases cs.len() - p,
{
    if p < cs.len() {
        lemma_positions(cs, p + 1);
    }
}


/// Lexing from `p` stays within the input, and a token other than the end of input
/// consumes at least one character.
pub proof fn lemma_scan_progress(cs: Seq<char>, p: int)
    requires
        0 <= p <= cs.len(),
    ensures
        p <= scan(cs, p).1 <= cs.len(),
        scan(cs, p).0 is Ok && scan(cs, p).0 != Ok::<Lexeme, LexerError>(
            Lexeme::Fixed(TokenStream::EOF),
        ) ==> scan(cs, p).1 > p,
    decreases cs.len() - p,
{
    lemma_positions(cs, p);
    let q = skip_space(cs, p);
    if 0 <= q < cs.len() {
        lemma_positions(cs, q + 1);
        let c = cs[q];
        if name_start(c) {
        } else if numeric(c) {
        } else if c == '"' {
        } else if comment_at(cs, q) {
            lemma_positions(cs, q + 2);
            if q + 4 <= cs.len() {
                lemma_positions(cs, q + 4);
            }
            lemma_scan_progress(cs, comment_end(cs, q));
        }
    }
}

/// The tokens that lexing the whole input from `p` gives, ending with the end-of-input
/// token, or cut short by the error that stopped it.
pub open spec fn lex_from(cs: Seq<char>, p: int) -> (Seq<Lexeme>, Option<LexerError>)
    decreases cs.len() - p,
{
    if !(0 <= p <= cs.len()) {
        (Seq::empty(), None)
    } else {
        let (r, e) = scan(cs, p);
        match r {
            Err(err) => (Seq::empty(), Some(err)),
            Ok(l) => if l == Lexeme::Fixed(TokenStream::EOF) {
                (seq![l], None)
            } else {
                proof {
                    lemma_scan_progress(cs, p);
                }
                let (rest, err) = lex_from(cs, e);
                (seq![l] + rest, err)
            },
        }
    }
}

/// Lexing that meets no error ends with the end-of-input token, and only there.
pub proof fn law_lex_ends_with_eof(cs: Seq<char>, p: int)
    requires
        0 <= p <= cs.len(),
        lex_from(cs, p).1 is None,
    ensures
        lex_from(cs, p).0.len() > 0,
        lex_from(cs, p).0.last() == Lexeme::Fixed(TokenStream::EOF),
        forall|i: int|
            0 <= i < lex_from(cs, p).0.len() - 1 ==> #[trigger] lex_from(cs, p).0[i]
                != Lexeme::Fixed(TokenStream::EOF),
    decreases cs.len() - p,
{
    let (r, e) = scan(cs, p);
    if let Ok(l) = r {
        if l != Lexeme::Fixed(TokenStream::EOF) {
            lemma_scan_progress(cs, p);
            law_lex_ends_with_eof(cs, e);
            let rest = lex_from(cs, e).0;
            assert(lex_from(cs, p).0 == seq![l] + rest);
            assert forall|i: int| 0 <= i < (seq![l] + rest).len() - 1 implies #[trigger] (seq![l]
                + rest)[i] != Lexeme::Fixed(TokenStream::EOF) by {
                if i > 0 {
                    assert((seq![l] + rest)[i] == rest[i - 1]);
                }
            }
        }
    }
}

/// Lexing that meets an error gives no end-of-input token.
pub proof fn law_lex_error_has_no_eof(cs: Seq<char>, p: int)
    requires
        0 <= p <= cs.len(),
        lex_from(cs, p).1 is Some,
    ensures
        forall|i: int|
            0 <= i < lex_from(cs, p).0.len() ==> #[trigger] lex_from(cs, p).0[i] != Lexeme::Fixed(
                TokenStream::EOF,
            ),
    decreases cs.len() - p,
{
    let (r, e) = scan(cs, p);
    if let Ok(l) = r {
        if l != Lexeme::Fixed(TokenStream::EOF) {
            lemma_scan_progress(cs, p);
            law_lex_error_has_no_eof(cs, e);
            let rest = lex_from(cs, e).0;
            assert(lex_from(cs, p).0 == seq![l] + rest);
            assert forall|i: int| 0 <= i < (seq![l] + rest).len() implies #[trigger] (seq![l]
                + rest)[i] != Lexeme::Fixed(TokenStream::EOF) by {
                if i > 0 {
                    assert((seq![l] + rest)[i] == rest[i - 1]);
                }
            }
        }
    }
}

/// At the end of the input, lexing gives the end-of-input token and stays there.
pub proof fn law_scan_at_end(cs: Seq<char>)
    ensures
        scan(cs, cs.len() as int) == (
            Ok::<Lexeme, LexerError>(Lexeme::Fixed(TokenStream::EOF)),
            cs.len() as int,
        ),
{
    lemma_positions(cs, cs.len() as int);
}

/// Where only white space is left, lexing gives the end-of-input token and stops at the
/// end of the input, and lexing from there gives it again.
pub proof fn law_scan_only_space(cs: Seq<char>, p: int)
    requires
        0 <= p <= cs.len(),
        forall|i: int| p <= i < cs.len() ==> unicode_white_space(#[trigger] cs[i]),
    ensures
        scan(cs, p) == (Ok::<Lexeme, LexerError>(Lexeme::Fixed(TokenStream::EOF)), cs.len() as int),
        scan(cs, cs.len() as int) == scan(cs, p),
    decreases cs.len() - p,
{
    if p < cs.len() {
        law_scan_only_space(cs, p + 1);
    }
    law_scan_at_end(cs);
}

/// A character that starts no token is an error, and lexing stops before it; a `~`
/// without `=` after it is an error, and lexing stops after it.
pub proof fn law_scan_invalid_char(cs: Seq<char>, p: int)
    requires
        0 <= p <= cs.len(),
        skip_space(cs, p) < cs.len(),
    ensures
        ({
            let q = skip_space(cs, p);
            let c = cs[q];
            &&& (!name_start(c) && !numeric(c) && c != '"' && c != '(' && c != ')'
                && c != '{' && c != '}' && c != '[' && c != ']' && c != ':' && c != ',' && c
                != ';' && c != '*' && c != '+' && c != '-' && c != '/' && c != '%' && c != '^'
                && c != '#' && c != '=' && c != '~' && c != '<' && c != '>' && c != '.') ==> scan(
                cs,
                p,
            ) == (Err::<Lexeme, LexerError>(LexerError::InvalidChar(c)), q)
            &&& (c == '~' && !(q + 1 < cs.len() && cs[q + 1] == '=')) ==> scan(cs, p) == (
                Err::<Lexeme, LexerError>(LexerError::InvalidChar('~')),
                q + 1,
            )
        }),
{
    lemma_positions(cs, p);
}

/// The token list with string payloads read as their characters.
pub open spec fn lexemes(ts: Seq<TokenStream>) -> Seq<Lexeme> {
    ts.map_values(|t: TokenStream| t.lexeme())
}

/// What a call of `next_token` gives, with string payloads read as their characters.
pub open spec fn lexed(r: Result<TokenStream, LexerError>) -> Result<Lexeme, LexerError> {
    match r {
        Ok(t) => Ok(t.lexeme()),
        Err(e) => Err(e),
    }
}

// ---------------------------------------------------------------------------
// The lexer.
// ---------------------------------------------------------------------------

/// A lexer over the characters of a source text, at a position in it.
#[derive(Debug)]
pub struct Lexer {
    chars: Vec<char>,
    position: usize,
}

impl Lexer {
    /// A lexer's position lies within its input, or just past its end; a caller learns it
    /// of a lexer `lex` with `use_type_invariant(&lex)`.
    #[verifier::type_invariant]
    pub open spec fn within(self) -> bool {
        0 <= self.pos() <= self.input().len()
    }

    /// The characters of the source text.
    pub closed spec fn input(self) -> Seq<char> {
        self.chars@
    }

    /// The position of the next character to read.
    pub closed spec fn pos(self) -> int {
        self.position as int
    }

    /// A lexer at the start of `input`.
    pub fn new(input: &str) -> (lex: Self)
        ensures
            lex.input() == input@,
            lex.pos() == 0,
    {
        broadcast use vstd::string::group_string_axioms;

        let mut chars: Vec<char> = Vec::new();
        let mut it = input.chars();
        let ghost all = input@;
        loop
            invariant
                it.remaining() == all.skip(chars.len() as int),
                chars@ == all.take(chars.len() as int),
                chars.len() <= all.len(),
            ensures
                chars@ == all,
            decreases all.len() - chars.len(),
        {
            let ghost before = it.remaining();
            match it.next() {
                Some(c) => {
                    assert(before.len() > 0);
                    chars.push(c);
                    assert(all.take(chars.len() as int) =~= all.take(chars.len() - 1).push(c));
                    assert(all.skip(chars.len() as int) =~= before.drop_first());
                },
                None => {
                    assert(all.take(chars.len() as int) =~= all);
                    break ;
                },
            }
        }
        Lexer { chars, position: 0 }
    }
}


/// Whether the characters of `w` spell `k`.
fn word_is(w: &Vec<char>, k: &str) -> (r: bool)
    ensures
        r == (w@ == k@),
{
    let n = k.unicode_len();
    if n != w.len() {
        return false;
    }
    let mut i: usize = 0;
    while i < n
        invariant
            n == w.len(),
            n == k@.len(),
            i <= n,
            forall|j: int| 0 <= j < i ==> w@[j] == k@[j],
        decreases n - i,
    {
        if w[i] != k.get_char(i) {
            return false;
        }
        i = i + 1;
    }
    assert(w@ =~= k@);
    true
}

/// The reserved word that `w` spells, if any.
fn keyword_of(w: &Vec<char>) -> (r: Option<TokenStream>)
    ensures
        r == keyword(w@),
{
    if word_is(w, "and") {
        return Some(TokenStream::And);
    }
    if word_is(w, "break") {
        return Some(TokenStream::Break);
    }
    if word_is(w, "do") {
        return Some(TokenStream::Do);
    }
    if word_is(w, "else") {
        return Some(TokenStream::Else);
    }
    if word_is(w, "elseif") {
        return Some(TokenStream::Elseif);
    }
    if word_is(w, "end") {
        return Some(TokenStream::End);
    }
    if word_is(w, "for") {
        return Some(TokenStream::For);
    }
    if word_is(w, "function") {
        return Some(TokenStream::Function);
    }
    if word_is(w, "goto") {
        return Some(TokenStream::Goto);
    }
    if word_is(w, "if") {
        return Some(TokenStream::If);
    }
    if word_is(w, "in") {
        return Some(TokenStream::In);
    }
    if word_is(w, "local") {
        return Some(TokenStream::Local);
    }
    if word_is(w, "nil") {
        return Some(TokenStream::Nil);
    }
    if word_is(w, "not") {
        return Some(TokenStream::Not);
    }
    if word_is(w, "or") {
        return Some(TokenStream::Or);
    }
    if word_is(w, "repeat") {
        return Some(TokenStream::Repeat);
    }
    if word_is(w, "return") {
        return Some(TokenStream::Return);
    }
    if word_is(w, "then") {
        return Some(TokenStream::Then);
    }
    if word_is(w, "true") {
        return Some(TokenStream::True);
    }
    if word_is(w, "false") {
        return Some(TokenStream::False);
    }
    if word_is(w, "until") {
        return Some(TokenStream::Until);
    }
    if word_is(w, "while") {
        return Some(TokenStream::While);
    }
    None
}

/// Whether `v` is in the decimal syntax that `f64::from_str` accepts.
fn decimal_float_ok(v: &Vec<char>) -> (b: bool)
    ensures
        b == decimal_float_syntax(v@),
{
    let mut seen_dot = false;
    let mut seen_digit = false;
    let mut i: usize = 0;
    while i < v.len()
        invariant
            i <= v.len(),
            forall|j: int| 0 <= j < i ==> ascii_digit(#[trigger] v@[j]) || v@[j] == '.',
            forall|j: int, k: int| #![trigger v@[j], v@[k]] 0 <= j < k < i && v@[j] == '.' ==> v@[k] != '.',
            seen_dot == (exists|j: int| 0 <= j < i && #[trigger] v@[j] == '.'),
            seen_digit == (exists|j: int| 0 <= j < i && ascii_digit(#[trigger] v@[j])),
        decreases v.len() - i,
    {
        let c = v[i];
        if '0' <= c && c <= '9' {
            seen_digit = true;
        } else if c == '.' {
            if seen_dot {
                let ghost j = choose|j: int| 0 <= j < i && #[trigger] v@[j] == '.';
                assert(v@[j] == '.' && v@[i as int] == '.');
                return false;
            }
            seen_dot = true;
        } else {
            assert(!(ascii_digit(v@[i as int]) || v@[i as int] == '.'));
            return false;
        }
        i = i + 1;
    }
    seen_digit
}

impl Lexer {
    /// Lexes the rest of the input: the tokens up to and including the end-of-input
    /// token, or up to the first error, which is returned beside them.
    pub fn lex_with_error(&mut self) -> (r: (Vec<TokenStream>, Option<LexerError>))
        ensures
            final(self).input() == old(self).input(),
            (lexemes(r.0@), r.1) == lex_from(old(self).input(), old(self).pos()),
    {
        proof {
            use_type_invariant(&*self);
        }
        let mut tokens: Vec<TokenStream> = Vec::new();
        let ghost cs = self.input();
        let ghost start = self.pos();
        loop
            invariant
                self.input() == cs,
                cs == old(self).input(),
                start == old(self).pos(),
                0 <= self.pos() <= cs.len(),
                ({
                    let (rest, err) = lex_from(cs, self.pos());
                    lex_from(cs, start) == (lexemes(tokens@) + rest, err)
                }),
            decreases cs.len() - self.pos(),
        {
            proof {
                use_type_invariant(&*self);
                lemma_scan_progress(cs, self.pos());
            }
            let ghost p = self.pos();
            let current = self.next_token();
            proof {
                use_type_invariant(&*self);
            }
            match current {
                Ok(value) => {
                    let is_end = value.tag() == TokenStream::EOF.tag();
                    let ghost l = value.lexeme();
                    tokens.push(value);
                    assert(lexemes(tokens@) =~= lexemes(tokens@.drop_last()).push(l));
                    if is_end {
                        assert(l == Lexeme::Fixed(TokenStream::EOF));
                        assert(lex_from(cs, p) == (seq![l], None::<LexerError>));
                        assert(lexemes(tokens@.drop_last()) + seq![l] =~= lexemes(tokens@));
                        assert(lex_from(cs, start).0 =~= lexemes(tokens@));
                        return (tokens, None);
                    }
                    proof {
                        let (rest, err) = lex_from(cs, self.pos());
                        assert(lex_from(cs, p) == (seq![l] + rest, err));
                        assert(lexemes(tokens@.drop_last()) + (seq![l] + rest) =~= lexemes(tokens@)
                            + rest);
                    }
                },
                Err(err) => {
                    assert(lex_from(cs, p) == (Seq::<Lexeme>::empty(), Some(err)));
                    assert(lex_from(cs, start).0 =~= lexemes(tokens@) + Seq::<Lexeme>::empty());
                    return (tokens, Some(err));
                },
            }
        }
    }

    /// Lexes the rest of the input, as `lex_with_error` does, and gives the tokens.
    pub fn lex_all(&mut self) -> (r: Vec<TokenStream>)
        ensures
            final(self).input() == old(self).input(),
            lexemes(r@) == lex_from(old(self).input(), old(self).pos()).0,
    {
        let (tokens, _) = self.lex_with_error();
        tokens
    }

    /// The next token of the input, and the lexer moved past it.
    pub fn next_token(&mut self) -> (res: Result<TokenStream, LexerError>)
        ensures
            final(self).input() == old(self).input(),
            (lexed(res), final(self).pos()) == scan(old(self).input(), old(self).pos()),
        decreases old(self).input().len() - old(self).pos(),
    {
        proof {
            use_type_invariant(&*self);
            lemma_positions(self.chars@, self.position as int);
        }
        self.skip_whitespace();
        let ghost q = self.pos();
        let ghost cs = self.input();
        if let Some(ch) = self.current() {
            if char_is_alphabetic(ch) || ch == '_' {
                let ident = self.read_name()?;
                let token = match keyword_of(&ident) {
                    Some(t) => t,
                    None => TokenStream::Identifier(string_from_chars(&ident)),
                };
                return Ok(token);
            } else if char_is_numeric(ch) {
                let value = self.read_float()?;
                return Ok(TokenStream::Number(value));
            } else if ch == '"' {
                let value = self.read_string();
                return Ok(TokenStream::String(value));
            }
            match ch {
                '(' => {
                    self.advance();
                    Ok(TokenStream::LParen)
                },
                ')' => {
                    self.advance();
                    Ok(TokenStream::RParen)
                },
                '{' => {
                    self.advance();
                    Ok(TokenStream::LBrace)
                },
                '}' => {
                    self.advance();
                    Ok(TokenStream::RBrace)
                },
                '[' => {
                    self.advance();
                    Ok(TokenStream::LBracket)
                },
                ']' => {
                    self.advance();
                    Ok(TokenStream::RBracket)
                },
                ':' => {
                    self.advance();
                    Ok(TokenStream::Colon)
                },
                ',' => {
                    self.advance();
                    Ok(TokenStream::Comma)
                },
                ';' => {
                    self.advance();
                    Ok(TokenStream::Semicolon)
                },
                '*' => {
                    self.advance();
                    Ok(TokenStream::Asterisk)
                },
                '+' => {
                    self.advance();
                    Ok(TokenStream::Plus)
                },
                '-' => {
                    if self.peek() == Some('-') {
                        self.advance();
                        self.advance();
                        if self.current() == Some('[') && self.peek() == Some('[') {
                            self.advance();
                            self.advance();
                            self.skip_multiline_comment();
                        } else {
                            self.skip_single_line_comment();
                        }
                        proof {
                            lemma_positions(cs, q + 2);
                            if q + 4 <= cs.len() {
                                lemma_positions(cs, q + 4);
                            }
                        }
                        self.next_token()
                    } else {
                        self.advance();
                        Ok(TokenStream::Minus)
                    }
                },
                '/' => {
                    self.advance();
                    Ok(TokenStream::Slash)
                },
                '%' => {
                    self.advance();
                    Ok(TokenStream::Percent)
                },
                '^' => {
                    self.advance();
                    Ok(TokenStream::Caret)
                },
                '#' => {
                    self.advance();
                    Ok(TokenStream::Hash)
                },
                '=' => {
                    if self.peek() == Some('=') {
                        self.advance();
                        self.advance();
                        Ok(TokenStream::EqualEqual)
                    } else {
                        self.advance();
                        Ok(TokenStream::Equal)
                    }
                },
                '~' => {
                    if self.peek() == Some('=') {
                        self.advance();
                        self.advance();
                        Ok(TokenStream::NotEqual)
                    } else {
                        self.advance();
                        Err(LexerError::InvalidChar(ch))
                    }
                },
                '<' => {
                    if self.peek() == Some('=') {
                        self.advance();
                        self.advance();
                        Ok(TokenStream::LessEqual)
                    } else {
                        self.advance();
                        Ok(TokenStream::Less)
                    }
                },
                '>' => {
                    if self.peek() == Some('=') {
                        self.advance();
                        self.advance();
                        Ok(TokenStream::GreaterEqual)
                    } else {
                        self.advance();
                        Ok(TokenStream::Greater)
                    }
                },
                '.' => {
                    if self.peek() == Some('.') {
                        self.advance();
                        if self.peek() == Some('.') {
                            self.advance();
                            self.advance();
                            Ok(TokenStream::DotDotDot)
                        } else {
                            self.advance();
                            Ok(TokenStream::DotDot)
                        }
                    } else {
                        self.advance();
                        Ok(TokenStream::Dot)
                    }
                },
                _ => Err(LexerError::InvalidChar(ch)),
            }
        } else {
            Ok(TokenStream::EOF)
        }
    }

    /// The character at the current position.
    pub fn current(&self) -> (r: Option<char>)
        ensures
            r == (if self.pos() < self.input().len() {
                Some(self.input()[self.pos()])
            } else {
                None::<char>
            }),
    {
        if self.position < self.chars.len() {
            Some(self.chars[self.position])
        } else {
            None
        }
    }

    /// The character after the current one.
    pub fn peek(&self) -> (r: Option<char>)
        ensures
            r == (if self.pos() + 1 < self.input().len() {
                Some(self.input()[self.pos() + 1])
            } else {
                None::<char>
            }),
    {
        proof {
            use_type_invariant(self);
        }
        if self.position < self.chars.len() && self.position + 1 < self.chars.len() {
            Some(self.chars[self.position + 1])
        } else {
            None
        }
    }

    /// Moves to the next character; at the end of the input there is none to move to.
    pub fn advance(&mut self)
        ensures
            final(self).input() == old(self).input(),
            final(self).pos() == if old(self).pos() < old(self).input().len() {
                old(self).pos() + 1
            } else {
                old(self).pos()
            },
    {
        if self.position < self.chars.len() {
            self.position = self.position + 1;
        }
    }

    /// The characters from `from` up to `to`.
    fn collect(&self, from: usize, to: usize) -> (v: Vec<char>)
        requires
            from <= to <= self.input().len(),
        ensures
            v@ == self.input().subrange(from as int, to as int),
    {
        let mut v: Vec<char> = Vec::new();
        let mut i = from;
        while i < to
            invariant
                from <= i <= to,
                to <= self.chars.len(),
                v@ == self.chars@.subrange(from as int, i as int),
            decreases to - i,
        {
            v.push(self.chars[i]);
            assert(v@ =~= self.chars@.subrange(from as int, i + 1));
            i = i + 1;
        }
        v
    }

    fn space_end(&self, from: usize) -> (e: usize)
        requires
            from <= self.input().len(),
        ensures
            e == skip_space(self.input(), from as int),
    {
        let mut i = from;
        while i < self.chars.len()
            invariant
                from <= i <= self.chars.len(),
                skip_space(self.chars@, i as int) == skip_space(self.chars@, from as int),
            decreases self.chars.len() - i,
        {
            if char_is_whitespace(self.chars[i]) {
                i = i + 1;
            } else {
                return i;
            }
        }
        i
    }

    fn name_scan(&self, from: usize) -> (e: usize)
        requires
            from <= self.input().len(),
        ensures
            e == name_end(self.input(), from as int),
    {
        let mut i = from;
        while i < self.chars.len()
            invariant
                from <= i <= self.chars.len(),
                name_end(self.chars@, i as int) == name_end(self.chars@, from as int),
            decreases self.chars.len() - i,
        {
            let c = self.chars[i];
            if char_is_alphabetic(c) || char_is_numeric(c) || c == '_' {
                i = i + 1;
            } else {
                return i;
            }
        }
        i
    }

    fn numeral_scan(&self, from: usize) -> (e: usize)
        requires
            from <= self.input().len(),
        ensures
            e == numeral_end(self.input(), from as int),
    {
        let mut i = from;
        while i < self.chars.len()
            invariant
                from <= i <= self.chars.len(),
                numeral_end(self.chars@, i as int) == numeral_end(self.chars@, from as int),
            decreases self.chars.len() - i,
        {
            let c = self.chars[i];
            if char_is_numeric(c) {
                i = i + 1;
            } else if c == '.' {
                if i + 1 < self.chars.len() && self.chars[i + 1] == '.' {
                    return i;
                }
                i = i + 1;
            } else {
                return i;
            }
        }
        i
    }

    fn quote_scan(&self, from: usize) -> (e: usize)
        requires
            from <= self.input().len(),
        ensures
            e == quote_at(self.input(), from as int),
    {
        let mut i = from;
        while i < self.chars.len()
            invariant
                from <= i <= self.chars.len(),
                quote_at(self.chars@, i as int) == quote_at(self.chars@, from as int),
            decreases self.chars.len() - i,
        {
            if self.chars[i] == '"' {
                return i;
            }
            i = i + 1;
        }
        i
    }

    /// Moves past the white space at the current position.
    pub fn skip_whitespace(&mut self)
        ensures
            final(self).input() == old(self).input(),
            final(self).pos() == skip_space(old(self).input(), old(self).pos()),
    {
        proof {
            use_type_invariant(&*self);
        }
        let e = self.space_end(self.position);
        proof {
            lemma_positions(self.chars@, self.position as int);
        }
        self.position = e;
    }

    /// Reads the characters of a name that starts at the current position.
    fn read_name(&mut self) -> (r: Result<Vec<char>, LexerError>)
        requires
            old(self).pos() < old(self).input().len(),
            name_start(old(self).input()[old(self).pos()]),
        ensures
            final(self).input() == old(self).input(),
            final(self).pos() == name_end(old(self).input(), old(self).pos() + 1),
            r matches Ok(v) && v@ == old(self).input().subrange(old(self).pos(), final(self).pos()),
    {
        proof {
            use_type_invariant(&*self);
            lemma_positions(self.chars@, self.position + 1);
        }
        assert(self.position < self.chars.len());
        let e = self.name_scan(self.position + 1);
        let v = self.collect(self.position, e);
        self.position = e;
        Ok(v)
    }

    /// Reads a name at the current position: a letter or `_` followed by letters, digits
    /// and `_`. It is an error when the current character cannot start a name, and the
    /// empty name at the end of the input.
    pub fn read_identifier(&mut self) -> (r: Result<String, LexerError>)
        ensures
            final(self).input() == old(self).input(),
            old(self).pos() >= old(self).input().len() ==> (r matches Ok(s) && s@
                == Seq::<char>::empty()) && final(self).pos() == old(self).pos(),
            old(self).pos() < old(self).input().len() && !name_start(
                old(self).input()[old(self).pos()],
            ) ==> r == Err::<String, LexerError>(LexerError::FirstCharIdentNotAccept)
                && final(self).pos() == old(self).pos(),
            old(self).pos() < old(self).input().len() && name_start(
                old(self).input()[old(self).pos()],
            ) ==> final(self).pos() == name_end(old(self).input(), old(self).pos() + 1) && (r matches Ok(s)
                && s@ == old(self).input().subrange(old(self).pos(), final(self).pos())),
    {
        match self.current() {
            Some(ch) => {
                if char_is_alphabetic(ch) || ch == '_' {
                    let v = self.read_name()?;
                    Ok(string_from_chars(&v))
                } else {
                    Err(LexerError::FirstCharIdentNotAccept)
                }
            },
            None => Ok(String::new()),
        }
    }

    /// Reads the numeral that starts at the current position; it is an error when the
    /// text is not in the decimal syntax that `f64::from_str` accepts.
    fn read_float(&mut self) -> (r: Result<String, LexerError>)
        ensures
            final(self).input() == old(self).input(),
            final(self).pos() == numeral_end(old(self).input(), old(self).pos()),
            ({
                let w = old(self).input().subrange(old(self).pos(), final(self).pos());
                match r {
                    Ok(s) => decimal_float_syntax(w) && s@ == w,
                    Err(e) => !decimal_float_syntax(w) && e == LexerError::ParseIntError,
                }
            }),
    {
        proof {
            use_type_invariant(&*self);
            lemma_positions(self.chars@, self.position as int);
        }
        let e = self.numeral_scan(self.position);
        let v = self.collect(self.position, e);
        self.position = e;
        if decimal_float_ok(&v) {
            Ok(string_from_chars(&v))
        } else {
            Err(LexerError::ParseIntError)
        }
    }

    /// Reads a string literal: moves past the opening quote at the current position and
    /// gives the characters up to the closing quote, or to the end of the input, moving
    /// past the closing quote.
    pub fn read_string(&mut self) -> (r: String)
        ensures
            final(self).input() == old(self).input(),
            old(self).pos() < old(self).input().len() ==> ({
                let e = quote_at(old(self).input(), old(self).pos() + 1);
                &&& r@ == old(self).input().subrange(old(self).pos() + 1, e)
                &&& final(self).pos() == if e < old(self).input().len() { e + 1 } else { e }
            }),
            old(self).pos() >= old(self).input().len() ==> r@ == Seq::<char>::empty()
                && final(self).pos() == old(self).pos(),
    {
        proof {
            use_type_invariant(&*self);
        }
        if self.position >= self.chars.len() {
            return String::new();
        }
        proof {
            lemma_positions(self.chars@, self.position + 1);
        }
        let e = self.quote_scan(self.position + 1);
        let v = self.collect(self.position + 1, e);
        if e < self.chars.len() {
            self.position = e + 1;
        } else {
            self.position = e;
        }
        string_from_chars(&v)
    }

    fn line_scan(&self, from: usize) -> (e: usize)
        requires
            from <= self.input().len(),
        ensures
            e == line_end(self.input(), from as int),
    {
        let mut i = from;
        while i < self.chars.len()
            invariant
                from <= i <= self.chars.len(),
                line_end(self.chars@, i as int) == line_end(self.chars@, from as int),
            decreases self.chars.len() - i,
        {
            if self.chars[i] == '\n' {
                return i + 1;
            }
            i = i + 1;
        }
        i
    }

    fn block_scan(&self, from: usize) -> (e: usize)
        requires
            from <= self.input().len(),
        ensures
            e == block_end(self.input(), from as int),
    {
        let mut i = from;
        while i < self.chars.len()
            invariant
                from <= i <= self.chars.len(),
                block_end(self.chars@, i as int) == block_end(self.chars@, from as int),
            decreases self.chars.len() - i,
        {
            if self.chars[i] == ']' && i + 1 < self.chars.len() && self.chars[i + 1] == ']' {
                return i + 2;
            }
            i = i + 1;
        }
        i
    }

    /// Moves past the rest of the line, its line feed included.
    pub fn skip_single_line_comment(&mut self)
        ensures
            final(self).input() == old(self).input(),
            final(self).pos() == line_end(old(self).input(), old(self).pos()),
    {
        proof {
            use_type_invariant(&*self);
            lemma_positions(self.chars@, self.position as int);
        }
        let e = self.line_scan(self.position);
        self.position = e;
    }

    /// Moves past the first `]]`, or to the end of the input if there is none.
    pub fn skip_multiline_comment(&mut self)
        ensures
            final(self).input() == old(self).input(),
            final(self).pos() == block_end(old(self).input(), old(self).pos()),
    {
        proof {
            use_type_invariant(&*self);
            lemma_positions(self.chars@, self.position as int);
        }
        let e = self.block_scan(self.position);
        self.position = e;
    }
}

impl Clone for Lexer {
    fn clone(&self) -> (r: Self)
        ensures
            r.input() == self.input(),
            r.pos() == self.pos(),
    {
        proof {
            use_type_invariant(self);
        }
        let chars = self.chars.clone();
        assert(chars@ =~= self.chars@);
        Lexer { chars, position: self.position }
    }
}

} // verus!
