use vstd::prelude::*;
use vstd::string::*;

verus! {

/// A half-open range of byte offsets into the source text.
#[derive(Clone, Copy, Debug, PartialEq, Eq, Structural)]
pub struct Span {
    pub start: usize,
    pub end: usize,
}

/// The classes of tokens the lexer produces.
#[derive(Clone, Copy, Debug, PartialEq, Eq, Structural)]
pub enum LexToken {
    Ident,
    Let,
    Eq,
    ParOpen,
    ParClose,
    FuncStart,
    FuncSep,
    Sep,
    Error,
}

#[derive(Debug)]
pub struct Token {
    pub kind: LexToken,
    pub value: String,
    pub span: Span,
}

/// What a token is, as plain values.
pub struct TokenView {
    pub kind: LexToken,
    pub text: Seq<char>,
    pub start: nat,
    pub end: nat,
}

impl View for Token {
    type V = TokenView;

    open spec fn view(&self) -> TokenView {
        TokenView {
            kind: self.kind,
            text: self.value@,
            start: self.span.start as nat,
            end: self.span.end as nat,
        }
    }
}

pub open spec fn tokens_view(ts: Seq<Token>) -> Seq<TokenView> {
    ts.map_values(|t: Token| t@)
}

/// Number of bytes the UTF-8 encoding of `c` takes.
pub open spec fn utf8_len(c: char) -> nat {
    if (c as u32) < 0x80 {
        1
    } else if (c as u32) < 0x800 {
        2
    } else if (c as u32) < 0x10000 {
        3
    } else {
        4
    }
}

/// Byte offset of the character at index `i`.
pub open spec fn byte_offset(s: Seq<char>, i: int) -> nat
    decreases i,
{
    if i <= 0 || i > s.len() {
        0
    } else {
        byte_offset(s, i - 1) + utf8_len(s[i - 1])
    }
}

pub open spec fn is_ident_char(c: char) -> bool {
    ('a' <= c && c <= 'z') || ('A' <= c && c <= 'Z') || ('0' <= c && c <= '9') || c == '_'
}

/// End of the run of identifier characters that starts at `i`.
pub open spec fn ident_end(s: Seq<char>, i: int) -> int
    decreases s.len() - i,
{
    if 0 <= i < s.len() && is_ident_char(s[i]) {
        ident_end(s, i + 1)
    } else {
        i
    }
}

/// Index of the newline that ends a comment, or the end of the text.
pub open spec fn line_end(s: Seq<char>, i: int) -> int
    decreases s.len() - i,
{
    if 0 <= i < s.len() && s[i] != '\n' {
        line_end(s, i + 1)
    } else {
        i
    }
}

pub open spec fn let_word() -> Seq<char> {
    seq!['l', 'e', 't']
}

/// The class of a token made of the single character `c`.
pub open spec fn single_kind(c: char) -> LexToken {
    if c == '=' {
        LexToken::Eq
    } else if c == '(' {
        LexToken::ParOpen
    } else if c == ')' {
        LexToken::ParClose
    } else if c == '\\' || c == '\u{3bb}' {
        LexToken::FuncStart
    } else if c == '.' {
        LexToken::FuncSep
    } else if c == '\n' || c == ';' {
        LexToken::Sep
    } else {
        LexToken::Error
    }
}

pub open spec fn token_at(s: Seq<char>, kind: LexToken, i: int, j: int) -> TokenView {
    TokenView { kind, text: s.subrange(i, j), start: byte_offset(s, i), end: byte_offset(s, j) }
}

/// Index just past the token that starts at `i` (for a character that is not skipped).
pub open spec fn token_end(s: Seq<char>, i: int) -> int {
    if is_ident_char(s[i]) {
        ident_end(s, i)
    } else if s[i] == '-' && i + 1 < s.len() && s[i + 1] == '>' {
        i + 2
    } else {
        i + 1
    }
}

/// Class of the token that starts at `i` (for a character that is not skipped).
pub open spec fn token_kind(s: Seq<char>, i: int) -> LexToken {
    if is_ident_char(s[i]) {
        if s.subrange(i, ident_end(s, i)) == let_word() {
            LexToken::Let
        } else {
            LexToken::Ident
        }
    } else if s[i] == '-' && i + 1 < s.len() && s[i + 1] == '>' {
        LexToken::FuncSep
    } else {
        single_kind(s[i])
    }
}

pub proof fn lemma_ident_end(s: Seq<char>, i: int)
    requires
        0 <= i <= s.len(),
    ensures
        i <= ident_end(s, i) <= s.len(),
        forall|k: int| i <= k < ident_end(s, i) ==> is_ident_char(#[trigger] s[k]),
        ident_end(s, i) < s.len() ==> !is_ident_char(s[ident_end(s, i)]),
    decreases s.len() - i,
{
    if i < s.len() && is_ident_char(s[i]) {
        lemma_ident_end(s, i + 1);
    }
}

pub proof fn lemma_line_end(s: Seq<char>, i: int)
    requires
        0 <= i <= s.len(),
    ensures
        i <= line_end(s, i) <= s.len(),
        line_end(s, i) < s.len() ==> s[line_end(s, i)] == '\n',
    decreases s.len() - i,
{
    if i < s.len() && s[i] != '\n' {
        lemma_line_end(s, i + 1);
    }
}

/// The tokens of `s` from character index `i` on: blanks and `#` comments are
/// skipped, runs of identifier characters are maximal, and a character that
/// starts no token becomes an error token of its own.
pub open spec fn lex_from(s: Seq<char>, i: int) -> Seq<TokenView>
    decreases s.len() - i,
{
    if i < 0 || i >= s.len() {
        Seq::empty()
    } else if s[i] == ' ' || s[i] == '\t' {
        lex_from(s, i + 1)
    } else if s[i] == '#' {
        if i < line_end(s, i + 1) <= s.len() {
            lex_from(s, line_end(s, i + 1))
        } else {
            Seq::empty()
        }
    } else if i < token_end(s, i) <= s.len() {
        seq![token_at(s, token_kind(s, i), i, token_end(s, i))] + lex_from(s, token_end(s, i))
    } else {
        Seq::empty()
    }
}

proof fn lemma_byte_offset_step(s: Seq<char>, i: int)
    requires
        0 <= i < s.len(),
    ensures
        byte_offset(s, i + 1) == byte_offset(s, i) + utf8_len(s[i]),
        byte_offset(s, i) <= 4 * i,
{
    lemma_byte_offset_bound(s, i);
}

proof fn lemma_byte_offset_bound(s: Seq<char>, i: int)
    requires
        0 <= i <= s.len(),
    ensures
        byte_offset(s, i) <= 4 * i,
    decreases i,
{
    if i > 0 {
        lemma_byte_offset_bound(s, i - 1);
    }
}

fn char_utf8_len(c: char) -> (r: usize)
    ensures
        r == utf8_len(c),
{
    if (c as u32) < 0x80 {
        1
    } else if (c as u32) < 0x800 {
        2
    } else if (c as u32) < 0x10000 {
        3
    } else {
        4
    }
}

fn char_is_ident(c: char) -> (r: bool)
    ensures
        r == is_ident_char(c),
{
    ('a' <= c && c <= 'z') || ('A' <= c && c <= 'Z') || ('0' <= c && c <= '9') || c == '_'
}

fn char_kind(c: char) -> (r: LexToken)
    ensures
        r == single_kind(c),
{
    if c == '=' {
        LexToken::Eq
    } else if c == '(' {
        LexToken::ParOpen
    } else if c == ')' {
        LexToken::ParClose
    } else if c == '\\' || c == '\u{3bb}' {
        LexToken::FuncStart
    } else if c == '.' {
        LexToken::FuncSep
    } else if c == '\n' || c == ';' {
        LexToken::Sep
    } else {
        LexToken::Error
    }
}

/// Splits source text into tokens, with byte spans into the text.
pub fn lex(src: &str) -> (tokens: Vec<Token>)
    requires
        src@.len() < usize::MAX / 8,
    ensures
        tokens_view(tokens@) == lex_from(src@, 0),
{
    let n = src.unicode_len();
    let ghost s = src@;
    let mut tokens: Vec<Token> = Vec::new();
    let mut i: usize = 0;
    let mut off: usize = 0;
    while i < n
        invariant
            n == s.len(),
            s == src@,
            s.len() < usize::MAX / 8,
            0 <= i <= n,
            off == byte_offset(s, i as int),
            tokens_view(tokens@) + lex_from(s, i as int) == lex_from(s, 0),
        decreases n - i,
    {
        proof {
            lemma_byte_offset_step(s, i as int);
        }
        let c = src.get_char(i);
        if c == ' ' || c == '\t' {
            i = i + 1;
            off = off + 1;
        } else if c == '#' {
            let ghost i0 = i as int;
            proof {
                lemma_line_end(s, i0 + 1);
            }
            i = i + 1;
            off = off + 1;
            while i < n && src.get_char(i) != '\n'
                invariant
                    n == s.len(),
                    s == src@,
                    s.len() < usize::MAX / 8,
                    i0 < i <= n,
                    off == byte_offset(s, i as int),
                    line_end(s, i0 + 1) == line_end(s, i as int),
                decreases n - i,
            {
                proof {
                    lemma_byte_offset_step(s, i as int);
                }
                let d = src.get_char(i);
                off = off + char_utf8_len(d);
                i = i + 1;
            }
            assert(line_end(s, i as int) == i as int);
        } else {
            let ghost i0 = i as int;
            let start = off;
            let start_i = i;
            let kind: LexToken;
            if char_is_ident(c) {
                proof {
                    lemma_ident_end(s, i0);
                }
                while i < n && char_is_ident(src.get_char(i))
                    invariant
                        n == s.len(),
                        s == src@,
                        s.len() < usize::MAX / 8,
                        i0 <= i <= n,
                        off == byte_offset(s, i as int),
                        ident_end(s, i0) == ident_end(s, i as int),
                    decreases n - i,
                {
                    proof {
                        lemma_byte_offset_step(s, i as int);
                    }
                    let d = src.get_char(i);
                    off = off + char_utf8_len(d);
                    i = i + 1;
                }
                let word = src.substring_char(start_i, i);
                let is_let = i - start_i == 3 && src.get_char(start_i) == 'l' && src.get_char(
                    start_i + 1,
                ) == 'e' && src.get_char(start_i + 2) == 't';
                proof {
                    if s.subrange(i0, i as int) == let_word() {
                        assert(s.subrange(i0, i as int).len() == 3);
                        assert(i as int == i0 + 3);
                        assert(s[i0] == s.subrange(i0, i as int)[0]);
                        assert(s[i0 + 1] == s.subrange(i0, i as int)[1]);
                        assert(s[i0 + 2] == s.subrange(i0, i as int)[2]);
                    }
                    if is_let {
                        assert(s.subrange(i0, i as int) =~= let_word());
                    }
                }
                kind = if is_let {
                    LexToken::Let
                } else {
                    LexToken::Ident
                };
                tokens.push(Token { kind, value: String::from_str(word), span: Span { start, end: off } });
            } else if c == '-' && i + 1 < n && src.get_char(i + 1) == '>' {
                proof {
                    lemma_byte_offset_step(s, i as int + 1);
                }
                let word = src.substring_char(i, i + 2);
                off = off + 2;
                i = i + 2;
                kind = LexToken::FuncSep;
                tokens.push(Token { kind, value: String::from_str(word), span: Span { start, end: off } });
            } else {
                let word = src.substring_char(i, i + 1);
                off = off + char_utf8_len(c);
                i = i + 1;
                kind = char_kind(c);
                tokens.push(Token { kind, value: String::from_str(word), span: Span { start, end: off } });
            }
            proof {
                let t = token_at(s, token_kind(s, i0), i0, token_end(s, i0));
                assert(tokens_view(tokens@) =~= tokens_view(tokens@.drop_last()).push(t));
            }
        }
    }
    proof {
        assert(tokens_view(tokens@) + lex_from(s, i as int) =~= tokens_view(tokens@));
    }
    tokens
}

} // verus!
