use vstd::prelude::*;
use crate::span::Span;

verus! {

pub const TAB: u8 = 9;
pub const LF: u8 = 10;
pub const CR: u8 = 13;
pub const SPACE: u8 = 32;
pub const BANG: u8 = 33;
pub const DQUOTE: u8 = 34;
pub const QUOTE: u8 = 39;
pub const STAR: u8 = 42;
pub const DOT: u8 = 46;
pub const SLASH: u8 = 47;
pub const BACKSLASH: u8 = 92;
pub const UNDERSCORE: u8 = 95;

/// The lexical class of a token.
#[derive(Clone, Copy, Debug, PartialEq, Eq, Structural)]
pub enum TokenKind {
    Ident,
    Number,
    Str,
    Char,
    Lifetime,
    LineComment,
    BlockComment,
    DocComment,
    Punct,
    /// A string literal or block comment that runs to the end of the input.
    Unterminated,
}

/// One token: its class and the bytes it covers.
#[derive(Clone, Copy, Debug, PartialEq, Eq, Structural)]
pub struct Token {
    pub kind: TokenKind,
    pub span: Span,
}

impl TokenKind {
    pub open spec fn spec_is_comment(self) -> bool {
        self == TokenKind::LineComment || self == TokenKind::BlockComment
            || self == TokenKind::DocComment
    }

    /// Comments of every flavour.
    pub fn is_comment(&self) -> (r: bool)
        ensures
            r == self.spec_is_comment(),
    {
        match self {
            TokenKind::LineComment | TokenKind::BlockComment | TokenKind::DocComment => true,
            _ => false,
        }
    }
}

pub open spec fn is_ws(b: u8) -> bool {
    b == SPACE || b == TAB || b == LF || b == CR
}

pub open spec fn is_digit(b: u8) -> bool {
    48 <= b <= 57
}

pub open spec fn is_ident_start(b: u8) -> bool {
    (65 <= b <= 90) || (97 <= b <= 122) || b == UNDERSCORE || b >= 128
}

pub open spec fn is_ident_continue(b: u8) -> bool {
    is_ident_start(b) || is_digit(b)
}

/// End of the run of identifier bytes that starts at `i`.
pub open spec fn ident_end(s: Seq<u8>, i: int) -> int
    decreases s.len() - i,
{
    if 0 <= i < s.len() && is_ident_continue(s[i]) {
        ident_end(s, i + 1)
    } else {
        i
    }
}

/// End of a numeric literal whose remaining bytes start at `i`; a dot belongs to
/// the number only when a digit follows it.
pub open spec fn number_end(s: Seq<u8>, i: int) -> int
    decreases s.len() - i,
{
    if 0 <= i < s.len() && (is_ident_continue(s[i]) || (s[i] == DOT && i + 1 < s.len()
        && is_digit(s[i + 1]))) {
        number_end(s, i + 1)
    } else {
        i
    }
}

/// Position of the next line feed at or after `i`, or the end of input.
pub open spec fn line_end(s: Seq<u8>, i: int) -> int
    decreases s.len() - i,
{
    if 0 <= i < s.len() && s[i] != LF {
        line_end(s, i + 1)
    } else {
        i
    }
}

/// Position of the next single quote at or after `i`, or the end of input.
pub open spec fn quote_pos(s: Seq<u8>, i: int) -> int
    decreases s.len() - i,
{
    if 0 <= i < s.len() && s[i] != QUOTE {
        quote_pos(s, i + 1)
    } else {
        i
    }
}

/// Scans the body of a block comment from `i`: the end of the comment and whether
/// a closing `*/` was found.
pub open spec fn block_scan(s: Seq<u8>, i: int) -> (int, bool)
    decreases s.len() - i,
{
    if i < 0 || i + 1 >= s.len() {
        (s.len() as int, false)
    } else if s[i] == STAR && s[i + 1] == SLASH {
        (i + 2, true)
    } else {
        block_scan(s, i + 1)
    }
}

/// Scans the body of a string literal from `i`: the end of the literal and
/// whether a closing quote was found.
pub open spec fn string_scan(s: Seq<u8>, i: int) -> (int, bool)
    decreases s.len() - i,
{
    if i < 0 || i >= s.len() {
        (s.len() as int, false)
    } else if s[i] == DQUOTE {
        (i + 1, true)
    } else if s[i] == BACKSLASH {
        if i + 1 >= s.len() {
            (s.len() as int, false)
        } else {
            string_scan(s, i + 2)
        }
    } else {
        string_scan(s, i + 1)
    }
}

pub open spec fn mk_token(kind: TokenKind, start: int, end: int) -> Token {
    Token { kind, span: Span { start: start as usize, end: end as usize } }
}

/// The token that starts at `pos`, which holds no whitespace.
pub open spec fn token_at(s: Seq<u8>, pos: int) -> Token {
    let n = s.len() as int;
    let b = s[pos];
    if b == SLASH && pos + 1 < n && s[pos + 1] == SLASH {
        let doc = (pos + 2 < n && s[pos + 2] == SLASH && !(pos + 3 < n && s[pos + 3] == SLASH))
            || (pos + 2 < n && s[pos + 2] == BANG);
        mk_token(
            if doc {
                TokenKind::DocComment
            } else {
                TokenKind::LineComment
            },
            pos,
            line_end(s, pos),
        )
    } else if b == SLASH && pos + 1 < n && s[pos + 1] == STAR {
        let (e, closed) = block_scan(s, pos + 2);
        let doc = (pos + 3 < n && s[pos + 2] == STAR && s[pos + 3] != SLASH) || (pos + 2 < n
            && s[pos + 2] == BANG);
        mk_token(
            if !closed {
                TokenKind::Unterminated
            } else if doc {
                TokenKind::DocComment
            } else {
                TokenKind::BlockComment
            },
            pos,
            e,
        )
    } else if is_ident_start(b) {
        mk_token(TokenKind::Ident, pos, ident_end(s, pos + 1))
    } else if is_digit(b) {
        mk_token(TokenKind::Number, pos, number_end(s, pos + 1))
    } else if b == DQUOTE {
        let (e, closed) = string_scan(s, pos + 1);
        mk_token(
            if closed {
                TokenKind::Str
            } else {
                TokenKind::Unterminated
            },
            pos,
            e,
        )
    } else if b == QUOTE && pos + 1 < n && s[pos + 1] == BACKSLASH {
        let q = quote_pos(s, pos + 2);
        if q < n {
            mk_token(TokenKind::Char, pos, q + 1)
        } else {
            mk_token(TokenKind::Unterminated, pos, n)
        }
    } else if b == QUOTE && pos + 2 < n && s[pos + 2] == QUOTE {
        mk_token(TokenKind::Char, pos, pos + 3)
    } else if b == QUOTE && pos + 1 < n && is_ident_start(s[pos + 1]) {
        mk_token(TokenKind::Lifetime, pos, ident_end(s, pos + 1))
    } else {
        mk_token(TokenKind::Punct, pos, pos + 1)
    }
}

/// The tokens of `s` from `pos` on; whitespace separates tokens and is dropped.
pub open spec fn lex_from(s: Seq<u8>, pos: int) -> Seq<Token>
    decreases s.len() - pos,
{
    if pos < 0 || pos >= s.len() {
        Seq::empty()
    } else if is_ws(s[pos]) {
        lex_from(s, pos + 1)
    } else {
        let t = token_at(s, pos);
        if t.span.end <= pos || t.span.end > s.len() {
            Seq::empty()
        } else {
            seq![t] + lex_from(s, t.span.end as int)
        }
    }
}

/// Tokens lie inside `[0, len)`, are non-empty, and are ordered without overlap.
pub open spec fn tokens_wf(toks: Seq<Token>, len: int) -> bool {
    &&& forall|i: int|
        0 <= i < toks.len() ==> toks[i].span.start < toks[i].span.end && toks[i].span.end <= len
    &&& forall|i: int, j: int|
        #![trigger toks[i], toks[j]]
        0 <= i < j < toks.len() ==> toks[i].span.end <= toks[j].span.start
}

pub fn byte_is_ws(b: u8) -> (r: bool)
    ensures
        r == is_ws(b),
{
    b == SPACE || b == TAB || b == LF || b == CR
}

pub fn byte_is_digit(b: u8) -> (r: bool)
    ensures
        r == is_digit(b),
{
    48 <= b && b <= 57
}

pub fn byte_is_ident_start(b: u8) -> (r: bool)
    ensures
        r == is_ident_start(b),
{
    (65 <= b && b <= 90) || (97 <= b && b <= 122) || b == UNDERSCORE || b >= 128
}

pub fn byte_is_ident_continue(b: u8) -> (r: bool)
    ensures
        r == is_ident_continue(b),
{
    byte_is_ident_start(b) || byte_is_digit(b)
}

proof fn lemma_ident_end(s: Seq<u8>, i: int)
    requires
        0 <= i <= s.len(),
    ensures
        i <= ident_end(s, i) <= s.len(),
    decreases s.len() - i,
{
    if i < s.len() && is_ident_continue(s[i]) {
        lemma_ident_end(s, i + 1);
    }
}

proof fn lemma_number_end(s: Seq<u8>, i: int)
    requires
        0 <= i <= s.len(),
    ensures
        i <= number_end(s, i) <= s.len(),
    decreases s.len() - i,
{
    if i < s.len() && (is_ident_continue(s[i]) || (s[i] == DOT && i + 1 < s.len() && is_digit(
        s[i + 1],
    ))) {
        lemma_number_end(s, i + 1);
    }
}

pub proof fn lemma_line_end(s: Seq<u8>, i: int)
    requires
        0 <= i <= s.len(),
    ensures
        i <= line_end(s, i) <= s.len(),
    decreases s.len() - i,
{
    if i < s.len() && s[i] != LF {
        lemma_line_end(s, i + 1);
    }
}

proof fn lemma_quote_pos(s: Seq<u8>, i: int)
    requires
        0 <= i <= s.len(),
    ensures
        i <= quote_pos(s, i) <= s.len(),
    decreases s.len() - i,
{
    if i < s.len() && s[i] != QUOTE {
        lemma_quote_pos(s, i + 1);
    }
}

proof fn lemma_block_scan(s: Seq<u8>, i: int)
    requires
        0 <= i,
    ensures
        i <= block_scan(s, i).0 || block_scan(s, i).0 == s.len(),
        block_scan(s, i).0 <= s.len(),
        i <= s.len() ==> i <= block_scan(s, i).0,
    decreases s.len() - i,
{
    if i + 1 < s.len() && !(s[i] == STAR && s[i + 1] == SLASH) {
        lemma_block_scan(s, i + 1);
    }
}

proof fn lemma_string_scan(s: Seq<u8>, i: int)
    requires
        0 <= i,
    ensures
        block_scan(s, i).0 <= s.len(),
        string_scan(s, i).0 <= s.len(),
        i <= s.len() ==> i <= string_scan(s, i).0,
    decreases s.len() - i,
{
    lemma_block_scan(s, i);
    if i < s.len() && s[i] != DQUOTE && !(s[i] == BACKSLASH && i + 1 >= s.len()) {
        if s[i] == BACKSLASH {
            lemma_string_scan(s, i + 2);
        } else {
            lemma_string_scan(s, i + 1);
        }
    }
}

/// A token starting at `pos` is non-empty and ends within the input.
pub proof fn lemma_token_at(s: Seq<u8>, pos: int)
    requires
        0 <= pos < s.len(),
        s.len() <= usize::MAX,
    ensures
        token_at(s, pos).span.start == pos,
        pos < token_at(s, pos).span.end <= s.len(),
{
    lemma_ident_end(s, pos + 1);
    lemma_number_end(s, pos + 1);
    lemma_line_end(s, pos + 1);
    lemma_block_scan(s, pos + 2);
    lemma_string_scan(s, pos + 1);
    if pos + 2 <= s.len() {
        lemma_quote_pos(s, pos + 2);
    }
}

/// Every token from `pos` on lies in `[pos, len)`, and the tokens are ordered.
pub proof fn lemma_lex_wf(s: Seq<u8>, pos: int)
    requires
        0 <= pos,
        s.len() <= usize::MAX,
    ensures
        tokens_wf(lex_from(s, pos), s.len() as int),
        forall|k: int| 0 <= k < lex_from(s, pos).len() ==> pos <= #[trigger] lex_from(s, pos)[k].span.start,
    decreases s.len() - pos,
{
    if pos < s.len() {
        if is_ws(s[pos]) {
            lemma_lex_wf(s, pos + 1);
        } else {
            let t = token_at(s, pos);
            lemma_token_at(s, pos);
            lemma_lex_wf(s, t.span.end as int);
            let rest = lex_from(s, t.span.end as int);
            let all = lex_from(s, pos);
            assert(all == seq![t] + rest);
            assert forall|i: int, j: int| 0 <= i < j < all.len() implies all[i].span.end
                <= all[j].span.start by {
                if i > 0 {
                    assert(all[i] == rest[i - 1]);
                    assert(all[j] == rest[j - 1]);
                } else {
                    assert(all[j] == rest[j - 1]);
                }
            }
            assert forall|k: int| 0 <= k < all.len() implies pos <= #[trigger] all[k].span.start
                && all[k].span.start < all[k].span.end && all[k].span.end <= s.len() by {
                if k > 0 {
                    assert(all[k] == rest[k - 1]);
                }
            }
        }
    }
}

fn scan_ident(s: &[u8], i: usize) -> (r: usize)
    requires
        i <= s.len(),
    ensures
        r == ident_end(s@, i as int),
{
    let mut j = i;
    while j < s.len() && byte_is_ident_continue(s[j])
        invariant
            i <= j <= s.len(),
            ident_end(s@, j as int) == ident_end(s@, i as int),
        decreases s.len() - j,
    {
        j = j + 1;
    }
    j
}

fn scan_number(s: &[u8], i: usize) -> (r: usize)
    requires
        i <= s.len(),
    ensures
        r == number_end(s@, i as int),
{
    let mut j = i;
    while j < s.len() && (byte_is_ident_continue(s[j]) || (s[j] == DOT && j + 1 < s.len()
        && byte_is_digit(s[j + 1])))
        invariant
            i <= j <= s.len(),
            number_end(s@, j as int) == number_end(s@, i as int),
        decreases s.len() - j,
    {
        j = j + 1;
    }
    j
}

pub fn scan_line(s: &[u8], i: usize) -> (r: usize)
    requires
        i <= s.len(),
    ensures
        r == line_end(s@, i as int),
{
    let mut j = i;
    while j < s.len() && s[j] != LF
        invariant
            i <= j <= s.len(),
            line_end(s@, j as int) == line_end(s@, i as int),
        decreases s.len() - j,
    {
        j = j + 1;
    }
    j
}

fn scan_quote(s: &[u8], i: usize) -> (r: usize)
    requires
        i <= s.len(),
    ensures
        r == quote_pos(s@, i as int),
{
    let mut j = i;
    while j < s.len() && s[j] != QUOTE
        invariant
            i <= j <= s.len(),
            quote_pos(s@, j as int) == quote_pos(s@, i as int),
        decreases s.len() - j,
    {
        j = j + 1;
    }
    j
}

fn scan_block(s: &[u8], i: usize) -> (r: (usize, bool))
    requires
        i <= s.len(),
    ensures
        r.0 as int == block_scan(s@, i as int).0,
        r.1 == block_scan(s@, i as int).1,
{
    let mut j = i;
    while j < s.len() && s.len() - j > 1
        invariant
            i <= j <= s.len(),
            block_scan(s@, j as int) == block_scan(s@, i as int),
        decreases s.len() - j,
    {
        if s[j] == STAR && s[j + 1] == SLASH {
            return (j + 2, true);
        }
        j = j + 1;
    }
    (s.len(), false)
}

fn scan_string(s: &[u8], i: usize) -> (r: (usize, bool))
    requires
        i <= s.len(),
    ensures
        r.0 as int == string_scan(s@, i as int).0,
        r.1 == string_scan(s@, i as int).1,
{
    let mut j = i;
    while j < s.len()
        invariant
            i <= j,
            string_scan(s@, j as int) == string_scan(s@, i as int),
        decreases s.len() - j,
    {
        if s[j] == DQUOTE {
            return (j + 1, true);
        }
        if s[j] == BACKSLASH {
            if j + 1 >= s.len() {
                return (s.len(), false);
            }
            j = j + 2;
        } else {
            j = j + 1;
        }
    }
    (s.len(), false)
}

/// Scans the token that starts at `pos`.
pub fn scan_token(s: &[u8], pos: usize) -> (r: Token)
    requires
        pos < s.len(),
    ensures
        r == token_at(s@, pos as int),
{
    let n = s.len();
    let b = s[pos];
    if b == SLASH && n - pos > 1 && s[pos + 1] == SLASH {
        let doc = (n - pos > 2 && s[pos + 2] == SLASH && !(n - pos > 3 && s[pos + 3] == SLASH))
            || (n - pos > 2 && s[pos + 2] == BANG);
        let e = scan_line(s, pos);
        let kind = if doc {
            TokenKind::DocComment
        } else {
            TokenKind::LineComment
        };
        Token { kind, span: Span { start: pos, end: e } }
    } else if b == SLASH && n - pos > 1 && s[pos + 1] == STAR {
        let (e, closed) = scan_block(s, pos + 2);
        let doc = (n - pos > 3 && s[pos + 2] == STAR && s[pos + 3] != SLASH) || (n - pos > 2
            && s[pos + 2] == BANG);
        let kind = if !closed {
            TokenKind::Unterminated
        } else if doc {
            TokenKind::DocComment
        } else {
            TokenKind::BlockComment
        };
        Token { kind, span: Span { start: pos, end: e } }
    } else if byte_is_ident_start(b) {
        Token { kind: TokenKind::Ident, span: Span { start: pos, end: scan_ident(s, pos + 1) } }
    } else if byte_is_digit(b) {
        Token { kind: TokenKind::Number, span: Span { start: pos, end: scan_number(s, pos + 1) } }
    } else if b == DQUOTE {
        let (e, closed) = scan_string(s, pos + 1);
        let kind = if closed {
            TokenKind::Str
        } else {
            TokenKind::Unterminated
        };
        Token { kind, span: Span { start: pos, end: e } }
    } else if b == QUOTE && n - pos > 1 && s[pos + 1] == BACKSLASH {
        let q = scan_quote(s, pos + 2);
        if q < n {
            Token { kind: TokenKind::Char, span: Span { start: pos, end: q + 1 } }
        } else {
            Token { kind: TokenKind::Unterminated, span: Span { start: pos, end: n } }
        }
    } else if b == QUOTE && n - pos > 2 && s[pos + 2] == QUOTE {
        Token { kind: TokenKind::Char, span: Span { start: pos, end: pos + 3 } }
    } else if b == QUOTE && n - pos > 1 && byte_is_ident_start(s[pos + 1]) {
        Token { kind: TokenKind::Lifetime, span: Span { start: pos, end: scan_ident(s, pos + 1) } }
    } else {
        Token { kind: TokenKind::Punct, span: Span { start: pos, end: pos + 1 } }
    }
}

/// Splits `s` into tokens, dropping whitespace.
pub fn tokenize(s: &[u8]) -> (r: Vec<Token>)
    ensures
        r@ == lex_from(s@, 0),
        tokens_wf(r@, s@.len() as int),
{
    let mut out: Vec<Token> = Vec::new();
    let mut pos: usize = 0;
    while pos < s.len()
        invariant
            pos <= s.len(),
            out@ + lex_from(s@, pos as int) == lex_from(s@, 0),
        decreases s.len() - pos,
    {
        if byte_is_ws(s[pos]) {
            pos = pos + 1;
        } else {
            let t = scan_token(s, pos);
            proof {
                lemma_token_at(s@, pos as int);
                assert(lex_from(s@, pos as int) == seq![t] + lex_from(s@, t.span.end as int));
                assert(out@.push(t) + lex_from(s@, t.span.end as int) =~= out@ + (seq![t]
                    + lex_from(s@, t.span.end as int)));
            }
            out.push(t);
            pos = t.span.end;
        }
    }
    proof {
        assert(out@ + lex_from(s@, pos as int) =~= out@);
        lemma_lex_wf(s@, 0);
    }
    out
}

} // verus!
