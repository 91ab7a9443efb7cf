use vstd::prelude::*;
use crate::span::Span;
use crate::lexer::{Token, TokenKind, tokens_wf, ident_end, SPACE, TAB, CR};
use crate::words::{word_at, word_of};
use crate::tree::{SEMI, LBRACE, RBRACE};
use crate::finding::{Finding, Issue, finding};
use crate::rules::{occurs_in, span_contains, collect, lemma_collect_step};

verus! {

pub open spec fn is_blank(b: u8) -> bool {
    b == SPACE || b == TAB || b == CR
}

/// First position at or after `i` and before `end` that is not a blank.
pub open spec fn skip_blank(s: Seq<u8>, i: int, end: int) -> int
    decreases end - i,
{
    if 0 <= i < end && i < s.len() && is_blank(s[i]) {
        skip_blank(s, i + 1, end)
    } else {
        i
    }
}

/// The last byte of `s[lo .. hi]` that is not blank is `;`, `{` or `}`.
pub open spec fn ends_like_code(s: Seq<u8>, lo: int, hi: int) -> bool
    decreases hi - lo,
{
    if hi <= lo || hi > s.len() || lo < 0 {
        false
    } else if is_blank(s[hi - 1]) {
        ends_like_code(s, lo, hi - 1)
    } else {
        s[hi - 1] == SEMI || s[hi - 1] == LBRACE || s[hi - 1] == RBRACE
    }
}

/// The word at `p`, which ends by `end`, is a keyword.
pub open spec fn starts_like_code(s: Seq<u8>, p: int, end: int) -> bool {
    let q = ident_end(s, p);
    p < q && q <= end && match word_of(s.subrange(p, q)) {
        Some(w) => w.spec_is_keyword(),
        None => false,
    }
}

/// Comment token `k` reads like code: a line comment that starts with a keyword
/// or ends with `;`, `{` or `}`, or a block comment holding `;` or `{`.
pub open spec fn code_like(src: Seq<u8>, toks: Seq<Token>, k: int) -> bool {
    0 <= k < toks.len() && {
        let t = toks[k];
        let body = if t.span.start + 2 <= t.span.end {
            t.span.start + 2
        } else {
            t.span.end as int
        };
        (t.kind == TokenKind::LineComment && (starts_like_code(
            src,
            skip_blank(src, body, t.span.end as int),
            t.span.end as int,
        ) || ends_like_code(src, body, t.span.end as int))) || (t.kind == TokenKind::BlockComment && (
        occurs_in(src, t.span, seq![SEMI]) || occurs_in(src, t.span, seq![LBRACE])))
    }
}

/// Line comment `k` carries on the code-like run of the comment before it.
pub open spec fn continues_run(src: Seq<u8>, toks: Seq<Token>, k: int) -> bool {
    k >= 1 && k < toks.len() && toks[k].kind == TokenKind::LineComment && toks[k - 1].kind
        == TokenKind::LineComment && code_like(src, toks, k - 1) && code_like(src, toks, k)
}

/// The last comment of the run that starts at `k`.
pub open spec fn run_last(src: Seq<u8>, toks: Seq<Token>, k: int) -> int
    decreases toks.len() - k,
{
    if 0 <= k && k + 1 < toks.len() && continues_run(src, toks, k + 1) {
        run_last(src, toks, k + 1)
    } else {
        k
    }
}

/// One finding per run of code-like comments, spanning the run.
pub open spec fn commented_at(src: Seq<u8>, toks: Seq<Token>, k: int) -> Option<Finding> {
    if code_like(src, toks, k) && !continues_run(src, toks, k) {
        Some(
            finding(
                Issue::CommentedCode,
                Span { start: toks[k].span.start, end: toks[run_last(src, toks, k)].span.end },
            ),
        )
    } else {
        None
    }
}

pub fn exec_skip_blank(s: &[u8], i: usize, end: usize) -> (r: usize)
    requires
        end <= s@.len(),
    ensures
        r == skip_blank(s@, i as int, end as int),
{
    let mut j = i;
    while j < end && (s[j] == SPACE || s[j] == TAB || s[j] == CR)
        invariant
            i <= j,
            end <= s@.len(),
            skip_blank(s@, j as int, end as int) == skip_blank(s@, i as int, end as int),
        decreases end - j,
    {
        j = j + 1;
    }
    j
}

fn exec_ends_like_code(s: &[u8], lo: usize, hi: usize) -> (r: bool)
    requires
        hi <= s@.len(),
    ensures
        r == ends_like_code(s@, lo as int, hi as int),
{
    let mut h = hi;
    while h > lo && (s[h - 1] == SPACE || s[h - 1] == TAB || s[h - 1] == CR)
        invariant
            h <= hi <= s@.len(),
            ends_like_code(s@, lo as int, h as int) == ends_like_code(s@, lo as int, hi as int),
        decreases h,
    {
        h = h - 1;
    }
    if h <= lo {
        return false;
    }
    let b = s[h - 1];
    b == SEMI || b == LBRACE || b == RBRACE
}

fn exec_starts_like_code(s: &[u8], p: usize, end: usize) -> (r: bool)
    requires
        end <= s@.len(),
    ensures
        r == starts_like_code(s@, p as int, end as int),
{
    if p > s.len() {
        return false;
    }
    let mut q = p;
    while q < s.len() && crate::lexer::byte_is_ident_continue(s[q])
        invariant
            p <= q <= s@.len(),
            ident_end(s@, q as int) == ident_end(s@, p as int),
        decreases s.len() - q,
    {
        q = q + 1;
    }
    if !(p < q && q <= end) {
        return false;
    }
    match word_at(s, Span { start: p, end: q }) {
        Some(w) => w.is_keyword(),
        None => false,
    }
}

pub fn is_code_like(src: &[u8], toks: &Vec<Token>, k: usize) -> (r: bool)
    requires
        tokens_wf(toks@, src@.len() as int),
    ensures
        r == code_like(src@, toks@, k as int),
{
    if k >= toks.len() {
        return false;
    }
    let t = toks[k];
    let body = if t.span.end - t.span.start >= 2 {
        t.span.start + 2
    } else {
        t.span.end
    };
    if t.kind == TokenKind::LineComment {
        let p = exec_skip_blank(src, body, t.span.end);
        exec_starts_like_code(src, p, t.span.end) || exec_ends_like_code(src, body, t.span.end)
    } else if t.kind == TokenKind::BlockComment {
        let semi: Vec<u8> = vec![SEMI];
        let brace: Vec<u8> = vec![LBRACE];
        proof {
            assert(semi@ =~= seq![SEMI]);
            assert(brace@ =~= seq![LBRACE]);
        }
        span_contains(src, t.span, &semi) || span_contains(src, t.span, &brace)
    } else {
        false
    }
}

fn exec_continues_run(src: &[u8], toks: &Vec<Token>, k: usize) -> (r: bool)
    requires
        tokens_wf(toks@, src@.len() as int),
    ensures
        r == continues_run(src@, toks@, k as int),
{
    k >= 1 && k < toks.len() && toks[k].kind == TokenKind::LineComment && toks[k - 1].kind
        == TokenKind::LineComment && is_code_like(src, toks, k - 1) && is_code_like(src, toks, k)
}

/// Comments that read like code; a run of such line comments gives one finding.
pub fn commented_code_rule(src: &[u8], toks: &Vec<Token>) -> (r: Vec<Finding>)
    requires
        tokens_wf(toks@, src@.len() as int),
    ensures
        r@ == collect(|k: int| commented_at(src@, toks@, k), toks@.len() as int),
{
    let ghost f = |k: int| commented_at(src@, toks@, k);
    let mut out: Vec<Finding> = Vec::new();
    let mut k: usize = 0;
    while k < toks.len()
        invariant
            k <= toks@.len(),
            tokens_wf(toks@, src@.len() as int),
            f == (|k: int| commented_at(src@, toks@, k)),
            out@ == collect(f, k as int),
        decreases toks.len() - k,
    {
        proof {
            lemma_collect_step(f, k as int, out@);
        }
        if is_code_like(src, toks, k) && !exec_continues_run(src, toks, k) {
            let mut q = k;
            while q + 1 < toks.len() && exec_continues_run(src, toks, q + 1)
                invariant
                    k <= q < toks@.len(),
                    tokens_wf(toks@, src@.len() as int),
                    run_last(src@, toks@, q as int) == run_last(src@, toks@, k as int),
                decreases toks.len() - q,
            {
                q = q + 1;
            }
            out.push(Finding::new(Issue::CommentedCode, Span { start: toks[k].span.start, end: toks[q].span.end }));
        }
        k = k + 1;
    }
    out
}

} // verus!
