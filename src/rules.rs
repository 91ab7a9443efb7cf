use vstd::prelude::*;
use crate::span::Span;
use crate::lexer::{Token, TokenKind, tokens_wf, DOT, BANG, STAR};
use crate::words::{Word, word_at, word_of, text, text_eq};
use crate::tree::{Node, NodeKind, tree_wf, LPAREN, LBRACKET, RBRACKET, RPAREN};
use crate::finding::{Finding, Issue, finding};
use crate::config::{Case, Config};

verus! {

pub const EQ: u8 = 61;

// ---------------------------------------------------------------------------
// Token queries

/// Token `k` exists and is the one-byte punctuation `b`.
pub open spec fn punct_at(src: Seq<u8>, toks: Seq<Token>, k: int, b: u8) -> bool {
    0 <= k < toks.len() && toks[k].kind == TokenKind::Punct && src[toks[k].span.start as int] == b
}

/// The word that token `k` spells, if it is an identifier.
pub open spec fn word_at_tok(src: Seq<u8>, toks: Seq<Token>, k: int) -> Option<Word> {
    if 0 <= k < toks.len() && toks[k].kind == TokenKind::Ident {
        word_of(text(src, toks[k].span))
    } else {
        None
    }
}

pub fn tok_punct(src: &[u8], toks: &Vec<Token>, k: usize, b: u8) -> (r: bool)
    requires
        tokens_wf(toks@, src@.len() as int),
    ensures
        r == punct_at(src@, toks@, k as int, b),
{
    k < toks.len() && toks[k].kind == TokenKind::Punct && src[toks[k].span.start] == b
}

pub fn tok_word(src: &[u8], toks: &Vec<Token>, k: usize) -> (r: Option<Word>)
    requires
        tokens_wf(toks@, src@.len() as int),
    ensures
        r == word_at_tok(src@, toks@, k as int),
{
    if k < toks.len() && toks[k].kind == TokenKind::Ident {
        word_at(src, toks[k].span)
    } else {
        None
    }
}

/// Token `k` lies within a node that is test code.
pub open spec fn in_test(nodes: Seq<Node>, k: int) -> bool {
    exists|m: int|
        0 <= m < nodes.len() && (#[trigger] nodes[m]).is_test && nodes[m].first_tok <= k
            < nodes[m].end_tok
}

/// Token `k` lies within a constant or static declaration.
pub open spec fn in_constant(nodes: Seq<Node>, k: int) -> bool {
    exists|m: int|
        0 <= m < nodes.len() && ((#[trigger] nodes[m]).kind == NodeKind::Const || nodes[m].kind
            == NodeKind::Static) && nodes[m].first_tok <= k < nodes[m].end_tok
}

pub fn tok_in_test(nodes: &Vec<Node>, k: usize) -> (r: bool)
    ensures
        r == in_test(nodes@, k as int),
{
    let mut m: usize = 0;
    while m < nodes.len()
        invariant
            m <= nodes@.len(),
            forall|j: int|
                0 <= j < m ==> !((#[trigger] nodes@[j]).is_test && nodes@[j].first_tok <= k
                    < nodes@[j].end_tok),
        decreases nodes.len() - m,
    {
        let nd = nodes[m];
        if nd.is_test && nd.first_tok <= k && k < nd.end_tok {
            return true;
        }
        m = m + 1;
    }
    false
}

pub fn tok_in_constant(nodes: &Vec<Node>, k: usize) -> (r: bool)
    ensures
        r == in_constant(nodes@, k as int),
{
    let mut m: usize = 0;
    while m < nodes.len()
        invariant
            m <= nodes@.len(),
            forall|j: int|
                0 <= j < m ==> !(((#[trigger] nodes@[j]).kind == NodeKind::Const || nodes@[j].kind
                    == NodeKind::Static) && nodes@[j].first_tok <= k < nodes@[j].end_tok),
        decreases nodes.len() - m,
    {
        let nd = nodes[m];
        if (nd.kind == NodeKind::Const || nd.kind == NodeKind::Static) && nd.first_tok <= k && k
            < nd.end_tok {
            return true;
        }
        m = m + 1;
    }
    false
}

// ---------------------------------------------------------------------------
// Magic numbers

pub open spec fn is_allowed_number(t: Seq<u8>, allowed: Seq<Vec<u8>>) -> bool {
    exists|a: int| 0 <= a < allowed.len() && (#[trigger] allowed[a])@ == t
}

/// Token `k` is the index of an indexing expression, as in `xs[2]`.
pub open spec fn is_index_literal(src: Seq<u8>, toks: Seq<Token>, k: int) -> bool {
    &&& punct_at(src, toks, k - 1, LBRACKET)
    &&& punct_at(src, toks, k + 1, RBRACKET)
    &&& k >= 2
    &&& (toks[k - 2].kind == TokenKind::Ident || punct_at(src, toks, k - 2, RPAREN) || punct_at(
        src,
        toks,
        k - 2,
        RBRACKET,
    ))
}

pub open spec fn is_magic(
    src: Seq<u8>,
    toks: Seq<Token>,
    nodes: Seq<Node>,
    allowed: Seq<Vec<u8>>,
    k: int,
) -> bool {
    &&& toks[k].kind == TokenKind::Number
    &&& !is_allowed_number(text(src, toks[k].span), allowed)
    &&& !in_constant(nodes, k)
    &&& !is_index_literal(src, toks, k)
}

/// Findings of the magic-number rule among the first `n` tokens.
pub open spec fn magic_findings(
    src: Seq<u8>,
    toks: Seq<Token>,
    nodes: Seq<Node>,
    allowed: Seq<Vec<u8>>,
    n: int,
) -> Seq<Finding>
    decreases n,
{
    if n <= 0 {
        Seq::empty()
    } else {
        magic_findings(src, toks, nodes, allowed, n - 1) + if is_magic(
            src,
            toks,
            nodes,
            allowed,
            n - 1,
        ) {
            seq![finding(Issue::MagicNumber, toks[n - 1].span)]
        } else {
            Seq::empty()
        }
    }
}

fn number_allowed(src: &[u8], sp: Span, allowed: &Vec<Vec<u8>>) -> (r: bool)
    requires
        sp.start <= sp.end <= src@.len(),
    ensures
        r == is_allowed_number(text(src@, sp), allowed@),
{
    let mut a: usize = 0;
    while a < allowed.len()
        invariant
            sp.start <= sp.end <= src@.len(),
            a <= allowed@.len(),
            forall|j: int| 0 <= j < a ==> (#[trigger] allowed@[j])@ != text(src@, sp),
        decreases allowed.len() - a,
    {
        if text_eq(src, sp, &allowed[a]) {
            return true;
        }
        a = a + 1;
    }
    false
}

/// Numeric literals outside the allow-list, outside constant and static
/// declarations, and not used as an index.
pub fn magic_number_rule(
    src: &[u8],
    toks: &Vec<Token>,
    nodes: &Vec<Node>,
    allowed: &Vec<Vec<u8>>,
) -> (r: Vec<Finding>)
    requires
        tokens_wf(toks@, src@.len() as int),
    ensures
        r@ == magic_findings(src@, toks@, nodes@, allowed@, toks@.len() as int),
{
    let mut out: Vec<Finding> = Vec::new();
    let mut k: usize = 0;
    while k < toks.len()
        invariant
            k <= toks@.len(),
            tokens_wf(toks@, src@.len() as int),
            out@ == magic_findings(src@, toks@, nodes@, allowed@, k as int),
        decreases toks.len() - k,
    {
        let t = toks[k];
        let index = k >= 2 && tok_punct(src, toks, k - 1, LBRACKET) && tok_punct(src, toks, k + 1, RBRACKET)
            && (toks[k - 2].kind == TokenKind::Ident || tok_punct(src, toks, k - 2, RPAREN)
            || tok_punct(src, toks, k - 2, RBRACKET));
        let ghost before = out@;
        if t.kind == TokenKind::Number && !number_allowed(src, t.span, allowed) && !tok_in_constant(
            nodes,
            k,
        ) && !index {
            out.push(Finding::new(Issue::MagicNumber, t.span));
        }
        proof {
            assert(is_index_literal(src@, toks@, k as int) == index);
            assert(out@ =~= magic_findings(src@, toks@, nodes@, allowed@, k + 1));
        }
        k = k + 1;
    }
    out
}

/// Each magic-number finding among the first `n` tokens stands at a token
/// that the rule flags.
pub proof fn lemma_magic_findings_at_flagged(
    src: Seq<u8>,
    toks: Seq<Token>,
    nodes: Seq<Node>,
    allowed: Seq<Vec<u8>>,
    n: int,
)
    requires
        0 <= n <= toks.len(),
    ensures
        forall|i: int|
            #![trigger magic_findings(src, toks, nodes, allowed, n)[i]]
            0 <= i < magic_findings(src, toks, nodes, allowed, n).len() ==> exists|k: int|
                #![trigger is_magic(src, toks, nodes, allowed, k)]
                0 <= k < n && is_magic(src, toks, nodes, allowed, k)
                    && magic_findings(src, toks, nodes, allowed, n)[i].span == toks[k].span,
    decreases n,
{
    if n > 0 {
        lemma_magic_findings_at_flagged(src, toks, nodes, allowed, n - 1);
        let prev = magic_findings(src, toks, nodes, allowed, n - 1);
        let all = magic_findings(src, toks, nodes, allowed, n);
        assert forall|i: int| 0 <= i < all.len() implies exists|k: int|
            #![trigger is_magic(src, toks, nodes, allowed, k)]
            0 <= k < n && is_magic(src, toks, nodes, allowed, k) && (#[trigger] all[i]).span == toks[k].span by {
            if i < prev.len() {
                assert(all[i] == prev[i]);
                let k = choose|k: int| 0 <= k < n - 1 && is_magic(src, toks, nodes, allowed, k) && prev[i].span == toks[k].span;
                assert(0 <= k < n);
            } else {
                assert(is_magic(src, toks, nodes, allowed, n - 1) && all[i].span == toks[n - 1].span);
            }
        }
    }
}

/// With `0` and `1` on the allow-list (as in the standard configuration), no
/// magic-number finding ever stands at a literal `0` or `1`.
pub proof fn lemma_zero_and_one_never_magic(
    src: Seq<u8>,
    toks: Seq<Token>,
    nodes: Seq<Node>,
    allowed: Seq<Vec<u8>>,
)
    requires
        tokens_wf(toks, src.len() as int),
        exists|a: int| 0 <= a < allowed.len() && (#[trigger] allowed[a])@ == seq![48u8],
        exists|a: int| 0 <= a < allowed.len() && (#[trigger] allowed[a])@ == seq![49u8],
    ensures
        forall|i: int|
            #![trigger magic_findings(src, toks, nodes, allowed, toks.len() as int)[i]]
            0 <= i < magic_findings(src, toks, nodes, allowed, toks.len() as int).len() ==> {
                let t = text(src, magic_findings(src, toks, nodes, allowed, toks.len() as int)[i].span);
                t != seq![48u8] && t != seq![49u8]
            },
{
    let n = toks.len() as int;
    lemma_magic_findings_at_flagged(src, toks, nodes, allowed, n);
    let fs = magic_findings(src, toks, nodes, allowed, n);
    assert forall|i: int| 0 <= i < fs.len() implies {
        let t = text(src, #[trigger] fs[i].span);
        t != seq![48u8] && t != seq![49u8]
    } by {
        let k = choose|k: int| 0 <= k < n && is_magic(src, toks, nodes, allowed, k) && fs[i].span == toks[k].span;
        assert(!is_allowed_number(text(src, toks[k].span), allowed));
    }
}

// ---------------------------------------------------------------------------
// Collecting per-position findings

/// The findings that `f` gives for positions `0 .. n`, in order.
pub open spec fn collect(f: spec_fn(int) -> Option<Finding>, n: int) -> Seq<Finding>
    decreases n,
{
    if n <= 0 {
        Seq::empty()
    } else {
        collect(f, n - 1) + match f(n - 1) {
            Some(x) => seq![x],
            None => Seq::empty(),
        }
    }
}

pub proof fn lemma_collect_step(f: spec_fn(int) -> Option<Finding>, n: int, out: Seq<Finding>)
    requires
        n >= 0,
        out == collect(f, n),
    ensures
        f(n) matches Some(x) ==> out.push(x) == collect(f, n + 1),
        f(n) is None ==> out == collect(f, n + 1),
{
    if let Some(x) = f(n) {
        assert(out.push(x) =~= collect(f, n + 1));
    } else {
        assert(out =~= collect(f, n + 1));
    }
}

// ---------------------------------------------------------------------------
// Error handling

/// Token `k` is the identifier `_`.
pub open spec fn is_underscore(src: Seq<u8>, toks: Seq<Token>, k: int) -> bool {
    0 <= k < toks.len() && toks[k].kind == TokenKind::Ident && text(src, toks[k].span) == seq![95u8]
}

pub open spec fn is_panic_word(w: Option<Word>) -> bool {
    w == Some(Word::Panic) || w == Some(Word::Todo) || w == Some(Word::Unimplemented) || w == Some(
        Word::Unreachable,
    )
}

/// What the error-handling rule reports at token `k`: `.unwrap(` and
/// `.expect(` calls, panicking macros outside test code, and `let _ =`.
pub open spec fn error_at(src: Seq<u8>, toks: Seq<Token>, nodes: Seq<Node>, k: int) -> Option<Finding> {
    let w = word_at_tok(src, toks, k);
    if (w == Some(Word::Unwrap) || w == Some(Word::Expect)) && punct_at(src, toks, k - 1, DOT)
        && punct_at(src, toks, k + 1, LPAREN) {
        Some(finding(Issue::Unwrap, toks[k].span))
    } else if is_panic_word(w) && punct_at(src, toks, k + 1, BANG) && !in_test(nodes, k) {
        Some(finding(Issue::PanicCall, toks[k].span))
    } else if w == Some(Word::Let) && is_underscore(src, toks, k + 1) && punct_at(src, toks, k + 2, EQ) {
        Some(finding(Issue::DiscardedResult, toks[k + 1].span))
    } else {
        None
    }
}

fn tok_underscore(src: &[u8], toks: &Vec<Token>, k: usize) -> (r: bool)
    requires
        tokens_wf(toks@, src@.len() as int),
    ensures
        r == is_underscore(src@, toks@, k as int),
{
    if k < toks.len() && toks[k].kind == TokenKind::Ident {
        let sp = toks[k].span;
        if sp.end - sp.start == 1 && src[sp.start] == 95 {
            assert(text(src@, sp) =~= seq![95u8]);
            true
        } else {
            assert(text(src@, sp).len() != 1 || text(src@, sp)[0] != 95u8);
            false
        }
    } else {
        false
    }
}

/// Forced unwraps, panicking macros outside test code, and discarded values.
pub fn error_handling_rule(src: &[u8], toks: &Vec<Token>, nodes: &Vec<Node>) -> (r: Vec<Finding>)
    requires
        tokens_wf(toks@, src@.len() as int),
    ensures
        r@ == collect(|k: int| error_at(src@, toks@, nodes@, k), toks@.len() as int),
{
    let ghost f = |k: int| error_at(src@, toks@, nodes@, k);
    let mut out: Vec<Finding> = Vec::new();
    let mut k: usize = 0;
    while k < toks.len()
        invariant
            k <= toks@.len(),
            tokens_wf(toks@, src@.len() as int),
            f == (|k: int| error_at(src@, toks@, nodes@, k)),
            out@ == collect(f, k as int),
        decreases toks.len() - k,
    {
        proof {
            lemma_collect_step(f, k as int, out@);
        }
        let w = tok_word(src, toks, k);
        if (w == Some(Word::Unwrap) || w == Some(Word::Expect)) && k > 0 && tok_punct(src, toks, k - 1, DOT)
            && tok_punct(src, toks, k + 1, LPAREN) {
            out.push(Finding::new(Issue::Unwrap, toks[k].span));
        } else if (w == Some(Word::Panic) || w == Some(Word::Todo) || w == Some(Word::Unimplemented)
            || w == Some(Word::Unreachable)) && tok_punct(src, toks, k + 1, BANG) && !tok_in_test(nodes, k) {
            out.push(Finding::new(Issue::PanicCall, toks[k].span));
        } else if w == Some(Word::Let) && tok_underscore(src, toks, k + 1) && tok_punct(src, toks, k + 2, EQ) {
            out.push(Finding::new(Issue::DiscardedResult, toks[k + 1].span));
        }
        k = k + 1;
    }
    out
}

// ---------------------------------------------------------------------------
// Unsafe code

/// `pat` occurs in `src` within `sp`.
pub open spec fn occurs_in(src: Seq<u8>, sp: Span, pat: Seq<u8>) -> bool {
    exists|p: int|
        sp.start <= p && p + pat.len() <= sp.end && #[trigger] src.subrange(p, p + pat.len()) == pat
}

pub fn span_contains(src: &[u8], sp: Span, pat: &Vec<u8>) -> (r: bool)
    requires
        sp.start <= sp.end <= src@.len(),
    ensures
        r == occurs_in(src@, sp, pat@),
{
    if pat.len() > sp.end - sp.start {
        return false;
    }
    if pat.len() == 0 {
        assert(src@.subrange(sp.start as int, sp.start as int + pat@.len()) =~= pat@);
        return true;
    }
    let mut p = sp.start;
    while pat.len() <= sp.end - p
        invariant
            sp.start <= p <= sp.end,
            pat@.len() >= 1,
            sp.start <= sp.end <= src@.len(),
            pat@.len() <= sp.end - sp.start,
            forall|q: int| sp.start <= q < p ==> #[trigger] src@.subrange(q, q + pat@.len()) != pat@,
        decreases sp.end - p,
    {
        if text_eq(src, Span { start: p, end: p + pat.len() }, pat) {
            return true;
        }
        p = p + 1;
    }
    false
}

pub open spec fn safety_upper() -> Seq<u8> {
    seq![83u8, 65u8, 70u8, 69u8, 84u8, 89u8]  // SAFETY
}

pub open spec fn safety_title() -> Seq<u8> {
    seq![83u8, 97u8, 102u8, 101u8, 116u8, 121u8]  // Safety
}

/// Token `k` is a comment that mentions safety.
pub open spec fn is_safety_note(src: Seq<u8>, toks: Seq<Token>, k: int) -> bool {
    0 <= k < toks.len() && toks[k].kind.spec_is_comment() && (occurs_in(src, toks[k].span, safety_upper())
        || occurs_in(src, toks[k].span, safety_title()))
}

fn tok_safety_note(src: &[u8], toks: &Vec<Token>, k: usize) -> (r: bool)
    requires
        tokens_wf(toks@, src@.len() as int),
    ensures
        r == is_safety_note(src@, toks@, k as int),
{
    if k < toks.len() && toks[k].kind.is_comment() {
        let upper: Vec<u8> = vec![83, 65, 70, 69, 84, 89];
        let title: Vec<u8> = vec![83, 97, 102, 101, 116, 121];
        proof {
            assert(upper@ =~= safety_upper());
            assert(title@ =~= safety_title());
        }
        span_contains(src, toks[k].span, &upper) || span_contains(src, toks[k].span, &title)
    } else {
        false
    }
}

/// Token `i` ends or opens a statement: `;`, `{` or `}`.
pub open spec fn is_boundary(src: Seq<u8>, toks: Seq<Token>, i: int) -> bool {
    punct_at(src, toks, i, crate::tree::SEMI) || punct_at(src, toks, i, crate::tree::LBRACE)
        || punct_at(src, toks, i, crate::tree::RBRACE)
}

/// A comment that mentions safety stands before token `k` within the same
/// statement.
pub open spec fn has_safety_note(src: Seq<u8>, toks: Seq<Token>, k: int) -> bool {
    exists|j: int|
        0 <= j < k && #[trigger] is_safety_note(src, toks, j) && forall|i: int|
            j < i < k ==> !#[trigger] is_boundary(src, toks, i)
}

/// The `unsafe` keyword at `k` with no comment mentioning safety before it in
/// its statement.
pub open spec fn unsafe_at(src: Seq<u8>, toks: Seq<Token>, k: int) -> Option<Finding> {
    if word_at_tok(src, toks, k) == Some(Word::Unsafe) && !has_safety_note(src, toks, k) {
        Some(finding(Issue::UnsafeWithoutSafetyComment, toks[k].span))
    } else {
        None
    }
}

fn safety_noted(src: &[u8], toks: &Vec<Token>, k: usize) -> (r: bool)
    requires
        tokens_wf(toks@, src@.len() as int),
        k <= toks@.len(),
    ensures
        r == has_safety_note(src@, toks@, k as int),
{
    let mut j = k;
    while j > 0
        invariant
            j <= k <= toks@.len(),
            tokens_wf(toks@, src@.len() as int),
            forall|i: int| j <= i < k ==> !#[trigger] is_boundary(src@, toks@, i),
            forall|i: int| j <= i < k ==> !#[trigger] is_safety_note(src@, toks@, i),
        decreases j,
    {
        let i = j - 1;
        if tok_safety_note(src, toks, i) {
            assert(is_safety_note(src@, toks@, i as int));
            return true;
        }
        if tok_punct(src, toks, i, crate::tree::SEMI) || tok_punct(src, toks, i, crate::tree::LBRACE)
            || tok_punct(src, toks, i, crate::tree::RBRACE) {
            proof {
                assert forall|q: int| 0 <= q < k && #[trigger] is_safety_note(src@, toks@, q) implies !(forall|m: int|
                    q < m < k ==> !#[trigger] is_boundary(src@, toks@, m)) by {
                    assert(q < i);
                    assert(is_boundary(src@, toks@, i as int));
                }
            }
            return false;
        }
        j = i;
    }
    false
}

/// Token `j` is an operation that may need `unsafe`: a dereference, a call, or a
/// method or field access.
pub open spec fn is_unsafe_op(src: Seq<u8>, toks: Seq<Token>, j: int) -> bool {
    punct_at(src, toks, j, STAR) || punct_at(src, toks, j, LPAREN) || punct_at(src, toks, j, DOT)
}

/// An `unsafe` block whose body holds no dereference, call or access.
pub open spec fn needless_unsafe_at(src: Seq<u8>, toks: Seq<Token>, nodes: Seq<Node>, m: int) -> Option<Finding> {
    let nd = nodes[m];
    if nd.kind == NodeKind::Unsafe && nd.body is Some && forall|j: int|
        nd.body.unwrap() < j < nd.end_tok ==> !#[trigger] is_unsafe_op(src, toks, j) {
        Some(finding(Issue::NeedlessUnsafe, nd.span))
    } else {
        None
    }
}

/// `unsafe` without a safety comment, then needless `unsafe` blocks.
pub fn unsafe_rule(src: &[u8], toks: &Vec<Token>, nodes: &Vec<Node>) -> (r: (Vec<Finding>, Vec<Finding>))
    requires
        tokens_wf(toks@, src@.len() as int),
        tree_wf(nodes@, src@.len() as int, toks@.len() as int),
    ensures
        r.0@ == collect(|k: int| unsafe_at(src@, toks@, k), toks@.len() as int),
        r.1@ == collect(|m: int| needless_unsafe_at(src@, toks@, nodes@, m), nodes@.len() as int),
{
    let ghost f = |k: int| unsafe_at(src@, toks@, k);
    let mut out: Vec<Finding> = Vec::new();
    let mut k: usize = 0;
    while k < toks.len()
        invariant
            k <= toks@.len(),
            tokens_wf(toks@, src@.len() as int),
            f == (|k: int| unsafe_at(src@, toks@, k)),
            out@ == collect(f, k as int),
        decreases toks.len() - k,
    {
        proof {
            lemma_collect_step(f, k as int, out@);
        }
        if tok_word(src, toks, k) == Some(Word::Unsafe) {
            if !safety_noted(src, toks, k) {
                out.push(Finding::new(Issue::UnsafeWithoutSafetyComment, toks[k].span));
            }
        }
        k = k + 1;
    }
    let ghost g = |m: int| needless_unsafe_at(src@, toks@, nodes@, m);
    let mut out2: Vec<Finding> = Vec::new();
    let mut m: usize = 0;
    while m < nodes.len()
        invariant
            m <= nodes@.len(),
            tokens_wf(toks@, src@.len() as int),
            tree_wf(nodes@, src@.len() as int, toks@.len() as int),
            g == (|m: int| needless_unsafe_at(src@, toks@, nodes@, m)),
            out2@ == collect(g, m as int),
        decreases nodes.len() - m,
    {
        proof {
            lemma_collect_step(g, m as int, out2@);
        }
        let nd = nodes[m];
        assert(crate::tree::node_ok(nodes@[m as int], src@.len() as int, toks@.len() as int));
        if nd.kind == NodeKind::Unsafe {
            if let Some(b) = nd.body {
                let mut j = b + 1;
                let mut found = false;
                let mut w = b;
                while j < nd.end_tok
                    invariant
                        b < j <= nd.end_tok,
                        nd.end_tok <= toks@.len(),
                        tokens_wf(toks@, src@.len() as int),
                        !found ==> forall|q: int| b < q < j ==> !#[trigger] is_unsafe_op(src@, toks@, q),
                        found ==> b < w < nd.end_tok && is_unsafe_op(src@, toks@, w as int),
                    decreases nd.end_tok - j,
                {
                    if tok_punct(src, toks, j, STAR) || tok_punct(src, toks, j, LPAREN) || tok_punct(src, toks, j, DOT) {
                        found = true;
                        w = j;
                    }
                    j = j + 1;
                }
                if !found {
                    assert(forall|q: int| b < q < nd.end_tok ==> !#[trigger] is_unsafe_op(src@, toks@, q));
                    assert(needless_unsafe_at(src@, toks@, nodes@, m as int) == Some(finding(Issue::NeedlessUnsafe, nd.span)));
                    out2.push(Finding::new(Issue::NeedlessUnsafe, nd.span));
                } else {
                    assert(is_unsafe_op(src@, toks@, w as int));
                    assert(needless_unsafe_at(src@, toks@, nodes@, m as int) is None);
                }
            }
        }
        m = m + 1;
    }
    (out, out2)
}

// ---------------------------------------------------------------------------
// Naming

pub open spec fn is_lower(b: u8) -> bool {
    97 <= b <= 122
}

pub open spec fn is_upper(b: u8) -> bool {
    65 <= b <= 90
}

pub open spec fn is_dec(b: u8) -> bool {
    48 <= b <= 57
}

/// `t` is written in case `c`.
pub open spec fn has_case(t: Seq<u8>, c: Case) -> bool {
    t.len() > 0 && match c {
        Case::Snake => forall|i: int| 0 <= i < t.len() ==> is_lower(#[trigger] t[i]) || is_dec(t[i]) || t[i] == 95,
        Case::Screaming => forall|i: int| 0 <= i < t.len() ==> is_upper(#[trigger] t[i]) || is_dec(t[i]) || t[i] == 95,
        Case::Pascal => is_upper(t[0]) && forall|i: int|
            0 <= i < t.len() ==> is_upper(#[trigger] t[i]) || is_lower(t[i]) || is_dec(t[i]),
    }
}

fn byte_fits(b: u8, c: Case) -> (r: bool)
    ensures
        r == match c {
            Case::Snake => is_lower(b) || is_dec(b) || b == 95,
            Case::Screaming => is_upper(b) || is_dec(b) || b == 95,
            Case::Pascal => is_upper(b) || is_lower(b) || is_dec(b),
        },
{
    let lower = 97 <= b && b <= 122;
    let upper = 65 <= b && b <= 90;
    let dec = 48 <= b && b <= 57;
    match c {
        Case::Snake => lower || dec || b == 95,
        Case::Screaming => upper || dec || b == 95,
        Case::Pascal => upper || lower || dec,
    }
}

/// Whether the name under `sp` is written in case `c`.
pub fn name_has_case(src: &[u8], sp: Span, c: Case) -> (r: bool)
    requires
        sp.start <= sp.end <= src@.len(),
    ensures
        r == has_case(text(src@, sp), c),
{
    let ghost t = text(src@, sp);
    if sp.start == sp.end {
        return false;
    }
    if c == Case::Pascal && !(65 <= src[sp.start] && src[sp.start] <= 90) {
        return false;
    }
    let mut i = sp.start;
    while i < sp.end
        invariant
            sp.start <= i <= sp.end <= src@.len(),
            t == text(src@, sp),
            forall|q: int| 0 <= q < i - sp.start ==> match c {
                Case::Snake => is_lower(#[trigger] t[q]) || is_dec(t[q]) || t[q] == 95,
                Case::Screaming => is_upper(#[trigger] t[q]) || is_dec(t[q]) || t[q] == 95,
                Case::Pascal => is_upper(#[trigger] t[q]) || is_lower(t[q]) || is_dec(t[q]),
            },
        decreases sp.end - i,
    {
        if !byte_fits(src[i], c) {
            assert(t[i - sp.start] == src@[i as int]);
            return false;
        }
        i = i + 1;
    }
    true
}

/// The case a declaration of kind `k` must be written in, if it is checked.
pub open spec fn case_for(cfg: Config, k: NodeKind) -> Option<Case> {
    match k {
        NodeKind::Function | NodeKind::Module => Some(cfg.function_case),
        NodeKind::Struct | NodeKind::Enum | NodeKind::Trait | NodeKind::TypeAlias => Some(cfg.type_case),
        NodeKind::Const | NodeKind::Static => Some(cfg.constant_case),
        NodeKind::Field => Some(cfg.variable_case),
        _ => None,
    }
}

fn exec_case_for(cfg: &Config, k: NodeKind) -> (r: Option<Case>)
    ensures
        r == case_for(*cfg, k),
{
    match k {
        NodeKind::Function | NodeKind::Module => Some(cfg.function_case),
        NodeKind::Struct | NodeKind::Enum | NodeKind::Trait | NodeKind::TypeAlias => Some(cfg.type_case),
        NodeKind::Const | NodeKind::Static => Some(cfg.constant_case),
        NodeKind::Field => Some(cfg.variable_case),
        _ => None,
    }
}

/// A declared name that breaks the convention for its kind, reported at the name.
pub open spec fn bad_decl_name_at(src: Seq<u8>, nodes: Seq<Node>, cfg: Config, m: int) -> Option<Finding> {
    let nd = nodes[m];
    if nd.name is Some && case_for(cfg, nd.kind) is Some && !has_case(
        text(src, nd.name.unwrap()),
        case_for(cfg, nd.kind).unwrap(),
    ) {
        Some(finding(Issue::BadName, nd.name.unwrap()))
    } else {
        None
    }
}

/// Index of the name bound by a `let` at `k`.
pub open spec fn let_name_index(src: Seq<u8>, toks: Seq<Token>, k: int) -> int {
    if word_at_tok(src, toks, k + 1) == Some(Word::Mut) {
        k + 2
    } else {
        k + 1
    }
}

/// A variable bound by `let` whose name breaks the variable convention.
pub open spec fn bad_let_name_at(src: Seq<u8>, toks: Seq<Token>, cfg: Config, k: int) -> Option<Finding> {
    let q = let_name_index(src, toks, k);
    if word_at_tok(src, toks, k) == Some(Word::Let) && 0 <= q < toks.len() && toks[q].kind
        == TokenKind::Ident && word_at_tok(src, toks, q) is None && !has_case(
        text(src, toks[q].span),
        cfg.variable_case,
    ) {
        Some(finding(Issue::BadName, toks[q].span))
    } else {
        None
    }
}

/// Declarations, then `let` bindings, whose names break the configured
/// convention for their kind.
pub fn naming_rule(src: &[u8], toks: &Vec<Token>, nodes: &Vec<Node>, cfg: &Config) -> (r: (Vec<Finding>, Vec<Finding>))
    requires
        tokens_wf(toks@, src@.len() as int),
        tree_wf(nodes@, src@.len() as int, toks@.len() as int),
    ensures
        r.0@ == collect(|m: int| bad_decl_name_at(src@, nodes@, *cfg, m), nodes@.len() as int),
        r.1@ == collect(|k: int| bad_let_name_at(src@, toks@, *cfg, k), toks@.len() as int),
{
    let ghost g = |m: int| bad_decl_name_at(src@, nodes@, *cfg, m);
    let mut out: Vec<Finding> = Vec::new();
    let mut m: usize = 0;
    while m < nodes.len()
        invariant
            m <= nodes@.len(),
            tree_wf(nodes@, src@.len() as int, toks@.len() as int),
            g == (|m: int| bad_decl_name_at(src@, nodes@, *cfg, m)),
            out@ == collect(g, m as int),
        decreases nodes.len() - m,
    {
        proof {
            lemma_collect_step(g, m as int, out@);
        }
        let nd = nodes[m];
        assert(crate::tree::node_ok(nodes@[m as int], src@.len() as int, toks@.len() as int));
        if let Some(sp) = nd.name {
            if let Some(c) = exec_case_for(cfg, nd.kind) {
                if !name_has_case(src, sp, c) {
                    out.push(Finding::new(Issue::BadName, sp));
                }
            }
        }
        m = m + 1;
    }
    let ghost f = |k: int| bad_let_name_at(src@, toks@, *cfg, k);
    let mut out2: Vec<Finding> = Vec::new();
    let mut k: usize = 0;
    while k < toks.len()
        invariant
            k <= toks@.len(),
            tokens_wf(toks@, src@.len() as int),
            f == (|k: int| bad_let_name_at(src@, toks@, *cfg, k)),
            out2@ == collect(f, k as int),
        decreases toks.len() - k,
    {
        proof {
            lemma_collect_step(f, k as int, out2@);
        }
        if tok_word(src, toks, k) == Some(Word::Let) {
            let q = if tok_word(src, toks, k + 1) == Some(Word::Mut) {
                k + 2
            } else {
                k + 1
            };
            if q < toks.len() && toks[q].kind == TokenKind::Ident && tok_word(src, toks, q).is_none()
                && !name_has_case(src, toks[q].span, cfg.variable_case) {
                out2.push(Finding::new(Issue::BadName, toks[q].span));
            }
        }
        k = k + 1;
    }
    (out, out2)
}

// ---------------------------------------------------------------------------
// Documentation

pub open spec fn is_documentable(k: NodeKind) -> bool {
    k == NodeKind::Function || k == NodeKind::Struct || k == NodeKind::Enum || k == NodeKind::Trait
        || k == NodeKind::Module || k == NodeKind::Const || k == NodeKind::Static || k
        == NodeKind::TypeAlias || k == NodeKind::Field || k == NodeKind::Macro
}

/// A public declaration with no documentation comment, reported at its name.
pub open spec fn missing_doc_at(nodes: Seq<Node>, m: int) -> Option<Finding> {
    let nd = nodes[m];
    if nd.is_pub && !nd.has_doc && is_documentable(nd.kind) {
        Some(
            finding(
                Issue::MissingDocs,
                match nd.name {
                    Some(sp) => sp,
                    None => nd.span,
                },
            ),
        )
    } else {
        None
    }
}

/// Public declarations without a documentation comment.
pub fn missing_docs_rule(nodes: &Vec<Node>) -> (r: Vec<Finding>)
    ensures
        r@ == collect(|m: int| missing_doc_at(nodes@, m), nodes@.len() as int),
{
    let ghost g = |m: int| missing_doc_at(nodes@, m);
    let mut out: Vec<Finding> = Vec::new();
    let mut m: usize = 0;
    while m < nodes.len()
        invariant
            m <= nodes@.len(),
            g == (|m: int| missing_doc_at(nodes@, m)),
            out@ == collect(g, m as int),
        decreases nodes.len() - m,
    {
        proof {
            lemma_collect_step(g, m as int, out@);
        }
        let nd = nodes[m];
        let documentable = match nd.kind {
            NodeKind::Function | NodeKind::Struct | NodeKind::Enum | NodeKind::Trait | NodeKind::Module
            | NodeKind::Const | NodeKind::Static | NodeKind::TypeAlias | NodeKind::Field
            | NodeKind::Macro => true,
            _ => false,
        };
        if nd.is_pub && !nd.has_doc && documentable {
            let sp = match nd.name {
                Some(sp) => sp,
                None => nd.span,
            };
            out.push(Finding::new(Issue::MissingDocs, sp));
        }
        m = m + 1;
    }
    out
}

} // verus!
