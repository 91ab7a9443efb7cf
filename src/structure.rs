use vstd::prelude::*;
use crate::span::Span;
use crate::lexer::{Token, TokenKind, tokens_wf};
use crate::words::Word;
use crate::tree::{Node, NodeKind, tree_wf, node_ok, LPAREN, RPAREN, LBRACKET, RBRACKET, COLON, SEMI};
use crate::finding::{Finding, Issue, finding};
use crate::rules::{EQ, punct_at, word_at_tok, tok_punct, tok_word, has_case, name_has_case};
use crate::words::text;
use crate::config::{Case, Config};

verus! {

pub const AMP: u8 = 38;
pub const PIPE: u8 = 124;
pub const QUESTION: u8 = 63;
pub const GT: u8 = 62;

// ---------------------------------------------------------------------------
// Parameters

/// Index of the first `(` at or after `j` and before `stop`, or `stop`.
pub open spec fn first_paren(src: Seq<u8>, toks: Seq<Token>, j: int, stop: int) -> int
    decreases stop - j,
{
    if j >= stop {
        stop
    } else if punct_at(src, toks, j, LPAREN) {
        j
    } else {
        first_paren(src, toks, j + 1, stop)
    }
}

pub open spec fn is_open(src: Seq<u8>, toks: Seq<Token>, j: int) -> bool {
    punct_at(src, toks, j, LPAREN) || punct_at(src, toks, j, LBRACKET)
}

pub open spec fn is_close(src: Seq<u8>, toks: Seq<Token>, j: int) -> bool {
    punct_at(src, toks, j, RPAREN) || punct_at(src, toks, j, RBRACKET)
}

/// A lone `:` at token `j` (not half of `::`).
pub open spec fn is_lone_colon(src: Seq<u8>, toks: Seq<Token>, j: int) -> bool {
    punct_at(src, toks, j, COLON) && !punct_at(src, toks, j - 1, COLON) && !punct_at(src, toks, j + 1, COLON)
}

/// Lone colons at nesting depth one, scanning from `j` at depth `d` until the
/// depth drops to zero or `stop`: one per declared parameter.
pub open spec fn colons_in(src: Seq<u8>, toks: Seq<Token>, j: int, d: int, stop: int) -> int
    decreases stop - j,
{
    if j >= stop || d <= 0 {
        0
    } else if is_open(src, toks, j) {
        colons_in(src, toks, j + 1, d + 1, stop)
    } else if is_close(src, toks, j) {
        colons_in(src, toks, j + 1, d - 1, stop)
    } else if d == 1 && is_lone_colon(src, toks, j) {
        1 + colons_in(src, toks, j + 1, d, stop)
    } else {
        colons_in(src, toks, j + 1, d, stop)
    }
}

/// Declared parameters of the function node `nd` whose body opens at `b`
/// (`self` is not counted: it has no type annotation).
pub open spec fn param_count(src: Seq<u8>, toks: Seq<Token>, nd: Node, b: int) -> int {
    let p = first_paren(src, toks, nd.first_tok as int, b);
    colons_in(src, toks, p + 1, 1, b)
}

proof fn lemma_colons_bound(src: Seq<u8>, toks: Seq<Token>, j: int, d: int, stop: int)
    ensures
        0 <= colons_in(src, toks, j, d, stop),
        j <= stop ==> colons_in(src, toks, j, d, stop) <= stop - j,
    decreases stop - j,
{
    if j < stop && d > 0 {
        if is_open(src, toks, j) {
            lemma_colons_bound(src, toks, j + 1, d + 1, stop);
        } else if is_close(src, toks, j) {
            lemma_colons_bound(src, toks, j + 1, d - 1, stop);
        } else {
            lemma_colons_bound(src, toks, j + 1, d, stop);
        }
    }
}

fn count_params(src: &[u8], toks: &Vec<Token>, first: usize, b: usize) -> (r: usize)
    requires
        tokens_wf(toks@, src@.len() as int),
        first <= b <= toks@.len(),
    ensures
        r == colons_in(src@, toks@, first_paren(src@, toks@, first as int, b as int) + 1, 1, b as int),
{
    let mut p = first;
    while p < b && !tok_punct(src, toks, p, LPAREN)
        invariant
            first <= p <= b <= toks@.len(),
            tokens_wf(toks@, src@.len() as int),
            first_paren(src@, toks@, p as int, b as int) == first_paren(src@, toks@, first as int, b as int),
        decreases b - p,
    {
        p = p + 1;
    }
    if p >= b {
        return 0;
    }
    let ghost start = p + 1;
    let mut j = p + 1;
    let mut d: usize = 1;
    let mut count: usize = 0;
    proof {
        lemma_colons_bound(src@, toks@, start, 1, b as int);
    }
    while j < b && d > 0
        invariant
            p < j <= b + 1,
            b <= toks@.len(),
            tokens_wf(toks@, src@.len() as int),
            d <= j,
            count + colons_in(src@, toks@, j as int, d as int, b as int) == colons_in(src@, toks@, start, 1, b as int),
            colons_in(src@, toks@, start, 1, b as int) <= b,
        decreases b - j,
    {
        proof {
            lemma_colons_bound(src@, toks@, j as int + 1, d as int, b as int);
            lemma_colons_bound(src@, toks@, j as int + 1, d + 1, b as int);
        }
        if tok_punct(src, toks, j, LPAREN) || tok_punct(src, toks, j, LBRACKET) {
            d = d + 1;
        } else if tok_punct(src, toks, j, RPAREN) || tok_punct(src, toks, j, RBRACKET) {
            d = d - 1;
        } else if d == 1 && tok_punct(src, toks, j, COLON) && !(j > 0 && tok_punct(src, toks, j - 1, COLON))
            && !tok_punct(src, toks, j + 1, COLON) {
            count = count + 1;
        }
        j = j + 1;
    }
    count
}

// ---------------------------------------------------------------------------
// Statements and decision points

/// Token `j` adds a decision point: `if`, `while`, `for`, `?`, or the first
/// half of `&&`, `||` or `=>`.
pub open spec fn is_decision(src: Seq<u8>, toks: Seq<Token>, j: int) -> bool {
    let w = word_at_tok(src, toks, j);
    let joined = j + 1 < toks.len() && toks[j].span.end == toks[j + 1].span.start;
    w == Some(Word::If) || w == Some(Word::While) || w == Some(Word::For) || punct_at(src, toks, j, QUESTION)
        || (joined && punct_at(src, toks, j, AMP) && punct_at(src, toks, j + 1, AMP))
        || (joined && punct_at(src, toks, j, PIPE) && punct_at(src, toks, j + 1, PIPE))
        || (joined && punct_at(src, toks, j, EQ) && punct_at(src, toks, j + 1, GT))
}

/// How many tokens in `lo .. hi` satisfy `p`.
pub open spec fn count_in(p: spec_fn(int) -> bool, lo: int, hi: int) -> int
    decreases hi - lo,
{
    if lo >= hi {
        0
    } else {
        count_in(p, lo, hi - 1) + if p(hi - 1) {
            1int
        } else {
            0
        }
    }
}

proof fn lemma_count_bound(p: spec_fn(int) -> bool, lo: int, hi: int)
    ensures
        0 <= count_in(p, lo, hi),
        lo <= hi ==> count_in(p, lo, hi) <= hi - lo,
    decreases hi - lo,
{
    if lo < hi {
        lemma_count_bound(p, lo, hi - 1);
    }
}

/// Statements (semicolons) and decision points among the tokens `lo .. hi`.
fn count_body(src: &[u8], toks: &Vec<Token>, lo: usize, hi: usize) -> (r: (usize, usize))
    requires
        tokens_wf(toks@, src@.len() as int),
        lo <= hi <= toks@.len(),
    ensures
        r.0 == count_in(|j: int| punct_at(src@, toks@, j, SEMI), lo as int, hi as int),
        r.1 == count_in(|j: int| is_decision(src@, toks@, j), lo as int, hi as int),
{
    let ghost ps = |j: int| punct_at(src@, toks@, j, SEMI);
    let ghost pd = |j: int| is_decision(src@, toks@, j);
    let mut j = lo;
    let mut semis: usize = 0;
    let mut decisions: usize = 0;
    while j < hi
        invariant
            lo <= j <= hi <= toks@.len(),
            tokens_wf(toks@, src@.len() as int),
            ps == (|j: int| punct_at(src@, toks@, j, SEMI)),
            pd == (|j: int| is_decision(src@, toks@, j)),
            semis == count_in(ps, lo as int, j as int),
            decisions == count_in(pd, lo as int, j as int),
        decreases hi - j,
    {
        proof {
            lemma_count_bound(ps, lo as int, j as int);
            lemma_count_bound(pd, lo as int, j as int);
        }
        if tok_punct(src, toks, j, SEMI) {
            semis = semis + 1;
        }
        let w = tok_word(src, toks, j);
        let joined = j + 1 < toks.len() && toks[j].span.end == toks[j + 1].span.start;
        if w == Some(Word::If) || w == Some(Word::While) || w == Some(Word::For) || tok_punct(src, toks, j, QUESTION)
            || (joined && tok_punct(src, toks, j, AMP) && tok_punct(src, toks, j + 1, AMP))
            || (joined && tok_punct(src, toks, j, PIPE) && tok_punct(src, toks, j + 1, PIPE))
            || (joined && tok_punct(src, toks, j, EQ) && tok_punct(src, toks, j + 1, GT)) {
            decisions = decisions + 1;
        }
        j = j + 1;
    }
    (semis, decisions)
}

// ---------------------------------------------------------------------------
// Nesting

/// Control-flow blocks from node `c` up to, not including, its function.
pub open spec fn ctrl_depth(nodes: Seq<Node>, c: int) -> int
    decreases c,
{
    if c <= 0 || c >= nodes.len() || nodes[c].kind == NodeKind::Function || nodes[c].parent >= c {
        0
    } else {
        (if nodes[c].kind.spec_is_control() {
            1int
        } else {
            0
        }) + ctrl_depth(nodes, nodes[c].parent as int)
    }
}

/// The nearest function strictly above node `c`, or -1.
pub open spec fn enclosing_fn(nodes: Seq<Node>, c: int) -> int
    decreases c,
{
    if c <= 0 || c >= nodes.len() || nodes[c].parent >= c {
        -1
    } else if nodes[nodes[c].parent as int].kind == NodeKind::Function {
        nodes[c].parent as int
    } else {
        enclosing_fn(nodes, nodes[c].parent as int)
    }
}

/// Among nodes `0 .. n` of function `f`, the first of greatest nesting, with
/// that nesting; `(-1, 0)` when there is none.
pub open spec fn deepest(nodes: Seq<Node>, f: int, n: int) -> (int, int)
    decreases n,
{
    if n <= 0 {
        (-1, 0)
    } else {
        let (bi, bd) = deepest(nodes, f, n - 1);
        if enclosing_fn(nodes, n - 1) == f && ctrl_depth(nodes, n - 1) > bd {
            (n - 1, ctrl_depth(nodes, n - 1))
        } else {
            (bi, bd)
        }
    }
}

pub proof fn lemma_ctrl_depth_bound(nodes: Seq<Node>, c: int)
    ensures
        0 <= ctrl_depth(nodes, c),
        0 <= c ==> ctrl_depth(nodes, c) <= c,
    decreases c,
{
    if !(c <= 0 || c >= nodes.len() || nodes[c].kind == NodeKind::Function || nodes[c].parent >= c) {
        lemma_ctrl_depth_bound(nodes, nodes[c].parent as int);
    }
}

pub proof fn lemma_deepest_bound(nodes: Seq<Node>, f: int, n: int)
    ensures
        -1 <= deepest(nodes, f, n).0 < if n > 0 { n } else { 0 },
        deepest(nodes, f, n).0 == -1 ==> deepest(nodes, f, n).1 == 0,
        0 <= deepest(nodes, f, n).1,
        deepest(nodes, f, n).0 >= 0 ==> deepest(nodes, f, n).1 <= deepest(nodes, f, n).0,
    decreases n,
{
    if n > 0 {
        lemma_deepest_bound(nodes, f, n - 1);
        lemma_ctrl_depth_bound(nodes, n - 1);
    }
}

fn exec_ctrl_depth(nodes: &Vec<Node>, c: usize, Ghost(len): Ghost<int>, Ghost(ntoks): Ghost<int>) -> (r: usize)
    requires
        tree_wf(nodes@, len, ntoks),
        c < nodes@.len(),
    ensures
        r == ctrl_depth(nodes@, c as int),
{
    let mut cur = c;
    let mut acc: usize = 0;
    while cur > 0 && nodes[cur].kind != NodeKind::Function
        invariant
            tree_wf(nodes@, len, ntoks),
            cur <= c < nodes@.len(),
            acc + cur <= c,
            acc + ctrl_depth(nodes@, cur as int) == ctrl_depth(nodes@, c as int),
        decreases cur,
    {
        assert(nodes@[cur as int].parent < cur);
        if nodes[cur].kind.is_control() {
            acc = acc + 1;
        }
        cur = nodes[cur].parent;
    }
    acc
}

fn enclosed_by(nodes: &Vec<Node>, c: usize, f: usize, Ghost(len): Ghost<int>, Ghost(ntoks): Ghost<int>) -> (r: bool)
    requires
        tree_wf(nodes@, len, ntoks),
        c < nodes@.len(),
    ensures
        r == (enclosing_fn(nodes@, c as int) == f),
{
    let mut cur = c;
    while cur > 0
        invariant
            tree_wf(nodes@, len, ntoks),
            cur <= c < nodes@.len(),
            enclosing_fn(nodes@, cur as int) == enclosing_fn(nodes@, c as int),
        decreases cur,
    {
        let p = nodes[cur].parent;
        assert(p < cur);
        if nodes[p].kind == NodeKind::Function {
            return p == f;
        }
        cur = p;
    }
    false
}

// ---------------------------------------------------------------------------
// Per-function findings

pub open spec fn decl_span(nd: Node) -> Span {
    match nd.name {
        Some(sp) => sp,
        None => nd.span,
    }
}

/// Everything the complexity rule reports for node `m`, when it is a function
/// with a body: too many parameters, too many statements, too high a
/// complexity (decision points plus one); then deep nesting, at the
/// most deeply nested block. Parameters are reported at the name, statements at
/// the whole function, complexity at its `fn` keyword.
pub open spec fn fn_findings(src: Seq<u8>, toks: Seq<Token>, nodes: Seq<Node>, cfg: Config, m: int) -> Seq<Finding> {
    let nd = nodes[m];
    if nd.kind != NodeKind::Function || nd.body is None {
        Seq::empty()
    } else {
        let b = nd.body.unwrap() as int;
        let params = param_count(src, toks, nd, b);
        let semis = count_in(|j: int| punct_at(src, toks, j, SEMI), b + 1, nd.end_tok as int);
        let decisions = count_in(|j: int| is_decision(src, toks, j), b + 1, nd.end_tok as int);
        let (bi, bd) = deepest(nodes, m, nodes.len() as int);
        (if params > cfg.max_params {
            seq![finding(Issue::TooManyParameters, decl_span(nd))]
        } else {
            Seq::empty()
        }) + (if semis > cfg.max_statements {
            seq![finding(Issue::TooManyStatements, nd.span)]
        } else {
            Seq::empty()
        }) + (if decisions + 1 > cfg.max_complexity {
            seq![finding(Issue::HighComplexity, toks[nd.first_tok as int].span)]
        } else {
            Seq::empty()
        }) + (if bd > cfg.max_nesting {
            seq![finding(Issue::DeepNesting, nodes[bi].span)]
        } else {
            Seq::empty()
        })
    }
}

/// The concatenation of `f(0), ..., f(n - 1)`.
pub open spec fn collect_seq(f: spec_fn(int) -> Seq<Finding>, n: int) -> Seq<Finding>
    decreases n,
{
    if n <= 0 {
        Seq::empty()
    } else {
        collect_seq(f, n - 1) + f(n - 1)
    }
}

fn deepest_in(nodes: &Vec<Node>, f: usize, Ghost(len): Ghost<int>, Ghost(ntoks): Ghost<int>) -> (r: (usize, usize))
    requires
        tree_wf(nodes@, len, ntoks),
    ensures
        r.1 == deepest(nodes@, f as int, nodes@.len() as int).1,
        r.1 > 0 ==> r.0 == deepest(nodes@, f as int, nodes@.len() as int).0 && r.0 < nodes@.len(),
{
    let mut bi: usize = 0;
    let mut bd: usize = 0;
    let mut c: usize = 0;
    while c < nodes.len()
        invariant
            tree_wf(nodes@, len, ntoks),
            c <= nodes@.len(),
            bd == deepest(nodes@, f as int, c as int).1,
            bd > 0 ==> bi == deepest(nodes@, f as int, c as int).0 && bi < c,
        decreases nodes.len() - c,
    {
        proof {
            lemma_deepest_bound(nodes@, f as int, c as int);
        }
        if enclosed_by(nodes, c, f, Ghost(len), Ghost(ntoks)) {
            let d = exec_ctrl_depth(nodes, c, Ghost(len), Ghost(ntoks));
            if d > bd {
                bi = c;
                bd = d;
            }
        }
        c = c + 1;
    }
    (bi, bd)
}

/// The findings of `fn_findings` for node `m`.
#[verifier::rlimit(30)]
fn function_findings(src: &[u8], toks: &Vec<Token>, nodes: &Vec<Node>, cfg: &Config, m: usize) -> (r: Vec<Finding>)
    requires
        tokens_wf(toks@, src@.len() as int),
        tree_wf(nodes@, src@.len() as int, toks@.len() as int),
        m < nodes@.len(),
    ensures
        r@ == fn_findings(src@, toks@, nodes@, *cfg, m as int),
{
    let ghost len = src@.len() as int;
    let ghost ntoks = toks@.len() as int;
    let mut out: Vec<Finding> = Vec::new();
    let nd = nodes[m];
    assert(node_ok(nodes@[m as int], len, ntoks));
    if nd.kind == NodeKind::Function {
        if let Some(b) = nd.body {
            let sp = match nd.name {
                Some(s) => s,
                None => nd.span,
            };
            let params = count_params(src, toks, nd.first_tok, b);
            let (semis, decisions) = count_body(src, toks, b + 1, nd.end_tok);
            let (bi, bd) = deepest_in(nodes, m, Ghost(len), Ghost(ntoks));
            if params > cfg.max_params {
                out.push(Finding::new(Issue::TooManyParameters, sp));
            }
            if semis > cfg.max_statements {
                out.push(Finding::new(Issue::TooManyStatements, nd.span));
            }
            if decisions >= cfg.max_complexity {
                out.push(Finding::new(Issue::HighComplexity, toks[nd.first_tok].span));
            }
            if bd > cfg.max_nesting {
                out.push(Finding::new(Issue::DeepNesting, nodes[bi].span));
            }
            proof {
                assert(out@ =~= fn_findings(src@, toks@, nodes@, *cfg, m as int));
            }
        }
    }
    out
}

/// Long functions, long parameter lists, high complexity and deep nesting.
pub fn complexity_rule(src: &[u8], toks: &Vec<Token>, nodes: &Vec<Node>, cfg: &Config) -> (r: Vec<Finding>)
    requires
        tokens_wf(toks@, src@.len() as int),
        tree_wf(nodes@, src@.len() as int, toks@.len() as int),
    ensures
        r@ == collect_seq(|m: int| fn_findings(src@, toks@, nodes@, *cfg, m), nodes@.len() as int),
{
    let ghost g = |m: int| fn_findings(src@, toks@, nodes@, *cfg, m);
    let mut out: Vec<Finding> = Vec::new();
    let mut m: usize = 0;
    while m < nodes.len()
        invariant
            m <= nodes@.len(),
            tokens_wf(toks@, src@.len() as int),
            tree_wf(nodes@, src@.len() as int, toks@.len() as int),
            g == (|m: int| fn_findings(src@, toks@, nodes@, *cfg, m)),
            out@ == collect_seq(g, m as int),
        decreases nodes.len() - m,
    {
        let mut v = function_findings(src, toks, nodes, cfg, m);
        let ghost before = out@;
        out.append(&mut v);
        proof {
            assert(out@ =~= collect_seq(g, m + 1));
        }
        m = m + 1;
    }
    out
}

// ---------------------------------------------------------------------------
// Parameter names

/// Badly cased parameter names met while scanning from `j` at depth `d` until
/// the depth drops to zero or `stop`: an identifier at depth one right before a
/// lone `:` is a parameter name.
pub open spec fn bad_params_from(src: Seq<u8>, toks: Seq<Token>, j: int, d: int, stop: int, case: Case) -> Seq<Finding>
    decreases stop - j,
{
    if j >= stop || d <= 0 {
        Seq::empty()
    } else if is_open(src, toks, j) {
        bad_params_from(src, toks, j + 1, d + 1, stop, case)
    } else if is_close(src, toks, j) {
        bad_params_from(src, toks, j + 1, d - 1, stop, case)
    } else if d == 1 && toks[j].kind == TokenKind::Ident && word_at_tok(src, toks, j) is None && is_lone_colon(
        src,
        toks,
        j + 1,
    ) && !has_case(text(src, toks[j].span), case) {
        seq![finding(Issue::BadName, toks[j].span)] + bad_params_from(src, toks, j + 1, d, stop, case)
    } else {
        bad_params_from(src, toks, j + 1, d, stop, case)
    }
}

/// Parameters of function node `m` whose names break the variable convention.
pub open spec fn bad_params(src: Seq<u8>, toks: Seq<Token>, nodes: Seq<Node>, cfg: Config, m: int) -> Seq<Finding> {
    let nd = nodes[m];
    if nd.kind != NodeKind::Function || nd.body is None {
        Seq::empty()
    } else {
        let b = nd.body.unwrap() as int;
        let p = first_paren(src, toks, nd.first_tok as int, b);
        bad_params_from(src, toks, p + 1, 1, b, cfg.variable_case)
    }
}

fn function_bad_params(src: &[u8], toks: &Vec<Token>, nodes: &Vec<Node>, cfg: &Config, m: usize) -> (r: Vec<Finding>)
    requires
        tokens_wf(toks@, src@.len() as int),
        tree_wf(nodes@, src@.len() as int, toks@.len() as int),
        m < nodes@.len(),
    ensures
        r@ == bad_params(src@, toks@, nodes@, *cfg, m as int),
{
    let mut out: Vec<Finding> = Vec::new();
    let nd = nodes[m];
    assert(node_ok(nodes@[m as int], src@.len() as int, toks@.len() as int));
    if nd.kind != NodeKind::Function {
        return out;
    }
    let b = match nd.body {
        Some(b) => b,
        None => {
            return out;
        },
    };
    let first = nd.first_tok;
    let mut p = first;
    while p < b && !tok_punct(src, toks, p, LPAREN)
        invariant
            first <= p <= b <= toks@.len(),
            tokens_wf(toks@, src@.len() as int),
            first_paren(src@, toks@, p as int, b as int) == first_paren(src@, toks@, first as int, b as int),
        decreases b - p,
    {
        p = p + 1;
    }
    if p >= b {
        return out;
    }
    let ghost start = p + 1;
    let case = cfg.variable_case;
    let mut j = p + 1;
    let mut d: usize = 1;
    while j < b && d > 0
        invariant
            p < j <= b + 1,
            b <= toks@.len(),
            tokens_wf(toks@, src@.len() as int),
            d <= j,
            case == cfg.variable_case,
            out@ + bad_params_from(src@, toks@, j as int, d as int, b as int, case) == bad_params_from(src@, toks@, start, 1, b as int, case),
        decreases b - j,
    {
        if tok_punct(src, toks, j, LPAREN) || tok_punct(src, toks, j, LBRACKET) {
            d = d + 1;
        } else if tok_punct(src, toks, j, RPAREN) || tok_punct(src, toks, j, RBRACKET) {
            d = d - 1;
        } else if d == 1 && toks[j].kind == TokenKind::Ident && tok_word(src, toks, j).is_none()
            && tok_punct(src, toks, j + 1, COLON) && !(j + 1 < toks.len() && tok_punct(src, toks, j + 2, COLON))
            && !name_has_case(src, toks[j].span, case) {
            let ghost before = out@;
            out.push(Finding::new(Issue::BadName, toks[j].span));
            proof {
                assert(out@ + bad_params_from(src@, toks@, j + 1, d as int, b as int, case) =~= before
                    + bad_params_from(src@, toks@, j as int, d as int, b as int, case));
            }
        }
        j = j + 1;
    }
    proof {
        assert(out@ + bad_params_from(src@, toks@, j as int, d as int, b as int, case) =~= out@);
    }
    out
}

/// Function parameters whose names break the variable convention.
pub fn parameter_naming_rule(src: &[u8], toks: &Vec<Token>, nodes: &Vec<Node>, cfg: &Config) -> (r: Vec<Finding>)
    requires
        tokens_wf(toks@, src@.len() as int),
        tree_wf(nodes@, src@.len() as int, toks@.len() as int),
    ensures
        r@ == collect_seq(|m: int| bad_params(src@, toks@, nodes@, *cfg, m), nodes@.len() as int),
{
    let ghost g = |m: int| bad_params(src@, toks@, nodes@, *cfg, m);
    let mut out: Vec<Finding> = Vec::new();
    let mut m: usize = 0;
    while m < nodes.len()
        invariant
            m <= nodes@.len(),
            tokens_wf(toks@, src@.len() as int),
            tree_wf(nodes@, src@.len() as int, toks@.len() as int),
            g == (|m: int| bad_params(src@, toks@, nodes@, *cfg, m)),
            out@ == collect_seq(g, m as int),
        decreases nodes.len() - m,
    {
        let mut v = function_bad_params(src, toks, nodes, cfg, m);
        out.append(&mut v);
        proof {
            assert(out@ =~= collect_seq(g, m + 1));
        }
        m = m + 1;
    }
    out
}

} // verus!
