use vstd::prelude::*;
use crate::lexer::{Token, tokens_wf};
use crate::tree::{Node, NodeKind, tree_wf, node_ok};
use crate::finding::{Finding, findings_within};
use crate::config::Config;
use crate::rules::{
    collect, magic_findings, error_at, unsafe_at, needless_unsafe_at, bad_decl_name_at,
    bad_let_name_at, missing_doc_at,
};
use crate::comments::{commented_at, run_last, continues_run};
use crate::structure::{collect_seq, fn_findings, bad_params, bad_params_from, deepest, lemma_deepest_bound, first_paren};
use crate::duplication::{duplicate_at, near_duplicate_at};
use crate::suppression::{Directive, kept};
use crate::engine::{
    rule_findings, magic_part, commented_part, docs_part, naming_part, unsafe_part, errors_part,
    complexity_part, duplication_part, first_of_each, report,
};

verus! {

/// A finding that `f` gives at any position below `n` lies within `[0, len)`,
/// so all of `collect(f, n)` does.
pub proof fn lemma_collect_within(f: spec_fn(int) -> Option<Finding>, n: int, len: int)
    requires
        forall|k: int| 0 <= k < n ==> (#[trigger] f(k) matches Some(x) ==> x.span.start <= x.span.end <= len),
    ensures
        findings_within(collect(f, n), len),
    decreases n,
{
    if n > 0 {
        lemma_collect_within(f, n - 1, len);
        let prev = collect(f, n - 1);
        let all = collect(f, n);
        assert forall|i: int| 0 <= i < all.len() implies #[trigger] all[i].span.start <= all[i].span.end <= len by {
            if i < prev.len() {
                assert(all[i] == prev[i]);
            } else {
                assert(f(n - 1) is Some);
            }
        }
    }
}

pub proof fn lemma_collect_seq_within(f: spec_fn(int) -> Seq<Finding>, n: int, len: int)
    requires
        forall|k: int| 0 <= k < n ==> findings_within(#[trigger] f(k), len),
    ensures
        findings_within(collect_seq(f, n), len),
    decreases n,
{
    if n > 0 {
        lemma_collect_seq_within(f, n - 1, len);
        let prev = collect_seq(f, n - 1);
        let all = collect_seq(f, n);
        let last = f(n - 1);
        assert(findings_within(last, len));
        assert forall|i: int| 0 <= i < all.len() implies #[trigger] all[i].span.start <= all[i].span.end <= len by {
            if i < prev.len() {
                assert(all[i] == prev[i]);
            } else {
                assert(all[i] == last[i - prev.len()]);
            }
        }
    }
}

proof fn lemma_concat_within(a: Seq<Finding>, b: Seq<Finding>, len: int)
    requires
        findings_within(a, len),
        findings_within(b, len),
    ensures
        findings_within(a + b, len),
{
    assert forall|i: int| 0 <= i < (a + b).len() implies #[trigger] (a + b)[i].span.start <= (a + b)[i].span.end <= len by {
        if i < a.len() {
            assert((a + b)[i] == a[i]);
        } else {
            assert((a + b)[i] == b[i - a.len()]);
        }
    }
}

proof fn lemma_magic_within(src: Seq<u8>, toks: Seq<Token>, nodes: Seq<Node>, allowed: Seq<Vec<u8>>, n: int)
    requires
        tokens_wf(toks, src.len() as int),
        n <= toks.len(),
    ensures
        findings_within(magic_findings(src, toks, nodes, allowed, n), src.len() as int),
    decreases n,
{
    if n > 0 {
        lemma_magic_within(src, toks, nodes, allowed, n - 1);
        let prev = magic_findings(src, toks, nodes, allowed, n - 1);
        let all = magic_findings(src, toks, nodes, allowed, n);
        assert forall|i: int| 0 <= i < all.len() implies #[trigger] all[i].span.start <= all[i].span.end <= src.len() by {
            if i < prev.len() {
                assert(all[i] == prev[i]);
            }
        }
    }
}

proof fn lemma_run_last(src: Seq<u8>, toks: Seq<Token>, k: int)
    requires
        0 <= k < toks.len(),
    ensures
        k <= run_last(src, toks, k) < toks.len(),
    decreases toks.len() - k,
{
    if k + 1 < toks.len() && continues_run(src, toks, k + 1) {
        lemma_run_last(src, toks, k + 1);
    }
}

proof fn lemma_bad_params_within(src: Seq<u8>, toks: Seq<Token>, j: int, d: int, stop: int, case: crate::config::Case)
    requires
        tokens_wf(toks, src.len() as int),
        0 <= j,
        stop <= toks.len(),
    ensures
        findings_within(bad_params_from(src, toks, j, d, stop, case), src.len() as int),
    decreases stop - j,
{
    if j < stop && d > 0 {
        lemma_bad_params_within(src, toks, j + 1, d + 1, stop, case);
        lemma_bad_params_within(src, toks, j + 1, d - 1, stop, case);
        lemma_bad_params_within(src, toks, j + 1, d, stop, case);
        let rest = bad_params_from(src, toks, j + 1, d, stop, case);
        let head = seq![crate::finding::finding(crate::finding::Issue::BadName, toks[j].span)];
        lemma_concat_within(head, rest, src.len() as int);
    }
}

proof fn lemma_magic_part(src: Seq<u8>, toks: Seq<Token>, nodes: Seq<Node>, cfg: Config)
    requires
        tokens_wf(toks, src.len() as int),
        tree_wf(nodes, src.len() as int, toks.len() as int),
    ensures
        findings_within(magic_part(src, toks, nodes, cfg), src.len() as int),
{
    let len = src.len() as int;
    let nt = toks.len() as int;
    let nn = nodes.len() as int;
    reveal(magic_part);
    lemma_magic_within(src, toks, nodes, cfg.allowed_numbers@, nt);
}

proof fn lemma_commented_part(src: Seq<u8>, toks: Seq<Token>, nodes: Seq<Node>, cfg: Config)
    requires
        tokens_wf(toks, src.len() as int),
        tree_wf(nodes, src.len() as int, toks.len() as int),
    ensures
        findings_within(commented_part(src, toks, nodes, cfg), src.len() as int),
{
    let len = src.len() as int;
    let nt = toks.len() as int;
    let nn = nodes.len() as int;
    reveal(commented_part);
    assert forall|k: int| 0 <= k < nt implies (#[trigger] commented_at(src, toks, k)) matches Some(x) ==> x.span.start
        <= x.span.end <= len by {
        lemma_run_last(src, toks, k);
        let r = run_last(src, toks, k);
        if r > k {
            assert(toks[k].span.end <= toks[r].span.start);
        }
    }
    lemma_collect_within(|k: int| commented_at(src, toks, k), nt, len);
}

proof fn lemma_docs_part(src: Seq<u8>, toks: Seq<Token>, nodes: Seq<Node>, cfg: Config)
    requires
        tokens_wf(toks, src.len() as int),
        tree_wf(nodes, src.len() as int, toks.len() as int),
    ensures
        findings_within(docs_part(src, toks, nodes, cfg), src.len() as int),
{
    let len = src.len() as int;
    let nt = toks.len() as int;
    let nn = nodes.len() as int;
    reveal(docs_part);
    assert forall|m: int| 0 <= m < nn implies (#[trigger] missing_doc_at(nodes, m)) matches Some(x) ==> x.span.start
        <= x.span.end <= len by {
        assert(node_ok(nodes[m], len, nt));
    }
    lemma_collect_within(|m: int| missing_doc_at(nodes, m), nn, len);
}

proof fn lemma_naming_part(src: Seq<u8>, toks: Seq<Token>, nodes: Seq<Node>, cfg: Config)
    requires
        tokens_wf(toks, src.len() as int),
        tree_wf(nodes, src.len() as int, toks.len() as int),
    ensures
        findings_within(naming_part(src, toks, nodes, cfg), src.len() as int),
{
    let len = src.len() as int;
    let nt = toks.len() as int;
    let nn = nodes.len() as int;
    reveal(naming_part);
    assert forall|m: int| 0 <= m < nn implies (#[trigger] bad_decl_name_at(src, nodes, cfg, m)) matches Some(x)
        ==> x.span.start <= x.span.end <= len by {
        assert(node_ok(nodes[m], len, nt));
    }
    lemma_collect_within(|m: int| bad_decl_name_at(src, nodes, cfg, m), nn, len);
    lemma_collect_within(|k: int| bad_let_name_at(src, toks, cfg, k), nt, len);
    assert forall|m: int| 0 <= m < nn implies findings_within(#[trigger] bad_params(src, toks, nodes, cfg, m), len) by {
        let nd = nodes[m];
        assert(node_ok(nd, len, nt));
        if nd.kind == NodeKind::Function && nd.body is Some {
            let b = nd.body.unwrap() as int;
            lemma_first_paren(src, toks, nd.first_tok as int, b);
            lemma_bad_params_within(src, toks, first_paren(src, toks, nd.first_tok as int, b) + 1, 1, b, cfg.variable_case);
        }
    }
    lemma_collect_seq_within(|m: int| bad_params(src, toks, nodes, cfg, m), nn, len);
    let a = collect(|m: int| bad_decl_name_at(src, nodes, cfg, m), nn);
    let b = collect(|k: int| bad_let_name_at(src, toks, cfg, k), nt);
    let c = collect_seq(|m: int| bad_params(src, toks, nodes, cfg, m), nn);
    lemma_concat_within(a, b, len);
    lemma_concat_within(a + b, c, len);
}

proof fn lemma_unsafe_part(src: Seq<u8>, toks: Seq<Token>, nodes: Seq<Node>, cfg: Config)
    requires
        tokens_wf(toks, src.len() as int),
        tree_wf(nodes, src.len() as int, toks.len() as int),
    ensures
        findings_within(unsafe_part(src, toks, nodes, cfg), src.len() as int),
{
    let len = src.len() as int;
    let nt = toks.len() as int;
    let nn = nodes.len() as int;
    reveal(unsafe_part);
    lemma_collect_within(|k: int| unsafe_at(src, toks, k), nt, len);
    assert forall|m: int| 0 <= m < nn implies (#[trigger] needless_unsafe_at(src, toks, nodes, m)) matches Some(x)
        ==> x.span.start <= x.span.end <= len by {
        assert(node_ok(nodes[m], len, nt));
    }
    lemma_collect_within(|m: int| needless_unsafe_at(src, toks, nodes, m), nn, len);
    lemma_concat_within(
        collect(|k: int| unsafe_at(src, toks, k), nt),
        collect(|m: int| needless_unsafe_at(src, toks, nodes, m), nn),
        len,
    );
}

proof fn lemma_errors_part(src: Seq<u8>, toks: Seq<Token>, nodes: Seq<Node>, cfg: Config)
    requires
        tokens_wf(toks, src.len() as int),
        tree_wf(nodes, src.len() as int, toks.len() as int),
    ensures
        findings_within(errors_part(src, toks, nodes, cfg), src.len() as int),
{
    let len = src.len() as int;
    let nt = toks.len() as int;
    let nn = nodes.len() as int;
    reveal(errors_part);
    lemma_collect_within(|k: int| error_at(src, toks, nodes, k), nt, len);
}

proof fn lemma_complexity_part(src: Seq<u8>, toks: Seq<Token>, nodes: Seq<Node>, cfg: Config)
    requires
        tokens_wf(toks, src.len() as int),
        tree_wf(nodes, src.len() as int, toks.len() as int),
    ensures
        findings_within(complexity_part(src, toks, nodes, cfg), src.len() as int),
{
    let len = src.len() as int;
    let nt = toks.len() as int;
    let nn = nodes.len() as int;
    reveal(complexity_part);
    assert forall|m: int| 0 <= m < nn implies findings_within(#[trigger] fn_findings(src, toks, nodes, cfg, m), len) by {
        let nd = nodes[m];
        assert(node_ok(nd, len, nt));
        lemma_deepest_bound(nodes, m, nn);
        let (bi, bd) = deepest(nodes, m, nn);
        if bd > 0 {
            assert(node_ok(nodes[bi], len, nt));
        }
    }
    lemma_collect_seq_within(|m: int| fn_findings(src, toks, nodes, cfg, m), nn, len);
}

proof fn lemma_duplication_part(src: Seq<u8>, toks: Seq<Token>, nodes: Seq<Node>, cfg: Config)
    requires
        tokens_wf(toks, src.len() as int),
        tree_wf(nodes, src.len() as int, toks.len() as int),
    ensures
        findings_within(duplication_part(src, toks, nodes, cfg), src.len() as int),
{
    let len = src.len() as int;
    let nt = toks.len() as int;
    let nn = nodes.len() as int;
    reveal(duplication_part);
    let min = cfg.min_duplicate_tokens as int;
    let pct = cfg.similarity_percent as int;
    assert forall|m: int| 0 <= m < nn implies (#[trigger] duplicate_at(src, toks, nodes, min, m)) matches Some(x)
        ==> x.span.start <= x.span.end <= len by {
        assert(node_ok(nodes[m], len, nt));
    }
    lemma_collect_within(|m: int| duplicate_at(src, toks, nodes, min, m), nn, len);
    assert forall|m: int| 0 <= m < nn implies (#[trigger] near_duplicate_at(src, toks, nodes, min, pct, m)) matches Some(x)
        ==> x.span.start <= x.span.end <= len by {
        assert(node_ok(nodes[m], len, nt));
    }
    lemma_collect_within(|m: int| near_duplicate_at(src, toks, nodes, min, pct, m), nn, len);
    lemma_concat_within(
        collect(|m: int| duplicate_at(src, toks, nodes, min, m), nn),
        collect(|m: int| near_duplicate_at(src, toks, nodes, min, pct, m), nn),
        len,
    );
}

/// Every finding the enabled rules report lies within the source.
pub proof fn lemma_rule_findings_within(src: Seq<u8>, toks: Seq<Token>, nodes: Seq<Node>, cfg: Config)
    requires
        tokens_wf(toks, src.len() as int),
        tree_wf(nodes, src.len() as int, toks.len() as int),
    ensures
        findings_within(rule_findings(src, toks, nodes, cfg), src.len() as int),
{
    let len = src.len() as int;
    lemma_magic_part(src, toks, nodes, cfg);
    lemma_commented_part(src, toks, nodes, cfg);
    lemma_docs_part(src, toks, nodes, cfg);
    lemma_naming_part(src, toks, nodes, cfg);
    lemma_unsafe_part(src, toks, nodes, cfg);
    lemma_errors_part(src, toks, nodes, cfg);
    lemma_complexity_part(src, toks, nodes, cfg);
    lemma_duplication_part(src, toks, nodes, cfg);
    let p0 = magic_part(src, toks, nodes, cfg);
    let p1 = commented_part(src, toks, nodes, cfg);
    let p2 = docs_part(src, toks, nodes, cfg);
    let p3 = naming_part(src, toks, nodes, cfg);
    let p4 = unsafe_part(src, toks, nodes, cfg);
    let p5 = errors_part(src, toks, nodes, cfg);
    let p6 = complexity_part(src, toks, nodes, cfg);
    let p7 = duplication_part(src, toks, nodes, cfg);
    lemma_concat_within(p0, p1, len);
    lemma_concat_within(p0 + p1, p2, len);
    lemma_concat_within(p0 + p1 + p2, p3, len);
    lemma_concat_within(p0 + p1 + p2 + p3, p4, len);
    lemma_concat_within(p0 + p1 + p2 + p3 + p4, p5, len);
    lemma_concat_within(p0 + p1 + p2 + p3 + p4 + p5, p6, len);
    lemma_concat_within(p0 + p1 + p2 + p3 + p4 + p5 + p6, p7, len);
}

proof fn lemma_first_paren(src: Seq<u8>, toks: Seq<Token>, j: int, stop: int)
    requires
        j <= stop,
    ensures
        j <= first_paren(src, toks, j, stop) <= stop,
    decreases stop - j,
{
    if j < stop && !crate::rules::punct_at(src, toks, j, crate::tree::LPAREN) {
        lemma_first_paren(src, toks, j + 1, stop);
    }
}

proof fn lemma_kept_within(fs: Seq<Finding>, ds: Seq<Directive>, n: int, len: int)
    requires
        findings_within(fs, len),
        n <= fs.len(),
    ensures
        findings_within(kept(fs, ds, n), len),
    decreases n,
{
    if n > 0 {
        lemma_kept_within(fs, ds, n - 1, len);
        let prev = kept(fs, ds, n - 1);
        let all = kept(fs, ds, n);
        assert forall|i: int| 0 <= i < all.len() implies #[trigger] all[i].span.start <= all[i].span.end <= len by {
            if i < prev.len() {
                assert(all[i] == prev[i]);
            } else {
                assert(all[i] == fs[n - 1]);
            }
        }
    }
}

proof fn lemma_first_of_each_within(fs: Seq<Finding>, n: int, len: int)
    requires
        findings_within(fs, len),
        n <= fs.len(),
    ensures
        findings_within(first_of_each(fs, n), len),
    decreases n,
{
    if n > 0 {
        lemma_first_of_each_within(fs, n - 1, len);
        let prev = first_of_each(fs, n - 1);
        let all = first_of_each(fs, n);
        assert forall|i: int| 0 <= i < all.len() implies #[trigger] all[i].span.start <= all[i].span.end <= len by {
            if i < prev.len() {
                assert(all[i] == prev[i]);
            } else {
                assert(all[i] == fs[n - 1]);
            }
        }
    }
}

/// Span containment: every finding of a run lies within the source, whatever
/// the configuration.
pub proof fn lemma_report_within(src: Seq<u8>, toks: Seq<Token>, nodes: Seq<Node>, cfg: Config)
    requires
        tokens_wf(toks, src.len() as int),
        tree_wf(nodes, src.len() as int, toks.len() as int),
    ensures
        findings_within(report(src, toks, nodes, cfg), src.len() as int),
{
    let len = src.len() as int;
    lemma_rule_findings_within(src, toks, nodes, cfg);
    let all = rule_findings(src, toks, nodes, cfg);
    let ds = crate::suppression::directives_upto(src, toks, nodes, cfg.directive_markers@, toks.len() as int);
    lemma_kept_within(all, ds, all.len() as int, len);
    let left = kept(all, ds, all.len() as int);
    lemma_first_of_each_within(left, left.len() as int, len);
}

} // verus!
