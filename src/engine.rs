use vstd::prelude::*;
use crate::lexer::{Token, TokenKind, tokenize, lex_from, tokens_wf};
use crate::tree::{Node, ParseError, parse, tree_wf, parse_spec, parse_fails, tree_of};
use crate::finding::{Finding, findings_within};
use crate::config::{Config, ConfigError};
use crate::rules::{
    collect, magic_findings, magic_number_rule, error_at, error_handling_rule, unsafe_at,
    needless_unsafe_at, unsafe_rule, bad_decl_name_at, bad_let_name_at, naming_rule, missing_doc_at,
    missing_docs_rule,
};
use crate::comments::{commented_at, commented_code_rule};
use crate::structure::{collect_seq, fn_findings, complexity_rule, bad_params, parameter_naming_rule};
use crate::duplication::{duplicate_at, duplication_rule, near_duplicate_at, near_duplicate_rule};
use crate::suppression::{directives_upto, kept, collect_directives, resolve};

verus! {

/// Why an input could not be analysed. A failed run reports no findings.
#[derive(Clone, Copy, Debug, PartialEq, Eq, Structural)]
pub enum AnalysisError {
    Parse(ParseError),
    Config(ConfigError),
}

/// The result of one run: the source model and the findings.
pub struct Analysis {
    pub tokens: Vec<Token>,
    pub nodes: Vec<Node>,
    pub findings: Vec<Finding>,
}

#[verifier::opaque]
pub open spec fn magic_part(src: Seq<u8>, toks: Seq<Token>, nodes: Seq<Node>, cfg: Config) -> Seq<Finding> {
    if cfg.magic_numbers {
        magic_findings(src, toks, nodes, cfg.allowed_numbers@, toks.len() as int)
    } else {
        Seq::empty()
    }
}

#[verifier::opaque]
pub open spec fn commented_part(src: Seq<u8>, toks: Seq<Token>, nodes: Seq<Node>, cfg: Config) -> Seq<Finding> {
    if cfg.commented_code {
        collect(|k: int| commented_at(src, toks, k), toks.len() as int)
    } else {
        Seq::empty()
    }
}

#[verifier::opaque]
pub open spec fn docs_part(src: Seq<u8>, toks: Seq<Token>, nodes: Seq<Node>, cfg: Config) -> Seq<Finding> {
    if cfg.missing_docs {
        collect(|m: int| missing_doc_at(nodes, m), nodes.len() as int)
    } else {
        Seq::empty()
    }
}

#[verifier::opaque]
pub open spec fn naming_part(src: Seq<u8>, toks: Seq<Token>, nodes: Seq<Node>, cfg: Config) -> Seq<Finding> {
    if cfg.naming {
        collect(|m: int| bad_decl_name_at(src, nodes, cfg, m), nodes.len() as int) + collect(
            |k: int| bad_let_name_at(src, toks, cfg, k),
            toks.len() as int,
        ) + collect_seq(|m: int| bad_params(src, toks, nodes, cfg, m), nodes.len() as int)
    } else {
        Seq::empty()
    }
}

#[verifier::opaque]
pub open spec fn unsafe_part(src: Seq<u8>, toks: Seq<Token>, nodes: Seq<Node>, cfg: Config) -> Seq<Finding> {
    if cfg.unsafe_usage {
        collect(|k: int| unsafe_at(src, toks, k), toks.len() as int) + collect(|m: int| needless_unsafe_at(src, toks, nodes, m), nodes.len() as int)
    } else {
        Seq::empty()
    }
}

#[verifier::opaque]
pub open spec fn errors_part(src: Seq<u8>, toks: Seq<Token>, nodes: Seq<Node>, cfg: Config) -> Seq<Finding> {
    if cfg.error_handling {
        collect(|k: int| error_at(src, toks, nodes, k), toks.len() as int)
    } else {
        Seq::empty()
    }
}

#[verifier::opaque]
pub open spec fn complexity_part(src: Seq<u8>, toks: Seq<Token>, nodes: Seq<Node>, cfg: Config) -> Seq<Finding> {
    if cfg.complexity {
        collect_seq(|m: int| fn_findings(src, toks, nodes, cfg, m), nodes.len() as int)
    } else {
        Seq::empty()
    }
}

#[verifier::opaque]
pub open spec fn duplication_part(src: Seq<u8>, toks: Seq<Token>, nodes: Seq<Node>, cfg: Config) -> Seq<Finding> {
    if cfg.duplication {
        collect(|m: int| duplicate_at(src, toks, nodes, cfg.min_duplicate_tokens as int, m), nodes.len() as int)
            + collect(
            |m: int|
                near_duplicate_at(
                    src,
                    toks,
                    nodes,
                    cfg.min_duplicate_tokens as int,
                    cfg.similarity_percent as int,
                    m,
                ),
            nodes.len() as int,
        )
    } else {
        Seq::empty()
    }
}

/// What the enabled rules report, rule by rule in a fixed order.
pub open spec fn rule_findings(src: Seq<u8>, toks: Seq<Token>, nodes: Seq<Node>, cfg: Config) -> Seq<Finding> {
    magic_part(src, toks, nodes, cfg) + commented_part(src, toks, nodes, cfg) + docs_part(src, toks, nodes, cfg) + naming_part(src, toks, nodes, cfg) + unsafe_part(src, toks, nodes, cfg) + errors_part(src, toks, nodes, cfg) + complexity_part(src, toks, nodes, cfg) + duplication_part(src, toks, nodes, cfg)
}

/// Two findings of one rule at one span.
pub open spec fn same_key(a: Finding, b: Finding) -> bool {
    a.rule == b.rule && a.span == b.span
}

/// The first `n` findings, without any that repeats the rule and span of an
/// earlier one.
pub open spec fn first_of_each(fs: Seq<Finding>, n: int) -> Seq<Finding>
    decreases n,
{
    if n <= 0 {
        Seq::empty()
    } else {
        let prev = first_of_each(fs, n - 1);
        if exists|i: int| 0 <= i < prev.len() && same_key(#[trigger] prev[i], fs[n - 1]) {
            prev
        } else {
            prev.push(fs[n - 1])
        }
    }
}

pub open spec fn keys_unique(fs: Seq<Finding>) -> bool {
    forall|i: int, j: int| #![trigger fs[i], fs[j]] 0 <= i < j < fs.len() ==> !same_key(fs[i], fs[j])
}

/// The findings of one run: what the rules report, less what directives
/// suppress, once per rule and span.
pub open spec fn report(src: Seq<u8>, toks: Seq<Token>, nodes: Seq<Node>, cfg: Config) -> Seq<Finding> {
    let all = rule_findings(src, toks, nodes, cfg);
    let left = kept(all, directives_upto(src, toks, nodes, cfg.directive_markers@, toks.len() as int), all.len() as int);
    first_of_each(left, left.len() as int)
}

proof fn lemma_first_of_each_unique(fs: Seq<Finding>, n: int)
    ensures
        keys_unique(first_of_each(fs, n)),
    decreases n,
{
    if n > 0 {
        lemma_first_of_each_unique(fs, n - 1);
    }
}

/// Keeps the first finding of each rule and span.
fn dedupe(fs: &Vec<Finding>) -> (r: Vec<Finding>)
    ensures
        r@ == first_of_each(fs@, fs@.len() as int),
        keys_unique(r@),
{
    let mut out: Vec<Finding> = Vec::new();
    let mut i: usize = 0;
    while i < fs.len()
        invariant
            i <= fs@.len(),
            out@ == first_of_each(fs@, i as int),
        decreases fs.len() - i,
    {
        let f = fs[i];
        let mut j: usize = 0;
        let mut seen = false;
        while j < out.len() && !seen
            invariant
                j <= out@.len(),
                !seen ==> forall|q: int| 0 <= q < j ==> !same_key(#[trigger] out@[q], f),
                seen ==> exists|q: int| 0 <= q < out@.len() && same_key(#[trigger] out@[q], f),
            decreases out.len() - j + if seen { 0int } else { 1 },
        {
            if out[j].rule == f.rule && out[j].span == f.span {
                seen = true;
            } else {
                j = j + 1;
            }
        }
        if !seen {
            out.push(f);
        }
        i = i + 1;
    }
    proof {
        lemma_first_of_each_unique(fs@, fs@.len() as int);
    }
    out
}

fn run_magic_part(src: &[u8], toks: &Vec<Token>, nodes: &Vec<Node>, cfg: &Config, out: &mut Vec<Finding>)
    requires
        tokens_wf(toks@, src@.len() as int),
        tree_wf(nodes@, src@.len() as int, toks@.len() as int),
        cfg.spec_valid(),
    ensures
        final(out)@ == old(out)@ + magic_part(src@, toks@, nodes@, *cfg),
{
    reveal(magic_part);
    if cfg.magic_numbers {
        let mut v = magic_number_rule(src, toks, nodes, &cfg.allowed_numbers);
        out.append(&mut v);
    } else {
        assert(old(out)@ + magic_part(src@, toks@, nodes@, *cfg) =~= old(out)@);
    }
}

fn run_commented_part(src: &[u8], toks: &Vec<Token>, nodes: &Vec<Node>, cfg: &Config, out: &mut Vec<Finding>)
    requires
        tokens_wf(toks@, src@.len() as int),
        tree_wf(nodes@, src@.len() as int, toks@.len() as int),
        cfg.spec_valid(),
    ensures
        final(out)@ == old(out)@ + commented_part(src@, toks@, nodes@, *cfg),
{
    reveal(commented_part);
    if cfg.commented_code {
        let mut v = commented_code_rule(src, toks);
        out.append(&mut v);
    } else {
        assert(old(out)@ + commented_part(src@, toks@, nodes@, *cfg) =~= old(out)@);
    }
}

fn run_docs_part(src: &[u8], toks: &Vec<Token>, nodes: &Vec<Node>, cfg: &Config, out: &mut Vec<Finding>)
    requires
        tokens_wf(toks@, src@.len() as int),
        tree_wf(nodes@, src@.len() as int, toks@.len() as int),
        cfg.spec_valid(),
    ensures
        final(out)@ == old(out)@ + docs_part(src@, toks@, nodes@, *cfg),
{
    reveal(docs_part);
    if cfg.missing_docs {
        let mut v = missing_docs_rule(nodes);
        out.append(&mut v);
    } else {
        assert(old(out)@ + docs_part(src@, toks@, nodes@, *cfg) =~= old(out)@);
    }
}

fn run_naming_part(src: &[u8], toks: &Vec<Token>, nodes: &Vec<Node>, cfg: &Config, out: &mut Vec<Finding>)
    requires
        tokens_wf(toks@, src@.len() as int),
        tree_wf(nodes@, src@.len() as int, toks@.len() as int),
        cfg.spec_valid(),
    ensures
        final(out)@ == old(out)@ + naming_part(src@, toks@, nodes@, *cfg),
{
    reveal(naming_part);
    if cfg.naming {
        let (mut a, mut b) = naming_rule(src, toks, nodes, cfg);
        out.append(&mut a);
        out.append(&mut b);
        let mut c = parameter_naming_rule(src, toks, nodes, cfg);
        out.append(&mut c);
    } else {
        assert(old(out)@ + naming_part(src@, toks@, nodes@, *cfg) =~= old(out)@);
    }
}

fn run_unsafe_part(src: &[u8], toks: &Vec<Token>, nodes: &Vec<Node>, cfg: &Config, out: &mut Vec<Finding>)
    requires
        tokens_wf(toks@, src@.len() as int),
        tree_wf(nodes@, src@.len() as int, toks@.len() as int),
        cfg.spec_valid(),
    ensures
        final(out)@ == old(out)@ + unsafe_part(src@, toks@, nodes@, *cfg),
{
    reveal(unsafe_part);
    if cfg.unsafe_usage {
        let (mut a, mut b) = unsafe_rule(src, toks, nodes);
        out.append(&mut a);
        out.append(&mut b);
    } else {
        assert(old(out)@ + unsafe_part(src@, toks@, nodes@, *cfg) =~= old(out)@);
    }
}

fn run_errors_part(src: &[u8], toks: &Vec<Token>, nodes: &Vec<Node>, cfg: &Config, out: &mut Vec<Finding>)
    requires
        tokens_wf(toks@, src@.len() as int),
        tree_wf(nodes@, src@.len() as int, toks@.len() as int),
        cfg.spec_valid(),
    ensures
        final(out)@ == old(out)@ + errors_part(src@, toks@, nodes@, *cfg),
{
    reveal(errors_part);
    if cfg.error_handling {
        let mut v = error_handling_rule(src, toks, nodes);
        out.append(&mut v);
    } else {
        assert(old(out)@ + errors_part(src@, toks@, nodes@, *cfg) =~= old(out)@);
    }
}

fn run_complexity_part(src: &[u8], toks: &Vec<Token>, nodes: &Vec<Node>, cfg: &Config, out: &mut Vec<Finding>)
    requires
        tokens_wf(toks@, src@.len() as int),
        tree_wf(nodes@, src@.len() as int, toks@.len() as int),
        cfg.spec_valid(),
    ensures
        final(out)@ == old(out)@ + complexity_part(src@, toks@, nodes@, *cfg),
{
    reveal(complexity_part);
    if cfg.complexity {
        let mut v = complexity_rule(src, toks, nodes, cfg);
        out.append(&mut v);
    } else {
        assert(old(out)@ + complexity_part(src@, toks@, nodes@, *cfg) =~= old(out)@);
    }
}

fn run_duplication_part(src: &[u8], toks: &Vec<Token>, nodes: &Vec<Node>, cfg: &Config, out: &mut Vec<Finding>)
    requires
        tokens_wf(toks@, src@.len() as int),
        tree_wf(nodes@, src@.len() as int, toks@.len() as int),
        cfg.spec_valid(),
    ensures
        final(out)@ == old(out)@ + duplication_part(src@, toks@, nodes@, *cfg),
{
    reveal(duplication_part);
    if cfg.duplication {
        let mut v = duplication_rule(src, toks, nodes, cfg.min_duplicate_tokens);
        out.append(&mut v);
        let mut w = near_duplicate_rule(src, toks, nodes, cfg.min_duplicate_tokens, cfg.similarity_percent);
        out.append(&mut w);
    } else {
        assert(old(out)@ + duplication_part(src@, toks@, nodes@, *cfg) =~= old(out)@);
    }
}

fn run_rules(src: &[u8], toks: &Vec<Token>, nodes: &Vec<Node>, cfg: &Config) -> (r: Vec<Finding>)
    requires
        tokens_wf(toks@, src@.len() as int),
        tree_wf(nodes@, src@.len() as int, toks@.len() as int),
        cfg.spec_valid(),
    ensures
        r@ == rule_findings(src@, toks@, nodes@, *cfg),
{
    let mut out: Vec<Finding> = Vec::new();
    run_magic_part(src, toks, nodes, cfg, &mut out);
    run_commented_part(src, toks, nodes, cfg, &mut out);
    run_docs_part(src, toks, nodes, cfg, &mut out);
    run_naming_part(src, toks, nodes, cfg, &mut out);
    run_unsafe_part(src, toks, nodes, cfg, &mut out);
    run_errors_part(src, toks, nodes, cfg, &mut out);
    run_complexity_part(src, toks, nodes, cfg, &mut out);
    run_duplication_part(src, toks, nodes, cfg, &mut out);
    proof {
        assert(out@ =~= rule_findings(src@, toks@, nodes@, *cfg));
    }
    out
}

/// Runs the whole pipeline on one input: check the configuration, tokenize,
/// build and check the tree, run the enabled rules, drop what directives
/// suppress, and keep one finding per rule and span. All or nothing: an error
/// comes with no findings.
pub fn analyze(src: &[u8], cfg: &Config) -> (r: Result<Analysis, AnalysisError>)
    requires
        src@.len() < usize::MAX,
    ensures
        (r matches Err(AnalysisError::Config(_))) <==> !cfg.spec_valid(),
        cfg.spec_valid() && !parse_fails(src@, lex_from(src@, 0)) ==> r is Ok,
        r matches Err(AnalysisError::Parse(e)) ==> cfg.spec_valid() && parse_spec(src@, lex_from(src@, 0))
            == Err::<Seq<Node>, ParseError>(e),
        cfg.spec_valid() && (exists|k: int|
            0 <= k < lex_from(src@, 0).len() && (#[trigger] lex_from(src@, 0)[k]).kind
                == TokenKind::Unterminated) ==> r matches Err(AnalysisError::Parse(_)),
        r matches Err(AnalysisError::Parse(e)) ==> e.span.start <= e.span.end <= src@.len(),
        r matches Ok(a) ==> {
            &&& a.tokens@ == lex_from(src@, 0)
            &&& a.nodes@ == tree_of(src@, a.tokens@)
            &&& tree_wf(a.nodes@, src@.len() as int, a.tokens@.len() as int)
            &&& a.findings@ == report(src@, a.tokens@, a.nodes@, *cfg)
            &&& a.findings@ == findings_of(src@, *cfg)
            &&& findings_within(a.findings@, src@.len() as int)
            &&& keys_unique(a.findings@)
        },
{
    match cfg.validate() {
        Ok(()) => {},
        Err(e) => {
            return Err(AnalysisError::Config(e));
        },
    }
    let toks = tokenize(src);
    let nodes = match parse(src, &toks) {
        Ok(n) => n,
        Err(e) => {
            return Err(AnalysisError::Parse(e));
        },
    };
    let all = run_rules(src, &toks, &nodes, cfg);
    let directives = collect_directives(src, &toks, &nodes, &cfg.directive_markers);
    let left = resolve(&all, &directives);
    let findings = dedupe(&left);
    proof {
        crate::containment::lemma_report_within(src@, toks@, nodes@, *cfg);
    }
    Ok(Analysis { tokens: toks, nodes, findings })
}

/// The findings a successful run reports on `src` under `cfg`: a function of
/// the source and the configuration alone.
pub open spec fn findings_of(src: Seq<u8>, cfg: Config) -> Seq<Finding> {
    report(src, lex_from(src, 0), tree_of(src, lex_from(src, 0)), cfg)
}

/// Idempotence: two successful runs of `analyze` on the same source and
/// configuration report the same ordered findings, since each reports
/// `findings_of(src, cfg)`.
pub proof fn lemma_runs_agree(src: Seq<u8>, cfg: Config, first: Seq<Finding>, second: Seq<Finding>)
    requires
        first == findings_of(src, cfg),
        second == findings_of(src, cfg),
    ensures
        first == second,
{
}

} // verus!
