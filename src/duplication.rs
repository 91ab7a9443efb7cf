use vstd::prelude::*;
use crate::lexer::{Token, TokenKind, tokens_wf};
use crate::words::{word_at, word_of, text};
use crate::tree::{Node, NodeKind, tree_wf, node_ok};
use crate::finding::{Finding, Issue, RuleId, rule_of, severity_of};
use crate::rules::{collect, lemma_collect_step};

verus! {

/// Placeholder codes of the canonical form: every identifier becomes
/// `IDENT_CODE`, every literal `LITERAL_CODE`; keywords and punctuation keep
/// their identity.
pub const IDENT_CODE: u32 = 256;
pub const LITERAL_CODE: u32 = 257;
pub const LIFETIME_CODE: u32 = 258;
pub const KEYWORD_BASE: u32 = 300;

/// The canonical code of token `j`.
pub open spec fn canon(src: Seq<u8>, toks: Seq<Token>, j: int) -> u32 {
    let t = toks[j];
    match t.kind {
        TokenKind::Ident => match word_of(text(src, t.span)) {
            Some(w) => if w.spec_is_keyword() {
                (KEYWORD_BASE + w.index()) as u32
            } else {
                IDENT_CODE
            },
            None => IDENT_CODE,
        },
        TokenKind::Number | TokenKind::Str | TokenKind::Char => LITERAL_CODE,
        TokenKind::Lifetime => LIFETIME_CODE,
        _ => src[t.span.start as int] as u32,
    }
}

/// The canonical form of tokens `lo .. hi`: their codes, comments left out.
pub open spec fn canon_seq(src: Seq<u8>, toks: Seq<Token>, lo: int, hi: int) -> Seq<u32>
    decreases hi - lo,
{
    if hi <= lo {
        Seq::empty()
    } else if toks[hi - 1].kind.spec_is_comment() {
        canon_seq(src, toks, lo, hi - 1)
    } else {
        canon_seq(src, toks, lo, hi - 1).push(canon(src, toks, hi - 1))
    }
}

/// The canonical form of the body of node `m`; empty for nodes other than
/// functions with a body.
pub open spec fn body_form(src: Seq<u8>, toks: Seq<Token>, nodes: Seq<Node>, m: int) -> Seq<u32> {
    let nd = nodes[m];
    if nd.kind == NodeKind::Function && nd.body is Some {
        canon_seq(src, toks, nd.body.unwrap() + 1, nd.end_tok as int)
    } else {
        Seq::empty()
    }
}

/// Node `m` is a function whose body is long enough to compare.
pub open spec fn is_candidate(src: Seq<u8>, toks: Seq<Token>, nodes: Seq<Node>, min: int, m: int) -> bool {
    0 <= m < nodes.len() && nodes[m].kind == NodeKind::Function && nodes[m].body is Some && body_form(
        src,
        toks,
        nodes,
        m,
    ).len() >= min
}

/// Candidates `a` and `b` have the same canonical form.
pub open spec fn same_group(src: Seq<u8>, toks: Seq<Token>, nodes: Seq<Node>, min: int, a: int, b: int) -> bool {
    is_candidate(src, toks, nodes, min, a) && is_candidate(src, toks, nodes, min, b) && body_form(
        src,
        toks,
        nodes,
        a,
    ) == body_form(src, toks, nodes, b)
}

/// The first candidate from `i` on in the group of `m`, or `m` when there is none
/// before it.
pub open spec fn first_of_group(src: Seq<u8>, toks: Seq<Token>, nodes: Seq<Node>, min: int, m: int, i: int) -> int
    decreases m - i,
{
    if i >= m {
        m
    } else if same_group(src, toks, nodes, min, i, m) {
        i
    } else {
        first_of_group(src, toks, nodes, min, m, i + 1)
    }
}

/// The group id of candidate `m`: the index of the group's first member.
pub open spec fn group_of(src: Seq<u8>, toks: Seq<Token>, nodes: Seq<Node>, min: int, m: int) -> int {
    first_of_group(src, toks, nodes, min, m, 0)
}

/// A candidate with an earlier member in its group is reported, linked to the
/// group's first member, which is not.
pub open spec fn duplicate_at(src: Seq<u8>, toks: Seq<Token>, nodes: Seq<Node>, min: int, m: int) -> Option<Finding> {
    if is_candidate(src, toks, nodes, min, m) && group_of(src, toks, nodes, min, m) < m {
        Some(
            Finding {
                rule: rule_of(Issue::Duplicate),
                issue: Issue::Duplicate,
                severity: severity_of(Issue::Duplicate),
                span: nodes[m].span,
                group: Some(group_of(src, toks, nodes, min, m) as usize),
            },
        )
    } else {
        None
    }
}

proof fn lemma_first_of_group(src: Seq<u8>, toks: Seq<Token>, nodes: Seq<Node>, min: int, m: int, i: int)
    requires
        0 <= i <= m,
        is_candidate(src, toks, nodes, min, m),
    ensures
        i <= first_of_group(src, toks, nodes, min, m, i) <= m,
        same_group(src, toks, nodes, min, first_of_group(src, toks, nodes, min, m, i), m),
        forall|j: int| i <= j < first_of_group(src, toks, nodes, min, m, i) ==> !same_group(src, toks, nodes, min, j, m),
    decreases m - i,
{
    if i < m && !same_group(src, toks, nodes, min, i, m) {
        lemma_first_of_group(src, toks, nodes, min, m, i + 1);
    }
}

/// Duplicate groups are equivalence classes: two candidates carry the same
/// group id exactly when their canonical forms agree, so membership is
/// symmetric and transitive.
pub proof fn lemma_group_membership(src: Seq<u8>, toks: Seq<Token>, nodes: Seq<Node>, min: int, a: int, b: int)
    requires
        is_candidate(src, toks, nodes, min, a),
        is_candidate(src, toks, nodes, min, b),
    ensures
        (group_of(src, toks, nodes, min, a) == group_of(src, toks, nodes, min, b)) <==> same_group(src, toks, nodes, min, a, b),
        same_group(src, toks, nodes, min, a, b) == same_group(src, toks, nodes, min, b, a),
        same_group(src, toks, nodes, min, group_of(src, toks, nodes, min, a), a),
        group_of(src, toks, nodes, min, a) <= a,
{
    lemma_first_of_group(src, toks, nodes, min, a, 0);
    lemma_first_of_group(src, toks, nodes, min, b, 0);
    let ga = group_of(src, toks, nodes, min, a);
    let gb = group_of(src, toks, nodes, min, b);
    if same_group(src, toks, nodes, min, a, b) {
        if ga < gb {
            assert(same_group(src, toks, nodes, min, ga, b));
        } else if gb < ga {
            assert(same_group(src, toks, nodes, min, gb, a));
        }
    }
}

/// Groups are transitive: members of one group with a common third member
/// share a group.
pub proof fn lemma_group_transitive(src: Seq<u8>, toks: Seq<Token>, nodes: Seq<Node>, min: int, a: int, b: int, c: int)
    requires
        same_group(src, toks, nodes, min, a, b),
        same_group(src, toks, nodes, min, b, c),
    ensures
        same_group(src, toks, nodes, min, a, c),
{
}

fn canon_code(src: &[u8], toks: &Vec<Token>, j: usize) -> (r: u32)
    requires
        tokens_wf(toks@, src@.len() as int),
        j < toks@.len(),
    ensures
        r == canon(src@, toks@, j as int),
{
    let t = toks[j];
    match t.kind {
        TokenKind::Ident => match word_at(src, t.span) {
            Some(w) => if w.is_keyword() {
                KEYWORD_BASE + w.position()
            } else {
                IDENT_CODE
            },
            None => IDENT_CODE,
        },
        TokenKind::Number | TokenKind::Str | TokenKind::Char => LITERAL_CODE,
        TokenKind::Lifetime => LIFETIME_CODE,
        _ => src[t.span.start] as u32,
    }
}

fn canonical_form(src: &[u8], toks: &Vec<Token>, lo: usize, hi: usize) -> (r: Vec<u32>)
    requires
        tokens_wf(toks@, src@.len() as int),
        lo <= hi <= toks@.len(),
    ensures
        r@ == canon_seq(src@, toks@, lo as int, hi as int),
{
    let mut out: Vec<u32> = Vec::new();
    let mut j = lo;
    while j < hi
        invariant
            lo <= j <= hi <= toks@.len(),
            tokens_wf(toks@, src@.len() as int),
            out@ == canon_seq(src@, toks@, lo as int, j as int),
        decreases hi - j,
    {
        if !toks[j].kind.is_comment() {
            out.push(canon_code(src, toks, j));
        }
        j = j + 1;
    }
    out
}

fn same_form(a: &Vec<u32>, b: &Vec<u32>) -> (r: bool)
    ensures
        r == (a@ == b@),
{
    if a.len() != b.len() {
        return false;
    }
    let mut i: usize = 0;
    while i < a.len()
        invariant
            a@.len() == b@.len(),
            i <= a@.len(),
            forall|k: int| 0 <= k < i ==> a@[k] == b@[k],
        decreases a.len() - i,
    {
        if a[i] != b[i] {
            return false;
        }
        i = i + 1;
    }
    assert(a@ =~= b@);
    true
}

/// The canonical body form of every node.
fn body_forms(src: &[u8], toks: &Vec<Token>, nodes: &Vec<Node>) -> (r: Vec<Vec<u32>>)
    requires
        tokens_wf(toks@, src@.len() as int),
        tree_wf(nodes@, src@.len() as int, toks@.len() as int),
    ensures
        r@.len() == nodes@.len(),
        forall|m: int| 0 <= m < nodes@.len() ==> (#[trigger] r@[m])@ == body_form(src@, toks@, nodes@, m),
{
    let mut out: Vec<Vec<u32>> = Vec::new();
    let mut m: usize = 0;
    while m < nodes.len()
        invariant
            m <= nodes@.len(),
            out@.len() == m,
            tokens_wf(toks@, src@.len() as int),
            tree_wf(nodes@, src@.len() as int, toks@.len() as int),
            forall|k: int| 0 <= k < m ==> (#[trigger] out@[k])@ == body_form(src@, toks@, nodes@, k),
        decreases nodes.len() - m,
    {
        let nd = nodes[m];
        assert(node_ok(nodes@[m as int], src@.len() as int, toks@.len() as int));
        let form = match nd.body {
            Some(b) => if nd.kind == NodeKind::Function {
                canonical_form(src, toks, b + 1, nd.end_tok)
            } else {
                Vec::new()
            },
            None => Vec::new(),
        };
        assert(form@ == body_form(src@, toks@, nodes@, m as int));
        out.push(form);
        m = m + 1;
    }
    out
}

/// Groups functions whose bodies agree once identifiers and literals are
/// erased; each member after the first of its group is reported.
pub fn duplication_rule(src: &[u8], toks: &Vec<Token>, nodes: &Vec<Node>, min: usize) -> (r: Vec<Finding>)
    requires
        tokens_wf(toks@, src@.len() as int),
        tree_wf(nodes@, src@.len() as int, toks@.len() as int),
    ensures
        r@ == collect(|m: int| duplicate_at(src@, toks@, nodes@, min as int, m), nodes@.len() as int),
{
    let forms = body_forms(src, toks, nodes);
    let ghost f = |m: int| duplicate_at(src@, toks@, nodes@, min as int, m);
    let mut out: Vec<Finding> = Vec::new();
    let mut m: usize = 0;
    while m < nodes.len()
        invariant
            m <= nodes@.len(),
            forms@.len() == nodes@.len(),
            forall|k: int| 0 <= k < nodes@.len() ==> (#[trigger] forms@[k])@ == body_form(src@, toks@, nodes@, k),
            f == (|m: int| duplicate_at(src@, toks@, nodes@, min as int, m)),
            out@ == collect(f, m as int),
        decreases nodes.len() - m,
    {
        proof {
            lemma_collect_step(f, m as int, out@);
        }
        let nd = nodes[m];
        let cand = nd.kind == NodeKind::Function && nd.body.is_some() && forms[m].len() >= min;
        if cand {
            let mut i: usize = 0;
            let mut found = false;
            let mut g: usize = 0;
            while i < m
                invariant
                    i <= m < nodes@.len(),
                    forms@.len() == nodes@.len(),
                    forall|k: int| 0 <= k < nodes@.len() ==> (#[trigger] forms@[k])@ == body_form(src@, toks@, nodes@, k),
                    is_candidate(src@, toks@, nodes@, min as int, m as int),
                    !found ==> first_of_group(src@, toks@, nodes@, min as int, m as int, i as int)
                        == group_of(src@, toks@, nodes@, min as int, m as int),
                    found ==> i == m,
                    found ==> g < m && g == group_of(src@, toks@, nodes@, min as int, m as int),
                decreases m - i,
            {
                let other = nodes[i];
                if other.kind == NodeKind::Function && other.body.is_some() && forms[i].len() >= min
                    && same_form(&forms[i], &forms[m]) {
                    proof {
                        assert(forms@[i as int]@ == body_form(src@, toks@, nodes@, i as int));
                        assert(forms@[m as int]@ == body_form(src@, toks@, nodes@, m as int));
                        assert(same_group(src@, toks@, nodes@, min as int, i as int, m as int));
                    }
                    found = true;
                    g = i;
                    i = m;
                } else {
                    i = i + 1;
                }
            }
            if found {
                out.push(
                    Finding {
                        rule: RuleId::Duplication,
                        issue: Issue::Duplicate,
                        severity: Issue::Duplicate.severity(),
                        span: nd.span,
                        group: Some(g),
                    },
                );
            }
        }
        m = m + 1;
    }
    out
}

// ---------------------------------------------------------------------------
// Near duplicates

/// Positions below `n` where `a` and `b` hold the same code.
pub open spec fn matches_upto(a: Seq<u32>, b: Seq<u32>, n: int) -> int
    decreases n,
{
    if n <= 0 {
        0
    } else {
        matches_upto(a, b, n - 1) + if a[n - 1] == b[n - 1] {
            1int
        } else {
            0
        }
    }
}

pub open spec fn min_len(a: Seq<u32>, b: Seq<u32>) -> int {
    if a.len() <= b.len() {
        a.len() as int
    } else {
        b.len() as int
    }
}

pub open spec fn max_len(a: Seq<u32>, b: Seq<u32>) -> int {
    if a.len() >= b.len() {
        a.len() as int
    } else {
        b.len() as int
    }
}

/// At least `percent`% of the positions of the longer form hold the same code
/// in both forms.
pub open spec fn similar(a: Seq<u32>, b: Seq<u32>, percent: int) -> bool {
    100 * matches_upto(a, b, min_len(a, b)) >= percent * max_len(a, b)
}

/// Candidates `i` and `m` differ but are similar.
pub open spec fn near_pair(src: Seq<u8>, toks: Seq<Token>, nodes: Seq<Node>, min: int, percent: int, i: int, m: int) -> bool {
    is_candidate(src, toks, nodes, min, i) && is_candidate(src, toks, nodes, min, m) && body_form(
        src,
        toks,
        nodes,
        i,
    ) != body_form(src, toks, nodes, m) && similar(
        body_form(src, toks, nodes, i),
        body_form(src, toks, nodes, m),
        percent,
    )
}

/// The first candidate from `i` on, before `m`, that is near `m`; `m` when none is.
pub open spec fn first_near(src: Seq<u8>, toks: Seq<Token>, nodes: Seq<Node>, min: int, percent: int, m: int, i: int) -> int
    decreases m - i,
{
    if i >= m {
        m
    } else if near_pair(src, toks, nodes, min, percent, i, m) {
        i
    } else {
        first_near(src, toks, nodes, min, percent, m, i + 1)
    }
}

/// A candidate that is no exact duplicate but resembles an earlier one is
/// reported, linked to the first such.
pub open spec fn near_duplicate_at(src: Seq<u8>, toks: Seq<Token>, nodes: Seq<Node>, min: int, percent: int, m: int) -> Option<Finding> {
    if is_candidate(src, toks, nodes, min, m) && group_of(src, toks, nodes, min, m) == m && first_near(
        src,
        toks,
        nodes,
        min,
        percent,
        m,
        0,
    ) < m {
        Some(
            Finding {
                rule: rule_of(Issue::NearDuplicate),
                issue: Issue::NearDuplicate,
                severity: severity_of(Issue::NearDuplicate),
                span: nodes[m].span,
                group: Some(first_near(src, toks, nodes, min, percent, m, 0) as usize),
            },
        )
    } else {
        None
    }
}

proof fn lemma_matches_bound(a: Seq<u32>, b: Seq<u32>, n: int)
    ensures
        0 <= matches_upto(a, b, n),
        0 <= n ==> matches_upto(a, b, n) <= n,
    decreases n,
{
    if n > 0 {
        lemma_matches_bound(a, b, n - 1);
    }
}

fn is_similar(a: &Vec<u32>, b: &Vec<u32>, percent: usize) -> (r: bool)
    requires
        percent <= 100,
    ensures
        r == similar(a@, b@, percent as int),
{
    let n = if a.len() <= b.len() {
        a.len()
    } else {
        b.len()
    };
    let longest = if a.len() >= b.len() {
        a.len()
    } else {
        b.len()
    };
    let mut same: usize = 0;
    let mut i: usize = 0;
    while i < n
        invariant
            n == min_len(a@, b@),
            i <= n,
            same == matches_upto(a@, b@, i as int),
        decreases n - i,
    {
        proof {
            lemma_matches_bound(a@, b@, i as int);
        }
        if a[i] == b[i] {
            same = same + 1;
        }
        i = i + 1;
    }
    proof {
        lemma_matches_bound(a@, b@, n as int);
        assert((percent as u128) * (longest as u128) <= 100 * (usize::MAX as u128)) by (nonlinear_arith)
            requires
                percent <= 100,
                longest <= usize::MAX,
        ;
    }
    (same as u128) * 100 >= (percent as u128) * (longest as u128)
}

/// The group id of candidate `m`, found by comparing forms.
fn earliest_same(nodes: &Vec<Node>, forms: &Vec<Vec<u32>>, m: usize, min: usize, Ghost(src): Ghost<Seq<u8>>, Ghost(toks): Ghost<Seq<Token>>) -> (r: usize)
    requires
        m < nodes@.len(),
        forms@.len() == nodes@.len(),
        forall|k: int| 0 <= k < nodes@.len() ==> (#[trigger] forms@[k])@ == body_form(src, toks, nodes@, k),
        is_candidate(src, toks, nodes@, min as int, m as int),
    ensures
        r == group_of(src, toks, nodes@, min as int, m as int),
{
    let mut i: usize = 0;
    while i < m
        invariant
            i <= m < nodes@.len(),
            forms@.len() == nodes@.len(),
            forall|k: int| 0 <= k < nodes@.len() ==> (#[trigger] forms@[k])@ == body_form(src, toks, nodes@, k),
            is_candidate(src, toks, nodes@, min as int, m as int),
            first_of_group(src, toks, nodes@, min as int, m as int, i as int) == group_of(src, toks, nodes@, min as int, m as int),
        decreases m - i,
    {
        let other = nodes[i];
        proof {
            assert(forms@[i as int]@ == body_form(src, toks, nodes@, i as int));
            assert(forms@[m as int]@ == body_form(src, toks, nodes@, m as int));
        }
        if other.kind == NodeKind::Function && other.body.is_some() && forms[i].len() >= min && same_form(&forms[i], &forms[m]) {
            return i;
        }
        i = i + 1;
    }
    m
}

/// The first earlier candidate near `m`, or `m`.
fn earliest_near(nodes: &Vec<Node>, forms: &Vec<Vec<u32>>, m: usize, min: usize, percent: usize, Ghost(src): Ghost<Seq<u8>>, Ghost(toks): Ghost<Seq<Token>>) -> (r: usize)
    requires
        m < nodes@.len(),
        percent <= 100,
        forms@.len() == nodes@.len(),
        forall|k: int| 0 <= k < nodes@.len() ==> (#[trigger] forms@[k])@ == body_form(src, toks, nodes@, k),
        is_candidate(src, toks, nodes@, min as int, m as int),
    ensures
        r == first_near(src, toks, nodes@, min as int, percent as int, m as int, 0),
{
    let mut i: usize = 0;
    while i < m
        invariant
            i <= m < nodes@.len(),
            percent <= 100,
            forms@.len() == nodes@.len(),
            forall|k: int| 0 <= k < nodes@.len() ==> (#[trigger] forms@[k])@ == body_form(src, toks, nodes@, k),
            is_candidate(src, toks, nodes@, min as int, m as int),
            first_near(src, toks, nodes@, min as int, percent as int, m as int, i as int)
                == first_near(src, toks, nodes@, min as int, percent as int, m as int, 0),
        decreases m - i,
    {
        let other = nodes[i];
        proof {
            assert(forms@[i as int]@ == body_form(src, toks, nodes@, i as int));
            assert(forms@[m as int]@ == body_form(src, toks, nodes@, m as int));
        }
        if other.kind == NodeKind::Function && other.body.is_some() && forms[i].len() >= min && !same_form(&forms[i], &forms[m])
            && is_similar(&forms[i], &forms[m], percent) {
            return i;
        }
        i = i + 1;
    }
    m
}

/// Functions that are no exact duplicate of an earlier one but agree with one
/// on at least `percent`% of their canonical tokens.
pub fn near_duplicate_rule(src: &[u8], toks: &Vec<Token>, nodes: &Vec<Node>, min: usize, percent: usize) -> (r: Vec<Finding>)
    requires
        tokens_wf(toks@, src@.len() as int),
        tree_wf(nodes@, src@.len() as int, toks@.len() as int),
        percent <= 100,
    ensures
        r@ == collect(|m: int| near_duplicate_at(src@, toks@, nodes@, min as int, percent as int, m), nodes@.len() as int),
{
    let forms = body_forms(src, toks, nodes);
    let ghost f = |m: int| near_duplicate_at(src@, toks@, nodes@, min as int, percent as int, m);
    let mut out: Vec<Finding> = Vec::new();
    let mut m: usize = 0;
    while m < nodes.len()
        invariant
            m <= nodes@.len(),
            percent <= 100,
            forms@.len() == nodes@.len(),
            forall|k: int| 0 <= k < nodes@.len() ==> (#[trigger] forms@[k])@ == body_form(src@, toks@, nodes@, k),
            f == (|m: int| near_duplicate_at(src@, toks@, nodes@, min as int, percent as int, m)),
            out@ == collect(f, m as int),
        decreases nodes.len() - m,
    {
        proof {
            lemma_collect_step(f, m as int, out@);
        }
        let nd = nodes[m];
        if nd.kind == NodeKind::Function && nd.body.is_some() && forms[m].len() >= min {
            if earliest_same(nodes, &forms, m, min, Ghost(src@), Ghost(toks@)) == m {
                let g = earliest_near(nodes, &forms, m, min, percent, Ghost(src@), Ghost(toks@));
                if g < m {
                    out.push(
                        Finding {
                            rule: RuleId::Duplication,
                            issue: Issue::NearDuplicate,
                            severity: Issue::NearDuplicate.severity(),
                            span: nd.span,
                            group: Some(g),
                        },
                    );
                }
            }
        }
        m = m + 1;
    }
    out
}

} // verus!
