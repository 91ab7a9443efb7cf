use vstd::prelude::*;
use crate::span::Span;
use crate::lexer::{Token, TokenKind, tokens_wf, line_end, LF};
use crate::words::text_eq;
use crate::tree::{Node, tree_wf};
use crate::finding::{Finding, RuleId};
use crate::rules::occurs_in;
use crate::rules::span_contains;
use crate::comments::{skip_blank, exec_skip_blank};
use crate::lexer::scan_line;

verus! {

/// A set of rules, one flag per rule.
#[derive(Clone, Copy, Debug, PartialEq, Eq, Structural)]
pub struct RuleSet {
    pub magic_number: bool,
    pub commented_code: bool,
    pub missing_docs: bool,
    pub naming: bool,
    pub unsafe_usage: bool,
    pub error_handling: bool,
    pub complexity: bool,
    pub duplication: bool,
}

impl RuleSet {
    pub open spec fn has(self, r: RuleId) -> bool {
        match r {
            RuleId::MagicNumber => self.magic_number,
            RuleId::CommentedCode => self.commented_code,
            RuleId::MissingDocs => self.missing_docs,
            RuleId::Naming => self.naming,
            RuleId::UnsafeUsage => self.unsafe_usage,
            RuleId::ErrorHandling => self.error_handling,
            RuleId::Complexity => self.complexity,
            RuleId::Duplication => self.duplication,
        }
    }

    pub open spec fn spec_is_empty(self) -> bool {
        !self.magic_number && !self.commented_code && !self.missing_docs && !self.naming && !self.unsafe_usage && !self.error_handling && !self.complexity && !self.duplication
    }

    pub fn contains(&self, r: RuleId) -> (b: bool)
        ensures
            b == self.has(r),
    {
        match r {
            RuleId::MagicNumber => self.magic_number,
            RuleId::CommentedCode => self.commented_code,
            RuleId::MissingDocs => self.missing_docs,
            RuleId::Naming => self.naming,
            RuleId::UnsafeUsage => self.unsafe_usage,
            RuleId::ErrorHandling => self.error_handling,
            RuleId::Complexity => self.complexity,
            RuleId::Duplication => self.duplication,
        }
    }

    pub fn is_empty(&self) -> (b: bool)
        ensures
            b == self.spec_is_empty(),
    {
        !self.magic_number && !self.commented_code && !self.missing_docs && !self.naming && !self.unsafe_usage && !self.error_handling && !self.complexity && !self.duplication
    }
}

/// The spelling of each rule's name in directives.
pub open spec fn rule_name_bytes(r: RuleId) -> Seq<u8> {
    match r {
        RuleId::MagicNumber => seq![109u8, 97u8, 103u8, 105u8, 99u8, 45u8, 110u8, 117u8, 109u8, 98u8, 101u8, 114u8],  // magic-number
        RuleId::CommentedCode => seq![99u8, 111u8, 109u8, 109u8, 101u8, 110u8, 116u8, 101u8, 100u8, 45u8, 99u8, 111u8, 100u8, 101u8],  // commented-code
        RuleId::MissingDocs => seq![109u8, 105u8, 115u8, 115u8, 105u8, 110u8, 103u8, 45u8, 100u8, 111u8, 99u8, 115u8],  // missing-docs
        RuleId::Naming => seq![110u8, 97u8, 109u8, 105u8, 110u8, 103u8],  // naming
        RuleId::UnsafeUsage => seq![117u8, 110u8, 115u8, 97u8, 102u8, 101u8, 45u8, 117u8, 115u8, 97u8, 103u8, 101u8],  // unsafe-usage
        RuleId::ErrorHandling => seq![101u8, 114u8, 114u8, 111u8, 114u8, 45u8, 104u8, 97u8, 110u8, 100u8, 108u8, 105u8, 110u8, 103u8],  // error-handling
        RuleId::Complexity => seq![99u8, 111u8, 109u8, 112u8, 108u8, 101u8, 120u8, 105u8, 116u8, 121u8],  // complexity
        RuleId::Duplication => seq![100u8, 117u8, 112u8, 108u8, 105u8, 99u8, 97u8, 116u8, 105u8, 111u8, 110u8],  // duplication
    }
}

fn rule_name(r: RuleId) -> (v: Vec<u8>)
    ensures
        v@ == rule_name_bytes(r),
{
    let v = match r {
        RuleId::MagicNumber => vec![109, 97, 103, 105, 99, 45, 110, 117, 109, 98, 101, 114],
        RuleId::CommentedCode => vec![99, 111, 109, 109, 101, 110, 116, 101, 100, 45, 99, 111, 100, 101],
        RuleId::MissingDocs => vec![109, 105, 115, 115, 105, 110, 103, 45, 100, 111, 99, 115],
        RuleId::Naming => vec![110, 97, 109, 105, 110, 103],
        RuleId::UnsafeUsage => vec![117, 110, 115, 97, 102, 101, 45, 117, 115, 97, 103, 101],
        RuleId::ErrorHandling => vec![101, 114, 114, 111, 114, 45, 104, 97, 110, 100, 108, 105, 110, 103],
        RuleId::Complexity => vec![99, 111, 109, 112, 108, 101, 120, 105, 116, 121],
        RuleId::Duplication => vec![100, 117, 112, 108, 105, 99, 97, 116, 105, 111, 110],
    };
    proof {
        assert(v@ =~= rule_name_bytes(r));
    }
    v
}

/// The rules named anywhere within `sp`.
pub open spec fn named_rules(src: Seq<u8>, sp: Span) -> RuleSet {
    RuleSet {
        magic_number: occurs_in(src, sp, rule_name_bytes(RuleId::MagicNumber)),
        commented_code: occurs_in(src, sp, rule_name_bytes(RuleId::CommentedCode)),
        missing_docs: occurs_in(src, sp, rule_name_bytes(RuleId::MissingDocs)),
        naming: occurs_in(src, sp, rule_name_bytes(RuleId::Naming)),
        unsafe_usage: occurs_in(src, sp, rule_name_bytes(RuleId::UnsafeUsage)),
        error_handling: occurs_in(src, sp, rule_name_bytes(RuleId::ErrorHandling)),
        complexity: occurs_in(src, sp, rule_name_bytes(RuleId::Complexity)),
        duplication: occurs_in(src, sp, rule_name_bytes(RuleId::Duplication)),
    }
}

fn exec_named_rules(src: &[u8], sp: Span) -> (r: RuleSet)
    requires
        sp.start <= sp.end <= src@.len(),
    ensures
        r == named_rules(src@, sp),
{
    RuleSet {
        magic_number: span_contains(src, sp, &rule_name(RuleId::MagicNumber)),
        commented_code: span_contains(src, sp, &rule_name(RuleId::CommentedCode)),
        missing_docs: span_contains(src, sp, &rule_name(RuleId::MissingDocs)),
        naming: span_contains(src, sp, &rule_name(RuleId::Naming)),
        unsafe_usage: span_contains(src, sp, &rule_name(RuleId::UnsafeUsage)),
        error_handling: span_contains(src, sp, &rule_name(RuleId::ErrorHandling)),
        complexity: span_contains(src, sp, &rule_name(RuleId::Complexity)),
        duplication: span_contains(src, sp, &rule_name(RuleId::Duplication)),
    }
}

/// The standard directive marker.
pub open spec fn marker_bytes() -> Seq<u8> {
    seq![108u8, 105u8, 110u8, 116u8, 58u8, 97u8, 108u8, 108u8, 111u8, 119u8]  // lint:allow
}

pub open spec fn block_suffix() -> Seq<u8> {
    seq![45u8, 98u8, 108u8, 111u8, 99u8, 107u8]  // -block
}

pub open spec fn file_suffix() -> Seq<u8> {
    seq![45u8, 102u8, 105u8, 108u8, 101u8]  // -file
}

/// How far a directive reaches.
#[derive(Clone, Copy, Debug, PartialEq, Eq, Structural)]
pub enum Reach {
    /// The line the marker trails, or else the line after it.
    Line,
    /// The innermost item or block around the marker.
    Block,
    /// The whole input.
    File,
}

/// An inline directive: findings of the named rules (all rules, when none is
/// named) within `scope` are dropped.
#[derive(Clone, Copy, Debug, PartialEq, Eq, Structural)]
pub struct Directive {
    pub reach: Reach,
    pub scope: Span,
    pub rules: RuleSet,
}

/// Start of the line that holds position `i`.
pub open spec fn line_start(s: Seq<u8>, i: int) -> int
    decreases i,
{
    if i <= 0 || i > s.len() {
        0
    } else if s[i - 1] == LF {
        i
    } else {
        line_start(s, i - 1)
    }
}

/// Something other than whitespace stands in `s[lo .. hi]`.
pub open spec fn code_before(s: Seq<u8>, lo: int, hi: int) -> bool {
    exists|k: int| lo <= k < hi && !crate::lexer::is_ws(#[trigger] s[k])
}

/// The line a line directive in token `t` covers: its own line when code comes
/// before it there, else the next line (empty at the end of input).
pub open spec fn line_scope(s: Seq<u8>, t: Token) -> Span {
    let ls = line_start(s, t.span.start as int);
    if code_before(s, ls, t.span.start as int) {
        Span { start: ls as usize, end: line_end(s, t.span.start as int) as usize }
    } else {
        let e = line_end(s, t.span.end as int);
        if e < s.len() {
            Span { start: (e + 1) as usize, end: line_end(s, e + 1) as usize }
        } else {
            Span { start: s.len() as usize, end: s.len() as usize }
        }
    }
}

/// The last of nodes `0 .. n` whose span holds `sp`, or the root.
pub open spec fn innermost(nodes: Seq<Node>, sp: Span, n: int) -> int
    decreases n,
{
    if n <= 1 {
        0
    } else if sp.within(nodes[n - 1].span) {
        n - 1
    } else {
        innermost(nodes, sp, n - 1)
    }
}

pub open spec fn comment_body(t: Token) -> int {
    if t.span.start + 2 <= t.span.end {
        t.span.start + 2
    } else {
        t.span.end as int
    }
}

/// Bytes `s[p .. p + w.len()]` exist before `end` and spell `w`.
pub open spec fn spells_at(s: Seq<u8>, p: int, end: int, w: Seq<u8>) -> bool {
    0 <= p && p + w.len() <= end && end <= s.len() && s.subrange(p, p + w.len()) == w
}

/// Index of the first of `markers` from `a` on that is spelt at `p`, or the
/// number of markers.
pub open spec fn first_marker(src: Seq<u8>, p: int, end: int, markers: Seq<Vec<u8>>, a: int) -> int
    decreases markers.len() - a,
{
    if a < 0 || a >= markers.len() {
        markers.len() as int
    } else if spells_at(src, p, end, markers[a]@) {
        a
    } else {
        first_marker(src, p, end, markers, a + 1)
    }
}

/// The directive that comment token `k` holds: after `//` or `/*` and blanks
/// comes one of `markers` (the first that fits), then `-block` or `-file` or
/// nothing, then the names of the rules it applies to, if any.
pub open spec fn directive_at(src: Seq<u8>, toks: Seq<Token>, nodes: Seq<Node>, markers: Seq<Vec<u8>>, k: int) -> Option<Directive> {
    let t = toks[k];
    let end = t.span.end as int;
    let p = skip_blank(src, comment_body(t), end);
    let a = first_marker(src, p, end, markers, 0);
    let q = if a < markers.len() { p + markers[a]@.len() } else { p };
    if (t.kind == TokenKind::LineComment || t.kind == TokenKind::BlockComment) && a < markers.len() {
        if spells_at(src, q, end, block_suffix()) {
            Some(Directive {
                reach: Reach::Block,
                scope: nodes[innermost(nodes, t.span, nodes.len() as int)].span,
                rules: named_rules(src, Span { start: (q + 6) as usize, end: t.span.end }),
            })
        } else if spells_at(src, q, end, file_suffix()) {
            Some(Directive {
                reach: Reach::File,
                scope: Span { start: 0, end: src.len() as usize },
                rules: named_rules(src, Span { start: (q + 5) as usize, end: t.span.end }),
            })
        } else {
            Some(Directive {
                reach: Reach::Line,
                scope: line_scope(src, t),
                rules: named_rules(src, Span { start: q as usize, end: t.span.end }),
            })
        }
    } else {
        None
    }
}

/// The directives of comment tokens `0 .. n`, in order.
pub open spec fn directives_upto(src: Seq<u8>, toks: Seq<Token>, nodes: Seq<Node>, markers: Seq<Vec<u8>>, n: int) -> Seq<Directive>
    decreases n,
{
    if n <= 0 {
        Seq::empty()
    } else {
        directives_upto(src, toks, nodes, markers, n - 1) + match directive_at(src, toks, nodes, markers, n - 1) {
            Some(d) => seq![d],
            None => Seq::empty(),
        }
    }
}

/// Directive `d` removes finding `f`.
pub open spec fn covers(d: Directive, f: Finding) -> bool {
    f.span.within(d.scope) && (d.rules.spec_is_empty() || d.rules.has(f.rule))
}

pub open spec fn suppressed(f: Finding, ds: Seq<Directive>) -> bool {
    exists|j: int| 0 <= j < ds.len() && covers(#[trigger] ds[j], f)
}

/// The findings among the first `n` that no directive removes, in order.
pub open spec fn kept(fs: Seq<Finding>, ds: Seq<Directive>, n: int) -> Seq<Finding>
    decreases n,
{
    if n <= 0 {
        Seq::empty()
    } else {
        kept(fs, ds, n - 1) + if suppressed(fs[n - 1], ds) {
            Seq::empty()
        } else {
            seq![fs[n - 1]]
        }
    }
}

/// A finding survives suppression exactly when it was reported and no
/// directive covers it: findings outside every directive's scope are kept.
pub proof fn lemma_kept_exact(fs: Seq<Finding>, ds: Seq<Directive>, n: int)
    requires
        0 <= n <= fs.len(),
    ensures
        forall|f: Finding|
            kept(fs, ds, n).contains(f) <==> ((exists|j: int| 0 <= j < n && #[trigger] fs[j] == f) && !suppressed(f, ds)),
    decreases n,
{
    if n > 0 {
        lemma_kept_exact(fs, ds, n - 1);
        let prev = kept(fs, ds, n - 1);
        let cur = kept(fs, ds, n);
        let x = fs[n - 1];
        assert forall|f: Finding|
            cur.contains(f) <==> ((exists|j: int| 0 <= j < n && #[trigger] fs[j] == f) && !suppressed(f, ds)) by {
            if cur.contains(f) {
                let i = choose|i: int| 0 <= i < cur.len() && cur[i] == f;
                if i < prev.len() {
                    assert(prev[i] == f);
                    assert(prev.contains(f));
                } else {
                    assert(fs[n - 1] == f);
                }
            }
            if (exists|j: int| 0 <= j < n && #[trigger] fs[j] == f) && !suppressed(f, ds) {
                let j = choose|j: int| 0 <= j < n && #[trigger] fs[j] == f;
                if j < n - 1 {
                    assert(prev.contains(f));
                    let i = choose|i: int| 0 <= i < prev.len() && prev[i] == f;
                    assert(cur[i] == f);
                } else {
                    assert(cur[prev.len() as int] == f);
                }
            }
        }
    }
}

/// What resolving does with one finding under one directive: a directive that
/// names rules removes, within its scope, only findings of those rules; one
/// that names none removes every finding within its scope; nothing outside its
/// scope is removed.
pub proof fn lemma_one_directive(f: Finding, d: Directive)
    ensures
        suppressed(f, seq![d]) <==> (f.span.within(d.scope) && (d.rules.spec_is_empty() || d.rules.has(f.rule))),
        !d.rules.spec_is_empty() && !d.rules.has(f.rule) ==> kept(seq![f], seq![d], 1) == seq![f],
        d.rules.spec_is_empty() && f.span.within(d.scope) ==> kept(seq![f], seq![d], 1) == Seq::<Finding>::empty(),
        !f.span.within(d.scope) ==> kept(seq![f], seq![d], 1) == seq![f],
{
    if covers(d, f) {
        assert(covers(seq![d][0], f));
    }
    assert(kept(seq![f], seq![d], 0) =~= Seq::<Finding>::empty());
    assert(kept(seq![f], seq![d], 1) =~= kept(seq![f], seq![d], 0) + if suppressed(f, seq![d]) {
        Seq::<Finding>::empty()
    } else {
        seq![f]
    });
}

fn exec_covers(d: &Directive, f: &Finding) -> (r: bool)
    ensures
        r == covers(*d, *f),
{
    f.span.is_within(&d.scope) && (d.rules.is_empty() || d.rules.contains(f.rule))
}

/// Drops every finding that some directive covers; the rest keep their order.
pub fn resolve(fs: &Vec<Finding>, ds: &Vec<Directive>) -> (r: Vec<Finding>)
    ensures
        r@ == kept(fs@, ds@, fs@.len() as int),
{
    let mut out: Vec<Finding> = Vec::new();
    let mut i: usize = 0;
    while i < fs.len()
        invariant
            i <= fs@.len(),
            out@ == kept(fs@, ds@, i as int),
        decreases fs.len() - i,
    {
        let f = fs[i];
        let mut j: usize = 0;
        let mut hit = false;
        while j < ds.len() && !hit
            invariant
                j <= ds@.len(),
                f == fs@[i as int],
                !hit ==> forall|q: int| 0 <= q < j ==> !covers(#[trigger] ds@[q], f),
                hit ==> suppressed(f, ds@),
            decreases ds.len() - j + if hit { 0int } else { 1 },
        {
            if exec_covers(&ds[j], &f) {
                hit = true;
            } else {
                j = j + 1;
            }
        }
        if !hit {
            out.push(f);
        }
        proof {
            assert(out@ =~= kept(fs@, ds@, i + 1));
        }
        i = i + 1;
    }
    out
}

fn exec_line_start(s: &[u8], i: usize) -> (r: usize)
    requires
        i <= s@.len(),
    ensures
        r == line_start(s@, i as int),
        r <= i,
{
    let mut j = i;
    while j > 0 && s[j - 1] != LF
        invariant
            j <= i <= s@.len(),
            line_start(s@, j as int) == line_start(s@, i as int),
        decreases j,
    {
        j = j - 1;
    }
    j
}

fn exec_code_before(s: &[u8], lo: usize, hi: usize) -> (r: bool)
    requires
        hi <= s@.len(),
    ensures
        r == code_before(s@, lo as int, hi as int),
{
    let mut k = lo;
    while k < hi
        invariant
            lo <= k,
            hi <= s@.len(),
            forall|q: int| lo <= q < k ==> crate::lexer::is_ws(#[trigger] s@[q]),
        decreases hi - k,
    {
        if !crate::lexer::byte_is_ws(s[k]) {
            return true;
        }
        k = k + 1;
    }
    false
}

fn exec_line_scope(s: &[u8], t: Token) -> (r: Span)
    requires
        t.span.start <= t.span.end <= s@.len(),
    ensures
        r == line_scope(s@, t),
{
    proof {
        crate::lexer::lemma_line_end(s@, t.span.start as int);
        crate::lexer::lemma_line_end(s@, t.span.end as int);
    }
    let ls = exec_line_start(s, t.span.start);
    if exec_code_before(s, ls, t.span.start) {
        Span { start: ls, end: scan_line(s, t.span.start) }
    } else {
        let e = scan_line(s, t.span.end);
        if e < s.len() {
            Span { start: e + 1, end: scan_line(s, e + 1) }
        } else {
            Span { start: s.len(), end: s.len() }
        }
    }
}

fn exec_innermost(nodes: &Vec<Node>, sp: Span) -> (r: usize)
    ensures
        r == innermost(nodes@, sp, nodes@.len() as int),
        nodes@.len() >= 1 ==> r < nodes@.len(),
{
    let mut n = nodes.len();
    while n > 1
        invariant
            n <= nodes@.len(),
            innermost(nodes@, sp, n as int) == innermost(nodes@, sp, nodes@.len() as int),
        decreases n,
    {
        if sp.is_within(&nodes[n - 1].span) {
            return n - 1;
        }
        n = n - 1;
    }
    0
}

fn exec_spells_at(s: &[u8], p: usize, end: usize, w: &Vec<u8>) -> (r: bool)
    ensures
        r == spells_at(s@, p as int, end as int, w@),
{
    if end <= s.len() && p <= end && w.len() <= end - p {
        text_eq(s, Span { start: p, end: p + w.len() }, w)
    } else {
        false
    }
}

/// The directive that comment token `k` holds, if any.
fn directive_of(src: &[u8], toks: &Vec<Token>, nodes: &Vec<Node>, markers: &Vec<Vec<u8>>, k: usize) -> (r: Option<Directive>)
    requires
        tokens_wf(toks@, src@.len() as int),
        tree_wf(nodes@, src@.len() as int, toks@.len() as int),
        k < toks@.len(),
    ensures
        r == directive_at(src@, toks@, nodes@, markers@, k as int),
{
    let t = toks[k];
    if !(t.kind == TokenKind::LineComment || t.kind == TokenKind::BlockComment) {
        return None;
    }
    let end = t.span.end;
    let body = if t.span.end - t.span.start >= 2 {
        t.span.start + 2
    } else {
        t.span.end
    };
    let p = exec_skip_blank(src, body, end);
    let block: Vec<u8> = vec![45, 98, 108, 111, 99, 107];
    let file: Vec<u8> = vec![45, 102, 105, 108, 101];
    proof {
        assert(block@ =~= block_suffix());
        assert(file@ =~= file_suffix());
    }
    let mut a: usize = 0;
    while a < markers.len() && !exec_spells_at(src, p, end, &markers[a])
        invariant
            a <= markers@.len(),
            first_marker(src@, p as int, end as int, markers@, a as int) == first_marker(src@, p as int, end as int, markers@, 0),
        decreases markers.len() - a,
    {
        a = a + 1;
    }
    if a >= markers.len() {
        return None;
    }
    let q = p + markers[a].len();
    if exec_spells_at(src, q, end, &block) {
        let m = exec_innermost(nodes, t.span);
        Some(Directive {
            reach: Reach::Block,
            scope: nodes[m].span,
            rules: exec_named_rules(src, Span { start: q + 6, end }),
        })
    } else if exec_spells_at(src, q, end, &file) {
        Some(Directive {
            reach: Reach::File,
            scope: Span { start: 0, end: src.len() },
            rules: exec_named_rules(src, Span { start: q + 5, end }),
        })
    } else {
        Some(Directive {
            reach: Reach::Line,
            scope: exec_line_scope(src, t),
            rules: exec_named_rules(src, Span { start: q, end }),
        })
    }
}

/// The directives held by the comments of the input, in order.
pub fn collect_directives(src: &[u8], toks: &Vec<Token>, nodes: &Vec<Node>, markers: &Vec<Vec<u8>>) -> (r: Vec<Directive>)
    requires
        tokens_wf(toks@, src@.len() as int),
        tree_wf(nodes@, src@.len() as int, toks@.len() as int),
    ensures
        r@ == directives_upto(src@, toks@, nodes@, markers@, toks@.len() as int),
{
    let mut out: Vec<Directive> = Vec::new();
    let mut k: usize = 0;
    while k < toks.len()
        invariant
            k <= toks@.len(),
            tokens_wf(toks@, src@.len() as int),
            tree_wf(nodes@, src@.len() as int, toks@.len() as int),
            out@ == directives_upto(src@, toks@, nodes@, markers@, k as int),
        decreases toks.len() - k,
    {
        let d = directive_of(src, toks, nodes, markers, k);
        if let Some(x) = d {
            out.push(x);
        }
        proof {
            assert(out@ =~= directives_upto(src@, toks@, nodes@, markers@, k + 1));
        }
        k = k + 1;
    }
    out
}

} // verus!
