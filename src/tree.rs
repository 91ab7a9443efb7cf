use vstd::prelude::*;
use crate::span::Span;
use crate::lexer::{Token, TokenKind, BANG, STAR, tokens_wf};
use crate::words::{Word, word_at, word_of, text};
use crate::rules::punct_at;

verus! {

pub const HASH: u8 = 35;
pub const LPAREN: u8 = 40;
pub const RPAREN: u8 = 41;
pub const COMMA: u8 = 44;
pub const COLON: u8 = 58;
pub const SEMI: u8 = 59;
pub const LBRACKET: u8 = 91;
pub const RBRACKET: u8 = 93;
pub const LBRACE: u8 = 123;
pub const RBRACE: u8 = 125;

/// The kind of construct a node stands for.
#[derive(Clone, Copy, Debug, PartialEq, Eq, Structural)]
pub enum NodeKind {
    File,
    Function,
    Struct,
    Enum,
    Trait,
    Impl,
    Module,
    Const,
    Static,
    TypeAlias,
    Macro,
    Field,
    If,
    Else,
    Loop,
    Match,
    Unsafe,
    Block,
}

impl NodeKind {
    /// Items whose body is delimited by braces.
    pub open spec fn spec_is_braced_item(self) -> bool {
        self == NodeKind::Function || self == NodeKind::Struct || self == NodeKind::Enum || self
            == NodeKind::Trait || self == NodeKind::Impl || self == NodeKind::Module || self
            == NodeKind::Macro
    }

    pub fn is_braced_item(&self) -> (r: bool)
        ensures
            r == self.spec_is_braced_item(),
    {
        match self {
            NodeKind::Function | NodeKind::Struct | NodeKind::Enum | NodeKind::Trait
            | NodeKind::Impl | NodeKind::Module | NodeKind::Macro => true,
            _ => false,
        }
    }

    /// Blocks that add a level of control-flow nesting.
    pub open spec fn spec_is_control(self) -> bool {
        self == NodeKind::If || self == NodeKind::Else || self == NodeKind::Loop || self
            == NodeKind::Match
    }

    pub fn is_control(&self) -> (r: bool)
        ensures
            r == self.spec_is_control(),
    {
        match self {
            NodeKind::If | NodeKind::Else | NodeKind::Loop | NodeKind::Match => true,
            _ => false,
        }
    }
}

/// One node of the tree. `parent` is an index into the same arena; the root is
/// its own parent.
#[derive(Clone, Copy, Debug, PartialEq, Eq, Structural)]
pub struct Node {
    pub kind: NodeKind,
    pub span: Span,
    pub parent: usize,
    /// The span of the declared name, for items that have one.
    pub name: Option<Span>,
    pub is_pub: bool,
    pub has_doc: bool,
    /// Marked as test code, or nested in test code.
    pub is_test: bool,
    /// Index of the node's keyword token (its first token for blocks).
    pub first_tok: usize,
    /// Index of the opening brace of the body, if it has one.
    pub body: Option<usize>,
    /// Index one past the node's last token.
    pub end_tok: usize,
}

/// Why the input could not be given a tree.
#[derive(Clone, Copy, Debug, PartialEq, Eq, Structural)]
pub enum ParseIssue {
    /// A string literal or block comment runs to the end of the input.
    Unterminated,
    /// A closing delimiter with nothing open to close.
    UnexpectedClose,
    /// The input ends while a body is still open.
    Unclosed,
}

/// A malformed input: what went wrong, and where.
#[derive(Clone, Copy, Debug, PartialEq, Eq, Structural)]
pub struct ParseError {
    pub issue: ParseIssue,
    pub span: Span,
}

/// Facts about one node that hold once it is in the arena.
pub open spec fn node_ok(nd: Node, len: int, ntoks: int) -> bool {
    &&& nd.span.start <= nd.span.end <= len
    &&& nd.first_tok <= nd.end_tok <= ntoks
    &&& (nd.body matches Some(b) ==> nd.first_tok <= b < nd.end_tok)
    &&& (nd.name matches Some(sp) ==> sp.start <= sp.end <= len)
}

/// The arena is a tree rooted at index 0 that covers `[0, len)`, and each
/// node's span lies within its parent's.
pub open spec fn tree_wf(nodes: Seq<Node>, len: int, ntoks: int) -> bool {
    &&& nodes.len() >= 1
    &&& nodes[0].kind == NodeKind::File
    &&& nodes[0].span.start == 0
    &&& nodes[0].span.end == len
    &&& nodes[0].parent == 0
    &&& forall|k: int| 0 <= k < nodes.len() ==> node_ok(#[trigger] nodes[k], len, ntoks)
    &&& forall|k: int|
        0 < k < nodes.len() ==> (#[trigger] nodes[k].parent) < k && nodes[k].span.within(
            nodes[nodes[k].parent as int].span,
        )
    &&& forall|a: int, b: int|
        #![trigger nodes[a].parent, nodes[b].parent]
        0 < a < b < nodes.len() && nodes[a].parent == nodes[b].parent ==> nodes[a].span.end
            <= nodes[b].span.start
}

/// Whether `t` is the one-byte punctuation `b`.
pub fn punct_is(src: &[u8], t: Token, b: u8) -> (r: bool)
    requires
        t.span.start < src@.len(),
    ensures
        r == (t.kind == TokenKind::Punct && src@[t.span.start as int] == b),
{
    t.kind == TokenKind::Punct && src[t.span.start] == b
}

/// Scans an attribute's tokens from `j` at bracket depth `depth`, noting
/// whether `test` was named: the index after the closing bracket, or an error.
pub open spec fn attr_loop(src: Seq<u8>, toks: Seq<Token>, j: int, depth: int, test: bool) -> Result<(usize, bool), ParseError>
    decreases toks.len() - j,
{
    if j < 0 || j >= toks.len() {
        Err(ParseError { issue: ParseIssue::Unclosed, span: Span { start: src.len() as usize, end: src.len() as usize } })
    } else if toks[j].kind == TokenKind::Unterminated {
        Err(ParseError { issue: ParseIssue::Unterminated, span: toks[j].span })
    } else if punct_at(src, toks, j, LBRACKET) {
        attr_loop(src, toks, j + 1, depth + 1, test)
    } else if punct_at(src, toks, j, RBRACKET) {
        if depth <= 1 {
            Ok(((j + 1) as usize, test))
        } else {
            attr_loop(src, toks, j + 1, depth - 1, test)
        }
    } else if toks[j].kind == TokenKind::Ident && word_of(text(src, toks[j].span)) == Some(Word::Test) {
        attr_loop(src, toks, j + 1, depth, true)
    } else {
        attr_loop(src, toks, j + 1, depth, test)
    }
}

/// The attribute that starts with the `#` at token `i`: `#`, an optional `!`,
/// then a bracketed group. Not an attribute: `(i + 1, false)`.
pub open spec fn attr_scan(src: Seq<u8>, toks: Seq<Token>, i: int) -> Result<(usize, bool), ParseError> {
    let j0 = if i + 1 < toks.len() && punct_at(src, toks, i + 1, BANG) {
        i + 2
    } else {
        i + 1
    };
    if !(j0 < toks.len() && punct_at(src, toks, j0, LBRACKET)) {
        Ok(((i + 1) as usize, false))
    } else {
        attr_loop(src, toks, j0, 0, false)
    }
}

/// Skips the attribute that starts with the `#` at token `i`: the index after its
/// closing bracket, and whether it names `test`. Not an attribute: `(i + 1, false)`.
fn scan_attribute(src: &[u8], toks: &Vec<Token>, i: usize) -> (r: Result<(usize, bool), ParseError>)
    requires
        i < toks@.len(),
        toks@[i as int].kind == TokenKind::Punct,
        tokens_wf(toks@, src@.len() as int),
    ensures
        r matches Ok((j, _)) ==> i < j <= toks@.len() && forall|k: int| i <= k < j ==> toks@[k].kind != TokenKind::Unterminated,
        r matches Err(e) ==> e.span.start <= e.span.end <= src@.len(),
        r == attr_scan(src@, toks@, i as int),
{
    let n = toks.len();
    let mut j = i + 1;
    if j < n && punct_is(src, toks[j], BANG) {
        j = j + 1;
    }
    if !(j < n && punct_is(src, toks[j], LBRACKET)) {
        return Ok((i + 1, false));
    }
    let mut depth: usize = 0;
    let mut test = false;
    assert(attr_scan(src@, toks@, i as int) == attr_loop(src@, toks@, j as int, 0, false));
    while j < n
        invariant
            i < j <= n,
            n == toks@.len(),
            depth <= j,
            attr_loop(src@, toks@, j as int, depth as int, test) == attr_scan(src@, toks@, i as int),
            tokens_wf(toks@, src@.len() as int),
            forall|k: int| i <= k < j ==> toks@[k].kind != TokenKind::Unterminated,
        decreases n - j,
    {
        let t = toks[j];
        if t.kind == TokenKind::Unterminated {
            return Err(ParseError { issue: ParseIssue::Unterminated, span: t.span });
        }
        if punct_is(src, t, LBRACKET) {
            depth = depth + 1;
        } else if punct_is(src, t, RBRACKET) {
            if depth <= 1 {
                return Ok((j + 1, test));
            }
            depth = depth - 1;
        } else if t.kind == TokenKind::Ident && word_at(src, t.span) == Some(Word::Test) {
            test = true;
        }
        j = j + 1;
    }
    Err(ParseError { issue: ParseIssue::Unclosed, span: Span { start: src.len(), end: src.len() } })
}

/// Node `k` is open: it has a place on the stack.
pub open spec fn opened(pos: Seq<int>, k: int) -> bool {
    pos[k] >= 0
}

/// The state of the builder: `stack` lists the open nodes, outermost first,
/// and `pos` gives each node's place on it (negative once closed). Open nodes
/// reach to the end of input and start by `cur`; closed ones end by `cur`.
#[verifier::opaque]
pub open spec fn build_inv(nodes: Seq<Node>, stack: Seq<usize>, pos: Seq<int>, cur: int, len: int, ntoks: int) -> bool {
    &&& tree_wf(nodes, len, ntoks)
    &&& pos.len() == nodes.len()
    &&& 0 <= cur <= len
    &&& stack.len() >= 1
    &&& stack[0] == 0
    &&& forall|j: int| 0 <= j < stack.len() ==> (#[trigger] stack[j]) < nodes.len() && pos[stack[j] as int] == j
    &&& forall|k: int| 0 <= k < nodes.len() && #[trigger] opened(pos, k) ==> pos[k] < stack.len() && stack[pos[k]] == k
    &&& forall|j: int| 0 < j < stack.len() ==> nodes[#[trigger] stack[j] as int].parent == stack[j - 1]
    &&& forall|k: int|
        0 <= k < nodes.len() ==> if #[trigger] opened(pos, k) {
            nodes[k].span.end == len && nodes[k].span.start <= cur && nodes[k].end_tok == ntoks
        } else {
            nodes[k].span.end <= cur
        }
    &&& forall|t: int, b: int|
        #![trigger opened(pos, t), nodes[b].parent]
        0 < t < b < nodes.len() && opened(pos, t) ==> nodes[b].parent != nodes[t].parent
}

/// Every closed node ends by `x`.
pub open spec fn closed_by(nodes: Seq<Node>, pos: Seq<int>, x: int) -> bool {
    forall|k: int| 0 <= k < nodes.len() && !#[trigger] opened(pos, k) ==> nodes[k].span.end <= x
}

proof fn lemma_closed_by(nodes: Seq<Node>, stack: Seq<usize>, pos: Seq<int>, cur: int, x: int, len: int, ntoks: int)
    requires
        build_inv(nodes, stack, pos, cur, len, ntoks),
        cur <= x,
    ensures
        closed_by(nodes, pos, x),
{
    reveal(build_inv);
}

/// A child of the innermost open node is closed.
proof fn lemma_child_of_top_closed(nodes: Seq<Node>, stack: Seq<usize>, pos: Seq<int>, cur: int, len: int, ntoks: int, a: int)
    requires
        build_inv(nodes, stack, pos, cur, len, ntoks),
        0 < a < nodes.len(),
        nodes[a].parent == stack.last(),
    ensures
        !opened(pos, a),
{
    reveal(build_inv);
    let last = stack.len() - 1;
    assert(pos[stack[last] as int] == last);
    if opened(pos, a) {
        let j = pos[a];
        assert(stack[j] == a);
        if j == 0 {
            assert(stack[0] == 0);
        } else {
            assert(nodes[stack[j] as int].parent == stack[j - 1]);
            assert(pos[stack[j - 1] as int] == j - 1);
        }
    }
}

/// What the builder's loop needs to know about the innermost open node.
pub proof fn lemma_top(nodes: Seq<Node>, stack: Seq<usize>, pos: Seq<int>, cur: int, len: int, ntoks: int)
    requires
        build_inv(nodes, stack, pos, cur, len, ntoks),
    ensures
        stack.len() >= 1,
        nodes.len() >= 1,
        tree_wf(nodes, len, ntoks),
        0 <= cur <= len,
        forall|j: int| 0 <= j < stack.len() ==> (#[trigger] stack[j]) < nodes.len(),
        (stack.last() == 0) <==> (stack.len() == 1),
        nodes[stack.last() as int].span.start <= cur,
        nodes[stack.last() as int].end_tok == ntoks,
{
    reveal(build_inv);
    let last = stack.len() - 1;
    assert(pos[stack[last] as int] == last);
    assert(pos[stack[0] as int] == 0);
    assert(opened(pos, stack[last] as int));
}

proof fn lemma_advance(nodes: Seq<Node>, stack: Seq<usize>, pos: Seq<int>, cur: int, cur2: int, len: int, ntoks: int)
    requires
        build_inv(nodes, stack, pos, cur, len, ntoks),
        cur <= cur2 <= len,
    ensures
        build_inv(nodes, stack, pos, cur2, len, ntoks),
{
    reveal(build_inv);
}

proof fn lemma_push(nodes: Seq<Node>, stack: Seq<usize>, pos: Seq<int>, nd: Node, cur: int, cur2: int, len: int, ntoks: int)
    requires
        build_inv(nodes, stack, pos, cur, len, ntoks),
        cur <= cur2 <= len,
        nd.parent == stack.last(),
        nodes[nd.parent as int].span.start <= nd.span.start <= cur2,
        nd.span.end == len,
        nd.end_tok == ntoks,
        node_ok(nd, len, ntoks),
        nodes.len() < usize::MAX,
        closed_by(nodes, pos, nd.span.start as int),
    ensures
        build_inv(nodes.push(nd), stack.push(nodes.len() as usize), pos.push(stack.len() as int), cur2, len, ntoks),
{
    reveal(build_inv);
    let n = nodes.len() as int;
    let ns = nodes.push(nd);
    let st = stack.push(n as usize);
    let ps = pos.push(stack.len() as int);
    assert(ns[n] == nd);
    assert(opened(pos, stack[stack.len() - 1] as int));
    assert forall|k: int| 0 <= k < ns.len() implies node_ok(#[trigger] ns[k], len, ntoks) by {
        if k < n {
            assert(ns[k] == nodes[k]);
        }
    }
    assert forall|k: int| 0 < k < ns.len() implies (#[trigger] ns[k].parent) < k && ns[k].span.within(
        ns[ns[k].parent as int].span,
    ) by {
        if k < n {
            assert(ns[k] == nodes[k]);
            assert(nodes[k].parent < k);
            assert(ns[ns[k].parent as int] == nodes[nodes[k].parent as int]);
        } else {
            assert(ns[ns[k].parent as int] == nodes[nd.parent as int]);
        }
    }
    assert forall|j: int| 0 <= j < st.len() implies (#[trigger] st[j]) < ns.len() && ps[st[j] as int] == j by {
        if j < stack.len() {
            assert(st[j] == stack[j]);
            assert(stack[j] < n);
            assert(ps[stack[j] as int] == pos[stack[j] as int]);
        } else {
            assert(st[j] == n as usize);
            assert(ps[n] == stack.len());
        }
    }
    assert forall|k: int| 0 <= k < ns.len() && #[trigger] opened(ps, k) implies ps[k] < st.len() && st[ps[k]] == k by {
        if k < n {
            assert(ps[k] == pos[k]);
            assert(opened(pos, k));
            assert(st[pos[k]] == stack[pos[k]]);
        } else {
            assert(ps[k] == stack.len());
            assert(st[stack.len() as int] == n as usize);
        }
    }
    assert forall|j: int| 0 < j < st.len() implies ns[#[trigger] st[j] as int].parent == st[j - 1] by {
        if j < stack.len() {
            assert(st[j] == stack[j]);
            assert(ns[stack[j] as int] == nodes[stack[j] as int]);
        }
    }
    assert forall|k: int| 0 <= k < ns.len() implies if #[trigger] opened(ps, k) {
        ns[k].span.end == len && ns[k].span.start <= cur2 && ns[k].end_tok == ntoks
    } else {
        ns[k].span.end <= cur2
    } by {
        if k < n {
            assert(ps[k] == pos[k]);
            assert(ns[k] == nodes[k]);
            assert(opened(pos, k) == opened(ps, k));
        }
    }
    assert forall|a: int, b: int|
        #![trigger ns[a].parent, ns[b].parent]
        0 < a < b < ns.len() && ns[a].parent == ns[b].parent implies ns[a].span.end <= ns[b].span.start by {
        assert(ns[a] == nodes[a]);
        if b == n {
            lemma_child_of_top_closed(nodes, stack, pos, cur, len, ntoks, a);
        } else {
            assert(ns[b] == nodes[b]);
        }
    }
    assert forall|t: int, b: int|
        #![trigger opened(ps, t), ns[b].parent]
        0 < t < b < ns.len() && opened(ps, t) implies ns[b].parent != ns[t].parent by {
        assert(ps[t] == pos[t]);
        assert(opened(pos, t));
        assert(ns[t] == nodes[t]);
        if b == n {
            if nodes[t].parent == stack.last() {
                lemma_child_of_top_closed(nodes, stack, pos, cur, len, ntoks, t);
            }
        } else {
            assert(ns[b] == nodes[b]);
        }
    }
}

/// The innermost open node after closing it at byte `e`, after token
/// `end_tok - 1`.
pub open spec fn closed_at(nd: Node, e: int, end_tok: int) -> Node {
    Node { span: Span { start: nd.span.start, end: e as usize }, end_tok: end_tok as usize, ..nd }
}

proof fn lemma_pop(nodes: Seq<Node>, stack: Seq<usize>, pos: Seq<int>, e: int, end_tok: int, cur: int, len: int, ntoks: int)
    requires
        build_inv(nodes, stack, pos, cur, len, ntoks),
        stack.len() >= 2,
        cur <= e <= len,
        0 <= end_tok <= ntoks,
        nodes[stack.last() as int].first_tok <= end_tok,
        (nodes[stack.last() as int].body matches Some(b) ==> b < end_tok),
    ensures
        build_inv(
            nodes.update(stack.last() as int, closed_at(nodes[stack.last() as int], e, end_tok)),
            stack.drop_last(),
            pos.update(stack.last() as int, -1),
            e,
            len,
            ntoks,
        ),
{
    reveal(build_inv);
    let last = stack.len() - 1;
    let t = stack[last] as int;
    let nd = closed_at(nodes[t], e, end_tok);
    let ns = nodes.update(t, nd);
    let st = stack.drop_last();
    let ps = pos.update(t, -1);
    assert(pos[t] == last);
    assert(opened(pos, t));
    assert(t != 0) by {
        assert(pos[stack[0] as int] == 0);
    }
    assert forall|k: int| 0 <= k < ns.len() implies node_ok(#[trigger] ns[k], len, ntoks) by {
        if k != t {
            assert(ns[k] == nodes[k]);
        }
    }
    assert forall|k: int| 0 < k < ns.len() implies (#[trigger] ns[k].parent) < k && ns[k].span.within(
        ns[ns[k].parent as int].span,
    ) by {
        let p = nodes[k].parent as int;
        assert(nodes[k].parent < k);
        assert(ns[k].parent == nodes[k].parent);
        if k == t {
            assert(nodes[stack[last] as int].parent == stack[last - 1]);
            assert(pos[stack[last - 1] as int] == last - 1);
            assert(opened(pos, p));
            assert(ns[p] == nodes[p]);
        } else if p == t {
            assert(ns[k] == nodes[k]);
            if opened(pos, k) {
                let j = pos[k];
                assert(stack[j] == k);
                assert(j != 0);
                assert(nodes[stack[j] as int].parent == stack[j - 1]);
                assert(pos[stack[j - 1] as int] == j - 1);
            }
        } else {
            assert(ns[k] == nodes[k]);
            assert(ns[p] == nodes[p]);
        }
    }
    assert forall|j: int| 0 <= j < st.len() implies (#[trigger] st[j]) < ns.len() && ps[st[j] as int] == j by {
        assert(st[j] == stack[j]);
        assert(pos[stack[j] as int] == j);
    }
    assert forall|k: int| 0 <= k < ns.len() && #[trigger] opened(ps, k) implies ps[k] < st.len() && st[ps[k]] == k by {
        assert(k != t);
        assert(ps[k] == pos[k]);
        assert(opened(pos, k));
        assert(stack[pos[k]] == k);
    }
    assert forall|j: int| 0 < j < st.len() implies ns[#[trigger] st[j] as int].parent == st[j - 1] by {
        assert(st[j] == stack[j]);
        assert(pos[stack[j] as int] == j);
        assert(ns[stack[j] as int] == nodes[stack[j] as int]);
    }
    assert forall|k: int| 0 <= k < ns.len() implies if #[trigger] opened(ps, k) {
        ns[k].span.end == len && ns[k].span.start <= e && ns[k].end_tok == ntoks
    } else {
        ns[k].span.end <= e
    } by {
        if k != t {
            assert(ps[k] == pos[k]);
            assert(ns[k] == nodes[k]);
            assert(opened(pos, k) == opened(ps, k));
        }
    }
    assert forall|a: int, b: int|
        #![trigger ns[a].parent, ns[b].parent]
        0 < a < b < ns.len() && ns[a].parent == ns[b].parent implies ns[a].span.end <= ns[b].span.start by {
        if a == t {
            assert(ns[b] == nodes[b]);
            assert(opened(pos, t));
            assert(nodes[b].parent != nodes[t].parent);
        } else if b == t {
            assert(ns[a] == nodes[a]);
        } else {
            assert(ns[a] == nodes[a]);
            assert(ns[b] == nodes[b]);
        }
    }
    assert forall|tt: int, b: int|
        #![trigger opened(ps, tt), ns[b].parent]
        0 < tt < b < ns.len() && opened(ps, tt) implies ns[b].parent != ns[tt].parent by {
        assert(tt != t);
        assert(ps[tt] == pos[tt]);
        assert(opened(pos, tt));
        assert(ns[b].parent == nodes[b].parent);
        assert(ns[tt].parent == nodes[tt].parent);
    }
}

proof fn lemma_set_body(nodes: Seq<Node>, stack: Seq<usize>, pos: Seq<int>, b: int, cur: int, len: int, ntoks: int)
    requires
        build_inv(nodes, stack, pos, cur, len, ntoks),
        nodes[stack.last() as int].first_tok <= b < ntoks,
    ensures
        build_inv(
            nodes.update(stack.last() as int, Node { body: Some(b as usize), ..nodes[stack.last() as int] }),
            stack,
            pos,
            cur,
            len,
            ntoks,
        ),
{
    reveal(build_inv);
    let t = stack.last() as int;
    let ns = nodes.update(t, Node { body: Some(b as usize), ..nodes[t] });
    assert(pos[t] == stack.len() - 1);
    assert(opened(pos, t));
    assert forall|k: int| 0 <= k < ns.len() implies node_ok(#[trigger] ns[k], len, ntoks) by {
        if k != t {
            assert(ns[k] == nodes[k]);
        }
    }
    assert forall|k: int| 0 < k < ns.len() implies (#[trigger] ns[k].parent) < k && ns[k].span.within(
        ns[ns[k].parent as int].span,
    ) by {
        assert(ns[k].span == nodes[k].span && ns[k].parent == nodes[k].parent);
        assert(nodes[k].parent < k);
        assert(ns[nodes[k].parent as int].span == nodes[nodes[k].parent as int].span);
    }
    assert forall|j: int| 0 < j < stack.len() implies ns[#[trigger] stack[j] as int].parent == stack[j - 1] by {
        assert(ns[stack[j] as int].parent == nodes[stack[j] as int].parent);
    }
    assert forall|k: int| 0 <= k < ns.len() implies if #[trigger] opened(pos, k) {
        ns[k].span.end == len && ns[k].span.start <= cur && ns[k].end_tok == ntoks
    } else {
        ns[k].span.end <= cur
    } by {
        assert(ns[k].span == nodes[k].span && ns[k].end_tok == nodes[k].end_tok);
    }
    assert forall|a: int, b: int|
        #![trigger ns[a].parent, ns[b].parent]
        0 < a < b < ns.len() && ns[a].parent == ns[b].parent implies ns[a].span.end <= ns[b].span.start by {
        assert(ns[a].span == nodes[a].span && ns[a].parent == nodes[a].parent);
        assert(ns[b].span == nodes[b].span && ns[b].parent == nodes[b].parent);
    }
    assert forall|tt: int, b: int|
        #![trigger opened(pos, tt), ns[b].parent]
        0 < tt < b < ns.len() && opened(pos, tt) implies ns[b].parent != ns[tt].parent by {
        assert(ns[b].parent == nodes[b].parent);
        assert(ns[tt].parent == nodes[tt].parent);
    }
}

proof fn lemma_leaf(nodes: Seq<Node>, stack: Seq<usize>, pos: Seq<int>, nd: Node, cur: int, cur2: int, len: int, ntoks: int)
    requires
        build_inv(nodes, stack, pos, cur, len, ntoks),
        cur <= cur2 <= len,
        nd.parent == stack.last(),
        nodes[nd.parent as int].span.start <= nd.span.start,
        nd.span.end <= cur2,
        node_ok(nd, len, ntoks),
        closed_by(nodes, pos, nd.span.start as int),
    ensures
        build_inv(nodes.push(nd), stack, pos.push(-1), cur2, len, ntoks),
{
    reveal(build_inv);
    let n = nodes.len() as int;
    let ns = nodes.push(nd);
    let ps = pos.push(-1);
    assert(ns[n] == nd);
    assert(opened(pos, stack[stack.len() - 1] as int));
    assert forall|k: int| 0 <= k < ns.len() implies node_ok(#[trigger] ns[k], len, ntoks) by {
        if k < n {
            assert(ns[k] == nodes[k]);
        }
    }
    assert forall|k: int| 0 < k < ns.len() implies (#[trigger] ns[k].parent) < k && ns[k].span.within(
        ns[ns[k].parent as int].span,
    ) by {
        if k < n {
            assert(ns[k] == nodes[k]);
            assert(nodes[k].parent < k);
            assert(ns[ns[k].parent as int] == nodes[nodes[k].parent as int]);
        } else {
            assert(ns[ns[k].parent as int] == nodes[nd.parent as int]);
        }
    }
    assert forall|j: int| 0 <= j < stack.len() implies (#[trigger] stack[j]) < ns.len() && ps[stack[j] as int] == j by {
        assert(ps[stack[j] as int] == pos[stack[j] as int]);
    }
    assert forall|k: int| 0 <= k < ns.len() && #[trigger] opened(ps, k) implies ps[k] < stack.len() && stack[ps[k]] == k by {
        assert(k < n);
        assert(ps[k] == pos[k]);
        assert(opened(pos, k));
    }
    assert forall|j: int| 0 < j < stack.len() implies ns[#[trigger] stack[j] as int].parent == stack[j - 1] by {
        assert(ns[stack[j] as int] == nodes[stack[j] as int]);
    }
    assert forall|k: int| 0 <= k < ns.len() implies if #[trigger] opened(ps, k) {
        ns[k].span.end == len && ns[k].span.start <= cur2 && ns[k].end_tok == ntoks
    } else {
        ns[k].span.end <= cur2
    } by {
        if k < n {
            assert(ps[k] == pos[k]);
            assert(ns[k] == nodes[k]);
            assert(opened(pos, k) == opened(ps, k));
        }
    }
    assert forall|a: int, b: int|
        #![trigger ns[a].parent, ns[b].parent]
        0 < a < b < ns.len() && ns[a].parent == ns[b].parent implies ns[a].span.end <= ns[b].span.start by {
        assert(ns[a] == nodes[a]);
        if b == n {
            lemma_child_of_top_closed(nodes, stack, pos, cur, len, ntoks, a);
        } else {
            assert(ns[b] == nodes[b]);
        }
    }
    assert forall|t: int, b: int|
        #![trigger opened(ps, t), ns[b].parent]
        0 < t < b < ns.len() && opened(ps, t) implies ns[b].parent != ns[t].parent by {
        assert(ps[t] == pos[t]);
        assert(opened(pos, t));
        assert(ns[t] == nodes[t]);
        if b == n {
            if nodes[t].parent == stack.last() {
                lemma_child_of_top_closed(nodes, stack, pos, cur, len, ntoks, t);
            }
        } else {
            assert(ns[b] == nodes[b]);
        }
    }
}

/// Whatever the stack holds, the arena is a tree.
proof fn lemma_finish(nodes: Seq<Node>, stack: Seq<usize>, pos: Seq<int>, cur: int, len: int, ntoks: int)
    requires
        build_inv(nodes, stack, pos, cur, len, ntoks),
    ensures
        tree_wf(nodes, len, ntoks),
{
    reveal(build_inv);
}

proof fn lemma_init(root: Node, len: int, ntoks: int)
    requires
        root.kind == NodeKind::File,
        root.span.start == 0,
        root.span.end == len,
        len >= 0,
        root.parent == 0,
        root.name is None,
        root.body is None,
        root.first_tok == 0,
        root.end_tok == ntoks,
        ntoks >= 0,
    ensures
        build_inv(seq![root], seq![0usize], seq![0int], 0, len, ntoks),
{
    reveal(build_inv);
    let pos = seq![0int];
    assert forall|k: int| 0 <= k < 1 implies (#[trigger] opened(pos, k)) by {}
}

proof fn lemma_token_count(toks: Seq<Token>, len: int, i: int)
    requires
        tokens_wf(toks, len),
        0 <= i < toks.len(),
    ensures
        toks[i].span.start >= i,
    decreases i,
{
    if i > 0 {
        lemma_token_count(toks, len, i - 1);
        assert(toks[i - 1].span.end <= toks[i].span.start);
    }
}

/// Closes the innermost open node at byte `e`, after token `end_tok - 1`.
fn pop_node(
    nodes: &mut Vec<Node>,
    stack: &mut Vec<usize>,
    parens: &mut Vec<usize>,
    e: usize,
    end_tok: usize,
    Ghost(pos): Ghost<Seq<int>>,
    Ghost(cur): Ghost<int>,
    Ghost(len): Ghost<int>,
    Ghost(ntoks): Ghost<int>,
) -> (r: Ghost<Seq<int>>)
    requires
        build_inv(old(nodes)@, old(stack)@, pos, cur, len, ntoks),
        old(stack)@.len() >= 2,
        old(stack)@.len() == old(parens)@.len(),
        cur <= e <= len,
        end_tok <= ntoks,
        old(nodes)@[old(stack)@.last() as int].first_tok <= end_tok,
        (old(nodes)@[old(stack)@.last() as int].body matches Some(b) ==> b < end_tok),
    ensures
        build_inv(final(nodes)@, final(stack)@, r@, e as int, len, ntoks),
        final(stack)@ == old(stack)@.drop_last(),
        final(parens)@ == old(parens)@.drop_last(),
        final(nodes)@ == old(nodes)@.update(
            old(stack)@.last() as int,
            closed_at(old(nodes)@[old(stack)@.last() as int], e as int, end_tok as int),
        ),
{
    proof {
        lemma_top(nodes@, stack@, pos, cur, len, ntoks);
    }
    let t = stack[stack.len() - 1];
    let mut nd = nodes[t];
    nd.span.end = e;
    nd.end_tok = end_tok;
    proof {
        assert(nd == closed_at(old(nodes)@[t as int], e as int, end_tok as int));
        lemma_pop(nodes@, stack@, pos, e as int, end_tok as int, cur, len, ntoks);
    }
    nodes.set(t, nd);
    stack.pop();
    parens.pop();
    Ghost(pos.update(t as int, -1))
}

/// Opens `nd` as a child of the innermost open node.
fn push_node(
    nodes: &mut Vec<Node>,
    stack: &mut Vec<usize>,
    parens: &mut Vec<usize>,
    nd: Node,
    paren: usize,
    Ghost(pos): Ghost<Seq<int>>,
    Ghost(cur): Ghost<int>,
    Ghost(cur2): Ghost<int>,
    Ghost(len): Ghost<int>,
    Ghost(ntoks): Ghost<int>,
) -> (r: Ghost<Seq<int>>)
    requires
        build_inv(old(nodes)@, old(stack)@, pos, cur, len, ntoks),
        old(stack)@.len() == old(parens)@.len(),
        cur <= cur2 <= len,
        nd.parent == old(stack)@.last(),
        old(nodes)@[nd.parent as int].span.start <= nd.span.start <= cur2,
        nd.span.end == len,
        nd.end_tok == ntoks,
        node_ok(nd, len, ntoks),
        old(nodes)@.len() < usize::MAX,
        closed_by(old(nodes)@, pos, nd.span.start as int),
    ensures
        build_inv(final(nodes)@, final(stack)@, r@, cur2, len, ntoks),
        final(nodes)@ == old(nodes)@.push(nd),
        final(stack)@ == old(stack)@.push(old(nodes)@.len() as usize),
        final(parens)@ == old(parens)@.push(paren),
{
    proof {
        lemma_push(nodes@, stack@, pos, nd, cur, cur2, len, ntoks);
    }
    let idx = nodes.len();
    let ghost r = pos.push(stack@.len() as int);
    nodes.push(nd);
    stack.push(idx);
    parens.push(paren);
    Ghost(r)
}

/// Adds `nd` as a closed child of the innermost open node.
fn push_leaf(
    nodes: &mut Vec<Node>,
    stack: &Vec<usize>,
    nd: Node,
    Ghost(pos): Ghost<Seq<int>>,
    Ghost(cur): Ghost<int>,
    Ghost(cur2): Ghost<int>,
    Ghost(len): Ghost<int>,
    Ghost(ntoks): Ghost<int>,
) -> (r: Ghost<Seq<int>>)
    requires
        build_inv(old(nodes)@, stack@, pos, cur, len, ntoks),
        cur <= cur2 <= len,
        nd.parent == stack@.last(),
        old(nodes)@[nd.parent as int].span.start <= nd.span.start,
        nd.span.end <= cur2,
        node_ok(nd, len, ntoks),
        closed_by(old(nodes)@, pos, nd.span.start as int),
    ensures
        build_inv(final(nodes)@, stack@, r@, cur2, len, ntoks),
        final(nodes)@ == old(nodes)@.push(nd),
{
    proof {
        lemma_leaf(nodes@, stack@, pos, nd, cur, cur2, len, ntoks);
    }
    nodes.push(nd);
    Ghost(pos.push(-1))
}

/// Records that the body of the innermost open node opens at token `b`.
fn set_body(
    nodes: &mut Vec<Node>,
    stack: &Vec<usize>,
    b: usize,
    Ghost(pos): Ghost<Seq<int>>,
    Ghost(cur): Ghost<int>,
    Ghost(len): Ghost<int>,
    Ghost(ntoks): Ghost<int>,
)
    requires
        build_inv(old(nodes)@, stack@, pos, cur, len, ntoks),
        old(nodes)@[stack@.last() as int].first_tok <= b < ntoks,
    ensures
        build_inv(final(nodes)@, stack@, pos, cur, len, ntoks),
        final(nodes)@ == old(nodes)@.update(
            stack@.last() as int,
            Node { body: Some(b), ..old(nodes)@[stack@.last() as int] },
        ),
{
    proof {
        lemma_top(nodes@, stack@, pos, cur, len, ntoks);
        lemma_set_body(nodes@, stack@, pos, b as int, cur, len, ntoks);
    }
    let t = stack[stack.len() - 1];
    let mut nd = nodes[t];
    nd.body = Some(b);
    nodes.set(t, nd);
}

/// The builder's state between two tokens: the arena, the open nodes
/// (`stack`) with the parenthesis depth each was opened at (`parens`), the
/// current depth, what the tokens since the last item or statement have
/// announced (`item_start`, `is_pub`, `has_doc`, `is_test`, `ctrl`), and the
/// index of the next token.
pub struct BuildState {
    pub nodes: Seq<Node>,
    pub stack: Seq<usize>,
    pub parens: Seq<usize>,
    pub paren: usize,
    pub item_start: Option<usize>,
    pub is_pub: bool,
    pub has_doc: bool,
    pub is_test: bool,
    pub ctrl: Option<(NodeKind, usize, usize)>,
    pub i: usize,
}

/// End of the token before `i`, or 0.
pub open spec fn cur_of(toks: Seq<Token>, i: int) -> int {
    if i <= 0 || i > toks.len() {
        0
    } else {
        toks[i - 1].span.end as int
    }
}

/// `s` with what the tokens announced forgotten.
pub open spec fn cleared(s: BuildState) -> BuildState {
    BuildState { item_start: None, is_pub: false, has_doc: false, is_test: false, ctrl: None, ..s }
}

/// `s` with `nd` opened as a child of the innermost open node.
pub open spec fn pushed(s: BuildState, nd: Node) -> BuildState {
    BuildState {
        nodes: s.nodes.push(nd),
        stack: s.stack.push(s.nodes.len() as usize),
        parens: s.parens.push(s.paren),
        ..s
    }
}

/// `s` with the innermost open node closed at byte `e`, after token `end_tok - 1`.
pub open spec fn popped(s: BuildState, e: int, end_tok: int) -> BuildState {
    BuildState {
        nodes: s.nodes.update(s.stack.last() as int, closed_at(s.nodes[s.stack.last() as int], e, end_tok)),
        stack: s.stack.drop_last(),
        parens: s.parens.drop_last(),
        ..s
    }
}

/// `item_start`, set to `at` unless already set.
pub open spec fn marked(s: BuildState, at: usize) -> Option<usize> {
    if s.item_start is None {
        Some(at)
    } else {
        s.item_start
    }
}

pub open spec fn item_kind(w: Word) -> NodeKind {
    match w {
        Word::Fn => NodeKind::Function,
        Word::Struct => NodeKind::Struct,
        Word::Enum => NodeKind::Enum,
        Word::Trait => NodeKind::Trait,
        Word::Mod => NodeKind::Module,
        Word::Const => NodeKind::Const,
        Word::Static => NodeKind::Static,
        Word::Type => NodeKind::TypeAlias,
        Word::Impl => NodeKind::Impl,
        _ => NodeKind::Macro,
    }
}

pub open spec fn is_item_word(w: Word) -> bool {
    w == Word::Fn || w == Word::Struct || w == Word::Enum || w == Word::Trait || w == Word::Mod || w
        == Word::Const || w == Word::Static || w == Word::Type || w == Word::Impl || w == Word::MacroRules
}

/// One step on a punctuation token.
#[verifier::opaque]
pub open spec fn step_punct(src: Seq<u8>, toks: Seq<Token>, s: BuildState) -> Result<BuildState, ParseError> {
    let i = s.i as int;
    let n = toks.len() as int;
    let t = toks[i];
    let top = s.stack.last() as int;
    let level = s.paren == s.parens.last();
    let b = src[t.span.start as int];
    if b == HASH {
        match attr_scan(src, toks, i) {
            Err(e) => Err(e),
            Ok((j, test)) => Ok(BuildState { item_start: marked(s, t.span.start), is_test: s.is_test || test, i: j, ..s }),
        }
    } else if b == LPAREN || b == LBRACKET {
        Ok(BuildState { paren: (s.paren + 1) as usize, i: (i + 1) as usize, ..s })
    } else if b == RPAREN || b == RBRACKET {
        if s.paren == 0 {
            Err(ParseError { issue: ParseIssue::UnexpectedClose, span: t.span })
        } else {
            Ok(BuildState { paren: (s.paren - 1) as usize, i: (i + 1) as usize, ..s })
        }
    } else if b == LBRACE {
        let tn = s.nodes[top];
        let s2 = if tn.kind.spec_is_braced_item() && tn.body is None && level {
            BuildState { nodes: s.nodes.update(top, Node { body: Some(i as usize), ..tn }), ..s }
        } else {
            let (kind, start, first) = match s.ctrl {
                Some(c) => c,
                None => (NodeKind::Block, t.span.start, i as usize),
            };
            pushed(
                s,
                Node {
                    kind,
                    span: Span { start, end: src.len() as usize },
                    parent: top as usize,
                    name: None,
                    is_pub: false,
                    has_doc: false,
                    is_test: tn.is_test,
                    first_tok: first,
                    body: Some(i as usize),
                    end_tok: n as usize,
                },
            )
        };
        Ok(BuildState { i: (i + 1) as usize, ..cleared(s2) })
    } else if b == RBRACE {
        let s2 = if top != 0 && s.nodes[top].body is None {
            popped(s, cur_of(toks, i), i)
        } else {
            s
        };
        if s2.stack.len() < 2 {
            Err(ParseError { issue: ParseIssue::UnexpectedClose, span: t.span })
        } else {
            let s3 = popped(s2, t.span.end as int, i + 1);
            Ok(BuildState { paren: s3.parens.last(), i: (i + 1) as usize, ..cleared(s3) })
        }
    } else if b == SEMI {
        let s2 = if top != 0 && s.nodes[top].body is None && level {
            popped(s, t.span.end as int, i + 1)
        } else {
            s
        };
        Ok(BuildState { i: (i + 1) as usize, ..cleared(s2) })
    } else if b == COMMA {
        Ok(BuildState { item_start: None, is_pub: false, has_doc: false, is_test: false, i: (i + 1) as usize, ..s })
    } else {
        Ok(BuildState { i: (i + 1) as usize, ..s })
    }
}

/// What an identifier does to the state, before moving past it.
#[verifier::opaque]
pub open spec fn on_ident(src: Seq<u8>, toks: Seq<Token>, s: BuildState) -> BuildState {
    let i = s.i as int;
    let n = toks.len() as int;
    let t = toks[i];
    let top = s.stack.last() as int;
    let level = s.paren == s.parens.last();
    let free = top == 0 || s.nodes[top].body is Some;
    let w = word_of(text(src, t.span));
    let next_ident = i + 1 < n && toks[i + 1].kind == TokenKind::Ident;
    let start = match s.item_start {
        Some(x) => x,
        None => t.span.start,
    };
    let parent_test = s.nodes[top].is_test;
    if w == Some(Word::Pub) {
        BuildState {
            item_start: marked(s, t.span.start),
            is_pub: if !(i + 1 < n && punct_at(src, toks, i + 1, LPAREN)) {
                true
            } else {
                s.is_pub
            },
            ..s
        }
    } else if w == Some(Word::Unsafe) || w == Some(Word::Async) || w == Some(Word::Extern) {
        BuildState {
            item_start: marked(s, t.span.start),
            ctrl: if w == Some(Word::Unsafe) && i + 1 < n && punct_at(src, toks, i + 1, LBRACE) {
                Some((NodeKind::Unsafe, t.span.start, i as usize))
            } else {
                s.ctrl
            },
            ..s
        }
    } else if w is Some && is_item_word(w.unwrap()) {
        let wd = w.unwrap();
        let name_at = if wd == Word::MacroRules && i + 1 < n && punct_at(src, toks, i + 1, BANG) {
            i + 2
        } else if wd == Word::Static && next_ident && word_of(text(src, toks[i + 1].span)) == Some(Word::Mut) {
            i + 2
        } else {
            i + 1
        };
        let has_name = name_at < n && toks[name_at].kind == TokenKind::Ident;
        let const_fn = wd == Word::Const && next_ident && word_of(text(src, toks[i + 1].span)) == Some(Word::Fn);
        let after_ptr = i > 0 && punct_at(src, toks, i - 1, STAR);
        let kind = item_kind(wd);
        if const_fn || (wd == Word::Const && after_ptr) {
            BuildState { item_start: marked(s, t.span.start), ..s }
        } else if free && level && (has_name || kind == NodeKind::Impl) {
            let name = if has_name && kind != NodeKind::Impl {
                Some(toks[name_at].span)
            } else {
                None
            };
            cleared(
                pushed(
                    s,
                    Node {
                        kind,
                        span: Span { start, end: src.len() as usize },
                        parent: top as usize,
                        name,
                        is_pub: s.is_pub,
                        has_doc: s.has_doc,
                        is_test: s.is_test || parent_test,
                        first_tok: i as usize,
                        body: None,
                        end_tok: n as usize,
                    },
                ),
            )
        } else {
            s
        }
    } else if w == Some(Word::If) {
        BuildState { ctrl: Some((NodeKind::If, t.span.start, i as usize)), ..s }
    } else if w == Some(Word::Else) {
        BuildState { ctrl: Some((NodeKind::Else, t.span.start, i as usize)), ..s }
    } else if w == Some(Word::For) || w == Some(Word::While) || w == Some(Word::Loop) {
        BuildState { ctrl: Some((NodeKind::Loop, t.span.start, i as usize)), ..s }
    } else if w == Some(Word::Match) {
        BuildState { ctrl: Some((NodeKind::Match, t.span.start, i as usize)), ..s }
    } else if s.nodes[top].kind == NodeKind::Struct && s.nodes[top].body is Some && level && i + 1 < n
        && punct_at(src, toks, i + 1, COLON) && !(i + 2 < n && punct_at(src, toks, i + 2, COLON)) {
        cleared(
            BuildState {
                nodes: s.nodes.push(
                    Node {
                        kind: NodeKind::Field,
                        span: Span { start, end: t.span.end },
                        parent: top as usize,
                        name: Some(t.span),
                        is_pub: s.is_pub,
                        has_doc: s.has_doc,
                        is_test: parent_test,
                        first_tok: i as usize,
                        body: None,
                        end_tok: (i + 1) as usize,
                    },
                ),
                ..s
            },
        )
    } else {
        s
    }
}

/// One step of the builder on token `s.i`.
pub open spec fn step(src: Seq<u8>, toks: Seq<Token>, s: BuildState) -> Result<BuildState, ParseError> {
    let i = s.i as int;
    let t = toks[i];
    match t.kind {
        TokenKind::Unterminated => Err(ParseError { issue: ParseIssue::Unterminated, span: t.span }),
        TokenKind::DocComment => Ok(
            BuildState {
                has_doc: if t.span.end - t.span.start >= 3 && src[t.span.start + 2] != BANG {
                    true
                } else {
                    s.has_doc
                },
                i: (i + 1) as usize,
                ..s
            },
        ),
        TokenKind::Punct => step_punct(src, toks, s),
        TokenKind::Ident => Ok(BuildState { i: (i + 1) as usize, ..on_ident(src, toks, s) }),
        _ => Ok(BuildState { i: (i + 1) as usize, ..s }),
    }
}

/// The builder run from state `s` to the end of the tokens.
pub open spec fn run(src: Seq<u8>, toks: Seq<Token>, s: BuildState) -> Result<BuildState, ParseError>
    decreases toks.len() - s.i,
{
    if s.i >= toks.len() {
        Ok(s)
    } else {
        match step(src, toks, s) {
            Err(e) => Err(e),
            Ok(s2) => if s2.i <= s.i || s2.i > toks.len() {
                Ok(s2)
            } else {
                run(src, toks, s2)
            },
        }
    }
}

pub open spec fn root_node(src: Seq<u8>, toks: Seq<Token>) -> Node {
    Node {
        kind: NodeKind::File,
        span: Span { start: 0, end: src.len() as usize },
        parent: 0,
        name: None,
        is_pub: false,
        has_doc: false,
        is_test: false,
        first_tok: 0,
        body: None,
        end_tok: toks.len() as usize,
    }
}

pub open spec fn initial(src: Seq<u8>, toks: Seq<Token>) -> BuildState {
    BuildState {
        nodes: seq![root_node(src, toks)],
        stack: seq![0usize],
        parens: seq![0usize],
        paren: 0,
        item_start: None,
        is_pub: false,
        has_doc: false,
        is_test: false,
        ctrl: None,
        i: 0,
    }
}

/// What parsing gives: the arena, or the first error met; a body still open
/// at the end of input is an error.
pub open spec fn parse_spec(src: Seq<u8>, toks: Seq<Token>) -> Result<Seq<Node>, ParseError> {
    match run(src, toks, initial(src, toks)) {
        Err(e) => Err(e),
        Ok(s) => if s.stack.len() > 1 {
            Err(ParseError { issue: ParseIssue::Unclosed, span: Span { start: src.len() as usize, end: src.len() as usize } })
        } else {
            Ok(s.nodes)
        },
    }
}

/// The input has no tree.
pub open spec fn parse_fails(src: Seq<u8>, toks: Seq<Token>) -> bool {
    parse_spec(src, toks) is Err
}

/// The tree of a source that parses.
pub open spec fn tree_of(src: Seq<u8>, toks: Seq<Token>) -> Seq<Node> {
    parse_spec(src, toks)->Ok_0
}

/// The scalar part of the builder's state, with `cur`, the end of the
/// previous token.
#[derive(Clone, Copy)]
pub struct Cursor {
    pub paren: usize,
    pub item_start: Option<usize>,
    pub is_pub: bool,
    pub has_doc: bool,
    pub is_test: bool,
    pub ctrl: Option<(NodeKind, usize, usize)>,
    pub i: usize,
    pub cur: usize,
}

pub open spec fn view_of(nodes: Seq<Node>, stack: Seq<usize>, parens: Seq<usize>, c: Cursor) -> BuildState {
    BuildState {
        nodes,
        stack,
        parens,
        paren: c.paren,
        item_start: c.item_start,
        is_pub: c.is_pub,
        has_doc: c.has_doc,
        is_test: c.is_test,
        ctrl: c.ctrl,
        i: c.i,
    }
}

/// What holds between two steps of the builder.
#[verifier::opaque]
pub open spec fn loop_inv(src: Seq<u8>, toks: Seq<Token>, s: BuildState, pos: Seq<int>, cur: int) -> bool {
    let n = toks.len() as int;
    let i = s.i as int;
    &&& i <= n
    &&& n < usize::MAX
    &&& s.paren <= i
    &&& forall|j: int| 0 <= j < s.parens.len() ==> s.parens[j] <= i
    &&& s.nodes.len() <= i + 1
    &&& s.stack.len() == s.parens.len()
    &&& build_inv(s.nodes, s.stack, pos, cur, src.len() as int, n)
    &&& (i < n ==> cur <= toks[i].span.start)
    &&& forall|k: int| 0 <= k < s.nodes.len() ==> (#[trigger] s.nodes[k]).first_tok <= i && (s.nodes[k].body matches Some(b) ==> b < i)
    &&& (s.item_start matches Some(x) ==> s.nodes[s.stack.last() as int].span.start <= x <= cur)
    &&& (s.ctrl matches Some(c) ==> s.nodes[s.stack.last() as int].span.start <= c.1 <= cur && c.2 < i)
    &&& (s.item_start matches Some(x) ==> closed_by(s.nodes, pos, x as int))
    &&& (s.ctrl matches Some(c) ==> closed_by(s.nodes, pos, c.1 as int))
    &&& forall|k: int| 0 <= k < i ==> toks[k].kind != TokenKind::Unterminated
    &&& tokens_wf(toks, src.len() as int)
    &&& cur == cur_of(toks, i)
}

/// punct step: one step of the builder on the token at `c.i`.
#[verifier::rlimit(100)]
#[verifier::spinoff_prover]
fn punct_step(
    src: &[u8],
    toks: &Vec<Token>,
    nodes: &mut Vec<Node>,
    stack: &mut Vec<usize>,
    parens: &mut Vec<usize>,
    c: Cursor,
    Ghost(pos0): Ghost<Seq<int>>,
) -> (r: Result<(Cursor, Ghost<Seq<int>>), ParseError>)
    requires
        loop_inv(src@, toks@, view_of(old(nodes)@, old(stack)@, old(parens)@, c), pos0, c.cur as int),
        c.i < toks@.len(),
        toks@[c.i as int].kind == TokenKind::Punct,
    ensures
        r matches Ok((c2, g)) ==> loop_inv(src@, toks@, view_of(final(nodes)@, final(stack)@, final(parens)@, c2), g@, c2.cur as int)
            && c.i < c2.i
            && step_punct(src@, toks@, view_of(old(nodes)@, old(stack)@, old(parens)@, c))
                == Ok::<BuildState, ParseError>(view_of(final(nodes)@, final(stack)@, final(parens)@, c2)),
        r matches Err(e) ==> e.span.start <= e.span.end <= src@.len()
            && step_punct(src@, toks@, view_of(old(nodes)@, old(stack)@, old(parens)@, c)) == Err::<BuildState, ParseError>(e),
{
    reveal(loop_inv);
    reveal(step_punct);
    let n = toks.len();
    let len = src.len();
    let ghost mut pos = pos0;
    let mut paren = c.paren;
    let mut item_start = c.item_start;
    let mut is_pub = c.is_pub;
    let mut has_doc = c.has_doc;
    let mut is_test = c.is_test;
    let mut ctrl = c.ctrl;
    let mut i = c.i;
    let cur = c.cur;
    let ghost s0 = view_of(nodes@, stack@, parens@, c);
    proof {
        lemma_top(nodes@, stack@, pos, cur as int, len as int, n as int);
    }
    let t = toks[i];
    proof {
        lemma_closed_by(nodes@, stack@, pos, cur as int, t.span.start as int, len as int, n as int);
    }
    let top = stack[stack.len() - 1];
    let level = paren == parens[parens.len() - 1];
    let free = top == 0 || nodes[top].body.is_some();
    let ghost mut gc: int = cur as int;
        let b = src[t.span.start];
        if b == HASH {
            if item_start.is_none() {
                item_start = Some(t.span.start);
            }
            let (j, test) = match scan_attribute(src, toks, i) {
                Ok(v) => v,
                Err(e) => {
                    assert(step_punct(src@, toks@, s0) == Err::<BuildState, ParseError>(e));
                    return Err(e);
                },
            };
            if test {
                is_test = true;
            }
            i = j;
        } else if b == LPAREN || b == LBRACKET {
            paren = paren + 1;
            i = i + 1;
        } else if b == RPAREN || b == RBRACKET {
            if paren == 0 {
                assert(step_punct(src@, toks@, s0) == Err::<BuildState, ParseError>(ParseError { issue: ParseIssue::UnexpectedClose, span: t.span }));
                return Err(ParseError { issue: ParseIssue::UnexpectedClose, span: t.span });
            }
            paren = paren - 1;
            i = i + 1;
        } else if b == LBRACE {
            let tn = nodes[top];
            if tn.kind.is_braced_item() && tn.body.is_none() && level {
                set_body(nodes, stack, i, Ghost(pos), Ghost(gc), Ghost(len as int), Ghost(n as int));
            } else {
                let (kind, start, first) = match ctrl {
                    Some(c) => c,
                    None => (NodeKind::Block, t.span.start, i),
                };
                let nd = Node {
                    kind,
                    span: Span { start, end: len },
                    parent: top,
                    name: None,
                    is_pub: false,
                    has_doc: false,
                    is_test: tn.is_test,
                    first_tok: first,
                    body: Some(i),
                    end_tok: n,
                };
                let g = push_node(nodes, stack, parens, nd, paren, Ghost(pos), Ghost(gc),
                    Ghost(t.span.end as int), Ghost(len as int), Ghost(n as int));
                proof {
                    pos = g@;
                    gc = t.span.end as int;
                }
            }
            item_start = None;
            is_pub = false;
            has_doc = false;
            is_test = false;
            ctrl = None;
            i = i + 1;
        } else if b == RBRACE {
            if top != 0 && nodes[top].body.is_none() {
                let g = pop_node(nodes, stack, parens, cur, i, Ghost(pos), Ghost(gc),
                    Ghost(len as int), Ghost(n as int));
                proof {
                    pos = g@;
                    lemma_top(nodes@, stack@, pos, gc, len as int, n as int);
                }
            }
            if stack.len() < 2 {
                assert(step_punct(src@, toks@, s0) == Err::<BuildState, ParseError>(ParseError { issue: ParseIssue::UnexpectedClose, span: t.span }));
                return Err(ParseError { issue: ParseIssue::UnexpectedClose, span: t.span });
            }
            let g = pop_node(nodes, stack, parens, t.span.end, i + 1, Ghost(pos), Ghost(gc),
                Ghost(len as int), Ghost(n as int));
            proof {
                pos = g@;
                gc = t.span.end as int;
            }
            paren = parens[parens.len() - 1];
            item_start = None;
            is_pub = false;
            has_doc = false;
            is_test = false;
            ctrl = None;
            i = i + 1;
        } else if b == SEMI {
            if top != 0 && nodes[top].body.is_none() && level {
                let g = pop_node(nodes, stack, parens, t.span.end, i + 1, Ghost(pos), Ghost(gc),
                    Ghost(len as int), Ghost(n as int));
                proof {
                    pos = g@;
                    gc = t.span.end as int;
                }
            }
            item_start = None;
            is_pub = false;
            has_doc = false;
            is_test = false;
            ctrl = None;
            i = i + 1;
        } else if b == COMMA {
            item_start = None;
            is_pub = false;
            has_doc = false;
            is_test = false;
            i = i + 1;
        } else {
            i = i + 1;
        }
    
    let new_cur = toks[i - 1].span.end;
    let c2 = Cursor { paren, item_start, is_pub, has_doc, is_test, ctrl, i, cur: new_cur };
    proof {
        lemma_advance(nodes@, stack@, pos, gc, new_cur as int, len as int, n as int);
    }
    Ok((c2, Ghost(pos)))
}

/// ident step: one step of the builder on the token at `c.i`.
#[verifier::rlimit(100)]
#[verifier::spinoff_prover]
fn ident_step(
    src: &[u8],
    toks: &Vec<Token>,
    nodes: &mut Vec<Node>,
    stack: &mut Vec<usize>,
    parens: &mut Vec<usize>,
    c: Cursor,
    Ghost(pos0): Ghost<Seq<int>>,
) -> (r: Result<(Cursor, Ghost<Seq<int>>), ParseError>)
    requires
        loop_inv(src@, toks@, view_of(old(nodes)@, old(stack)@, old(parens)@, c), pos0, c.cur as int),
        c.i < toks@.len(),
        toks@[c.i as int].kind == TokenKind::Ident,
    ensures
        r matches Ok((c2, g)) ==> c2.i == c.i + 1 && loop_inv(src@, toks@, view_of(final(nodes)@, final(stack)@, final(parens)@, c2), g@, c2.cur as int)
            && c.i < c2.i
            && on_ident(src@, toks@, view_of(old(nodes)@, old(stack)@, old(parens)@, c))
                == view_of(final(nodes)@, final(stack)@, final(parens)@, Cursor { i: c.i, ..c2 }),
        r is Ok,
{
    reveal(loop_inv);
    reveal(on_ident);
    let n = toks.len();
    let len = src.len();
    let ghost mut pos = pos0;
    let mut paren = c.paren;
    let mut item_start = c.item_start;
    let mut is_pub = c.is_pub;
    let mut has_doc = c.has_doc;
    let mut is_test = c.is_test;
    let mut ctrl = c.ctrl;
    let mut i = c.i;
    let cur = c.cur;
    let ghost s0 = view_of(nodes@, stack@, parens@, c);
    proof {
        lemma_top(nodes@, stack@, pos, cur as int, len as int, n as int);
    }
    let t = toks[i];
    proof {
        lemma_closed_by(nodes@, stack@, pos, cur as int, t.span.start as int, len as int, n as int);
    }
    let top = stack[stack.len() - 1];
    let level = paren == parens[parens.len() - 1];
    let free = top == 0 || nodes[top].body.is_some();
    let ghost mut gc: int = cur as int;
        let w = word_at(src, t.span);
        let next_ident = i + 1 < n && toks[i + 1].kind == TokenKind::Ident;
        let start = match item_start {
            Some(s) => s,
            None => t.span.start,
        };
        let parent_test = nodes[top].is_test;
        match w {
            Some(Word::Pub) => {
                if item_start.is_none() {
                    item_start = Some(t.span.start);
                }
                if !(i + 1 < n && punct_is(src, toks[i + 1], LPAREN)) {
                    is_pub = true;
                }
            },
            Some(Word::Unsafe) | Some(Word::Async) | Some(Word::Extern) => {
                if item_start.is_none() {
                    item_start = Some(t.span.start);
                }
                if w == Some(Word::Unsafe) && i + 1 < n && punct_is(src, toks[i + 1], LBRACE) {
                    ctrl = Some((NodeKind::Unsafe, t.span.start, i));
                }
            },
            Some(Word::Fn) | Some(Word::Struct) | Some(Word::Enum) | Some(Word::Trait)
            | Some(Word::Mod) | Some(Word::Const) | Some(Word::Static) | Some(Word::Type)
            | Some(Word::Impl) | Some(Word::MacroRules) => {
                let mut name_at = i + 1;
                if w == Some(Word::Static) && next_ident && word_at(src, toks[i + 1].span)
                    == Some(Word::Mut) {
                    name_at = i + 2;
                }
                if w == Some(Word::MacroRules) && i + 1 < n && punct_is(src, toks[i + 1], BANG) {
                    name_at = i + 2;
                }
                let has_name = name_at < n && toks[name_at].kind == TokenKind::Ident;
                let const_fn = w == Some(Word::Const) && next_ident && word_at(
                    src,
                    toks[i + 1].span,
                ) == Some(Word::Fn);
                let after_ptr = i > 0 && punct_is(src, toks[i - 1], STAR);
                let kind = match w {
                    Some(Word::Fn) => NodeKind::Function,
                    Some(Word::Struct) => NodeKind::Struct,
                    Some(Word::Enum) => NodeKind::Enum,
                    Some(Word::Trait) => NodeKind::Trait,
                    Some(Word::Mod) => NodeKind::Module,
                    Some(Word::Const) => NodeKind::Const,
                    Some(Word::Static) => NodeKind::Static,
                    Some(Word::Type) => NodeKind::TypeAlias,
                    Some(Word::Impl) => NodeKind::Impl,
                    _ => NodeKind::Macro,
                };
                if const_fn || (w == Some(Word::Const) && after_ptr) {
                    if item_start.is_none() {
                        item_start = Some(t.span.start);
                    }
                } else if free && level && (has_name || kind == NodeKind::Impl) {
                    let name = if has_name && kind != NodeKind::Impl {
                        Some(toks[name_at].span)
                    } else {
                        None
                    };
                    let nd = Node {
                        kind,
                        span: Span { start, end: len },
                        parent: top,
                        name,
                        is_pub,
                        has_doc,
                        is_test: is_test || parent_test,
                        first_tok: i,
                        body: None,
                        end_tok: n,
                    };
                    let g = push_node(nodes, stack, parens, nd, paren, Ghost(pos), Ghost(gc),
                        Ghost(t.span.end as int), Ghost(len as int), Ghost(n as int));
                    proof {
                        pos = g@;
                        gc = t.span.end as int;
                    }
                    item_start = None;
                    is_pub = false;
                    has_doc = false;
                    is_test = false;
                    ctrl = None;
                }
            },
            Some(Word::If) => {
                ctrl = Some((NodeKind::If, t.span.start, i));
            },
            Some(Word::Else) => {
                ctrl = Some((NodeKind::Else, t.span.start, i));
            },
            Some(Word::For) | Some(Word::While) | Some(Word::Loop) => {
                ctrl = Some((NodeKind::Loop, t.span.start, i));
            },
            Some(Word::Match) => {
                ctrl = Some((NodeKind::Match, t.span.start, i));
            },
            _ => {
                let field = nodes[top].kind == NodeKind::Struct && nodes[top].body.is_some()
                    && level && i + 1 < n && punct_is(src, toks[i + 1], COLON) && !(i + 2
                    < n && punct_is(src, toks[i + 2], COLON));
                if field {
                    let nd = Node {
                        kind: NodeKind::Field,
                        span: Span { start, end: t.span.end },
                        parent: top,
                        name: Some(t.span),
                        is_pub,
                        has_doc,
                        is_test: parent_test,
                        first_tok: i,
                        body: None,
                        end_tok: i + 1,
                    };
                    let g = push_leaf(nodes, stack, nd, Ghost(pos), Ghost(gc), Ghost(t.span.end as int),
                        Ghost(len as int), Ghost(n as int));
                    proof {
                        pos = g@;
                        gc = t.span.end as int;
                    }
                    item_start = None;
                    is_pub = false;
                    has_doc = false;
                    is_test = false;
                    ctrl = None;
                }
            },
        }
        i = i + 1;
    
    let new_cur = toks[i - 1].span.end;
    let c2 = Cursor { paren, item_start, is_pub, has_doc, is_test, ctrl, i, cur: new_cur };
    proof {
        lemma_advance(nodes@, stack@, pos, gc, new_cur as int, len as int, n as int);
    }
    Ok((c2, Ghost(pos)))
}

/// Builds the tree of items and blocks over the tokens of `src`. Items open at
/// their keyword and take in the `pub`, attributes and modifiers before it; a
/// body-less item ends at its `;`. Blocks open at `{`, and take the kind of the
/// control keyword before them. The result is exactly `parse_spec`, and a tree
/// whose spans nest.
pub fn parse(src: &[u8], toks: &Vec<Token>) -> (r: Result<Vec<Node>, ParseError>)
    requires
        tokens_wf(toks@, src@.len() as int),
        src@.len() < usize::MAX,
    ensures
        r matches Ok(nodes) ==> parse_spec(src@, toks@) == Ok::<Seq<Node>, ParseError>(nodes@),
        r matches Err(e) ==> parse_spec(src@, toks@) == Err::<Seq<Node>, ParseError>(e),
        r matches Ok(nodes) ==> tree_wf(nodes@, src@.len() as int, toks@.len() as int),
        r matches Err(e) ==> e.span.start <= e.span.end <= src@.len(),
        (exists|k: int| 0 <= k < toks@.len() && #[trigger] toks@[k].kind == TokenKind::Unterminated)
            ==> r is Err,
{
    let n = toks.len();
    let len = src.len();
    proof {
        if n > 0 {
            lemma_token_count(toks@, len as int, n - 1);
        }
    }
    let root = Node {
        kind: NodeKind::File,
        span: Span { start: 0, end: len },
        parent: 0,
        name: None,
        is_pub: false,
        has_doc: false,
        is_test: false,
        first_tok: 0,
        body: None,
        end_tok: n,
    };
    let mut nodes: Vec<Node> = Vec::new();
    nodes.push(root);
    let mut stack: Vec<usize> = Vec::new();
    stack.push(0);
    let mut parens: Vec<usize> = Vec::new();
    parens.push(0);
    let ghost mut pos: Seq<int> = seq![0int];
    let mut c = Cursor { paren: 0, item_start: None, is_pub: false, has_doc: false, is_test: false, ctrl: None, i: 0, cur: 0 };
    proof {
        lemma_init(root, len as int, n as int);
        assert(nodes@ =~= seq![root]);
        assert(stack@ =~= seq![0usize]);
        assert(parens@ =~= seq![0usize]);
        assert(root == root_node(src@, toks@));
        assert(view_of(nodes@, stack@, parens@, c) == initial(src@, toks@));
        reveal(loop_inv);
        assert(loop_inv(src@, toks@, view_of(nodes@, stack@, parens@, c), pos, 0));
    }
    while c.i < n
        invariant
            n == toks@.len(),
            len == src@.len(),
            loop_inv(src@, toks@, view_of(nodes@, stack@, parens@, c), pos, c.cur as int),
            run(src@, toks@, view_of(nodes@, stack@, parens@, c)) == run(src@, toks@, initial(src@, toks@)),
        decreases n - c.i,
    {
        let ghost s0 = view_of(nodes@, stack@, parens@, c);
        let t = toks[c.i];
        proof {
            reveal(loop_inv);
        }
        match t.kind {
            TokenKind::Unterminated => {
                assert(run(src@, toks@, s0) == Err::<BuildState, ParseError>(ParseError { issue: ParseIssue::Unterminated, span: t.span }));
                return Err(ParseError { issue: ParseIssue::Unterminated, span: t.span });
            },
            TokenKind::Punct => {
                match punct_step(src, toks, &mut nodes, &mut stack, &mut parens, c, Ghost(pos)) {
                    Ok((c2, g)) => {
                        proof {
                            pos = g@;
                            reveal(loop_inv);
                        }
                        c = c2;
                    },
                    Err(e) => {
                        return Err(e);
                    },
                }
            },
            TokenKind::Ident => {
                match ident_step(src, toks, &mut nodes, &mut stack, &mut parens, c, Ghost(pos)) {
                    Ok((c2, g)) => {
                        proof {
                            pos = g@;
                            reveal(loop_inv);
                        }
                        c = c2;
                    },
                    Err(e) => {
                        return Err(e);
                    },
                }
            },
            _ => {
                let mut c2 = c;
                if t.kind == TokenKind::DocComment && t.span.end - t.span.start >= 3 && src[t.span.start + 2] != BANG {
                    c2.has_doc = true;
                }
                c2.i = c.i + 1;
                c2.cur = t.span.end;
                proof {
                    reveal(loop_inv);
                    lemma_advance(nodes@, stack@, pos, c.cur as int, t.span.end as int, len as int, n as int);
                    assert(loop_inv(src@, toks@, view_of(nodes@, stack@, parens@, c2), pos, c2.cur as int));
                }
                c = c2;
            },
        }
        proof {
            assert(step(src@, toks@, s0) == Ok::<BuildState, ParseError>(view_of(nodes@, stack@, parens@, c)));
            assert(run(src@, toks@, s0) == run(src@, toks@, view_of(nodes@, stack@, parens@, c)));
        }
    }
    proof {
        reveal(loop_inv);
    }
    if stack.len() > 1 {
        assert(parse_spec(src@, toks@) == Err::<Seq<Node>, ParseError>(ParseError { issue: ParseIssue::Unclosed, span: Span { start: len, end: len } }));
        return Err(ParseError { issue: ParseIssue::Unclosed, span: Span { start: len, end: len } });
    }
    proof {
        lemma_finish(nodes@, stack@, pos, c.cur as int, len as int, n as int);
        assert(parse_spec(src@, toks@) == Ok::<Seq<Node>, ParseError>(nodes@));
    }
    Ok(nodes)
}

} // verus!
