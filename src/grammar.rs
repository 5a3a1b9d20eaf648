//! The document tree as a function of the text: the grammar of indented
//! mappings and sequences that the tree builder follows, stated over the
//! lines of the text.
use vstd::prelude::*;
use crate::lines::{dash_at, key_colon, line_end, line_indent, skip_sp, text_lines};
use crate::parser::{Node, NodeType, path_step};
use crate::position::{Position, Range, pos_le};
use crate::text::decimal;

verus! {

/// A node as a mathematical value.
pub struct SNode {
    pub node_type: NodeType,
    pub key: Option<Seq<char>>,
    pub value: Seq<char>,
    pub range: Range,
    pub children: Seq<SNode>,
    pub path: Seq<char>,
}

/// What a block of lines parses to, before it is given a key or an index,
/// and the line after it.
pub struct SBlock {
    pub node_type: NodeType,
    pub value: Seq<char>,
    pub children: Seq<SNode>,
    pub range: Range,
    pub next: int,
}

/// The value of a node.
pub open spec fn node_view(n: Node) -> SNode
    decreases n, 0int,
{
    SNode {
        node_type: n.node_type,
        key: match n.key {
            Some(k) => Some(k@),
            None => None,
        },
        value: n.value@,
        range: n.range,
        children: views_upto(n.children@, n.children@.len() as int),
        path: n.path@,
    }
}

/// The values of the first `k` nodes.
pub open spec fn views_upto(cs: Seq<Node>, k: int) -> Seq<SNode>
    decreases cs, k,
{
    if k <= 0 || k > cs.len() {
        Seq::empty()
    } else {
        views_upto(cs, k - 1).push(node_view(cs[k - 1]))
    }
}

/// The values of nodes.
pub open spec fn views(cs: Seq<Node>) -> Seq<SNode> {
    views_upto(cs, cs.len() as int)
}

pub proof fn lemma_views_upto(cs: Seq<Node>, k: int)
    requires
        0 <= k <= cs.len(),
    ensures
        views_upto(cs, k).len() == k,
        forall|x: int| 0 <= x < k ==> #[trigger] views_upto(cs, k)[x] == node_view(cs[x]),
    decreases k,
{
    if k > 0 {
        lemma_views_upto(cs, k - 1);
    }
}

/// The values of a sequence of nodes, one by one.
pub proof fn lemma_views(cs: Seq<Node>)
    ensures
        views(cs).len() == cs.len(),
        forall|x: int| 0 <= x < cs.len() ==> #[trigger] views(cs)[x] == node_view(cs[x]),
{
    lemma_views_upto(cs, cs.len() as int);
}

/// Appending a node appends its value.
pub proof fn lemma_views_push(cs: Seq<Node>, n: Node)
    ensures
        views(cs.push(n)) == views(cs).push(node_view(n)),
{
    lemma_views(cs);
    lemma_views(cs.push(n));
    assert(views(cs.push(n)) =~= views(cs).push(node_view(n)));
}

pub open spec fn spos(line: int, col: int) -> Position {
    Position { line: line as u32, character: col as u32 }
}

/// The smallest range holding both.
pub open spec fn shull(a: Range, b: Range) -> Range {
    Range {
        start: if pos_le(a.start, b.start) { a.start } else { b.start },
        end: if pos_le(a.end, b.end) { b.end } else { a.end },
    }
}

pub open spec fn blank_line(c: Seq<char>) -> bool {
    line_indent(c) >= line_end(c)
}

/// The first line at or after `j` with content.
pub open spec fn next_line(ls: Seq<Seq<char>>, j: int) -> int
    decreases ls.len() - j,
{
    if 0 <= j < ls.len() && blank_line(ls[j]) {
        next_line(ls, j + 1)
    } else {
        j
    }
}

/// `e` moved left past spaces, down to `col`.
pub open spec fn key_trim(c: Seq<char>, col: int, e: int) -> int
    decreases e,
{
    if e > col && e > 0 && e <= c.len() && c[e - 1] == ' ' {
        key_trim(c, col, e - 1)
    } else {
        e
    }
}

/// The characters `a..b` of a key, without surrounding quotes.
pub open spec fn key_of(c: Seq<char>, a: int, b: int) -> Seq<char> {
    if b - a >= 2 && (c[a] == '"' || c[a] == '\'') && c[b - 1] == c[a] {
        c.subrange(a + 1, b - 1)
    } else {
        c.subrange(a, b)
    }
}

/// The lines that continue a scalar, from line `m` on: blank lines, and
/// lines indented at least `min`. Gives the line after them, the end of the
/// last one with content (`end` when none has), and `val` with the text of
/// each, joined by spaces.
pub open spec fn cont(ls: Seq<Seq<char>>, min: int, m: int, end: Position, val: Seq<char>) -> (int, Position, Seq<char>)
    decreases ls.len() - m,
{
    if 0 <= m < ls.len() && (blank_line(ls[m]) || line_indent(ls[m]) >= min) {
        if blank_line(ls[m]) {
            cont(ls, min, m + 1, end, val)
        } else {
            cont(ls, min, m + 1, spos(m, line_end(ls[m])), val + seq![' '] + ls[m].subrange(line_indent(ls[m]), line_end(ls[m])))
        }
    } else {
        (m, end, val)
    }
}

/// The column of the quote `q` that closes a quoted scalar, reading from
/// `k`; `e` when the line ends first.
pub open spec fn quote_close(c: Seq<char>, k: int, e: int, q: char) -> int
    decreases e - k,
{
    if 0 <= k < e && k < c.len() && c[k] != q {
        quote_close(c, k + 1, e, q)
    } else {
        k
    }
}

/// Where a plain scalar inside a flow collection stops: at a `,`, `]` or
/// `}`, and at a `:` when `colon` holds (a key), or at `e`.
pub open spec fn plain_stop(c: Seq<char>, k: int, e: int, colon: bool) -> int
    decreases e - k,
{
    if 0 <= k < e && k < c.len() && c[k] != ',' && c[k] != ']' && c[k] != '}' && !(colon && c[k] == ':') {
        plain_stop(c, k + 1, e, colon)
    } else {
        k
    }
}

/// A scalar block on line `ln` over the columns `a..b`.
pub open spec fn flow_scalar(c: Seq<char>, ln: int, a: int, b: int) -> SBlock {
    SBlock {
        node_type: NodeType::Scalar,
        value: c.subrange(a, b),
        children: Seq::empty(),
        range: Range { start: spos(ln, a), end: spos(ln, b) },
        next: b,
    }
}

/// The value of a flow collection that starts at column `k` of line `ln`:
/// a nested collection, a quoted scalar or a plain scalar; `next` is the
/// column after it. `None` when the text there is not one.
pub open spec fn flow_value(c: Seq<char>, ln: int, k: int, e: int, path: Seq<char>) -> Option<SBlock>
    decreases e - k, 2int,
{
    if !(0 <= k < e && e <= c.len()) {
        None
    } else if c[k] == '[' || c[k] == '{' {
        flow(c, ln, k, e, path)
    } else if c[k] == '"' || c[k] == '\'' {
        let q = quote_close(c, k + 1, e, c[k]);
        if k < q < e {
            Some(flow_scalar(c, ln, k, q + 1))
        } else {
            None
        }
    } else {
        let t = key_trim(c, k, plain_stop(c, k, e, false));
        if k < t <= e {
            Some(flow_scalar(c, ln, k, t))
        } else {
            None
        }
    }
}

/// The flow collection (`[...]` or `{...}`) that opens at column `k` of
/// line `ln`, its content before column `e`; `next` is the column after
/// its closing bracket. `None` when it is not well formed on that line.
pub open spec fn flow(c: Seq<char>, ln: int, k: int, e: int, path: Seq<char>) -> Option<SBlock>
    decreases e - k, 1int,
{
    if !(0 <= k < e && e <= c.len()) {
        None
    } else if c[k] == '[' {
        flow_seq(c, ln, k, e, path, k + 1, Seq::empty(), false)
    } else if c[k] == '{' {
        flow_map(c, ln, k, e, path, k + 1, Seq::empty(), false)
    } else {
        None
    }
}

/// The items of a flow sequence opened at `k0`, read from `k` after the
/// items `acc`; `sep` holds when a `,` or the `]` must come next.
pub open spec fn flow_seq(c: Seq<char>, ln: int, k0: int, e: int, path: Seq<char>, k: int, acc: Seq<SNode>, sep: bool) -> Option<SBlock>
    decreases e - k, 3int,
{
    let k2 = skip_sp(c, k, e);
    if !(0 <= k <= k2 && k2 < e && e <= c.len()) {
        None
    } else if c[k2] == ']' {
        Some(SBlock { node_type: NodeType::Sequence, value: Seq::empty(), children: acc, range: Range { start: spos(ln, k0), end: spos(ln, k2 + 1) }, next: k2 + 1 })
    } else if sep {
        if c[k2] == ',' {
            flow_seq(c, ln, k0, e, path, k2 + 1, acc, false)
        } else {
            None
        }
    } else {
        let item_path = path_step(path, decimal(acc.len()));
        match flow_value(c, ln, k2, e, item_path) {
            None => None,
            Some(b) => if k2 < b.next <= e {
                flow_seq(c, ln, k0, e, path, b.next, acc.push(node_from(b, None, b.range, item_path)), true)
            } else {
                None
            },
        }
    }
}

/// The entries of a flow mapping opened at `k0`, read from `k` after the
/// entries `acc`; `sep` holds when a `,` or the `}` must come next.
pub open spec fn flow_map(c: Seq<char>, ln: int, k0: int, e: int, path: Seq<char>, k: int, acc: Seq<SNode>, sep: bool) -> Option<SBlock>
    decreases e - k, 3int,
{
    let k2 = skip_sp(c, k, e);
    if !(0 <= k <= k2 && k2 < e && e <= c.len()) {
        None
    } else if c[k2] == '}' {
        Some(SBlock { node_type: NodeType::Mapping, value: Seq::empty(), children: acc, range: Range { start: spos(ln, k0), end: spos(ln, k2 + 1) }, next: k2 + 1 })
    } else if sep {
        if c[k2] == ',' {
            flow_map(c, ln, k0, e, path, k2 + 1, acc, false)
        } else {
            None
        }
    } else {
        let p = plain_stop(c, k2, e, true);
        let kt = key_trim(c, k2, p);
        if !(k2 < kt <= p < e && c[p] == ':') {
            None
        } else {
            let key = key_of(c, k2, kt);
            let ep = path_step(path, key);
            let kv = skip_sp(c, p + 1, e);
            if !(p < kv < e) {
                None
            } else if c[kv] == ',' || c[kv] == '}' {
                let node = scalar_node(Some(key), Seq::empty(), Range { start: spos(ln, k2), end: spos(ln, p + 1) }, ep);
                flow_map(c, ln, k0, e, path, kv, acc.push(node), true)
            } else {
                match flow_value(c, ln, kv, e, ep) {
                    None => None,
                    Some(b) => if kv < b.next <= e {
                        let node = node_from(b, Some(key), Range { start: spos(ln, k2), end: spos(ln, k2) }, ep);
                        flow_map(c, ln, k0, e, path, b.next, acc.push(node), true)
                    } else {
                        None
                    },
                }
            }
        }
    }
}

/// A flow collection that opens at column `k` and fills the rest of the
/// line's content.
pub open spec fn whole_flow(c: Seq<char>, ln: int, k: int, path: Seq<char>) -> Option<SBlock> {
    if 0 <= k < line_end(c) && (c[k] == '[' || c[k] == '{') {
        match flow(c, ln, k, line_end(c), path) {
            Some(b) => if skip_sp(c, b.next, line_end(c)) == line_end(c) { Some(b) } else { None },
            None => None,
        }
    } else {
        None
    }
}

/// The node of a block given a key or an index.
pub open spec fn node_from(b: SBlock, key: Option<Seq<char>>, own: Range, path: Seq<char>) -> SNode {
    SNode { node_type: b.node_type, key, value: b.value, range: shull(own, b.range), children: b.children, path }
}

pub open spec fn scalar_node(key: Option<Seq<char>>, value: Seq<char>, r: Range, path: Seq<char>) -> SNode {
    SNode { node_type: NodeType::Scalar, key, value, range: r, children: Seq::empty(), path }
}

/// The block whose content starts at column `col` of line `i`: a sequence
/// when a dash stands there, a mapping when a key does, a flow collection
/// when one fills the line, else a scalar, continued on the lines below that
/// are indented at least `min`.
pub open spec fn block(ls: Seq<Seq<char>>, i: int, col: int, min: int, path: Seq<char>) -> SBlock
    decreases ls.len() - i, line_end(ls[i]) - col, 2int, 0int,
{
    if !(0 <= i < ls.len()) {
        SBlock { node_type: NodeType::Scalar, value: Seq::empty(), children: Seq::empty(), range: Range { start: spos(i, col), end: spos(i, col) }, next: i + 1 }
    } else if dash_at(ls[i], col) {
        seq_loop(ls, i, col, path, i, Seq::empty(), Range { start: spos(i, col), end: spos(i, col + 1) })
    } else if key_colon(ls[i], col) is Some {
        map_loop(ls, i, col, path, i, Seq::empty(), Range { start: spos(i, col), end: spos(i, col) })
    } else if whole_flow(ls[i], i, col, path) is Some {
        SBlock { next: i + 1, ..whole_flow(ls[i], i, col, path)->0 }
    } else {
        let (m, end, v) = cont(ls, min, i + 1, spos(i, line_end(ls[i])), ls[i].subrange(col, line_end(ls[i])));
        SBlock {
            node_type: NodeType::Scalar,
            value: v,
            children: Seq::empty(),
            range: Range { start: spos(i, col), end },
            next: m,
        }
    }
}

/// The line to go on from: `nj` when it moves forward, else the next line.
pub open spec fn advance(ls: Seq<Seq<char>>, j: int, nj: int) -> int {
    if j < nj <= ls.len() { nj } else { j + 1 }
}

/// The entries of a sequence at column `col` from line `j` on, after the
/// entries `acc` spanning `rng`.
pub open spec fn seq_loop(ls: Seq<Seq<char>>, i: int, col: int, path: Seq<char>, j: int, acc: Seq<SNode>, rng: Range) -> SBlock
    decreases ls.len() - i, line_end(ls[i]) - col, 1int, ls.len() - j,
{
    let done = SBlock { node_type: NodeType::Sequence, value: Seq::empty(), children: acc, range: rng, next: j };
    if j < i || j >= ls.len() {
        done
    } else {
        let c = ls[j];
        if j != i && blank_line(c) {
            seq_loop(ls, i, col, path, j + 1, acc, rng)
        } else if j != i && line_indent(c) < col {
            done
        } else if j != i && line_indent(c) > col {
            seq_loop(ls, i, col, path, j + 1, acc, rng)
        } else if j != i && !dash_at(c, col) {
            done
        } else {
            let item_path = path_step(path, decimal(acc.len()));
            let c2 = skip_sp(c, col + 1, line_end(c));
            let dash = Range { start: spos(j, col), end: spos(j, col + 1) };
            let k = next_line(ls, j + 1);
            let (node, nj) = if col < c2 < line_end(c) {
                let b = block(ls, j, c2, col + 1, item_path);
                (node_from(b, None, dash, item_path), b.next)
            } else if j < k < ls.len() && line_indent(ls[k]) > col {
                let b = block(ls, k, line_indent(ls[k]), col + 1, item_path);
                (node_from(b, None, dash, item_path), b.next)
            } else {
                (scalar_node(None, Seq::empty(), dash, item_path), j + 1)
            };
            seq_loop(ls, i, col, path, advance(ls, j, nj), acc.push(node), shull(rng, node.range))
        }
    }
}

/// The node of the mapping entry whose key spans `col..ke` of line `j`, its
/// colon at `k`, and the line after it.
pub open spec fn entry(ls: Seq<Seq<char>>, j: int, col: int, k: int, path: Seq<char>) -> (SNode, int)
    decreases ls.len() - j, 0int, 0int, 0int,
{
    let c = ls[j];
    let e = line_end(c);
    let key = key_of(c, col, key_trim(c, col, k));
    let entry_path = path_step(path, key);
    let r = skip_sp(c, k + 1, e);
    let own = Range { start: spos(j, col), end: spos(j, k + 1) };
    if r < e {
        if whole_flow(c, j, r, entry_path) is Some {
            (node_from(whole_flow(c, j, r, entry_path)->0, Some(key), own, entry_path), j + 1)
        } else {
            let (m, end, v) = cont(ls, col + 1, j + 1, spos(j, e), c.subrange(r, e));
            (scalar_node(Some(key), v, Range { start: spos(j, col), end }, entry_path), m)
        }
    } else {
        let m = next_line(ls, j + 1);
        if j < m < ls.len() && (line_indent(ls[m]) > col || (line_indent(ls[m]) == col && dash_at(ls[m], col))) {
            let b = block(ls, m, line_indent(ls[m]), col + 1, entry_path);
            (node_from(b, Some(key), own, entry_path), b.next)
        } else {
            (scalar_node(Some(key), Seq::empty(), own, entry_path), j + 1)
        }
    }
}

/// The entries of a mapping at column `col` from line `j` on, after the
/// entries `acc` spanning `rng`.
pub open spec fn map_loop(ls: Seq<Seq<char>>, i: int, col: int, path: Seq<char>, j: int, acc: Seq<SNode>, rng: Range) -> SBlock
    decreases ls.len() - i, line_end(ls[i]) - col, 1int, ls.len() - j,
{
    let done = SBlock { node_type: NodeType::Mapping, value: Seq::empty(), children: acc, range: rng, next: j };
    if j < i || j >= ls.len() {
        done
    } else {
        let c = ls[j];
        if j != i && blank_line(c) {
            map_loop(ls, i, col, path, j + 1, acc, rng)
        } else if j != i && line_indent(c) < col {
            done
        } else if j != i && line_indent(c) > col {
            map_loop(ls, i, col, path, j + 1, acc, rng)
        } else if j != i && dash_at(c, col) {
            done
        } else {
            match key_colon(c, col) {
                None => SBlock { next: if j == i { j + 1 } else { j }, ..done },
                Some(k) => {
                    let (node, nj) = entry(ls, j, col, k, path);
                    map_loop(ls, i, col, path, advance(ls, j, nj), acc.push(node), shull(rng, node.range))
                },
            }
        }
    }
}

/// The tree of a text: the root spans from the start of the document to the
/// end of its content, and its block is the first one with content.
pub open spec fn tree_of(text: Seq<char>) -> SNode {
    let ls = text_lines(text);
    let origin = Range { start: spos(0, 0), end: spos(0, 0) };
    let k = next_line(ls, 0);
    if 0 <= k < ls.len() {
        node_from(block(ls, k, line_indent(ls[k]), 0, Seq::empty()), None, origin, Seq::empty())
    } else {
        scalar_node(None, Seq::empty(), origin, Seq::empty())
    }
}

} // verus!
