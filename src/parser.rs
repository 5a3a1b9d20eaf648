//! The document tree: nodes with source ranges and paths, built by a
//! recursive walk over the indentation structure of a pipeline document.
use vstd::prelude::*;
use crate::position::{Position, Range, range_wf, range_within, pos_le};
use crate::text::{decimal, push_char, push_all, push_decimal, string_of_range};
use crate::yaml::{yaml_accepts, yaml_check};
use crate::grammar::{flow, flow_value, flow_seq, flow_map, flow_scalar, whole_flow, quote_close, plain_stop, SBlock, SNode, node_view, views, block, seq_loop, map_loop, entry, node_from, spos, next_line, key_trim, key_of, cont, advance, tree_of, lemma_views_push, lemma_views};
use crate::lines::{line_end, skip_sp, Line, lines_chars, text_lines, lines_wf, lines_fit, seq_item_at, is_seq_item, skip_spaces, find_key_colon};

verus! {

/// Types of YAML nodes.
#[derive(Clone, Copy, Debug, PartialEq, Eq, Structural)]
pub enum NodeType {
    /// A scalar value like a string, number, boolean
    Scalar,
    /// A mapping (key-value pairs)
    Mapping,
    /// A sequence (array)
    Sequence,
}

/// A node of the document with its location.
pub struct Node {
    /// The type of node (scalar, mapping, sequence)
    pub node_type: NodeType,
    /// The key if this is a key-value pair in a mapping
    pub key: Option<String>,
    /// The literal text of a scalar; empty for mappings and sequences
    pub value: String,
    /// The location of this node in the document
    pub range: Range,
    /// Child nodes if this is a mapping or sequence
    pub children: Vec<Node>,
    /// The `/`-separated path from the document root to this node
    pub path: String,
}

/// The path of a child: the parent's path, a `/`, and the child's step; a
/// child of the root has its step alone.
pub open spec fn path_step(parent: Seq<char>, seg: Seq<char>) -> Seq<char> {
    if parent.len() == 0 {
        seg
    } else {
        parent + seq!['/'] + seg
    }
}

/// The step that addresses child `i`: its key in a mapping, its index in a
/// sequence.
pub open spec fn child_segment(c: Node, i: int) -> Seq<char> {
    match c.key {
        Some(k) => k@,
        None => decimal(i as nat),
    }
}

/// Child `i` lies inside its parent, is addressed as its parent's kind says,
/// and carries the path its parent's path and its step give.
pub open spec fn child_ok(parent_type: NodeType, parent_path: Seq<char>, parent_range: Range, c: Node, i: int) -> bool {
    &&& range_within(c.range, parent_range)
    &&& (parent_type == NodeType::Mapping ==> c.key is Some)
    &&& (parent_type == NodeType::Sequence ==> c.key is None)
    &&& c.path@ == path_step(parent_path, child_segment(c, i))
}

/// Each sibling ends at or before the position where any later one starts,
/// so sibling ranges never overlap.
pub open spec fn siblings_ordered(cs: Seq<Node>) -> bool {
    forall|a: int, b: int| 0 <= a < b < cs.len() ==> pos_le(#[trigger] cs[a].range.end, #[trigger] cs[b].range.start)
}

/// A well-formed tree: every range is ordered, scalars have no children,
/// siblings are ordered, and each child satisfies `child_ok` and is
/// well-formed itself.
pub open spec fn node_wf(n: Node) -> bool
    decreases n,
{
    &&& range_wf(n.range)
    &&& (n.node_type == NodeType::Scalar ==> n.children.len() == 0)
    &&& siblings_ordered(n.children@)
    &&& forall|i: int| 0 <= i < n.children.len() ==> {
        &&& child_ok(n.node_type, n.path@, n.range, #[trigger] n.children@[i], i)
        &&& node_wf(n.children@[i])
    }
}

/// The node reached from `n` by following the child indices of `idx`.
pub open spec fn descend(n: Node, idx: Seq<int>) -> Option<Node>
    decreases idx.len(),
{
    if idx.len() == 0 {
        Some(n)
    } else if 0 <= idx[0] < n.children.len() {
        descend(n.children@[idx[0]], idx.drop_first())
    } else {
        None
    }
}

/// `m` is `n` or lies somewhere below it.
pub open spec fn in_tree(n: Node, m: Node) -> bool {
    exists|idx: Seq<int>| #[trigger] descend(n, idx) == Some(m)
}

/// What a block of lines parses to, before it is given a key or an index.
struct Block {
    node_type: NodeType,
    value: String,
    children: Vec<Node>,
    range: Range,
    next: usize,
}

spec fn block_view(b: Block) -> SBlock {
    SBlock { node_type: b.node_type, value: b.value@, children: views(b.children@), range: b.range, next: b.next as int }
}

pub open spec fn key_view(k: Option<String>) -> Option<Seq<char>> {
    match k {
        Some(s) => Some(s@),
        None => None,
    }
}

spec fn block_ok(b: Block, path: Seq<char>) -> bool {
    &&& range_wf(b.range)
    &&& (b.node_type == NodeType::Scalar ==> b.children.len() == 0)
    &&& siblings_ordered(b.children@)
    &&& forall|i: int| 0 <= i < b.children.len() ==> {
        &&& child_ok(b.node_type, path, b.range, #[trigger] b.children@[i], i)
        &&& node_wf(b.children@[i])
    }
}

/// The path of a child from its parent's path and its step.
pub(crate) fn join_path(parent: &String, seg: &String) -> (r: String)
    ensures
        r@ == path_step(parent@, seg@),
{
    if parent.as_str().is_empty() {
        seg.clone()
    } else {
        let mut r = parent.clone();
        push_char(&mut r, '/');
        push_all(&mut r, seg);
        r
    }
}

fn index_path(parent: &String, i: usize) -> (r: String)
    ensures
        r@ == path_step(parent@, decimal(i as nat)),
{
    let mut seg = String::new();
    push_decimal(&mut seg, i);
    assert(seg@ == decimal(i as nat));
    join_path(parent, &seg)
}

fn pos(line: usize, col: usize) -> (p: Position)
    requires
        line < 0xffff_ffff,
        col < 0xffff_ffff,
    ensures
        p.line == line,
        p.character == col,
        p == spos(line as int, col as int),
{
    Position { line: line as u32, character: col as u32 }
}

/// The first line at or after `j` that holds content, or the number of lines.
fn next_content(lines: &Vec<Line>, j: usize) -> (k: usize)
    requires
        j <= lines.len(),
        lines_wf(lines@),
    ensures
        j <= k <= lines.len(),
        k < lines.len() ==> !lines@[k as int].blank(),
        k == next_line(lines_chars(lines@), j as int),
{
    let mut k = j;
    while k < lines.len() && lines[k].indent >= lines[k].end
        invariant
            j <= k <= lines.len(),
            lines_wf(lines@),
            next_line(lines_chars(lines@), j as int) == next_line(lines_chars(lines@), k as int),
        decreases lines.len() - k,
    {
        assert(lines@[k as int].wf());
        k = k + 1;
    }
    if k < lines.len() {
        assert(lines@[k as int].wf());
    }
    k
}

/// The lines that continue a scalar from line `m0` on, as `cont` states
/// them: the line after them, the end of the last with content, and `val`
/// with their text joined by spaces.
fn continue_scalar(lines: &Vec<Line>, min: usize, m0: usize, end0: Position, val: String) -> (r: (usize, Position, String))
    requires
        lines_wf(lines@),
        lines_fit(lines@),
        m0 <= lines.len(),
        end0.line < m0,
    ensures
        (r.0 as int, r.1, r.2@) == cont(lines_chars(lines@), min as int, m0 as int, end0, val@),
        m0 <= r.0 <= lines.len(),
        r.1.line < r.0,
        pos_le(end0, r.1),
{
    let ghost ls = lines_chars(lines@);
    let ghost val0 = val@;
    let n = lines.len();
    let mut m = m0;
    let mut end = end0;
    let mut val = val;
    loop
        invariant
            lines_wf(lines@),
            lines_fit(lines@),
            ls == lines_chars(lines@),
            n == lines.len(),
            m0 <= m <= n,
            end.line < m,
            pos_le(end0, end),
            cont(ls, min as int, m0 as int, end0, val0) == cont(ls, min as int, m as int, end, val@),
        ensures
            m0 <= m <= n,
            end.line < m,
            pos_le(end0, end),
            cont(ls, min as int, m0 as int, end0, val0) == (m as int, end, val@),
        decreases n - m,
    {
        if m >= n {
            break;
        }
        let l = &lines[m];
        assert(lines@[m as int].wf() && lines@[m as int].chars.len() < 0xffff_ffff);
        assert(ls[m as int] == l.chars@);
        if l.indent >= l.end {
            m = m + 1;
        } else if l.indent >= min {
            let ghost before = val@;
            push_char(&mut val, ' ');
            let piece = string_of_range(&l.chars, l.indent, l.end);
            push_all(&mut val, &piece);
            assert(val@ =~= before + seq![' '] + l.chars@.subrange(l.indent as int, l.end as int));
            end = pos(m, l.end);
            m = m + 1;
        } else {
            break;
        }
    }
    (m, end, val)
}

/// A scalar that starts at column `from` of line `i`, continued on the
/// lines below indented at least `min`.
fn scalar_block(lines: &Vec<Line>, i: usize, from: usize, min: usize) -> (b: Block)
    requires
        lines_wf(lines@),
        lines_fit(lines@),
        i < lines.len(),
        from <= lines@[i as int].end,
    ensures
        range_wf(b.range),
        b.children.len() == 0,
        b.node_type == NodeType::Scalar,
        i < b.next <= lines.len(),
        b.range.start == spos(i as int, from as int),
        b.range.end.line < b.next,
        block_view(b) == ({
            let ls = lines_chars(lines@);
            let (m, end, v) = cont(ls, min as int, i + 1, spos(i as int, line_end(ls[i as int])),
                ls[i as int].subrange(from as int, line_end(ls[i as int])));
            SBlock { node_type: NodeType::Scalar, value: v, children: Seq::empty(), range: Range { start: spos(i as int, from as int), end }, next: m }
        }),
{
    let l = &lines[i];
    assert(lines@[i as int].wf() && lines@[i as int].chars.len() < 0xffff_ffff);
    assert(lines_chars(lines@)[i as int] == l.chars@);
    assert(views(Seq::<Node>::empty()) =~= Seq::<SNode>::empty());
    let first = string_of_range(&l.chars, from, l.end);
    let (m, end, value) = continue_scalar(lines, min, i + 1, pos(i, l.end), first);
    Block {
        node_type: NodeType::Scalar,
        value,
        children: Vec::new(),
        range: Range { start: pos(i, from), end },
        next: m,
    }
}

/// Parses the block whose content starts at column `col` of line `i`: a
/// sequence when a dash stands there, a mapping when a key does, else a scalar.
fn parse_block(lines: &Vec<Line>, i: usize, col: usize, min: usize, path: &String) -> (b: Block)
    requires
        lines_wf(lines@),
        lines_fit(lines@),
        i < lines.len(),
        col < lines@[i as int].end,
    ensures
        block_ok(b, path@),
        i < b.next <= lines.len(),
        b.range.start.line == i,
        b.range.start.character == col,
        b.range.end.line < b.next,
        block_view(b) == block(lines_chars(lines@), i as int, col as int, min as int, path@),
    decreases lines.len() - i, lines@[i as int].end - col, 1nat,
{
    let l = &lines[i];
    assert(lines@[i as int].wf());
    assert(lines_chars(lines@)[i as int] == l.chars@);
    if is_seq_item(l, col) {
        parse_sequence(lines, i, col, path)
    } else if find_key_colon(l, col).is_some() {
        parse_mapping(lines, i, col, path)
    } else {
        match parse_whole_flow(l, i, col, path) {
            Some(b) => Block { node_type: b.node_type, value: b.value, children: b.children, range: b.range, next: i + 1 },
            None => scalar_block(lines, i, col, min),
        }
    }
}

/// Builds the node of a sequence entry or of a mapping value from its block.
fn node_of(blk: Block, key: Option<String>, own: Range, path: String) -> (n: Node)
    requires
        block_ok(blk, path@),
        range_wf(own),
        pos_le(own.start, blk.range.start),
        own.start.line == blk.range.end.line ==> pos_le(own.end, blk.range.end),
    ensures
        node_wf(n),
        n.range.start == own.start,
        n.range.end == (if pos_le(own.end, blk.range.end) { blk.range.end } else { own.end }),
        n.key == key,
        n.path == path,
        node_view(n) == node_from(block_view(blk), key_view(key), own, path@),
        range_within(own, n.range),
        range_within(blk.range, n.range),
{
    let range = own.hull(&blk.range);
    assert forall|x: int| 0 <= x < blk.children.len() implies child_ok(blk.node_type, path@, range, #[trigger] blk.children@[x], x) by {
        assert(child_ok(blk.node_type, path@, blk.range, blk.children@[x], x));
    }
    let n = Node { node_type: blk.node_type, key, value: blk.value, range, children: blk.children, path };
    assert(range_wf(n.range));
    assert(n.node_type == NodeType::Scalar ==> n.children.len() == 0);
    assert(forall|x: int| 0 <= x < n.children.len() ==> node_wf(#[trigger] n.children@[x]));
    n
}

/// Parses a sequence whose first dash stands at column `col` of line `i`; its
/// further entries are the dashes at that column on the lines below.
#[verifier::rlimit(40)]
fn parse_sequence(lines: &Vec<Line>, i: usize, col: usize, path: &String) -> (b: Block)
    requires
        lines_wf(lines@),
        lines_fit(lines@),
        i < lines.len(),
        seq_item_at(lines@[i as int], col as int),
    ensures
        block_ok(b, path@),
        i < b.next <= lines.len(),
        b.range.start.line == i,
        b.range.start.character == col,
        b.range.end.line < b.next,
        block_view(b) == seq_loop(lines_chars(lines@), i as int, col as int, path@, i as int, Seq::empty(),
            Range { start: spos(i as int, col as int), end: spos(i as int, col + 1) }),
    decreases lines.len() - i, lines@[i as int].end - col, 0nat,
{
    let n = lines.len();
    let ghost ls = lines_chars(lines@);
    let mut children: Vec<Node> = Vec::new();
    assert(lines@[i as int].wf() && lines@[i as int].chars.len() < 0xffff_ffff);
    let mut range = Range { start: pos(i, col), end: pos(i, col + 1) };
    let ghost goal = seq_loop(ls, i as int, col as int, path@, i as int, Seq::empty(), range);
    assert(views(children@) =~= Seq::<SNode>::empty());
    let mut j = i;
    loop
        invariant
            lines_wf(lines@),
            lines_fit(lines@),
            i < n == lines.len(),
            i <= j <= n,
            j == i ==> children.len() == 0,
            seq_item_at(lines@[i as int], col as int),
            range_wf(range),
            forall|x: int| 0 <= x < children.len() ==> {
                &&& child_ok(NodeType::Sequence, path@, range, #[trigger] children@[x], x)
                &&& node_wf(children@[x])
            },
            siblings_ordered(children@),
            ls == lines_chars(lines@),
            seq_loop(ls, i as int, col as int, path@, j as int, views(children@), range) == goal,
            range.start.line == i,
            range.start.character == col,
            j == i ==> range.end.line == i,
            j > i ==> range.end.line < j,
            forall|x: int| 0 <= x < children.len() ==> (#[trigger] children@[x]).range.end.line < j,
        ensures
            i < j <= n,
            seq_loop(ls, i as int, col as int, path@, j as int, views(children@), range)
                == (SBlock { node_type: NodeType::Sequence, value: Seq::empty(), children: views(children@), range, next: j as int }),
        decreases n - j,
    {
        if j >= n {
            break;
        }
        let l = &lines[j];
        assert(lines@[j as int].wf() && lines@[j as int].chars.len() < 0xffff_ffff);
        assert(ls[j as int] == l.chars@);
        if j != i {
            if l.indent >= l.end {
                j = j + 1;
                continue;
            }
            if l.indent < col {
                break;
            }
            if l.indent > col {
                // A deeper line that no entry took: it belongs to none.
                j = j + 1;
                continue;
            }
            if !is_seq_item(l, col) {
                break;
            }
        }
        let ghost line0 = j;
        let ghost old_views = views(children@);
        proof { lemma_views(children@); }
        let item_path = index_path(path, children.len());
        let c2 = skip_spaces(l, col + 1);
        let dash = Range { start: pos(j, col), end: pos(j, col + 1) };
        let node = if c2 < l.end {
            let blk = parse_block(lines, j, c2, col + 1, &item_path);
            j = blk.next;
            node_of(blk, None, dash, item_path)
        } else {
            let k = next_content(lines, j + 1);
            if k < n {
                assert(lines@[k as int].wf());
                assert(ls[k as int] == lines@[k as int].chars@);
            }
            if k < n && lines[k].indent > col {
                let blk = parse_block(lines, k, lines[k].indent, col + 1, &item_path);
                j = blk.next;
                node_of(blk, None, dash, item_path)
            } else {
                j = j + 1;
                assert(views(Seq::<Node>::empty()) =~= Seq::<SNode>::empty());
                Node {
                    node_type: NodeType::Scalar,
                    key: None,
                    value: String::new(),
                    range: dash,
                    children: Vec::new(),
                    path: item_path,
                }
            }
        };
        assert(line0 <= node.range.start.line && node.range.end.line < j);
        let ghost old_children = children@;
        let ghost old_range = range;
        range = range.hull(&node.range);
        assert forall|x: int| 0 <= x < children.len() implies child_ok(NodeType::Sequence, path@, range, #[trigger] children@[x], x) by {
            assert(child_ok(NodeType::Sequence, path@, old_range, children@[x], x));
        }
        children.push(node);
        proof { lemma_views_push(old_children, node); }
        assert(seq_loop(ls, i as int, col as int, path@, line0 as int, old_views, old_range)
            == seq_loop(ls, i as int, col as int, path@, j as int, views(children@), range));
        assert(child_ok(NodeType::Sequence, path@, range, children@[children.len() - 1], children.len() - 1));
    }
    Block { node_type: NodeType::Sequence, value: String::new(), children, range, next: j }
}

/// Facts every flow parse relies on: a well-formed line whose positions fit.
pub open spec fn line_fits(l: Line, ln: int) -> bool {
    l.wf() && 0 <= ln < 0xffff_ffff && l.chars.len() < 0xffff_ffff
}

fn quote_close_at(l: &Line, k: usize, q: char) -> (r: usize)
    requires
        l.wf(),
        k <= l.end,
    ensures
        k <= r <= l.end,
        r == quote_close(l.chars@, k as int, l.end as int, q),
{
    let mut r = k;
    while r < l.end && l.chars[r] != q
        invariant
            k <= r <= l.end <= l.chars.len(),
            quote_close(l.chars@, k as int, l.end as int, q) == quote_close(l.chars@, r as int, l.end as int, q),
        decreases l.end - r,
    {
        r = r + 1;
    }
    r
}

fn plain_stop_at(l: &Line, k: usize, colon: bool) -> (r: usize)
    requires
        l.wf(),
        k <= l.end,
    ensures
        k <= r <= l.end,
        r == plain_stop(l.chars@, k as int, l.end as int, colon),
{
    let mut r = k;
    while r < l.end && l.chars[r] != ',' && l.chars[r] != ']' && l.chars[r] != '}' && !(colon && l.chars[r] == ':')
        invariant
            k <= r <= l.end <= l.chars.len(),
            plain_stop(l.chars@, k as int, l.end as int, colon) == plain_stop(l.chars@, r as int, l.end as int, colon),
        decreases l.end - r,
    {
        r = r + 1;
    }
    r
}

fn trim_back(l: &Line, a: usize, b: usize) -> (r: usize)
    requires
        a <= b <= l.chars.len(),
    ensures
        a <= r <= b,
        r == key_trim(l.chars@, a as int, b as int),
{
    let mut r = b;
    while r > a && l.chars[r - 1] == ' '
        invariant
            a <= r <= b <= l.chars.len(),
            key_trim(l.chars@, a as int, b as int) == key_trim(l.chars@, a as int, r as int),
        decreases r,
    {
        r = r - 1;
    }
    r
}

fn flow_scalar_block(l: &Line, ln: usize, a: usize, b: usize) -> (r: Block)
    requires
        line_fits(*l, ln as int),
        a <= b <= l.end,
    ensures
        block_view(r) == flow_scalar(l.chars@, ln as int, a as int, b as int),
        r.children.len() == 0,
        r.node_type == NodeType::Scalar,
        range_wf(r.range),
{
    let value = string_of_range(&l.chars, a, b);
    let r = Block {
        node_type: NodeType::Scalar,
        value,
        children: Vec::new(),
        range: Range { start: pos(ln, a), end: pos(ln, b) },
        next: b,
    };
    assert(views(r.children@) =~= Seq::<SNode>::empty());
    r
}

/// What the flow parses promise of a block they return.
spec fn flow_block_ok(b: Block, ln: int, k: int, path: Seq<char>, e: int) -> bool {
    &&& block_ok(b, path)
    &&& b.range == (Range { start: spos(ln, k), end: spos(ln, b.next as int) })
    &&& k < b.next <= e
}

/// The value of a flow collection at column `k` of line `ln`, as
/// `flow_value` states it.
fn parse_flow_value(l: &Line, ln: usize, k: usize, path: &String) -> (r: Option<Block>)
    requires
        line_fits(*l, ln as int),
    ensures
        r is None <==> flow_value(l.chars@, ln as int, k as int, l.end as int, path@) is None,
        r matches Some(b) ==> flow_value(l.chars@, ln as int, k as int, l.end as int, path@) == Some(block_view(b))
            && flow_block_ok(b, ln as int, k as int, path@, l.end as int),
    decreases l.end - k, 2nat,
{
    if k >= l.end {
        return None;
    }
    let c = l.chars[k];
    if c == '[' || c == '{' {
        parse_flow(l, ln, k, path)
    } else if c == '"' || c == '\'' {
        let q = quote_close_at(l, k + 1, c);
        if q < l.end {
            Some(flow_scalar_block(l, ln, k, q + 1))
        } else {
            None
        }
    } else {
        let p = plain_stop_at(l, k, false);
        let t = trim_back(l, k, p);
        if t > k {
            Some(flow_scalar_block(l, ln, k, t))
        } else {
            None
        }
    }
}

/// The flow collection that opens at column `k` of line `ln`, as `flow`
/// states it.
fn parse_flow(l: &Line, ln: usize, k: usize, path: &String) -> (r: Option<Block>)
    requires
        line_fits(*l, ln as int),
    ensures
        r is None <==> flow(l.chars@, ln as int, k as int, l.end as int, path@) is None,
        r matches Some(b) ==> flow(l.chars@, ln as int, k as int, l.end as int, path@) == Some(block_view(b))
            && flow_block_ok(b, ln as int, k as int, path@, l.end as int),
    decreases l.end - k, 1nat,
{
    if k >= l.end {
        None
    } else if l.chars[k] == '[' {
        parse_flow_seq(l, ln, k, path)
    } else if l.chars[k] == '{' {
        parse_flow_map(l, ln, k, path)
    } else {
        None
    }
}

/// The flow sequence that opens at column `k0`, as `flow_seq` states it.
#[verifier::rlimit(40)]
fn parse_flow_seq(l: &Line, ln: usize, k0: usize, path: &String) -> (r: Option<Block>)
    requires
        line_fits(*l, ln as int),
        k0 < l.end,
    ensures
        r is None <==> flow_seq(l.chars@, ln as int, k0 as int, l.end as int, path@, k0 + 1, Seq::empty(), false) is None,
        r matches Some(b) ==> flow_seq(l.chars@, ln as int, k0 as int, l.end as int, path@, k0 + 1, Seq::empty(), false)
            == Some(block_view(b)) && flow_block_ok(b, ln as int, k0 as int, path@, l.end as int),
    decreases l.end - k0 - 1, 3nat,
{
    let ghost c = l.chars@;
    let ghost e = l.end as int;
    let ghost goal = flow_seq(c, ln as int, k0 as int, e, path@, k0 + 1, Seq::empty(), false);
    let mut children: Vec<Node> = Vec::new();
    let mut k: usize = k0 + 1;
    let mut sep = false;
    assert(views(children@) =~= Seq::<SNode>::empty());
    loop
        invariant
            line_fits(*l, ln as int),
            c == l.chars@,
            e == l.end as int,
            k0 < k <= l.end,
            goal == flow_seq(c, ln as int, k0 as int, e, path@, k as int, views(children@), sep),
            goal == flow_seq(l.chars@, ln as int, k0 as int, l.end as int, path@, k0 + 1, Seq::empty(), false),
            siblings_ordered(children@),
            forall|x: int| 0 <= x < children.len() ==> {
                &&& child_ok(NodeType::Sequence, path@, Range { start: spos(ln as int, k0 as int), end: spos(ln as int, k as int) }, #[trigger] children@[x], x)
                &&& node_wf(children@[x])
            },
        decreases l.end - k,
    {
        let k2 = skip_spaces(l, k);
        assert(k2 as int == skip_sp(c, k as int, e));
        if k2 >= l.end {
            assert(flow_seq(c, ln as int, k0 as int, e, path@, k as int, views(children@), sep) is None);
            return None;
        }
        let ch = l.chars[k2];
        if ch == ']' {
            let range = Range { start: pos(ln, k0), end: pos(ln, k2 + 1) };
            let b = Block { node_type: NodeType::Sequence, value: String::new(), children, range, next: k2 + 1 };
            assert forall|x: int| 0 <= x < b.children.len() implies child_ok(NodeType::Sequence, path@, range, #[trigger] b.children@[x], x) by {
                assert(child_ok(NodeType::Sequence, path@, Range { start: spos(ln as int, k0 as int), end: spos(ln as int, k as int) }, b.children@[x], x));
            }
            return Some(b);
        }
        if sep {
            if ch == ',' {
                k = k2 + 1;
                sep = false;
                continue;
            }
            return None;
        }
        proof { lemma_views(children@); }
        let item_path = index_path(path, children.len());
        match parse_flow_value(l, ln, k2, &item_path) {
            None => {
                return None;
            },
            Some(b) => {
                let ghost old_children = children@;
                let ghost old_k = k;
                let next = b.next;
                let own = b.range;
                let node = node_of(b, None, own, item_path);
                children.push(node);
                proof { lemma_views_push(old_children, node); }
                k = next;
                sep = true;
                assert forall|x: int| 0 <= x < children.len() implies child_ok(NodeType::Sequence, path@, Range { start: spos(ln as int, k0 as int), end: spos(ln as int, k as int) }, #[trigger] children@[x], x) && node_wf(children@[x]) by {
                    if x < old_children.len() {
                        assert(children@[x] == old_children[x]);
                        assert(child_ok(NodeType::Sequence, path@, Range { start: spos(ln as int, k0 as int), end: spos(ln as int, old_k as int) }, old_children[x], x));
                    }
                }
            },
        }
    }
}

/// The flow mapping that opens at column `k0`, as `flow_map` states it.
#[verifier::rlimit(60)]
fn parse_flow_map(l: &Line, ln: usize, k0: usize, path: &String) -> (r: Option<Block>)
    requires
        line_fits(*l, ln as int),
        k0 < l.end,
    ensures
        r is None <==> flow_map(l.chars@, ln as int, k0 as int, l.end as int, path@, k0 + 1, Seq::empty(), false) is None,
        r matches Some(b) ==> flow_map(l.chars@, ln as int, k0 as int, l.end as int, path@, k0 + 1, Seq::empty(), false)
            == Some(block_view(b)) && flow_block_ok(b, ln as int, k0 as int, path@, l.end as int),
    decreases l.end - k0 - 1, 3nat,
{
    let ghost c = l.chars@;
    let ghost e = l.end as int;
    let ghost goal = flow_map(c, ln as int, k0 as int, e, path@, k0 + 1, Seq::empty(), false);
    let mut children: Vec<Node> = Vec::new();
    let mut k: usize = k0 + 1;
    let mut sep = false;
    assert(views(children@) =~= Seq::<SNode>::empty());
    loop
        invariant
            line_fits(*l, ln as int),
            c == l.chars@,
            e == l.end as int,
            k0 < k <= l.end,
            goal == flow_map(c, ln as int, k0 as int, e, path@, k as int, views(children@), sep),
            goal == flow_map(l.chars@, ln as int, k0 as int, l.end as int, path@, k0 + 1, Seq::empty(), false),
            siblings_ordered(children@),
            forall|x: int| 0 <= x < children.len() ==> {
                &&& child_ok(NodeType::Mapping, path@, Range { start: spos(ln as int, k0 as int), end: spos(ln as int, k as int) }, #[trigger] children@[x], x)
                &&& node_wf(children@[x])
            },
        decreases l.end - k,
    {
        let k2 = skip_spaces(l, k);
        assert(k2 as int == skip_sp(c, k as int, e));
        if k2 >= l.end {
            assert(flow_map(c, ln as int, k0 as int, e, path@, k as int, views(children@), sep) is None);
            return None;
        }
        let ch = l.chars[k2];
        if ch == '}' {
            let range = Range { start: pos(ln, k0), end: pos(ln, k2 + 1) };
            let b = Block { node_type: NodeType::Mapping, value: String::new(), children, range, next: k2 + 1 };
            assert forall|x: int| 0 <= x < b.children.len() implies child_ok(NodeType::Mapping, path@, range, #[trigger] b.children@[x], x) by {
                assert(child_ok(NodeType::Mapping, path@, Range { start: spos(ln as int, k0 as int), end: spos(ln as int, k as int) }, b.children@[x], x));
            }
            return Some(b);
        }
        if sep {
            if ch == ',' {
                k = k2 + 1;
                sep = false;
                continue;
            }
            return None;
        }
        let p = plain_stop_at(l, k2, true);
        let kt = trim_back(l, k2, p);
        if !(k2 < kt && p < l.end && l.chars[p] == ':') {
            return None;
        }
        let key = key_text(l, k2, kt);
        let ep = join_path(path, &key);
        let kv = skip_spaces(l, p + 1);
        if kv >= l.end {
            return None;
        }
        let ghost old_children = children@;
        let ghost old_k = k;
        proof { lemma_views(children@); }
        let node = if l.chars[kv] == ',' || l.chars[kv] == '}' {
            let n = Node {
                node_type: NodeType::Scalar,
                key: Some(key),
                value: String::new(),
                range: Range { start: pos(ln, k2), end: pos(ln, p + 1) },
                children: Vec::new(),
                path: ep,
            };
            assert(views(n.children@) =~= Seq::<SNode>::empty());
            k = kv;
            n
        } else {
            match parse_flow_value(l, ln, kv, &ep) {
                None => {
                    return None;
                },
                Some(b) => {
                    k = b.next;
                    let own = Range { start: pos(ln, k2), end: pos(ln, k2) };
                    node_of(b, Some(key), own, ep)
                },
            }
        };
        children.push(node);
        proof { lemma_views_push(old_children, node); }
        sep = true;
        assert forall|x: int| 0 <= x < children.len() implies child_ok(NodeType::Mapping, path@, Range { start: spos(ln as int, k0 as int), end: spos(ln as int, k as int) }, #[trigger] children@[x], x) && node_wf(children@[x]) by {
            if x < old_children.len() {
                assert(children@[x] == old_children[x]);
                assert(child_ok(NodeType::Mapping, path@, Range { start: spos(ln as int, k0 as int), end: spos(ln as int, old_k as int) }, old_children[x], x));
            }
        }
    }
}

/// A flow collection at column `k` that fills the rest of the line, as
/// `whole_flow` states it.
fn parse_whole_flow(l: &Line, ln: usize, k: usize, path: &String) -> (r: Option<Block>)
    requires
        line_fits(*l, ln as int),
    ensures
        r is None <==> whole_flow(l.chars@, ln as int, k as int, path@) is None,
        r matches Some(b) ==> whole_flow(l.chars@, ln as int, k as int, path@) == Some(block_view(b))
            && flow_block_ok(b, ln as int, k as int, path@, l.end as int),
{
    if k < l.end && (l.chars[k] == '[' || l.chars[k] == '{') {
        match parse_flow(l, ln, k, path) {
            Some(b) => if skip_spaces(l, b.next) == l.end { Some(b) } else { None },
            None => None,
        }
    } else {
        None
    }
}

/// The key that the characters `from..to` of a line spell, without
/// surrounding quotes.
fn key_text(l: &Line, from: usize, to: usize) -> (r: String)
    requires
        l.wf(),
        from <= to <= l.chars.len(),
    ensures
        r@ == key_of(l.chars@, from as int, to as int),
        (from + r@.len() <= l.chars.len() && l.chars@.subrange(from as int, from + r@.len()) == r@)
        || (from + 1 + r@.len() <= l.chars.len() && l.chars@.subrange(from + 1, from + 1 + r@.len()) == r@),
{
    let mut a = from;
    let mut b = to;
    if b - a >= 2 && (l.chars[a] == '"' || l.chars[a] == '\'') && l.chars[b - 1] == l.chars[a] {
        a = a + 1;
        b = b - 1;
    }
    string_of_range(&l.chars, a, b)
}

/// Parses a mapping whose first key starts at column `col` of line `i`; its
/// further keys start at that column on the lines below.
#[verifier::rlimit(60)]
fn parse_mapping(lines: &Vec<Line>, i: usize, col: usize, path: &String) -> (b: Block)
    requires
        lines_wf(lines@),
        lines_fit(lines@),
        i < lines.len(),
        col < lines@[i as int].end,
    ensures
        block_ok(b, path@),
        i < b.next <= lines.len(),
        b.range.start.line == i,
        b.range.start.character == col,
        b.range.end.line < b.next,
        block_view(b) == map_loop(lines_chars(lines@), i as int, col as int, path@, i as int, Seq::empty(),
            Range { start: spos(i as int, col as int), end: spos(i as int, col as int) }),
    decreases lines.len() - i, lines@[i as int].end - col, 0nat,
{
    let n = lines.len();
    let ghost ls = lines_chars(lines@);
    let mut children: Vec<Node> = Vec::new();
    assert(lines@[i as int].wf() && lines@[i as int].chars.len() < 0xffff_ffff);
    let mut range = Range { start: pos(i, col), end: pos(i, col) };
    let ghost goal = map_loop(ls, i as int, col as int, path@, i as int, Seq::empty(), range);
    assert(views(children@) =~= Seq::<SNode>::empty());
    let mut j = i;
    loop
        invariant_except_break
            map_loop(ls, i as int, col as int, path@, j as int, views(children@), range) == goal,
        invariant
            lines_wf(lines@),
            lines_fit(lines@),
            i < n == lines.len(),
            i <= j <= n,
            j == i ==> children.len() == 0,
            col < lines@[i as int].end,
            range_wf(range),
            forall|x: int| 0 <= x < children.len() ==> {
                &&& child_ok(NodeType::Mapping, path@, range, #[trigger] children@[x], x)
                &&& node_wf(children@[x])
            },
            siblings_ordered(children@),
            ls == lines_chars(lines@),
            range.start.line == i,
            range.start.character == col,
            j == i ==> range.end.line == i,
            j > i ==> range.end.line < j,
            forall|x: int| 0 <= x < children.len() ==> (#[trigger] children@[x]).range.end.line < j,
        ensures
            i < j <= n,
            goal == (SBlock { node_type: NodeType::Mapping, value: Seq::empty(), children: views(children@), range, next: j as int }),
        decreases n - j,
    {
        if j >= n {
            break;
        }
        let l = &lines[j];
        assert(lines@[j as int].wf() && lines@[j as int].chars.len() < 0xffff_ffff);
        assert(ls[j as int] == l.chars@);
        if j != i {
            if l.indent >= l.end {
                j = j + 1;
                continue;
            }
            if l.indent < col {
                break;
            }
            if l.indent > col {
                // A deeper line that no entry took: it belongs to none.
                j = j + 1;
                continue;
            }
            if is_seq_item(l, col) {
                break;
            }
        }
        let ghost line0 = j;
        let ghost old_views = views(children@);
        proof { lemma_views(children@); }
        assert(lines_chars(lines@)[j as int] == l.chars@);
        let colon = find_key_colon(l, col);
        if colon.is_none() {
            if j == i {
                j = j + 1;
            }
            break;
        }
        let k = colon.unwrap();
        let mut key_end = k;
        while key_end > col && l.chars[key_end - 1] == ' '
            invariant
                col <= key_end <= k,
                k < l.chars.len(),
                key_trim(l.chars@, col as int, k as int) == key_trim(l.chars@, col as int, key_end as int),
            decreases key_end,
        {
            key_end = key_end - 1;
        }
        let key = key_text(l, col, key_end);
        let entry_path = join_path(path, &key);
        let r = skip_spaces(l, k + 1);
        let own = Range { start: pos(j, col), end: pos(j, k + 1) };
        assert(views(Seq::<Node>::empty()) =~= Seq::<SNode>::empty());
        let node = if r < l.end {
            let fl = parse_whole_flow(l, j, r, &entry_path);
            if fl.is_some() {
                let b = fl.unwrap();
                j = j + 1;
                node_of(b, Some(key), own, entry_path)
            } else {
                let first = string_of_range(&l.chars, r, l.end);
                let (m2, end, value) = continue_scalar(lines, col + 1, j + 1, pos(j, l.end), first);
                let start = pos(j, col);
                j = m2;
                Node { node_type: NodeType::Scalar, key: Some(key), value, range: Range { start, end }, children: Vec::new(), path: entry_path }
            }
        } else {
            let m = next_content(lines, j + 1);
            if m < n {
                assert(lines@[m as int].wf());
                assert(ls[m as int] == lines@[m as int].chars@);
            }
            if m < n && (lines[m].indent > col || (lines[m].indent == col && is_seq_item(&lines[m], col))) {
                let blk = parse_block(lines, m, lines[m].indent, col + 1, &entry_path);
                j = blk.next;
                node_of(blk, Some(key), own, entry_path)
            } else {
                j = j + 1;
                Node { node_type: NodeType::Scalar, key: Some(key), value: String::new(), range: own, children: Vec::new(), path: entry_path }
            }
        };
        assert(line0 <= node.range.start.line && node.range.end.line < j);
        let ghost old_children = children@;
        let ghost old_range = range;
        range = range.hull(&node.range);
        assert forall|x: int| 0 <= x < children.len() implies child_ok(NodeType::Mapping, path@, range, #[trigger] children@[x], x) by {
            assert(child_ok(NodeType::Mapping, path@, old_range, children@[x], x));
        }
        children.push(node);
        proof { lemma_views_push(old_children, node); }
        assert(node_view(node) == entry(ls, line0 as int, col as int, k as int, path@).0);
        assert(j as int == advance(ls, line0 as int, entry(ls, line0 as int, col as int, k as int, path@).1));
        assert(map_loop(ls, i as int, col as int, path@, line0 as int, old_views, old_range)
            == map_loop(ls, i as int, col as int, path@, j as int, views(children@), range));
        assert(child_ok(NodeType::Mapping, path@, range, children@[children.len() - 1], children.len() - 1));
    }
    Block { node_type: NodeType::Mapping, value: String::new(), children, range, next: j }
}

} // verus!

verus! {

/// Why a document could not be parsed.
pub enum ParseError {
    /// The text is not well-formed YAML; the zero-based position is where the
    /// error was found, or the start of the document when that is unknown.
    Syntax { message: String, line: u32, character: u32 },
    /// The text has too many characters for its positions to fit in `u32`.
    TooLarge,
}

/// The largest document, in characters, whose positions all fit in `u32`.
pub const MAX_DOCUMENT_CHARS: usize = 0xffff_fff0;

fn one_based_to_u32(v: usize) -> (r: u32)
    ensures
        v >= 1 && v - 1 <= 0xffff_ffff ==> r == v - 1,
{
    let z = if v >= 1 { v - 1 } else { 0 };
    if z <= 0xffff_ffff { z as u32 } else { 0xffff_ffff }
}

pub(crate) fn syntax_error(e: serde_yaml::Error) -> (r: ParseError)
    ensures
        r is Syntax,
{
    let message = e.to_string();
    match e.location() {
        Some(loc) => ParseError::Syntax {
            message,
            line: one_based_to_u32(loc.line()),
            character: one_based_to_u32(loc.column()),
        },
        None => ParseError::Syntax { message, line: 0, character: 0 },
    }
}

/// The tree of a document's text, exactly as `tree_of` states it. The text
/// must be small enough for its positions to fit in `u32`.
pub fn build_tree(text: &str) -> (r: Node)
    requires
        text@.len() <= MAX_DOCUMENT_CHARS,
    ensures
        node_wf(r),
        node_view(r) == tree_of(text@),
        r.path@ == Seq::<char>::empty(),
        r.key is None,
        r.range.start == (Position { line: 0, character: 0 }),
{
    let chars = crate::text::chars_of(text);
    let lines = crate::lines::split_lines(&chars);
    let n = lines.len();
    let origin = Range { start: pos(0, 0), end: pos(0, 0) };
    let path = String::new();
    let k = next_content(&lines, 0);
    assert(lines_chars(lines@) == text_lines(chars@));
    if k < n {
        assert(lines@[k as int].wf());
        assert(lines_chars(lines@)[k as int] == lines@[k as int].chars@);
        let blk = parse_block(&lines, k, lines[k].indent, 0, &path);
        node_of(blk, None, origin, path)
    } else {
        assert(views(Seq::<Node>::empty()) =~= Seq::<SNode>::empty());
        Node {
            node_type: NodeType::Scalar,
            key: None,
            value: String::new(),
            range: origin,
            children: Vec::new(),
            path,
        }
    }
}

/// A parsed YAML document with position information.
pub struct Document {
    /// The raw text of the document
    pub text: String,
    /// Root of the tree of the last text that parsed
    pub root: Option<Node>,
}

/// The root that a successful parse of `text` installs.
pub open spec fn root_ok(root: Node) -> bool {
    node_wf(root) && root.path@ == Seq::<char>::empty() && root.key is None
}

impl Document {
    /// The tree, when there is one, is one that a parse installs.
    pub open spec fn wf(&self) -> bool {
        self.root matches Some(t) ==> root_ok(t)
    }

    /// A document with the given text and no tree yet.
    pub fn new(text: String) -> (d: Document)
        ensures
            d.text == text,
            d.root is None,
    {
        Document { text, root: None }
    }

    /// Parses the text and installs its tree. When the text is not
    /// well-formed YAML, or too large, the previous tree stays.
    pub fn parse(&mut self) -> (r: Result<(), ParseError>)
        ensures
            final(self).text == old(self).text,
            r is Ok <==> (yaml_accepts(old(self).text@) && old(self).text@.len() <= MAX_DOCUMENT_CHARS),
            r is Ok ==> (final(self).root matches Some(t) && root_ok(t) && node_view(t) == tree_of(old(self).text@)),
            r is Err ==> final(self).root == old(self).root,
            r matches Err(ParseError::TooLarge) ==> yaml_accepts(old(self).text@),
    {
        match yaml_check(self.text.as_str()) {
            Err(e) => Err(syntax_error(e)),
            Ok(()) => {
                if self.text.as_str().unicode_len() > MAX_DOCUMENT_CHARS {
                    Err(ParseError::TooLarge)
                } else {
                    let t = build_tree(self.text.as_str());
                    self.root = Some(t);
                    Ok(())
                }
            },
        }
    }

    /// Replaces the text and parses it; on failure the previous tree stays.
    pub fn update(&mut self, text: String) -> (r: Result<(), ParseError>)
        ensures
            final(self).text == text,
            r is Ok <==> (yaml_accepts(text@) && text@.len() <= MAX_DOCUMENT_CHARS),
            r is Ok ==> (final(self).root matches Some(t) && root_ok(t) && node_view(t) == tree_of(text@)),
            r is Err ==> final(self).root == old(self).root,
    {
        self.text = text;
        self.parse()
    }
}

} // verus!
