//! Point queries on a document tree: the most specific node at a position.
//! Children lie inside their parents, so the search descends only into the
//! children whose range holds the point.
use vstd::prelude::*;
use crate::position::{Position, area, area_of_range, range_within, range_contains_point};
use crate::parser::{Document, Node, node_wf, in_tree, child_ok, descend};

verus! {

/// `a` is at least as specific as `b`: a smaller area, or the same area and
/// a path at least as long.
pub open spec fn at_least_as_specific(a: Node, b: Node) -> bool {
    area(a.range) < area(b.range) || (area(a.range) == area(b.range) && a.path@.len() >= b.path@.len())
}

/// `m` lies in the tree of `root`, holds the point, and is at least as
/// specific as every node of the tree that holds the point.
pub open spec fn most_specific(root: Node, m: Node, p: Position) -> bool {
    &&& in_tree(root, m)
    &&& range_contains_point(m.range, p)
    &&& forall|o: Node| in_tree(root, o) && range_contains_point(o.range, p) ==> at_least_as_specific(m, o)
}

/// Every node below a well-formed node is well-formed and lies inside it.
pub proof fn lemma_descend_wf(n: Node, idx: Seq<int>, m: Node)
    requires
        node_wf(n),
        descend(n, idx) == Some(m),
    ensures
        node_wf(m),
        range_within(m.range, n.range),
    decreases idx.len(),
{
    if idx.len() > 0 {
        let c = n.children@[idx[0]];
        assert(child_ok(n.node_type, n.path@, n.range, c, idx[0]));
        lemma_descend_wf(c, idx.drop_first(), m);
    }
}

pub proof fn lemma_in_tree_wf(n: Node, m: Node)
    requires
        node_wf(n),
        in_tree(n, m),
    ensures
        node_wf(m),
        range_within(m.range, n.range),
{
    let idx = choose|idx: Seq<int>| #[trigger] descend(n, idx) == Some(m);
    lemma_descend_wf(n, idx, m);
}

/// A node is in its own tree.
pub proof fn lemma_in_tree_self(n: Node)
    ensures
        in_tree(n, n),
{
    assert(descend(n, Seq::empty()) == Some(n));
}

/// What lies below child `i` of `n` lies below `n`.
pub proof fn lemma_in_tree_from_child(n: Node, i: int, m: Node)
    requires
        0 <= i < n.children.len(),
        in_tree(n.children@[i], m),
    ensures
        in_tree(n, m),
{
    let idx = choose|idx: Seq<int>| #[trigger] descend(n.children@[i], idx) == Some(m);
    let full = seq![i].add(idx);
    assert(full.drop_first() =~= idx);
    assert(descend(n, full) == Some(m));
}

/// What lies below `n` is `n` or lies below one of its children.
pub proof fn lemma_in_tree_cases(n: Node, m: Node)
    requires
        in_tree(n, m),
    ensures
        n == m || exists|i: int| 0 <= i < n.children.len() && #[trigger] in_tree(n.children@[i], m),
{
    let idx = choose|idx: Seq<int>| #[trigger] descend(n, idx) == Some(m);
    if idx.len() > 0 {
        let i = idx[0];
        assert(descend(n.children@[i], idx.drop_first()) == Some(m));
        assert(in_tree(n.children@[i], m));
    }
}

fn more_specific_len(a: &Node, a_len: usize, b: &Node, b_len: usize) -> (r: bool)
    requires
        a_len == a.path@.len(),
        b_len == b.path@.len(),
    ensures
        r == at_least_as_specific(*a, *b),
{
    let x = area_of_range(&a.range);
    let y = area_of_range(&b.range);
    x < y || (x == y && a_len >= b_len)
}

/// Whether `a` is at least as specific as `b`.
pub fn more_specific(a: &Node, b: &Node) -> (r: bool)
    ensures
        r == at_least_as_specific(*a, *b),
{
    let a_len = a.path.as_str().unicode_len();
    let b_len = b.path.as_str().unicode_len();
    more_specific_len(a, a_len, b, b_len)
}

/// Child indices as integers.
pub open spec fn ix(v: Seq<usize>) -> Seq<int> {
    v.map_values(|x: usize| x as int)
}

/// Following one more index goes to that child.
pub proof fn lemma_descend_push(root: Node, s: Seq<int>, n: Node, i: int)
    requires
        descend(root, s) == Some(n),
        0 <= i < n.children.len(),
    ensures
        descend(root, s.push(i)) == Some(n.children@[i]),
    decreases s.len(),
{
    if s.len() == 0 {
        assert(s.push(i)[0] == i);
        assert(s.push(i).drop_first() =~= Seq::<int>::empty());
        assert(descend(root.children@[i], Seq::<int>::empty()) == Some(root.children@[i]));
        assert(root == n);
    } else {
        assert(s.push(i)[0] == s[0]);
        assert(s.push(i).drop_first() =~= s.drop_first().push(i));
        lemma_descend_push(root.children@[s[0]], s.drop_first(), n, i);
    }
}

/// Every prefix of an index path that reaches a node reaches a node, and
/// the next index is one of its children.
pub proof fn lemma_descend_prefix(root: Node, s: Seq<int>, k: int)
    requires
        descend(root, s) is Some,
        0 <= k < s.len(),
    ensures
        descend(root, s.take(k)) is Some,
        0 <= s[k] < descend(root, s.take(k))->0.children.len(),
        descend(root, s.take(k + 1)) == Some(descend(root, s.take(k))->0.children@[s[k]]),
    decreases k,
{
    if k == 0 {
        assert(s.take(0) =~= Seq::<int>::empty());
        assert(s.take(1)[0] == s[0]);
        assert(s.take(1).drop_first() =~= Seq::<int>::empty());
        assert(descend(root.children@[s[0]], Seq::<int>::empty()) == Some(root.children@[s[0]]));
    } else {
        let c = root.children@[s[0]];
        assert(s.take(k)[0] == s[0]);
        assert(s.take(k + 1)[0] == s[0]);
        lemma_descend_prefix(c, s.drop_first(), k - 1);
        assert(s.take(k).drop_first() =~= s.drop_first().take(k - 1));
        assert(s.take(k + 1).drop_first() =~= s.drop_first().take(k));
    }
}

fn copied(v: &Vec<usize>) -> (r: Vec<usize>)
    ensures
        r@ == v@,
{
    let mut r: Vec<usize> = Vec::new();
    let mut k: usize = 0;
    while k < v.len()
        invariant
            k <= v.len(),
            r@ == v@.take(k as int),
        decreases v.len() - k,
    {
        r.push(v[k]);
        assert(v@.take(k + 1) =~= v@.take(k as int).push(v@[k as int]));
        k = k + 1;
    }
    assert(v@.take(k as int) =~= v@);
    r
}

fn extended(v: &Vec<usize>, i: usize) -> (r: Vec<usize>)
    ensures
        r@ == v@.push(i),
{
    let mut r: Vec<usize> = Vec::new();
    let mut k: usize = 0;
    while k < v.len()
        invariant
            k <= v.len(),
            r@ == v@.take(k as int),
        decreases v.len() - k,
    {
        r.push(v[k]);
        assert(v@.take(k + 1) =~= v@.take(k as int).push(v@[k as int]));
        k = k + 1;
    }
    assert(v@.take(k as int) =~= v@);
    r.push(i);
    r
}

/// The most specific node below `n` that holds the point, or `best` where
/// that is at least as specific; with the child indices that lead to it
/// from `root`. `prefix` leads from `root` to `n`.
fn best_in<'a>(Ghost(root): Ghost<Node>, n: &'a Node, prefix: &Vec<usize>, p: &Position, best: Option<(&'a Node, Vec<usize>)>)
    -> (r: (&'a Node, Vec<usize>))
    requires
        node_wf(*n),
        range_contains_point(n.range, *p),
        descend(root, ix(prefix@)) == Some(*n),
        best matches Some(b) ==> range_contains_point(b.0.range, *p) && descend(root, ix(b.1@)) == Some(*b.0),
    ensures
        range_contains_point(r.0.range, *p),
        descend(root, ix(r.1@)) == Some(*r.0),
        in_tree(*n, *r.0) || (best matches Some(b) && *r.0 == *b.0),
        best matches Some(b) ==> at_least_as_specific(*r.0, *b.0),
        forall|o: Node| in_tree(*n, o) && range_contains_point(o.range, *p) ==> at_least_as_specific(*r.0, o),
    decreases n,
{
    let mut cand: (&Node, Vec<usize>) = match best {
        Some(b) => if more_specific(b.0, n) { b } else { (n, copied(prefix)) },
        None => (n, copied(prefix)),
    };
    proof { lemma_in_tree_self(*n); }
    let mut i: usize = 0;
    while i < n.children.len()
        invariant
            node_wf(*n),
            descend(root, ix(prefix@)) == Some(*n),
            range_contains_point(cand.0.range, *p),
            descend(root, ix(cand.1@)) == Some(*cand.0),
            in_tree(*n, *cand.0) || (best matches Some(b) && *cand.0 == *b.0),
            best matches Some(b) ==> at_least_as_specific(*cand.0, *b.0),
            at_least_as_specific(*cand.0, *n),
            i <= n.children.len(),
            forall|j: int, o: Node| 0 <= j < i && #[trigger] in_tree(n.children@[j], o) && range_contains_point(o.range, *p)
                ==> at_least_as_specific(*cand.0, o),
        decreases n.children.len() - i,
    {
        let c = &n.children[i];
        assert(child_ok(n.node_type, n.path@, n.range, n.children@[i as int], i as int));
        if c.range.contains(p) {
            let ghost prev = *cand.0;
            let child_prefix = extended(prefix, i);
            proof {
                lemma_descend_push(root, ix(prefix@), *n, i as int);
                assert(ix(child_prefix@) =~= ix(prefix@).push(i as int));
            }
            let r = best_in(Ghost(root), c, &child_prefix, p, Some(cand));
            proof {
                if in_tree(*c, *r.0) {
                    lemma_in_tree_from_child(*n, i as int, *r.0);
                }
            }
            cand = r;
            assert(at_least_as_specific(*cand.0, prev));
        } else {
            assert forall|o: Node| in_tree(*c, o) implies !range_contains_point(o.range, *p) by {
                lemma_in_tree_wf(*c, o);
            }
        }
        i = i + 1;
    }
    assert forall|o: Node| in_tree(*n, o) && range_contains_point(o.range, *p) implies at_least_as_specific(*cand.0, o) by {
        lemma_in_tree_cases(*n, o);
    }
    cand
}

/// The most specific node of the tree that holds the point, if any does,
/// with the child indices that lead to it from the root.
pub fn node_at<'a>(root: &'a Node, p: &Position) -> (r: Option<(&'a Node, Vec<usize>)>)
    requires
        node_wf(*root),
    ensures
        r matches Some(m) ==> most_specific(*root, *m.0, *p) && descend(*root, ix(m.1@)) == Some(*m.0),
        r is None ==> forall|o: Node| in_tree(*root, o) ==> !range_contains_point(o.range, *p),
{
    if root.range.contains(p) {
        let start: Vec<usize> = Vec::new();
        assert(ix(start@) =~= Seq::<int>::empty());
        Some(best_in(Ghost(*root), root, &start, p, None))
    } else {
        assert forall|o: Node| in_tree(*root, o) implies !range_contains_point(o.range, *p) by {
            lemma_in_tree_wf(*root, o);
        }
        None
    }
}

} // verus!

verus! {

/// The paths of the nodes met on the way from `root` along `idx`, `root`
/// left out.
pub open spec fn chain_paths(root: Node, idx: Seq<int>) -> Seq<Seq<char>> {
    Seq::new(idx.len(), |k: int| descend(root, idx.take(k + 1))->0.path@)
}

/// The strings of `v` as character sequences.
pub open spec fn strings_view(v: Seq<String>) -> Seq<Seq<char>> {
    v.map_values(|s: String| s@)
}

} // verus!

verus! {

/// The node queries of a document answer on its last parsed tree.
impl Document {
    /// The path of the most specific node at the position: the node of
    /// smallest area that holds it, the longest path among equals.
    pub fn node_at_position(&self, line: u32, character: u32) -> (r: Option<String>)
        requires
            self.wf(),
        ensures
            r is None ==> (self.root matches Some(t) ==> forall|o: Node|
                in_tree(t, o) ==> !range_contains_point(o.range, Position { line, character })),
            r matches Some(s) ==> (self.root matches Some(t) && exists|m: Node|
                most_specific(t, m, Position { line, character }) && #[trigger] m.path@ == s@),
    {
        let p = Position { line, character };
        match &self.root {
            None => None,
            Some(t) => match node_at(t, &p) {
                None => None,
                Some((m, _)) => {
                    let s = m.path.clone();
                    assert(most_specific(*t, *m, p) && m.path@ == s@);
                    Some(s)
                },
            },
        }
    }

    /// The paths of the nodes from the root down to the most specific node
    /// at the position, the root left out; empty when no node holds the
    /// position.
    pub fn context_at_position(&self, line: u32, character: u32) -> (r: Vec<String>)
        requires
            self.wf(),
        ensures
            (match self.root {
                None => true,
                Some(t) => forall|o: Node| in_tree(t, o) ==> !range_contains_point(o.range, Position { line, character }),
            }) ==> r.len() == 0,
            (self.root matches Some(t) && exists|o: Node| in_tree(t, o) && range_contains_point(o.range, Position { line, character }))
                ==> exists|idx: Seq<int>| #[trigger] descend(self.root->0, idx) is Some
                && most_specific(self.root->0, descend(self.root->0, idx)->0, Position { line, character })
                && strings_view(r@) == chain_paths(self.root->0, idx),
    {
        let p = Position { line, character };
        match &self.root {
            None => Vec::new(),
            Some(t) => match node_at(t, &p) {
                None => Vec::new(),
                Some((m, idx)) => {
                    let ghost s = ix(idx@);
                    let mut out: Vec<String> = Vec::new();
                    let mut cur: &Node = t;
                    let mut k: usize = 0;
                    assert(s.take(0) =~= Seq::<int>::empty());
                    assert(strings_view(out@) =~= chain_paths(*t, s).take(0));
                    while k < idx.len()
                        invariant
                            k <= idx.len(),
                            s == ix(idx@),
                            descend(*t, s) == Some(*m),
                            descend(*t, s.take(k as int)) == Some(*cur),
                            strings_view(out@) == chain_paths(*t, s).take(k as int),
                        decreases idx.len() - k,
                    {
                        proof { lemma_descend_prefix(*t, s, k as int); }
                        assert(s[k as int] == idx@[k as int] as int);
                        let c = &cur.children[idx[k]];
                        let ghost before = out@;
                        out.push(c.path.clone());
                        assert(strings_view(out@) =~= strings_view(before).push(c.path@));
                        assert(chain_paths(*t, s).take(k + 1) =~= chain_paths(*t, s).take(k as int).push(c.path@));
                        cur = c;
                        k = k + 1;
                    }
                    assert(s.len() == idx.len());
                    assert(chain_paths(*t, s).take(k as int) =~= chain_paths(*t, s));
                    assert(descend(*t, s) is Some);
                    out
                },
            },
        }
    }
}

} // verus!
