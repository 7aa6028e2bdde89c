use vstd::prelude::*;

verus! {

/// Why a change to the scene graph was refused.
#[derive(Debug, Clone, Copy, PartialEq, Eq, Structural)]
pub enum SceneError {
    /// A node index that the graph does not hold.
    UnknownNode,
    /// The new parent is the node itself or one of its descendants.
    Cycle,
}

/// Every parent link names a node of the graph.
pub open spec fn links_in_range(p: Seq<Option<usize>>) -> bool {
    forall|i: int| 0 <= i < p.len() && #[trigger] p[i] is Some ==> (p[i].unwrap() as int) < p.len()
}

/// Walking up the parent links from `i`, a root is met within `fuel` steps.
pub open spec fn reaches_root(p: Seq<Option<usize>>, i: int, fuel: nat) -> bool
    decreases fuel,
{
    if fuel == 0 || !(0 <= i < p.len()) {
        false
    } else {
        match p[i] {
            None => true,
            Some(q) => reaches_root(p, q as int, (fuel - 1) as nat),
        }
    }
}

/// Walking up the parent links from `i`, node `a` is met within `fuel` steps
/// (`i` itself counts).
pub open spec fn climbs_to(p: Seq<Option<usize>>, i: int, a: int, fuel: nat) -> bool
    decreases fuel,
{
    if fuel == 0 {
        false
    } else if i == a {
        true
    } else if !(0 <= i < p.len()) {
        false
    } else {
        match p[i] {
            None => false,
            Some(q) => climbs_to(p, q as int, a, (fuel - 1) as nat),
        }
    }
}

/// Node `i` has a root above it (or is one).
pub open spec fn has_root(p: Seq<Option<usize>>, i: int) -> bool {
    exists|f: nat| reaches_root(p, i, f)
}

/// `a` is `i` itself or one of its ancestors.
pub open spec fn is_ancestor_or_self(p: Seq<Option<usize>>, a: int, i: int) -> bool {
    exists|f: nat| climbs_to(p, i, a, f)
}

/// The parent links form a forest: they stay in range and hold no cycle.
pub open spec fn forest(p: Seq<Option<usize>>) -> bool {
    &&& links_in_range(p)
    &&& forall|i: int| 0 <= i < p.len() ==> #[trigger] has_root(p, i)
}

/// `c` lists the ancestors of `node` from its root down to `node` itself,
/// each entry the parent of the next.
pub open spec fn is_chain_to(p: Seq<Option<usize>>, c: Seq<usize>, node: int) -> bool {
    &&& c.len() >= 1
    &&& c.last() as int == node
    &&& forall|k: int| 0 <= k < c.len() ==> (#[trigger] c[k] as int) < p.len()
    &&& p[c[0] as int] is None
    &&& forall|k: int| 1 <= k < c.len() ==> p[#[trigger] c[k] as int] == Some(c[k - 1])
}

/// Why linking `node` to `parent` is refused, if it is: an index out of
/// range, or a parent that is `node` itself or one of its descendants.
pub open spec fn refusal(p: Seq<Option<usize>>, node: usize, parent: Option<usize>) -> Option<SceneError> {
    if node >= p.len() || (parent is Some && parent.unwrap() >= p.len()) {
        Some(SceneError::UnknownNode)
    } else if parent is Some && is_ancestor_or_self(p, node as int, parent.unwrap() as int) {
        Some(SceneError::Cycle)
    } else {
        None
    }
}

/// `s` is strictly increasing.
pub open spec fn increasing(s: Seq<usize>) -> bool {
    forall|j: int, k: int| 0 <= j < k < s.len() ==> s[j] < s[k]
}

proof fn lemma_reaches_root_mono(p: Seq<Option<usize>>, i: int, f: nat, g: nat)
    requires
        reaches_root(p, i, f),
        f <= g,
    ensures
        reaches_root(p, i, g),
    decreases f,
{
    if let Some(q) = p[i] {
        lemma_reaches_root_mono(p, q as int, (f - 1) as nat, (g - 1) as nat);
    }
}

proof fn lemma_reaches_root_push(p: Seq<Option<usize>>, x: Option<usize>, i: int, f: nat)
    requires
        reaches_root(p, i, f),
    ensures
        reaches_root(p.push(x), i, f),
    decreases f,
{
    assert(p.push(x)[i] == p[i]);
    if let Some(q) = p[i] {
        lemma_reaches_root_push(p, x, q as int, (f - 1) as nat);
    }
}

/// One step up: for `i` other than `a`, `a` is above `i` exactly when it is
/// above (or is) the parent of `i`.
proof fn lemma_ancestor_step(p: Seq<Option<usize>>, a: int, i: int, q: usize)
    requires
        0 <= i < p.len(),
        i != a,
        p[i] == Some(q),
    ensures
        is_ancestor_or_self(p, a, i) == is_ancestor_or_self(p, a, q as int),
{
    if is_ancestor_or_self(p, a, i) {
        let f = choose|f: nat| climbs_to(p, i, a, f);
        assert(climbs_to(p, q as int, a, (f - 1) as nat));
    }
    if is_ancestor_or_self(p, a, q as int) {
        let f = choose|f: nat| climbs_to(p, q as int, a, f);
        assert(climbs_to(p, i, a, f + 1));
    }
}

/// A path up from `i` that never meets `node` is untouched by relinking `node`.
proof fn lemma_path_avoids(p: Seq<Option<usize>>, node: int, np: Option<usize>, i: int, f: nat)
    requires
        0 <= node < p.len(),
        reaches_root(p, i, f),
        !climbs_to(p, i, node, f),
    ensures
        reaches_root(p.update(node, np), i, f),
    decreases f,
{
    assert(p.update(node, np)[i] == p[i]);
    if let Some(q) = p[i] {
        lemma_path_avoids(p, node, np, q as int, (f - 1) as nat);
    }
}

/// After `node` is relinked to a parent that reaches a root, every node that
/// reached a root still does.
proof fn lemma_relink(p: Seq<Option<usize>>, node: int, np: Option<usize>, i: int, f: nat, g: nat)
    requires
        0 <= node < p.len(),
        reaches_root(p, i, f),
        np is Some ==> reaches_root(p.update(node, np), np.unwrap() as int, g),
    ensures
        reaches_root(p.update(node, np), i, f + g + 1),
    decreases f,
{
    let p2 = p.update(node, np);
    if i == node {
        if let Some(q) = np {
            lemma_reaches_root_mono(p2, q as int, g, f + g);
        }
    } else {
        assert(p2[i] == p[i]);
        if let Some(q) = p[i] {
            lemma_relink(p, node, np, q as int, (f - 1) as nat, g);
        }
    }
}

/// A node without a parent is its own whole chain: its global transform is
/// its local transform.
pub proof fn lemma_root_chain(p: Seq<Option<usize>>, c: Seq<usize>, node: int)
    requires
        0 <= node < p.len(),
        p[node] is None,
        is_chain_to(p, c, node),
    ensures
        c == seq![node as usize],
{
    if c.len() > 1 {
        assert(p[c[c.len() - 1] as int] == Some(c[c.len() - 2]));
    }
    assert(c =~= seq![node as usize]);
}

/// The chain from the root down to a node is unique: any sequence of nodes
/// that starts at a root and in which each entry is the parent of the next
/// is the chain of its last node, so the product of local transforms along it
/// is determined by the node alone.
pub proof fn lemma_chain_unique(p: Seq<Option<usize>>, c1: Seq<usize>, c2: Seq<usize>, node: int)
    requires
        is_chain_to(p, c1, node),
        is_chain_to(p, c2, node),
    ensures
        c1 == c2,
    decreases c1.len(),
{
    if c1.len() == 1 {
        if c2.len() > 1 {
            assert(p[c2[c2.len() - 1] as int] == Some(c2[c2.len() - 2]));
        }
        assert(c1 =~= c2);
    } else {
        assert(p[c1[c1.len() - 1] as int] == Some(c1[c1.len() - 2]));
        if c2.len() == 1 {
            assert(false);
        } else {
            assert(p[c2[c2.len() - 1] as int] == Some(c2[c2.len() - 2]));
            let d1 = c1.drop_last();
            let d2 = c2.drop_last();
            assert forall|k: int| 0 <= k < d1.len() implies (#[trigger] d1[k] as int) < p.len() && (
            k >= 1 ==> p[d1[k] as int] == Some(d1[k - 1])) by {
                assert(d1[k] == c1[k]);
            }
            assert forall|k: int| 0 <= k < d2.len() implies (#[trigger] d2[k] as int) < p.len() && (
            k >= 1 ==> p[d2[k] as int] == Some(d2[k - 1])) by {
                assert(d2[k] == c2[k]);
            }
            lemma_chain_unique(p, d1, d2, c1[c1.len() - 2] as int);
            assert(c1 =~= d1.push(c1.last()));
            assert(c2 =~= d2.push(c2.last()));
        }
    }
}

/// The parent/child structure of the transform nodes, held as an arena:
/// node `i` is addressed by its index and stores the index of its parent.
pub struct SceneGraph {
    parents: Vec<Option<usize>>,
}

impl View for SceneGraph {
    type V = Seq<Option<usize>>;

    closed spec fn view(&self) -> Seq<Option<usize>> {
        self.parents@
    }
}

impl SceneGraph {
    /// The graph's invariant: its links form a forest.
    pub open spec fn wf(&self) -> bool {
        forest(self@)
    }

    /// An empty graph.
    pub fn new() -> (r: SceneGraph)
        ensures
            r.wf(),
            r@ == Seq::<Option<usize>>::empty(),
    {
        SceneGraph { parents: Vec::new() }
    }

    /// The number of nodes.
    pub fn len(&self) -> (r: usize)
        ensures
            r == self@.len(),
    {
        self.parents.len()
    }

    /// Adds a node with no parent and returns its index.
    pub fn add_node(&mut self) -> (r: usize)
        requires
            old(self).wf(),
            old(self)@.len() < usize::MAX,
        ensures
            final(self).wf(),
            r == old(self)@.len(),
            final(self)@ == old(self)@.push(None),
    {
        let r = self.parents.len();
        proof {
            let p = self.parents@;
            assert forall|i: int| 0 <= i < p.len() + 1 implies #[trigger] has_root(p.push(None), i) by {
                if i < p.len() {
                    assert(has_root(p, i));
                    let f = choose|f: nat| reaches_root(p, i, f);
                    lemma_reaches_root_push(p, None, i, f);
                } else {
                    assert(reaches_root(p.push(None), i, 1));
                }
            }
            assert forall|i: int| 0 <= i < p.len() + 1 && #[trigger] p.push(None)[i] is Some implies
                (p.push(None)[i].unwrap() as int) < p.len() + 1 by {
                assert(p[i] is Some);
            }
        }
        self.parents.push(None);
        r
    }

    /// The parent of `node`, or `None` for a root or an index out of range.
    pub fn parent(&self, node: usize) -> (r: Option<usize>)
        ensures
            r == if node < self@.len() { self@[node as int] } else { None },
    {
        if node < self.parents.len() {
            self.parents[node]
        } else {
            None
        }
    }

    /// Whether `a` is `i` itself or one of its ancestors.
    pub fn has_ancestor_or_self(&self, i: usize, a: usize) -> (r: bool)
        requires
            self.wf(),
        ensures
            r == is_ancestor_or_self(self@, a as int, i as int),
    {
        let ghost p = self@;
        if i >= self.parents.len() {
            if i == a {
                assert(climbs_to(p, i as int, a as int, 1));
                return true;
            }
            assert forall|f: nat| !climbs_to(p, i as int, a as int, f) by {}
            return false;
        }
        assert(has_root(p, i as int));
        let ghost mut fuel: nat = choose|f: nat| reaches_root(p, i as int, f);
        let mut cur = i;
        loop
            invariant
                self.wf(),
                p == self@,
                cur < p.len(),
                reaches_root(p, cur as int, fuel),
                is_ancestor_or_self(p, a as int, i as int) == is_ancestor_or_self(
                    p,
                    a as int,
                    cur as int,
                ),
            decreases fuel,
        {
            if cur == a {
                assert(climbs_to(p, cur as int, a as int, 1));
                return true;
            }
            match self.parents[cur] {
                None => {
                    assert forall|f: nat| !climbs_to(p, cur as int, a as int, f) by {}
                    return false;
                },
                Some(q) => {
                    proof {
                        lemma_ancestor_step(p, a as int, cur as int, q);
                        fuel = (fuel - 1) as nat;
                    }
                    cur = q;
                },
            }
        }
    }

    /// Sets or clears the parent of `node`. Refuses an index out of range,
    /// and a parent that is `node` itself or lies below it, leaving the graph
    /// unchanged.
    pub fn set_parent(&mut self, node: usize, parent: Option<usize>) -> (r: Result<(), SceneError>)
        requires
            old(self).wf(),
        ensures
            final(self).wf(),
            r == match refusal(old(self)@, node, parent) {
                Some(e) => Err(e),
                None => Ok(()),
            },
            r is Ok ==> final(self)@ == old(self)@.update(node as int, parent),
            r is Err ==> final(self)@ == old(self)@,
    {
        let n = self.parents.len();
        if node >= n {
            return Err(SceneError::UnknownNode);
        }
        let ghost p = self@;
        let ghost p2 = p.update(node as int, parent);
        let ghost mut g: nat = 0;
        match parent {
            Some(q) => {
                if q >= n {
                    return Err(SceneError::UnknownNode);
                }
                if self.has_ancestor_or_self(q, node) {
                    return Err(SceneError::Cycle);
                }
                proof {
                    assert(has_root(p, q as int));
                    let fq = choose|f: nat| reaches_root(p, q as int, f);
                    lemma_path_avoids(p, node as int, parent, q as int, fq);
                    g = fq;
                }
            },
            None => {},
        }
        proof {
            assert forall|i: int| 0 <= i < p2.len() implies #[trigger] has_root(p2, i) by {
                assert(has_root(p, i));
                let f = choose|f: nat| reaches_root(p, i, f);
                lemma_relink(p, node as int, parent, i, f, g);
            }
            assert forall|i: int| 0 <= i < p2.len() && #[trigger] p2[i] is Some implies (
            p2[i].unwrap() as int) < p2.len() by {
                if i != node {
                    assert(p[i] is Some);
                }
            }
        }
        self.parents.set(node, parent);
        Ok(())
    }

    /// The chain of nodes from the root above `node` down to `node` itself;
    /// empty for an index out of range.
    pub fn ancestor_chain(&self, node: usize) -> (r: Vec<usize>)
        requires
            self.wf(),
        ensures
            node < self@.len() ==> is_chain_to(self@, r@, node as int),
            node >= self@.len() ==> r@.len() == 0,
    {
        if node >= self.parents.len() {
            return Vec::new();
        }
        let ghost p = self@;
        assert(has_root(p, node as int));
        let ghost mut fuel: nat = choose|f: nat| reaches_root(p, node as int, f);
        let mut out: Vec<usize> = Vec::new();
        out.push(node);
        let mut cur = node;
        loop
            invariant
                self.wf(),
                p == self@,
                cur < p.len(),
                reaches_root(p, cur as int, fuel),
                out@.len() >= 1,
                out@[0] == cur,
                out@.last() == node,
                forall|k: int| 0 <= k < out@.len() ==> (#[trigger] out@[k] as int) < p.len(),
                forall|k: int| 1 <= k < out@.len() ==> p[#[trigger] out@[k] as int] == Some(out@[k - 1]),
            decreases fuel,
        {
            match self.parents[cur] {
                None => {
                    return out;
                },
                Some(q) => {
                    let ghost before = out@;
                    out.insert(0, q);
                    assert forall|k: int| 0 <= k < out@.len() implies (#[trigger] out@[k] as int) < p.len()
                        && (k >= 1 ==> p[out@[k] as int] == Some(out@[k - 1])) by {
                        if k > 0 {
                            assert(out@[k] == before[k - 1]);
                        }
                        if k > 1 {
                            assert(out@[k - 1] == before[k - 2]);
                        }
                    }
                    proof {
                        fuel = (fuel - 1) as nat;
                    }
                    cur = q;
                },
            }
        }
    }

    /// The nodes whose global transform depends on that of `node`: `node`
    /// itself and all its descendants, in increasing index order (none for
    /// an index out of range).
    pub fn subtree(&self, node: usize) -> (r: Vec<usize>)
        requires
            self.wf(),
        ensures
            increasing(r@),
            forall|k: int|
                0 <= k < r@.len() ==> (#[trigger] r@[k] as int) < self@.len() && is_ancestor_or_self(
                    self@,
                    node as int,
                    r@[k] as int,
                ),
            forall|x: int|
                0 <= x < self@.len() && #[trigger] is_ancestor_or_self(self@, node as int, x)
                    ==> r@.contains(x as usize),
    {
        let n = self.parents.len();
        let mut out: Vec<usize> = Vec::new();
        let mut i: usize = 0;
        while i < n
            invariant
                self.wf(),
                n == self@.len(),
                i <= n,
                increasing(out@),
                forall|k: int|
                    0 <= k < out@.len() ==> (#[trigger] out@[k]) < i && is_ancestor_or_self(
                        self@,
                        node as int,
                        out@[k] as int,
                    ),
                forall|x: int|
                    0 <= x < i && #[trigger] is_ancestor_or_self(self@, node as int, x)
                        ==> out@.contains(x as usize),
            decreases n - i,
        {
            let ghost before = out@;
            if self.has_ancestor_or_self(i, node) {
                out.push(i);
                assert(out@[out@.len() - 1] == i);
            }
            proof {
                assert forall|x: int|
                    0 <= x < i + 1 && #[trigger] is_ancestor_or_self(self@, node as int, x)
                        implies out@.contains(x as usize) by {
                    if x == i {
                        assert(out@[out@.len() - 1] == i);
                    } else {
                        let k = choose|k: int| 0 <= k < before.len() && before[k] == x as usize;
                        assert(out@[k] == x as usize);
                    }
                }
            }
            i += 1;
        }
        out
    }

    /// The nodes whose parent is `node`, in increasing index order.
    pub fn children(&self, node: usize) -> (r: Vec<usize>)
        ensures
            increasing(r@),
            forall|k: int|
                0 <= k < r@.len() ==> (#[trigger] r@[k] as int) < self@.len() && self@[r@[k] as int]
                    == Some(node),
            forall|x: int|
                0 <= x < self@.len() && #[trigger] self@[x] == Some(node) ==> r@.contains(x as usize),
    {
        let n = self.parents.len();
        let mut out: Vec<usize> = Vec::new();
        let mut i: usize = 0;
        while i < n
            invariant
                n == self@.len(),
                i <= n,
                increasing(out@),
                forall|k: int|
                    0 <= k < out@.len() ==> (#[trigger] out@[k]) < i && self@[out@[k] as int] == Some(
                        node,
                    ),
                forall|x: int| 0 <= x < i && #[trigger] self@[x] == Some(node) ==> out@.contains(x as usize),
            decreases n - i,
        {
            let ghost before = out@;
            if self.parents[i] == Some(node) {
                out.push(i);
                assert(out@[out@.len() - 1] == i);
            }
            proof {
                assert forall|x: int| 0 <= x < i + 1 && #[trigger] self@[x] == Some(node) implies out@.contains(
                    x as usize,
                ) by {
                    if x == i {
                        assert(out@[out@.len() - 1] == i);
                    } else {
                        let k = choose|k: int| 0 <= k < before.len() && before[k] == x as usize;
                        assert(out@[k] == x as usize);
                    }
                }
            }
            i += 1;
        }
        out
    }
}

} // verus!
