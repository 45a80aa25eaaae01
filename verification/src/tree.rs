use vstd::prelude::*;

verus! {

/// A rooted tree of states, given by two arrays indexed by state number.
///
/// Node 0 is the root. Every other node's parent has a strictly smaller
/// index, so the parent relation is acyclic by construction. `child`
/// holds each composite node's designated default child; a leaf holds
/// its own index there.
pub open spec fn tree_wf(parent: Seq<usize>, child: Seq<usize>) -> bool {
    &&& parent.len() == child.len()
    &&& 1 <= parent.len()
    &&& parent[0] == 0
    &&& forall|i: int| 1 <= i < parent.len() ==> (#[trigger] parent[i]) < i
    &&& forall|i: int| 0 <= i < child.len() ==> ((#[trigger] child[i]) == i
            || (i < child[i] && child[i] < child.len() && parent[child[i] as int] == i))
}

/// `a` is `s` itself or lies on the parent path from `s` towards the root.
pub open spec fn is_ancestor(parent: Seq<usize>, a: int, s: int) -> bool
    decreases s,
{
    if s == a {
        true
    } else if 0 < s < parent.len() && parent[s] < s {
        is_ancestor(parent, a, parent[s] as int)
    } else {
        false
    }
}

/// The states from `from` up to, and excluding, `stop`, innermost first.
/// If `stop` is not an ancestor of `from` the climb ends at the root.
pub open spec fn chain_between(parent: Seq<usize>, from: int, stop: int) -> Seq<int>
    decreases from,
{
    if from == stop {
        Seq::empty()
    } else if 0 < from < parent.len() && parent[from] < from {
        seq![from] + chain_between(parent, parent[from] as int, stop)
    } else {
        Seq::empty()
    }
}

/// The default-child chain below `s`, outermost first, excluding `s` itself.
pub open spec fn descend_chain(child: Seq<usize>, s: int) -> Seq<int>
    decreases child.len() - s,
{
    if 0 <= s < child.len() && s < child[s] && child[s] < child.len() {
        seq![child[s] as int] + descend_chain(child, child[s] as int)
    } else {
        Seq::empty()
    }
}

/// The leaf reached from `s` by following default children; `s` itself if it is a leaf.
pub open spec fn default_leaf(child: Seq<usize>, s: int) -> int
    decreases child.len() - s,
{
    if 0 <= s < child.len() && s < child[s] && child[s] < child.len() {
        default_leaf(child, child[s] as int)
    } else {
        s
    }
}

/// The least common ancestor of `a` and `b`: because every parent index is
/// smaller than its child's, repeatedly lifting the larger of the two meets
/// at the innermost common ancestor.
pub open spec fn lca(parent: Seq<usize>, a: int, b: int) -> int
    decreases a + b,
{
    if a == b {
        a
    } else if 0 <= b && b < a && a < parent.len() && parent[a] < a {
        lca(parent, parent[a] as int, b)
    } else if 0 <= a && a < b && b < parent.len() && parent[b] < b {
        lca(parent, a, parent[b] as int)
    } else {
        0
    }
}

/// The node below which the exit and entry chains of a transition stop:
/// for a self-transition the parent of its source state (the source is
/// exited and re-entered), otherwise the least common ancestor of source
/// and target.
pub open spec fn boundary(parent: Seq<usize>, src: int, tgt: int) -> int {
    if src == tgt {
        if 0 <= src < parent.len() {
            parent[src] as int
        } else {
            0
        }
    } else {
        lca(parent, src, tgt)
    }
}

/// The states entered by a transition, outermost first: down from the child
/// of `stop` to `tgt`, then on along default children to a leaf.
pub open spec fn entry_chain(parent: Seq<usize>, child: Seq<usize>, stop: int, tgt: int) -> Seq<
    int,
> {
    chain_between(parent, tgt, stop).reverse() + descend_chain(child, tgt)
}

pub open spec fn as_ints(s: Seq<usize>) -> Seq<int> {
    s.map_values(|x: usize| x as int)
}

/// The state hierarchy, fixed at construction: for every node its parent and
/// its default child (itself, for a leaf).
pub struct StateTree {
    parent: Vec<usize>,
    default_child: Vec<usize>,
}

impl StateTree {
    pub closed spec fn parents(&self) -> Seq<usize> {
        self.parent@
    }

    pub closed spec fn children(&self) -> Seq<usize> {
        self.default_child@
    }

    pub open spec fn wf(&self) -> bool {
        tree_wf(self.parents(), self.children())
    }

    pub fn new(parent: Vec<usize>, default_child: Vec<usize>) -> (t: Self)
        ensures
            t.parents() == parent@,
            t.children() == default_child@,
    {
        StateTree { parent, default_child }
    }

    /// The default child of the root, the outermost real state entered on start.
    pub fn root_child(&self) -> (c: usize)
        requires
            self.wf(),
        ensures
            c == self.children()[0],
            c < self.parents().len(),
    {
        self.default_child[0]
    }

    /// Climbs both nodes towards the root until they meet.
    pub fn lca_of(&self, a: usize, b: usize) -> (r: usize)
        requires
            self.wf(),
            a < self.parents().len(),
            b < self.parents().len(),
        ensures
            r as int == lca(self.parents(), a as int, b as int),
            r < self.parents().len(),
    {
        let mut x = a;
        let mut y = b;
        while x != y
            invariant
                self.wf(),
                x < self.parents().len(),
                y < self.parents().len(),
                lca(self.parents(), x as int, y as int) == lca(
                    self.parents(),
                    a as int,
                    b as int,
                ),
            decreases x + y,
        {
            if x > y {
                x = self.parent[x];
            } else {
                y = self.parent[y];
            }
        }
        x
    }

    pub fn boundary_of(&self, src: usize, tgt: usize) -> (r: usize)
        requires
            self.wf(),
            src < self.parents().len(),
            tgt < self.parents().len(),
        ensures
            r as int == boundary(self.parents(), src as int, tgt as int),
            r < self.parents().len(),
    {
        if src == tgt {
            let p = self.parent[src];
            assert(src as int >= 1 ==> p < src);
            p
        } else {
            self.lca_of(src, tgt)
        }
    }

    /// The states exited when moving from `from` up to `stop`, innermost first.
    pub fn exit_chain(&self, from: usize, stop: usize) -> (v: Vec<usize>)
        requires
            self.wf(),
            from < self.parents().len(),
        ensures
            as_ints(v@) == chain_between(self.parents(), from as int, stop as int),
            forall|i: int| 0 <= i < v@.len() ==> (#[trigger] v@[i]) < self.parents().len(),
    {
        let mut v: Vec<usize> = Vec::new();
        let mut x = from;
        assert(as_ints(v@) + chain_between(self.parents(), from as int, stop as int)
            =~= chain_between(self.parents(), from as int, stop as int));
        while x != stop && x != 0
            invariant
                self.wf(),
                x < self.parents().len(),
                forall|i: int| 0 <= i < v@.len() ==> (#[trigger] v@[i]) < self.parents().len(),
                as_ints(v@) + chain_between(self.parents(), x as int, stop as int)
                    == chain_between(self.parents(), from as int, stop as int),
            decreases x,
        {
            let ghost pre = v@;
            let ghost xi = x as int;
            v.push(x);
            assert(as_ints(v@) =~= as_ints(pre).push(xi));
            x = self.parent[x];
            assert(chain_between(self.parents(), xi, stop as int) == seq![xi] + chain_between(
                self.parents(),
                x as int,
                stop as int,
            ));
            assert(as_ints(v@) + chain_between(self.parents(), x as int, stop as int)
                =~= as_ints(pre) + chain_between(self.parents(), xi, stop as int));
        }
        assert(chain_between(self.parents(), x as int, stop as int) =~= Seq::<int>::empty());
        assert(as_ints(v@) =~= as_ints(v@) + Seq::<int>::empty());
        v
    }

    /// The leaf reached from `s` by following default children.
    pub fn leaf_under(&self, s: usize) -> (r: usize)
        requires
            self.wf(),
            s < self.parents().len(),
        ensures
            r as int == default_leaf(self.children(), s as int),
            r < self.parents().len(),
    {
        let mut x = s;
        while self.default_child[x] != x
            invariant
                self.wf(),
                x < self.parents().len(),
                default_leaf(self.children(), x as int) == default_leaf(
                    self.children(),
                    s as int,
                ),
            decreases self.parents().len() - x,
        {
            x = self.default_child[x];
        }
        x
    }

    /// The states entered when a transition crosses down from `stop` to `tgt`
    /// and then follows default children to a leaf, outermost first.
    pub fn entry_chain_of(&self, stop: usize, tgt: usize) -> (v: Vec<usize>)
        requires
            self.wf(),
            tgt < self.parents().len(),
        ensures
            as_ints(v@) == entry_chain(self.parents(), self.children(), stop as int, tgt as int),
            forall|i: int| 0 <= i < v@.len() ==> (#[trigger] v@[i]) < self.parents().len(),
    {
        let up = self.exit_chain(tgt, stop);
        let ghost climb = chain_between(self.parents(), tgt as int, stop as int);
        let mut v: Vec<usize> = Vec::new();
        let mut i = up.len();
        assert(as_ints(v@) =~= climb.reverse().take(0));
        while i > 0
            invariant
                up@.len() == climb.len(),
                as_ints(up@) == climb,
                forall|j: int| 0 <= j < up@.len() ==> (#[trigger] up@[j]) < self.parents().len(),
                i <= up@.len(),
                forall|j: int| 0 <= j < v@.len() ==> (#[trigger] v@[j]) < self.parents().len(),
                as_ints(v@) == climb.reverse().take(up@.len() - i),
            decreases i,
        {
            let ghost pre = v@;
            i = i - 1;
            v.push(up[i]);
            assert(as_ints(v@) =~= as_ints(pre).push(up@[i as int] as int));
            assert(climb.reverse()[up@.len() - i - 1] == climb[i as int]);
            assert(up@[i as int] as int == climb[i as int]);
            assert(as_ints(v@) =~= climb.reverse().take(up@.len() - i));
        }
        assert(climb.reverse().take(climb.len() as int) =~= climb.reverse());
        let ghost down0 = as_ints(v@);
        let mut x = tgt;
        assert(as_ints(v@) + descend_chain(self.children(), tgt as int) =~= down0 + descend_chain(
            self.children(),
            x as int,
        ));
        while self.default_child[x] != x
            invariant
                self.wf(),
                x < self.parents().len(),
                forall|j: int| 0 <= j < v@.len() ==> (#[trigger] v@[j]) < self.parents().len(),
                down0 == climb.reverse(),
                as_ints(v@) + descend_chain(self.children(), x as int) == down0 + descend_chain(
                    self.children(),
                    tgt as int,
                ),
            decreases self.parents().len() - x,
        {
            let ghost pre = v@;
            let ghost xi = x as int;
            x = self.default_child[x];
            v.push(x);
            assert(as_ints(v@) =~= as_ints(pre).push(x as int));
            assert(descend_chain(self.children(), xi) == seq![x as int] + descend_chain(
                self.children(),
                x as int,
            ));
            assert(as_ints(v@) + descend_chain(self.children(), x as int) =~= as_ints(pre)
                + descend_chain(self.children(), xi));
        }
        assert(descend_chain(self.children(), x as int) =~= Seq::<int>::empty());
        assert(as_ints(v@) =~= as_ints(v@) + Seq::<int>::empty());
        v
    }
}

/// Being an ancestor is transitive.
pub proof fn lemma_ancestor_transitive(parent: Seq<usize>, a: int, b: int, c: int)
    requires
        is_ancestor(parent, a, b),
        is_ancestor(parent, b, c),
    ensures
        is_ancestor(parent, a, c),
    decreases c,
{
    if c != b {
        lemma_ancestor_transitive(parent, a, b, parent[c] as int);
    }
}

/// The meeting point of the index-climbing walk is a common ancestor of both
/// nodes — it is the boundary every transition's exit and entry chains stop
/// below.
pub proof fn lemma_lca_common_ancestor(parent: Seq<usize>, a: int, b: int)
    requires
        1 <= parent.len(),
        parent[0] == 0,
        forall|i: int| 1 <= i < parent.len() ==> (#[trigger] parent[i]) < i,
        0 <= a < parent.len(),
        0 <= b < parent.len(),
    ensures
        is_ancestor(parent, lca(parent, a, b), a),
        is_ancestor(parent, lca(parent, a, b), b),
    decreases a + b,
{
    if a == b {
    } else if b < a {
        lemma_lca_common_ancestor(parent, parent[a] as int, b);
    } else {
        lemma_lca_common_ancestor(parent, a, parent[b] as int);
    }
}

/// Ancestors never have larger indices than their descendants.
pub proof fn lemma_ancestor_index(parent: Seq<usize>, a: int, s: int)
    requires
        is_ancestor(parent, a, s),
    ensures
        a <= s,
    decreases s,
{
    if s != a {
        lemma_ancestor_index(parent, a, parent[s] as int);
    }
}

/// Exit ordering law (run-to-completion, exit half): the exit chain starts at
/// the exited leaf and each following state is the parent of the one before
/// it, so exits run strictly innermost to outermost; and when `stop` is an
/// ancestor of `from`, `stop` itself — the boundary the transition pivots on —
/// never appears in the chain.
pub proof fn lemma_exit_chain_innermost_first(parent: Seq<usize>, from: int, stop: int)
    ensures
        chain_between(parent, from, stop).len() > 0 ==> chain_between(parent, from, stop)[0]
            == from,
        forall|i: int|
            0 <= i < chain_between(parent, from, stop).len() - 1 ==> #[trigger] chain_between(
                parent,
                from,
                stop,
            )[i + 1] == parent[chain_between(parent, from, stop)[i]],
        is_ancestor(parent, stop, from) ==> forall|i: int|
            0 <= i < chain_between(parent, from, stop).len() ==> #[trigger] chain_between(
                parent,
                from,
                stop,
            )[i] != stop,
    decreases from,
{
    let c = chain_between(parent, from, stop);
    if from == stop {
    } else if 0 < from < parent.len() && parent[from] < from {
        lemma_exit_chain_innermost_first(parent, parent[from] as int, stop);
        let rest = chain_between(parent, parent[from] as int, stop);
        assert(c =~= seq![from] + rest);
        assert forall|i: int| 0 <= i < c.len() - 1 implies #[trigger] c[i + 1]
            == parent[c[i]] by {
            if i == 0 {
                assert(c[0] == from);
                assert(rest.len() > 0);
                assert(rest[0] == parent[from] as int);
                assert(c[1] == rest[0]);
            } else {
                assert(c[i] == rest[i - 1]);
                assert(c[i + 1] == rest[i]);
                assert(rest[(i - 1) + 1] == parent[rest[i - 1]]);
            }
        }
        if is_ancestor(parent, stop, from) {
            lemma_ancestor_index(parent, stop, from);
        }
    }
}

/// Entered states all lie strictly below the state they descend from, each
/// one the default child of the one before it.
pub proof fn lemma_descend_chain_below(child: Seq<usize>, s: int)
    ensures
        forall|i: int|
            0 <= i < descend_chain(child, s).len() ==> s < #[trigger] descend_chain(child, s)[i]
                < child.len(),
        forall|i: int|
            0 <= i < descend_chain(child, s).len() - 1 ==> #[trigger] descend_chain(child, s)[i]
                < descend_chain(child, s)[i + 1] && descend_chain(child, s)[i + 1]
                == child[descend_chain(child, s)[i]],
        descend_chain(child, s).len() > 0 ==> descend_chain(child, s)[0] == child[s],
    decreases child.len() - s,
{
    if 0 <= s < child.len() && s < child[s] && child[s] < child.len() {
        lemma_descend_chain_below(child, child[s] as int);
        let rest = descend_chain(child, child[s] as int);
        let d = descend_chain(child, s);
        assert(d =~= seq![child[s] as int] + rest);
        assert forall|i: int| 0 <= i < d.len() - 1 implies #[trigger] d[i] < d[i + 1] && d[i + 1]
            == child[d[i]] by {
            if i == 0 {
                if rest.len() > 0 {
                    assert(rest[0] == child[child[s] as int] as int);
                }
            } else {
                assert(d[i] == rest[i - 1]);
                assert(d[i + 1] == rest[i]);
            }
        }
    }
}

/// Entry ordering law (run-to-completion, entry half): in the entry chain each
/// entered state is the parent of the next — first down from just below the
/// boundary to the target, then along the target's default children — so
/// entries run strictly outermost to innermost; and when `stop` is an ancestor
/// of `tgt` under a well-formed tree, the boundary itself is never entered.
pub proof fn lemma_entry_chain_outermost_first(
    parent: Seq<usize>,
    child: Seq<usize>,
    stop: int,
    tgt: int,
)
    requires
        tree_wf(parent, child),
        0 <= tgt < parent.len(),
    ensures
        forall|i: int|
            0 <= i < entry_chain(parent, child, stop, tgt).len() - 1 ==> parent[#[trigger] entry_chain(
                parent,
                child,
                stop,
                tgt,
            )[i + 1]] == entry_chain(parent, child, stop, tgt)[i],
        is_ancestor(parent, stop, tgt) ==> forall|i: int|
            0 <= i < entry_chain(parent, child, stop, tgt).len() ==> #[trigger] entry_chain(
                parent,
                child,
                stop,
                tgt,
            )[i] != stop,
{
    lemma_exit_chain_innermost_first(parent, tgt, stop);
    lemma_descend_chain_below(child, tgt);
    lemma_chain_between_in_range(parent, tgt, stop);
    let up = chain_between(parent, tgt, stop);
    let down = descend_chain(child, tgt);
    let e = entry_chain(parent, child, stop, tgt);
    assert(e =~= up.reverse() + down);
    assert forall|i: int| 0 <= i < e.len() - 1 implies parent[#[trigger] e[i + 1]] == e[i] by {
        let n = up.len();
        if i + 1 < n {
            assert(e[i] == up[n - 1 - i]);
            assert(e[i + 1] == up[n - 2 - i]);
            assert(up[(n - 2 - i) + 1] == parent[up[n - 2 - i]]);
        } else if i + 1 == n {
            assert(e[i + 1] == down[0]);
            assert(down[0] == child[tgt]);
            assert(e[i] == up[0]);
            assert(up[0] == tgt);
            assert(parent[child[tgt] as int] == tgt);
        } else {
            assert(e[i] == down[i - n]);
            assert(e[i + 1] == down[i + 1 - n]);
            assert(down[i - n] < down[i + 1 - n] && down[i + 1 - n] == child[down[i - n]]);
            assert(tgt < down[i - n] < child.len());
            assert(child[down[i - n]] != down[i - n]);
            assert(parent[child[down[i - n]] as int] == down[i - n]);
        }
    }
    if is_ancestor(parent, stop, tgt) {
        lemma_ancestor_index(parent, stop, tgt);
        assert forall|i: int| 0 <= i < e.len() implies #[trigger] e[i] != stop by {
            let n = up.len();
            if i < n {
                assert(e[i] == up[n - 1 - i]);
            } else {
                assert(e[i] == down[i - n]);
                assert(tgt < down[i - n]);
            }
        }
    }
}

/// Every state in an exit chain is a valid node index.
pub proof fn lemma_chain_between_in_range(parent: Seq<usize>, from: int, stop: int)
    ensures
        forall|i: int|
            0 <= i < chain_between(parent, from, stop).len() ==> 0 < #[trigger] chain_between(
                parent,
                from,
                stop,
            )[i] < parent.len(),
    decreases from,
{
    if from != stop && 0 < from < parent.len() && parent[from] < from {
        lemma_chain_between_in_range(parent, parent[from] as int, stop);
        let rest = chain_between(parent, parent[from] as int, stop);
        let c = chain_between(parent, from, stop);
        assert(c =~= seq![from] + rest);
        assert forall|i: int| 0 <= i < c.len() implies 0 < #[trigger] c[i] < parent.len() by {
            if i > 0 {
                assert(c[i] == rest[i - 1]);
            }
        }
    }
}

} // verus!
