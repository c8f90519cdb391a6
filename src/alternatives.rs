use vstd::prelude::*;
use crate::diagnostic::Errors;

verus! {

/// One node of the proof-search tree: its parent, its number of live
/// children, and whether it is itself still live.
#[derive(Clone, Copy, Debug, PartialEq, Eq, Structural)]
pub struct AlternativeNode {
    pub parent: Option<usize>,
    pub counter: usize,
    pub live: bool,
}

/// A node of an [`AlternativeTree`]: one alternative of a proof search.
#[derive(Clone, Copy, Debug, PartialEq, Eq, Structural)]
pub struct Alternative {
    pub id: usize,
}

/// The tree of alternatives explored while proving a subtyping or predicate
/// obligation. A node is *required* when every node on the path from it to the
/// root has exactly one live child: then no other alternative remains, and
/// stronger inference is sound.
pub struct AlternativeTree {
    pub nodes: Vec<AlternativeNode>,
}

/// How one poll of `if_required` came out.
#[derive(Debug, PartialEq, Eq)]
pub enum Progress<T> {
    Pending,
    Ready(T),
}

/// The number of live nodes of `ns` whose parent is `i`.
pub open spec fn live_children(ns: Seq<AlternativeNode>, i: int) -> nat
    decreases ns.len(),
{
    if ns.len() == 0 {
        0
    } else {
        live_children(ns.drop_last(), i) + child_of(ns.last(), i)
    }
}

pub open spec fn child_of(n: AlternativeNode, i: int) -> nat {
    match n.parent {
        Some(p) => if n.live && p as int == i {
            1
        } else {
            0
        },
        None => 0,
    }
}

/// Replacing one node changes the count of a parent by what that node
/// contributed before and after.
pub proof fn lemma_live_children_update(ns: Seq<AlternativeNode>, c: int, n: AlternativeNode, i: int)
    requires
        0 <= c < ns.len(),
    ensures
        live_children(ns.update(c, n), i) + child_of(ns[c], i) == live_children(ns, i) + child_of(
            n,
            i,
        ),
    decreases ns.len(),
{
    let us = ns.update(c, n);
    if c == ns.len() - 1 {
        assert(us.drop_last() =~= ns.drop_last());
    } else {
        assert(us.drop_last() =~= ns.drop_last().update(c, n));
        lemma_live_children_update(ns.drop_last(), c, n, i);
    }
}

/// The required status of node `a`.
pub open spec fn is_required(ns: Seq<AlternativeNode>, a: int) -> bool
    decreases a,
{
    match ns[a].parent {
        None => true,
        Some(p) => 0 <= p < a && is_required(ns, p as int) && ns[p as int].counter == 1,
    }
}

impl AlternativeTree {
    /// Each node's parent comes before it, and each counter is the number of
    /// live children.
    pub open spec fn wf(&self) -> bool {
        &&& forall|i: int|
            0 <= i < self.nodes@.len() ==> match (#[trigger] self.nodes@[i]).parent {
                Some(p) => p < i,
                None => true,
            }
        &&& forall|i: int|
            0 <= i < self.nodes@.len() ==> (#[trigger] self.nodes@[i]).counter == live_children(
                self.nodes@,
                i,
            )
    }

    pub open spec fn valid(&self, a: Alternative) -> bool {
        a.id < self.nodes@.len()
    }

    /// An empty tree.
    pub fn new() -> (r: AlternativeTree)
        ensures
            r.wf(),
            r.nodes@.len() == 0,
    {
        AlternativeTree { nodes: Vec::new() }
    }
}

impl Alternative {
    /// Create a root alternative.
    pub fn root(tree: &mut AlternativeTree) -> (r: Alternative)
        requires
            old(tree).wf(),
        ensures
            final(tree).wf(),
            final(tree).nodes@ == old(tree).nodes@.push(
                AlternativeNode { parent: None, counter: 0, live: true },
            ),
            r.id == old(tree).nodes@.len(),
            is_required(final(tree).nodes@, r.id as int),
    {
        let ghost old_nodes = tree.nodes@;
        let id = tree.nodes.len();
        let node = AlternativeNode { parent: None, counter: 0, live: true };
        tree.nodes.push(node);
        proof {
            assert(tree.nodes@.drop_last() =~= old_nodes);
            assert forall|i: int| 0 <= i < tree.nodes@.len() implies (#[trigger] tree.nodes@[i]).counter
                == live_children(tree.nodes@, i) by {
                if i < old_nodes.len() {
                    assert(tree.nodes@[i] == old_nodes[i]);
                } else {
                    lemma_no_children_after(old_nodes, i);
                }
            }
        }
        Alternative { id }
    }

    /// Spawn `count` children of this node, all at once, so that none of them is
    /// required before its siblings exist. Each stays live until released.
    pub fn spawn_children(self, tree: &mut AlternativeTree, count: usize) -> (r: Vec<Alternative>)
        requires
            old(tree).wf(),
            old(tree).valid(self),
            old(tree).nodes@[self.id as int].counter == 0,
            old(tree).nodes@.len() + count <= usize::MAX,
        ensures
            final(tree).wf(),
            final(tree).nodes@.len() == old(tree).nodes@.len() + count,
            final(tree).nodes@[self.id as int].counter == count,
            final(tree).nodes@[self.id as int].parent == old(tree).nodes@[self.id as int].parent,
            final(tree).nodes@[self.id as int].live == old(tree).nodes@[self.id as int].live,
            r@.len() == count,
            forall|k: int|
                0 <= k < count ==> (#[trigger] r@[k]).id == old(tree).nodes@.len() + k
                    && final(tree).nodes@[r@[k].id as int] == (AlternativeNode {
                        parent: Some(self.id),
                        counter: 0,
                        live: true,
                    }),
            forall|i: int|
                0 <= i < old(tree).nodes@.len() && i != self.id ==> #[trigger] final(tree).nodes@[i]
                    == old(tree).nodes@[i],
    {
        let ghost n0 = tree.nodes@.len();
        let ghost old_nodes = tree.nodes@;
        let mut children: Vec<Alternative> = Vec::new();
        let mut k: usize = 0;
        while k < count
            invariant
                tree.wf(),
                0 <= k <= count,
                n0 + count <= usize::MAX,
                old_nodes.len() == n0,
                self.id < n0,
                tree.nodes@.len() == n0 + k,
                tree.nodes@[self.id as int].counter == k,
                tree.nodes@[self.id as int].parent == old(tree).nodes@[self.id as int].parent,
                tree.nodes@[self.id as int].live == old(tree).nodes@[self.id as int].live,
                children@.len() == k,
                forall|j: int|
                    0 <= j < k ==> (#[trigger] children@[j]).id == n0 + j && tree.nodes@[n0 + j]
                        == (AlternativeNode { parent: Some(self.id), counter: 0, live: true }),
                forall|i: int|
                    0 <= i < n0 && i != self.id ==> #[trigger] tree.nodes@[i] == old_nodes[i],
            decreases count - k,
        {
            let id = tree.nodes.len();
            let ghost before = tree.nodes@;
            self.new_child(tree);
            children.push(Alternative { id });
            proof {
                assert forall|j: int| 0 <= j < k + 1 implies (#[trigger] children@[j]).id == n0 + j
                    && tree.nodes@[n0 + j] == (AlternativeNode {
                    parent: Some(self.id),
                    counter: 0,
                    live: true,
                }) by {
                    if j < k {
                        assert(tree.nodes@[n0 + j] == before[n0 + j]);
                    }
                }
            }
            k += 1;
        }
        children
    }

    /// Add one live child of this node, and count it there.
    fn new_child(self, tree: &mut AlternativeTree)
        requires
            old(tree).wf(),
            old(tree).valid(self),
            old(tree).nodes@.len() < usize::MAX,
        ensures
            final(tree).wf(),
            final(tree).nodes@.len() == old(tree).nodes@.len() + 1,
            final(tree).nodes@[old(tree).nodes@.len() as int] == (AlternativeNode {
                parent: Some(self.id),
                counter: 0,
                live: true,
            }),
            final(tree).nodes@[self.id as int].counter == old(tree).nodes@[self.id as int].counter + 1,
            final(tree).nodes@[self.id as int].parent == old(tree).nodes@[self.id as int].parent,
            final(tree).nodes@[self.id as int].live == old(tree).nodes@[self.id as int].live,
            forall|i: int|
                0 <= i < old(tree).nodes@.len() && i != self.id ==> #[trigger] final(tree).nodes@[i]
                    == old(tree).nodes@[i],
    {
        let ghost old_nodes = tree.nodes@;
        let node = AlternativeNode { parent: Some(self.id), counter: 0, live: true };
        tree.nodes.push(node);
        let ghost pushed = tree.nodes@;
        proof {
            assert(pushed.drop_last() =~= old_nodes);
            lemma_counter_fits(old_nodes, self.id as int);
        }
        let p = tree.nodes[self.id];
        tree.nodes.set(self.id, AlternativeNode { counter: p.counter + 1, ..p });
        proof {
            let n = tree.nodes@.len() as int;
            assert forall|i: int| 0 <= i < n implies (#[trigger] tree.nodes@[i]).counter
                == live_children(tree.nodes@, i) by {
                lemma_live_children_update(pushed, self.id as int, tree.nodes@[self.id as int], i);
                assert(tree.nodes@ =~= pushed.update(self.id as int, tree.nodes@[self.id as int]));
                if i < old_nodes.len() {
                    assert(pushed[i] == old_nodes[i]);
                } else {
                    lemma_no_children_after(old_nodes, i);
                }
            }
        }
    }

    /// Release this alternative (on every exit of the search that owns it): its
    /// parent has one live child fewer.
    pub fn release(self, tree: &mut AlternativeTree)
        requires
            old(tree).wf(),
            old(tree).valid(self),
            old(tree).nodes@[self.id as int].live,
        ensures
            final(tree).wf(),
            final(tree).nodes@.len() == old(tree).nodes@.len(),
            !final(tree).nodes@[self.id as int].live,
            final(tree).nodes@[self.id as int].parent == old(tree).nodes@[self.id as int].parent,
            final(tree).nodes@[self.id as int].counter == old(tree).nodes@[self.id as int].counter,
            match old(tree).nodes@[self.id as int].parent {
                Some(p) => final(tree).nodes@[p as int].counter == old(tree).nodes@[p as int].counter
                    - 1 && final(tree).nodes@[p as int].parent == old(tree).nodes@[p as int].parent
                    && final(tree).nodes@[p as int].live == old(tree).nodes@[p as int].live,
                None => true,
            },
            forall|i: int|
                0 <= i < old(tree).nodes@.len() && i != self.id && Some(i as usize)
                    != old(tree).nodes@[self.id as int].parent ==> #[trigger] final(tree).nodes@[i]
                    == old(tree).nodes@[i],
    {
        let c = tree.nodes[self.id];
        let ghost before = tree.nodes@;
        tree.nodes.set(self.id, AlternativeNode { live: false, ..c });
        let ghost mid = tree.nodes@;
        proof {
            assert(mid =~= before.update(self.id as int, mid[self.id as int]));
            assert forall|i: int| 0 <= i < before.len() implies live_children(mid, i) + child_of(
                before[self.id as int],
                i,
            ) == live_children(before, i) + child_of(mid[self.id as int], i) by {
                lemma_live_children_update(before, self.id as int, mid[self.id as int], i);
            }
            assert forall|i: int| 0 <= i < mid.len() implies (#[trigger] mid[i]).counter
                == before[i].counter && mid[i].parent == before[i].parent by {}
            assert forall|i: int| 0 <= i < mid.len() implies match (#[trigger] mid[i]).parent {
                Some(q) => q < i,
                None => true,
            } by {
                assert(before[i].parent == mid[i].parent);
            }
            assert forall|i: int| 0 <= i < mid.len() && (c.parent is None || i != c.parent->Some_0)
                implies (#[trigger] mid[i]).counter == live_children(mid, i) by {
                assert(before[i].counter == live_children(before, i));
                assert(child_of(mid[self.id as int], i) == 0);
            }
            if let Some(p) = c.parent {
                assert(before[p as int].counter == live_children(before, p as int));
                assert(child_of(before[self.id as int], p as int) == 1);
                assert(child_of(mid[self.id as int], p as int) == 0);
            }
        }
        if let Some(p) = c.parent {
            Alternative { id: p }.drop_child(tree);
        }
    }

    /// A child of this node was released: decrement the count of its live children.
    fn drop_child(self, tree: &mut AlternativeTree)
        requires
            self.id < old(tree).nodes@.len(),
            forall|i: int|
                0 <= i < old(tree).nodes@.len() ==> match (#[trigger] old(tree).nodes@[i]).parent {
                    Some(q) => q < i,
                    None => true,
                },
            forall|i: int|
                0 <= i < old(tree).nodes@.len() && i != self.id ==> (#[trigger] old(tree).nodes@[i]).counter
                    == live_children(old(tree).nodes@, i),
            old(tree).nodes@[self.id as int].counter == live_children(old(tree).nodes@, self.id as int) + 1,
        ensures
            final(tree).wf(),
            final(tree).nodes@.len() == old(tree).nodes@.len(),
            final(tree).nodes@[self.id as int].counter == old(tree).nodes@[self.id as int].counter - 1,
            final(tree).nodes@[self.id as int].parent == old(tree).nodes@[self.id as int].parent,
            final(tree).nodes@[self.id as int].live == old(tree).nodes@[self.id as int].live,
            forall|i: int|
                0 <= i < old(tree).nodes@.len() && i != self.id ==> #[trigger] final(tree).nodes@[i]
                    == old(tree).nodes@[i],
    {
        let p = self.id;
        let ghost mid = tree.nodes@;
        let n = tree.nodes[p];
        tree.nodes.set(p, AlternativeNode { counter: n.counter - 1, ..n });
        proof {
            assert forall|i: int| 0 <= i < tree.nodes@.len() implies (#[trigger] tree.nodes@[i]).counter
                == live_children(tree.nodes@, i) by {
                lemma_live_children_update(mid, p as int, tree.nodes@[p as int], i);
                assert(tree.nodes@ =~= mid.update(p as int, tree.nodes@[p as int]));
            }
        }
    }

    /// Returns true if the node is required.
    pub fn is_required(self, tree: &AlternativeTree) -> (r: bool)
        requires
            tree.wf(),
            tree.valid(self),
        ensures
            r == is_required(tree.nodes@, self.id as int),
        decreases self.id,
    {
        match tree.nodes[self.id].parent {
            None => true,
            Some(p) => Alternative { id: p }.is_required(tree) && tree.nodes[p].counter == 1,
        }
    }

    /// One poll of a choice between two ways of proceeding: if the node is
    /// required, the requiring branch is the one that counts (it gives stronger
    /// inference), and its success means `true`; otherwise the testing branch
    /// counts. The choice is made anew at each poll, since a node becomes
    /// required as its siblings are released.
    pub fn if_required(
        self,
        tree: &AlternativeTree,
        required_poll: Progress<Errors<()>>,
        not_required_poll: Progress<Errors<bool>>,
    ) -> (r: Progress<Errors<bool>>)
        requires
            tree.wf(),
            tree.valid(self),
        ensures
            is_required(tree.nodes@, self.id as int) ==> r == match required_poll {
                Progress::Pending => Progress::Pending,
                Progress::Ready(Ok(())) => Progress::Ready(Ok(true)),
                Progress::Ready(Err(e)) => Progress::Ready(Err(e)),
            },
            !is_required(tree.nodes@, self.id as int) ==> r == not_required_poll,
    {
        if self.is_required(tree) {
            match required_poll {
                Progress::Pending => Progress::Pending,
                Progress::Ready(Ok(())) => Progress::Ready(Ok(true)),
                Progress::Ready(Err(e)) => Progress::Ready(Err(e)),
            }
        } else {
            not_required_poll
        }
    }
}

/// No node of `ns` has a parent at or after its end.
proof fn lemma_no_children_after(ns: Seq<AlternativeNode>, i: int)
    requires
        i >= ns.len(),
        forall|j: int|
            0 <= j < ns.len() ==> match (#[trigger] ns[j]).parent {
                Some(p) => p < j,
                None => true,
            },
    ensures
        live_children(ns, i) == 0,
    decreases ns.len(),
{
    if ns.len() > 0 {
        assert forall|j: int| 0 <= j < ns.drop_last().len() implies match (
        #[trigger] ns.drop_last()[j]).parent {
            Some(p) => p < j,
            None => true,
        } by {
            assert(ns.drop_last()[j] == ns[j]);
        }
        lemma_no_children_after(ns.drop_last(), i);
        assert(ns.last() == ns[ns.len() - 1]);
    }
}

/// A count of children is at most the number of nodes.
proof fn lemma_counter_fits(ns: Seq<AlternativeNode>, i: int)
    ensures
        live_children(ns, i) <= ns.len(),
    decreases ns.len(),
{
    if ns.len() > 0 {
        lemma_counter_fits(ns.drop_last(), i);
    }
}

} // verus!
