//! An unbalanced binary search tree over `i64` values.
//!
//! Duplicate insertions are silently dropped, so the tree always holds a set
//! of distinct values. The tree offers the three classical depth-first
//! traversals, minimum/maximum lookup, and a census of node and leaf counts.

use vstd::prelude::*;

verus! {

/// One vertex of the tree: a value and optional owned child subtrees.
///
/// The search invariant (`well_formed`) says every value in the left subtree
/// is strictly below `value` and every value in the right subtree strictly
/// above it, transitively.
pub struct Node {
    pub value: i64,
    pub left: Option<Box<Node>>,
    pub right: Option<Box<Node>>,
}

impl Node {
    /// The set of values stored in an optional subtree.
    pub open spec fn opt_set(node_opt: Option<Box<Node>>) -> Set<i64>
        decreases node_opt,
    {
        match node_opt {
            None => Set::empty(),
            Some(node) => node.as_set(),
        }
    }

    /// The set of values stored in the subtree rooted at this node.
    pub open spec fn as_set(self) -> Set<i64>
        decreases self,
    {
        Node::opt_set(self.left).union(Node::opt_set(self.right)).insert(self.value)
    }

    /// Number of nodes in an optional subtree.
    pub open spec fn opt_size(node_opt: Option<Box<Node>>) -> nat
        decreases node_opt,
    {
        match node_opt {
            None => 0,
            Some(node) => node.size_spec(),
        }
    }

    /// Number of nodes in the subtree rooted at this node.
    pub open spec fn size_spec(self) -> nat
        decreases self,
    {
        1 + Node::opt_size(self.left) + Node::opt_size(self.right)
    }

    /// Number of leaves (nodes with neither child) in an optional subtree.
    pub open spec fn opt_leaves(node_opt: Option<Box<Node>>) -> nat
        decreases node_opt,
    {
        match node_opt {
            None => 0,
            Some(node) => node.leaves_spec(),
        }
    }

    /// Number of leaves in the subtree rooted at this node.
    pub open spec fn leaves_spec(self) -> nat
        decreases self,
    {
        if self.left.is_none() && self.right.is_none() {
            1
        } else {
            Node::opt_leaves(self.left) + Node::opt_leaves(self.right)
        }
    }

    /// Number of internal nodes (nodes with at least one child) in an
    /// optional subtree.
    pub open spec fn opt_internal(node_opt: Option<Box<Node>>) -> nat
        decreases node_opt,
    {
        match node_opt {
            None => 0,
            Some(node) => node.internal_spec(),
        }
    }

    /// Number of internal nodes in the subtree rooted at this node.
    pub open spec fn internal_spec(self) -> nat
        decreases self,
    {
        (if self.left.is_some() || self.right.is_some() {
            1nat
        } else {
            0nat
        }) + Node::opt_internal(self.left) + Node::opt_internal(self.right)
    }

    /// In-order traversal (left, value, right) of an optional subtree.
    pub open spec fn opt_in_order(node_opt: Option<Box<Node>>) -> Seq<i64>
        decreases node_opt,
    {
        match node_opt {
            None => Seq::empty(),
            Some(node) => node.in_order_spec(),
        }
    }

    /// In-order traversal of the subtree rooted at this node.
    pub open spec fn in_order_spec(self) -> Seq<i64>
        decreases self,
    {
        Node::opt_in_order(self.left) + seq![self.value] + Node::opt_in_order(self.right)
    }

    /// Pre-order traversal (value, left, right) of an optional subtree.
    pub open spec fn opt_pre_order(node_opt: Option<Box<Node>>) -> Seq<i64>
        decreases node_opt,
    {
        match node_opt {
            None => Seq::empty(),
            Some(node) => node.pre_order_spec(),
        }
    }

    /// Pre-order traversal of the subtree rooted at this node.
    pub open spec fn pre_order_spec(self) -> Seq<i64>
        decreases self,
    {
        seq![self.value] + Node::opt_pre_order(self.left) + Node::opt_pre_order(self.right)
    }

    /// Post-order traversal (left, right, value) of an optional subtree.
    pub open spec fn opt_post_order(node_opt: Option<Box<Node>>) -> Seq<i64>
        decreases node_opt,
    {
        match node_opt {
            None => Seq::empty(),
            Some(node) => node.post_order_spec(),
        }
    }

    /// Post-order traversal of the subtree rooted at this node.
    pub open spec fn post_order_spec(self) -> Seq<i64>
        decreases self,
    {
        Node::opt_post_order(self.left) + Node::opt_post_order(self.right) + seq![self.value]
    }

    /// Height of an optional subtree: 0 for an absent subtree.
    pub open spec fn opt_height(node_opt: Option<Box<Node>>) -> nat
        decreases node_opt,
    {
        match node_opt {
            None => 0,
            Some(node) => node.height_spec(),
        }
    }

    /// Height of the subtree rooted at this node: 1 for a lone leaf.
    pub open spec fn height_spec(self) -> nat
        decreases self,
    {
        1 + (if Node::opt_height(self.left) >= Node::opt_height(self.right) {
            Node::opt_height(self.left)
        } else {
            Node::opt_height(self.right)
        })
    }

    /// Depth-first structural listing of an optional subtree: each value
    /// paired with its depth, parent before children, left before right.
    pub open spec fn opt_structure(node_opt: Option<Box<Node>>, depth: usize) -> Seq<(i64, usize)>
        decreases node_opt,
    {
        match node_opt {
            None => Seq::empty(),
            Some(node) => node.structure_spec(depth),
        }
    }

    /// Depth-first structural listing of the subtree rooted at this node.
    pub open spec fn structure_spec(self, depth: usize) -> Seq<(i64, usize)>
        decreases self,
    {
        seq![(self.value, depth)] + Node::opt_structure(self.left, ((depth + 1) as usize))
            + Node::opt_structure(self.right, ((depth + 1) as usize))
    }

    /// Exact shape of an insertion: `post` is `pre` with `value` attached as
    /// a new leaf at the end of its search path, every other node and link
    /// unchanged; when `value` was already present, `post` is `pre` as it
    /// was. Tree shape is thus permanently determined by insertion order.
    pub open spec fn inserted(pre: Option<Box<Node>>, post: Option<Box<Node>>, value: i64) -> bool
        decreases pre,
    {
        match pre {
            None => match post {
                Some(p) => p.value == value && p.left.is_none() && p.right.is_none(),
                None => false,
            },
            Some(o) => match post {
                Some(p) => {
                    if value < o.value {
                        p.value == o.value && p.right == o.right
                            && Node::inserted(o.left, p.left, value)
                    } else if value > o.value {
                        p.value == o.value && p.left == o.left
                            && Node::inserted(o.right, p.right, value)
                    } else {
                        post == pre
                    }
                },
                None => false,
            },
        }
    }

    /// The binary-search-tree ordering invariant, transitively.
    pub open spec fn well_formed(self) -> bool
        decreases self,
    {
        &&& (forall|elem: i64| Node::opt_set(self.left).contains(elem) ==> elem < self.value)
        &&& (forall|elem: i64| Node::opt_set(self.right).contains(elem) ==> elem > self.value)
        &&& (match self.left {
            Some(left_node) => left_node.well_formed(),
            None => true,
        })
        &&& (match self.right {
            Some(right_node) => right_node.well_formed(),
            None => true,
        })
    }

    /// Creates a node with no children.
    pub fn new(value: i64) -> (r: Node)
        ensures
            r.well_formed(),
            r.as_set() == Set::<i64>::empty().insert(value),
            r.size_spec() == 1,
            r.value == value,
            r.left.is_none(),
            r.right.is_none(),
    {
        let r = Node { value, left: None, right: None };
        proof {
            assert(r.as_set() =~= Set::<i64>::empty().insert(value));
        }
        r
    }

    /// Inserts `value` into an optional subtree, creating a leaf when the
    /// slot is empty. A value already present leaves the subtree untouched.
    fn insert_into_optional(node: &mut Option<Box<Node>>, value: i64)
        requires
            match *old(node) {
                Some(n) => n.well_formed(),
                None => true,
            },
        ensures
            match *final(node) {
                Some(n) => n.well_formed(),
                None => true,
            },
            Node::inserted(*old(node), *final(node), value),
            Node::opt_set(*final(node)) == Node::opt_set(*old(node)).insert(value),
            Node::opt_set(*old(node)).contains(value) ==> *final(node) == *old(node),
            !Node::opt_set(*old(node)).contains(value) ==> Node::opt_size(*final(node))
                == Node::opt_size(*old(node)) + 1,
        decreases *old(node),
    {
        match node.take() {
            None => {
                *node = Some(Box::new(Node { value, left: None, right: None }));
                proof {
                    assert(Node::opt_set(*node) =~= Node::opt_set(*old(node)).insert(value));
                }
            }
            Some(mut boxed_node) => {
                (&mut *boxed_node).insert(value);
                *node = Some(boxed_node);
            }
        }
    }

    /// Inserts `value` into the subtree rooted at this node: strictly smaller
    /// values go left, strictly greater values go right, and a value equal to
    /// one already stored is silently dropped.
    pub fn insert(&mut self, value: i64)
        requires
            old(self).well_formed(),
        ensures
            final(self).well_formed(),
            final(self).as_set() == old(self).as_set().insert(value),
            old(self).as_set().contains(value) ==> *final(self) == *old(self),
            !old(self).as_set().contains(value) ==> final(self).size_spec()
                == old(self).size_spec() + 1,
            final(self).value == old(self).value,
            value < old(self).value ==> final(self).right == old(self).right
                && Node::inserted(old(self).left, final(self).left, value),
            value > old(self).value ==> final(self).left == old(self).left
                && Node::inserted(old(self).right, final(self).right, value),
            value == old(self).value ==> *final(self) == *old(self),
        decreases *old(self),
    {
        if value < self.value {
            proof {
                // A duplicate this far down can only sit in the left subtree.
                assert(!Node::opt_set(old(self).right).contains(value));
            }
            Self::insert_into_optional(&mut self.left, value);
            proof {
                assert(self.as_set() =~= old(self).as_set().insert(value));
            }
        } else if value > self.value {
            proof {
                // A duplicate this far down can only sit in the right subtree.
                assert(!Node::opt_set(old(self).left).contains(value));
            }
            Self::insert_into_optional(&mut self.right, value);
            proof {
                assert(self.as_set() =~= old(self).as_set().insert(value));
            }
        } else {
            proof {
                assert(self.as_set() =~= old(self).as_set().insert(value));
            }
        }
    }

    /// Adds this subtree's node count to `nodes` and its leaf count to
    /// `leaves`, visiting every node exactly once. The result does not depend
    /// on the order in which children are visited.
    pub fn count_nodes_and_leaves(&self, nodes: &mut i32, leaves: &mut i32)
        requires
            *old(nodes) as int + self.size_spec() <= i32::MAX as int,
            *old(leaves) as int + self.leaves_spec() <= i32::MAX as int,
        ensures
            *final(nodes) as int == *old(nodes) as int + self.size_spec(),
            *final(leaves) as int == *old(leaves) as int + self.leaves_spec(),
        decreases self,
    {
        *nodes += 1;
        match (&self.left, &self.right) {
            (Some(left), Some(right)) => {
                left.count_nodes_and_leaves(nodes, leaves);
                right.count_nodes_and_leaves(nodes, leaves);
            }
            (Some(left), None) => {
                left.count_nodes_and_leaves(nodes, leaves);
            }
            (None, Some(right)) => {
                right.count_nodes_and_leaves(nodes, leaves);
            }
            (None, None) => {
                *leaves += 1;
            }
        }
    }

    /// Appends the in-order traversal of this subtree to `out`.
    pub fn push_in_order(&self, out: &mut Vec<i64>)
        ensures
            final(out)@ == old(out)@ + self.in_order_spec(),
        decreases self,
    {
        match &self.left {
            Some(left_node) => left_node.push_in_order(out),
            None => {}
        }
        out.push(self.value);
        match &self.right {
            Some(right_node) => right_node.push_in_order(out),
            None => {}
        }
        proof {
            assert(out@ =~= old(out)@ + self.in_order_spec());
        }
    }

    /// Appends the pre-order traversal of this subtree to `out`.
    pub fn push_pre_order(&self, out: &mut Vec<i64>)
        ensures
            final(out)@ == old(out)@ + self.pre_order_spec(),
        decreases self,
    {
        out.push(self.value);
        match &self.left {
            Some(left_node) => left_node.push_pre_order(out),
            None => {}
        }
        match &self.right {
            Some(right_node) => right_node.push_pre_order(out),
            None => {}
        }
        proof {
            assert(out@ =~= old(out)@ + self.pre_order_spec());
        }
    }

    /// Appends the post-order traversal of this subtree to `out`.
    pub fn push_post_order(&self, out: &mut Vec<i64>)
        ensures
            final(out)@ == old(out)@ + self.post_order_spec(),
        decreases self,
    {
        match &self.left {
            Some(left_node) => left_node.push_post_order(out),
            None => {}
        }
        match &self.right {
            Some(right_node) => right_node.push_post_order(out),
            None => {}
        }
        out.push(self.value);
        proof {
            assert(out@ =~= old(out)@ + self.post_order_spec());
        }
    }

    /// Appends the structural listing of this subtree, rooted at `depth`, to
    /// `out`: each value with its depth, parent first, left before right.
    pub fn push_structure(&self, depth: usize, out: &mut Vec<(i64, usize)>)
        requires
            depth as int + self.height_spec() <= usize::MAX as int,
        ensures
            final(out)@ == old(out)@ + self.structure_spec(depth),
        decreases self,
    {
        out.push((self.value, depth));
        match &self.left {
            Some(left_node) => left_node.push_structure(depth + 1, out),
            None => {}
        }
        match &self.right {
            Some(right_node) => right_node.push_structure(depth + 1, out),
            None => {}
        }
        proof {
            assert(out@ =~= old(out)@ + self.structure_spec(depth));
        }
    }

    /// The leftmost value of the subtree: by the search invariant, its
    /// minimum.
    pub fn min_value(&self) -> (r: &i64)
        requires
            self.well_formed(),
        ensures
            self.as_set().contains(*r),
            forall|v: i64| self.as_set().contains(v) ==> *r <= v,
        decreases self,
    {
        match &self.left {
            Some(left_node) => {
                let r = left_node.min_value();
                proof {
                    assert(Node::opt_set(self.left).contains(*r));
                    assert forall|v: i64| self.as_set().contains(v) implies *r <= v by {
                        if Node::opt_set(self.left).contains(v) {
                        } else if Node::opt_set(self.right).contains(v) {
                            assert(*r < self.value);
                        } else {
                            assert(v == self.value);
                        }
                    }
                }
                r
            }
            None => {
                proof {
                    assert forall|v: i64| self.as_set().contains(v) implies self.value <= v by {
                        if Node::opt_set(self.right).contains(v) {
                        } else {
                            assert(v == self.value);
                        }
                    }
                }
                &self.value
            }
        }
    }

    /// The rightmost value of the subtree: by the search invariant, its
    /// maximum.
    pub fn max_value(&self) -> (r: &i64)
        requires
            self.well_formed(),
        ensures
            self.as_set().contains(*r),
            forall|v: i64| self.as_set().contains(v) ==> *r >= v,
        decreases self,
    {
        match &self.right {
            Some(right_node) => {
                let r = right_node.max_value();
                proof {
                    assert(Node::opt_set(self.right).contains(*r));
                    assert forall|v: i64| self.as_set().contains(v) implies *r >= v by {
                        if Node::opt_set(self.right).contains(v) {
                        } else if Node::opt_set(self.left).contains(v) {
                            assert(*r > self.value);
                        } else {
                            assert(v == self.value);
                        }
                    }
                }
                r
            }
            None => {
                proof {
                    assert forall|v: i64| self.as_set().contains(v) implies self.value >= v by {
                        if Node::opt_set(self.left).contains(v) {
                        } else {
                            assert(v == self.value);
                        }
                    }
                }
                &self.value
            }
        }
    }
}

/// The externally visible handle: an optional owned root plus cached node
/// and leaf counters.
///
/// The counters are a snapshot: they are filled in only by
/// `count_nodes_and_leaves` and are not invalidated by later insertions, so a
/// caller that mutates the tree must recompute before reading them.
pub struct BinaryTree {
    pub root: Option<Box<Node>>,
    pub nodes: i32,
    pub leaves: i32,
}

impl BinaryTree {
    /// The set of values stored in the tree.
    pub open spec fn as_set(self) -> Set<i64> {
        Node::opt_set(self.root)
    }

    /// Number of nodes in the tree.
    pub open spec fn size_spec(self) -> nat {
        Node::opt_size(self.root)
    }

    /// Number of leaves in the tree.
    pub open spec fn leaves_spec(self) -> nat {
        Node::opt_leaves(self.root)
    }

    /// Number of internal nodes in the tree.
    pub open spec fn internal_spec(self) -> nat {
        Node::opt_internal(self.root)
    }

    /// Height of the tree: 0 when empty.
    pub open spec fn height_spec(self) -> nat {
        Node::opt_height(self.root)
    }

    /// In-order traversal of the tree.
    pub open spec fn in_order_spec(self) -> Seq<i64> {
        Node::opt_in_order(self.root)
    }

    /// Pre-order traversal of the tree.
    pub open spec fn pre_order_spec(self) -> Seq<i64> {
        Node::opt_pre_order(self.root)
    }

    /// Post-order traversal of the tree.
    pub open spec fn post_order_spec(self) -> Seq<i64> {
        Node::opt_post_order(self.root)
    }

    /// Depth-first structural listing of the tree, the root at depth 0.
    pub open spec fn structure_spec(self) -> Seq<(i64, usize)> {
        Node::opt_structure(self.root, 0)
    }

    /// The search invariant of the whole tree; an empty tree satisfies it.
    pub open spec fn well_formed(self) -> bool {
        match self.root {
            Some(node) => node.well_formed(),
            None => true,
        }
    }

    /// Creates an empty tree with both counters at zero.
    pub fn new() -> (r: BinaryTree)
        ensures
            r.well_formed(),
            r.as_set() == Set::<i64>::empty(),
            r.size_spec() == 0,
            r.leaves_spec() == 0,
            r.in_order_spec() == Seq::<i64>::empty(),
            r.pre_order_spec() == Seq::<i64>::empty(),
            r.post_order_spec() == Seq::<i64>::empty(),
            r.root.is_none(),
            r.nodes == 0,
            r.leaves == 0,
    {
        BinaryTree { root: None, nodes: 0, leaves: 0 }
    }

    /// Inserts `value`, creating the root when the tree is empty; a value
    /// already stored is silently dropped. The cached counters are left as
    /// they are: they go stale until the next census.
    pub fn insert(&mut self, value: i64)
        requires
            old(self).well_formed(),
        ensures
            final(self).well_formed(),
            final(self).as_set() == old(self).as_set().insert(value),
            old(self).as_set().contains(value) ==> *final(self) == *old(self),
            !old(self).as_set().contains(value) ==> final(self).size_spec()
                == old(self).size_spec() + 1,
            Node::inserted(old(self).root, final(self).root, value),
            final(self).nodes == old(self).nodes,
            final(self).leaves == old(self).leaves,
    {
        Node::insert_into_optional(&mut self.root, value);
    }

    /// Recomputes both cached counters from the tree's current shape,
    /// replacing their previous contents. On an empty tree the counters are
    /// left at whatever they held before.
    pub fn count_nodes_and_leaves(&mut self)
        requires
            old(self).size_spec() <= i32::MAX as int,
        ensures
            final(self).root == old(self).root,
            old(self).root.is_some() ==> final(self).nodes as int == old(self).size_spec()
                && final(self).leaves as int == old(self).leaves_spec(),
            old(self).root.is_none() ==> *final(self) == *old(self),
    {
        if self.root.is_some() {
            let mut nodes: i32 = 0;
            let mut leaves: i32 = 0;
            match &self.root {
                Some(root) => {
                    proof {
                        lemma_node_census(**root);
                    }
                    root.count_nodes_and_leaves(&mut nodes, &mut leaves);
                }
                None => {}
            }
            self.nodes = nodes;
            self.leaves = leaves;
        }
    }

    /// The in-order traversal as a vector: empty for an empty tree.
    pub fn in_order(&self) -> (r: Vec<i64>)
        ensures
            r@ == self.in_order_spec(),
    {
        let mut out: Vec<i64> = Vec::new();
        match &self.root {
            Some(root) => root.push_in_order(&mut out),
            None => {}
        }
        proof {
            assert(out@ =~= self.in_order_spec());
        }
        out
    }

    /// The pre-order traversal as a vector: empty for an empty tree.
    pub fn pre_order(&self) -> (r: Vec<i64>)
        ensures
            r@ == self.pre_order_spec(),
    {
        let mut out: Vec<i64> = Vec::new();
        match &self.root {
            Some(root) => root.push_pre_order(&mut out),
            None => {}
        }
        proof {
            assert(out@ =~= self.pre_order_spec());
        }
        out
    }

    /// The post-order traversal as a vector: empty for an empty tree.
    pub fn post_order(&self) -> (r: Vec<i64>)
        ensures
            r@ == self.post_order_spec(),
    {
        let mut out: Vec<i64> = Vec::new();
        match &self.root {
            Some(root) => root.push_post_order(&mut out),
            None => {}
        }
        proof {
            assert(out@ =~= self.post_order_spec());
        }
        out
    }

    /// The structural listing as a vector of (value, depth) pairs, for
    /// rendering: empty for an empty tree.
    pub fn structure(&self) -> (r: Vec<(i64, usize)>)
        requires
            self.height_spec() <= usize::MAX as int,
        ensures
            r@ == self.structure_spec(),
    {
        let mut out: Vec<(i64, usize)> = Vec::new();
        match &self.root {
            Some(root) => root.push_structure(0, &mut out),
            None => {}
        }
        proof {
            assert(out@ =~= self.structure_spec());
        }
        out
    }

    /// The smallest stored value, or `None` when the tree is empty.
    pub fn min_value(&self) -> (r: Option<&i64>)
        requires
            self.well_formed(),
        ensures
            match r {
                Some(m) => self.as_set().contains(*m)
                    && (forall|v: i64| self.as_set().contains(v) ==> *m <= v),
                None => self.as_set() == Set::<i64>::empty(),
            },
    {
        match &self.root {
            Some(root) => Some(root.min_value()),
            None => None,
        }
    }

    /// The largest stored value, or `None` when the tree is empty.
    pub fn max_value(&self) -> (r: Option<&i64>)
        requires
            self.well_formed(),
        ensures
            match r {
                Some(m) => self.as_set().contains(*m)
                    && (forall|v: i64| self.as_set().contains(v) ==> *m >= v),
                None => self.as_set() == Set::<i64>::empty(),
            },
    {
        match &self.root {
            Some(root) => Some(root.max_value()),
            None => None,
        }
    }
}

/// Every node contributes to exactly one of the leaf or internal counts, so
/// the two censuses split the node count between them.
pub proof fn lemma_node_census(n: Node)
    ensures
        n.size_spec() == n.leaves_spec() + n.internal_spec(),
        1 <= n.leaves_spec(),
        n.leaves_spec() <= n.size_spec(),
    decreases n,
{
    match n.left {
        Some(l) => lemma_node_census(*l),
        None => {}
    }
    match n.right {
        Some(r) => lemma_node_census(*r),
        None => {}
    }
}

/// A subtree is at least as large as it is tall, so a bound on the node
/// count also bounds every depth that the structural listing reports.
pub proof fn lemma_node_height_le_size(n: Node)
    ensures
        n.height_spec() <= n.size_spec(),
    decreases n,
{
    match n.left {
        Some(l) => lemma_node_height_le_size(*l),
        None => {}
    }
    match n.right {
        Some(r) => lemma_node_height_le_size(*r),
        None => {}
    }
}

/// A tree is at least as large as it is tall.
pub proof fn lemma_height_le_size(t: BinaryTree)
    ensures
        t.height_spec() <= t.size_spec(),
{
    match t.root {
        Some(n) => lemma_node_height_le_size(*n),
        None => {}
    }
}

/// A sequence whose entries grow strictly from left to right: sorted, with
/// no two entries equal.
pub open spec fn strictly_ascending(s: Seq<i64>) -> bool {
    forall|i: int, j: int| 0 <= i < j < s.len() ==> s[i] < s[j]
}

/// In-order traversal of a well-formed subtree: strictly ascending, exactly
/// the stored values, one entry per node.
pub proof fn lemma_node_in_order(n: Node)
    requires
        n.well_formed(),
    ensures
        strictly_ascending(n.in_order_spec()),
        forall|x: i64| #[trigger] n.in_order_spec().contains(x) <==> n.as_set().contains(x),
        n.in_order_spec().len() == n.size_spec(),
    decreases n,
{
    match n.left {
        Some(l) => lemma_node_in_order(*l),
        None => {}
    }
    match n.right {
        Some(r) => lemma_node_in_order(*r),
        None => {}
    }
    let ls = Node::opt_in_order(n.left);
    let rs = Node::opt_in_order(n.right);
    let s = n.in_order_spec();
    assert forall|x: i64| #[trigger] s.contains(x) implies n.as_set().contains(x) by {
        let i = choose|i: int| 0 <= i < s.len() && s[i] == x;
        if i < ls.len() {
            assert(ls[i] == x);
            assert(ls.contains(x));
        } else if i == ls.len() {
            assert(x == n.value);
        } else {
            assert(rs[i - ls.len() - 1] == x);
            assert(rs.contains(x));
        }
    }
    assert forall|x: i64| n.as_set().contains(x) implies #[trigger] s.contains(x) by {
        if x == n.value {
            assert(s[ls.len() as int] == x);
        } else if Node::opt_set(n.left).contains(x) {
            assert(ls.contains(x));
            let i = choose|i: int| 0 <= i < ls.len() && ls[i] == x;
            assert(s[i] == x);
        } else {
            assert(rs.contains(x));
            let i = choose|i: int| 0 <= i < rs.len() && rs[i] == x;
            assert(s[ls.len() + 1 + i] == x);
        }
    }
    assert forall|i: int, j: int| 0 <= i < j < s.len() implies s[i] < s[j] by {
        if j < ls.len() {
            assert(s[i] == ls[i] && s[j] == ls[j]);
        } else if i < ls.len() {
            assert(s[i] == ls[i]);
            assert(ls.contains(ls[i]));
            assert(Node::opt_set(n.left).contains(s[i]));
            assert(s[i] < n.value);
            if j > ls.len() {
                assert(s[j] == rs[j - ls.len() - 1]);
                assert(rs.contains(rs[j - ls.len() - 1]));
                assert(Node::opt_set(n.right).contains(s[j]));
                assert(n.value < s[j]);
            }
        } else if i == ls.len() {
            assert(s[j] == rs[j - ls.len() - 1]);
            assert(rs.contains(rs[j - ls.len() - 1]));
            assert(Node::opt_set(n.right).contains(s[j]));
        } else {
            assert(s[i] == rs[i - ls.len() - 1] && s[j] == rs[j - ls.len() - 1]);
        }
    }
}

/// For every well-formed tree, the in-order traversal lists the stored
/// values in strictly ascending order — sorted, with duplicates dropped —
/// with one entry per node.
pub proof fn lemma_in_order_sorted(t: BinaryTree)
    requires
        t.well_formed(),
    ensures
        strictly_ascending(t.in_order_spec()),
        forall|x: i64| #[trigger] t.in_order_spec().contains(x) <==> t.as_set().contains(x),
        t.in_order_spec().len() == t.size_spec(),
{
    match t.root {
        Some(n) => lemma_node_in_order(*n),
        None => {}
    }
}

/// For every tree, the node count splits into the leaf count plus the count
/// of nodes with at least one child; in particular nodes >= leaves >= 0.
pub proof fn lemma_count_consistency(t: BinaryTree)
    ensures
        t.size_spec() == t.leaves_spec() + t.internal_spec(),
        t.leaves_spec() <= t.size_spec(),
{
    match t.root {
        Some(n) => lemma_node_census(*n),
        None => {}
    }
}

} // verus!
