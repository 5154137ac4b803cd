//! A binary search tree of `i32` values, without balancing. Insertion and
//! search walk down from the root in a loop; neither recurses.

use vstd::prelude::*;

verus! {

/// One node of the tree: a value and the two subtrees below it.
#[derive(Debug)]
struct Node {
    value: i32,
    left: Option<Box<Node>>,
    right: Option<Box<Node>>,
}

/// The tree, reached from its root.
#[derive(Debug)]
pub struct BST {
    root: Option<Box<Node>>,
}

/// Whether `v` is the value of some node of `tree`.
spec fn holds(tree: Option<Box<Node>>, v: int) -> bool
    decreases tree,
{
    match tree {
        None => false,
        Some(node) => node.value == v || holds(node.left, v) || holds(node.right, v),
    }
}

/// The search order: every value of `tree` lies strictly between `lo` and
/// `hi`, what is left of a node is below its value and what is right of it is
/// above.
spec fn within(tree: Option<Box<Node>>, lo: int, hi: int) -> bool
    decreases tree,
{
    match tree {
        None => true,
        Some(node) => {
            &&& lo < node.value < hi
            &&& within(node.left, lo, node.value as int)
            &&& within(node.right, node.value as int, hi)
        },
    }
}

/// `after` holds what `before` holds, and `v` besides.
spec fn grown(before: Option<Box<Node>>, after: Option<Box<Node>>, v: int) -> bool {
    forall|w: int| holds(after, w) == (holds(before, w) || w == v)
}

/// `after` is `before` with `v` added, in search order between `lo` and `hi`.
spec fn filled(
    before: Option<Box<Node>>,
    after: Option<Box<Node>>,
    v: int,
    lo: int,
    hi: int,
) -> bool {
    grown(before, after, v) && within(after, lo, hi)
}

/// A value found in an ordered tree lies between the tree's bounds.
proof fn lemma_held_within(tree: Option<Box<Node>>, lo: int, hi: int, v: int)
    requires
        within(tree, lo, hi),
        holds(tree, v),
    ensures
        lo < v < hi,
    decreases tree,
{
    match tree {
        None => {},
        Some(node) => {
            if holds(node.left, v) {
                lemma_held_within(node.left, lo, node.value as int, v);
            }
            if holds(node.right, v) {
                lemma_held_within(node.right, node.value as int, hi, v);
            }
        },
    }
}

impl View for BST {
    type V = Set<int>;

    /// The set of the values in the tree.
    closed spec fn view(&self) -> Set<int> {
        Set::new(|v: int| holds(self.root, v))
    }
}

impl BST {
    /// The invariant of the tree: its nodes are in search order.
    pub closed spec fn wf(&self) -> bool {
        within(self.root, i32::MIN - 1, i32::MAX + 1)
    }

    /// An empty tree.
    pub fn new() -> (tree: Self)
        ensures
            tree.wf(),
            tree@ == Set::<int>::empty(),
    {
        let tree = BST { root: None };
        assert(tree@ =~= Set::<int>::empty());
        tree
    }

    /// Adds `value` to the tree; a value that is there already leaves the
    /// tree as it is. The walk goes down from the root to the empty place
    /// where the value belongs and fills it.
    #[verifier::loop_isolation(false)]
    pub fn insert(&mut self, value: i32)
        requires
            old(self).wf(),
        ensures
            final(self).wf(),
            final(self)@ == old(self)@.insert(value as int),
            old(self)@.contains(value as int) ==> *final(self) == *old(self),
    {
        let ghost lo0: int = i32::MIN - 1;
        let ghost hi0: int = i32::MAX + 1;
        let ghost mut lo: int = lo0;
        let ghost mut hi: int = hi0;
        let ghost before = self.root;
        let ghost after = final(self).root;
        let mut current = &mut self.root;
        loop
            invariant
                lo < value < hi,
                within(*current, lo, hi),
                holds(before, value as int) == holds(*current, value as int),
                *final(current) == *current ==> after == before,
                filled(*current, *final(current), value as int, lo, hi) ==> filled(
                    before,
                    after,
                    value as int,
                    lo0,
                    hi0,
                ),
            decreases *current,
        {
            let ghost here = *current;
            let ghost here_after = *final(current);
            let ghost lo1 = lo;
            let ghost hi1 = hi;
            match current {
                None => {
                    *current = Some(Box::new(Node { value, left: None, right: None }));
                    proof {
                        reveal_with_fuel(within, 2);
                        reveal_with_fuel(holds, 2);
                        assert(grown(here, *current, value as int));
                        assert(final(self)@ =~= old(self)@.insert(value as int));
                    }
                    return ;
                },
                Some(node) => {
                    if value < node.value {
                        proof {
                            if holds(node.right, value as int) {
                                lemma_held_within(node.right, node.value as int, hi, value as int);
                            }
                            hi = node.value as int;
                        }
                        current = &mut node.left;
                    } else if value > node.value {
                        proof {
                            if holds(node.left, value as int) {
                                lemma_held_within(node.left, lo, node.value as int, value as int);
                            }
                            lo = node.value as int;
                        }
                        current = &mut node.right;
                    } else {
                        proof {
                            assert(grown(here, here, value as int));
                            assert(final(self)@ =~= old(self)@.insert(value as int));
                        }
                        return ;
                    }
                    assert(filled(*current, *final(current), value as int, lo, hi) ==> filled(
                        here,
                        here_after,
                        value as int,
                        lo1,
                        hi1,
                    )) by {
                        if filled(*current, *final(current), value as int, lo, hi) {
                            assert forall|w: int| holds(here_after, w) == (holds(here, w) || w
                                == value) by {
                                assert(holds(*final(current), w) == (holds(*current, w) || w
                                    == value));
                            }
                        }
                    }
                },
            }
        }
    }

    /// Whether the tree holds no value.
    pub fn is_empty(&self) -> (empty: bool)
        ensures
            empty == (self@ == Set::<int>::empty()),
    {
        proof {
            if self.root is Some {
                assert(self@.contains(self.root->0.value as int));
            } else {
                assert(self@ =~= Set::<int>::empty());
            }
        }
        self.root.is_none()
    }

    /// Whether `value` is in the tree.
    pub fn search(&self, value: i32) -> (found: bool)
        requires
            self.wf(),
        ensures
            found == self@.contains(value as int),
    {
        let mut current = &self.root;
        let ghost mut lo: int = i32::MIN - 1;
        let ghost mut hi: int = i32::MAX + 1;
        loop
            invariant
                within(*current, lo, hi),
                holds(self.root, value as int) == holds(*current, value as int),
            decreases *current,
        {
            match current {
                None => {
                    return false;
                },
                Some(node) => {
                    if value == node.value {
                        return true;
                    } else if value < node.value {
                        proof {
                            if holds(node.right, value as int) {
                                lemma_held_within(node.right, node.value as int, hi, value as int);
                            }
                            hi = node.value as int;
                        }
                        current = &node.left;
                    } else {
                        proof {
                            if holds(node.left, value as int) {
                                lemma_held_within(node.left, lo, node.value as int, value as int);
                            }
                            lo = node.value as int;
                        }
                        current = &node.right;
                    }
                },
            }
        }
    }
}

} // verus!
