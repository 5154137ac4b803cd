//! A FIFO queue of singly linked nodes.
//!
//! The nodes live in an arena, a vector of slots, and refer to each other by
//! slot index. The queue keeps the index of the first node and of the last
//! one, so both ends are reached without walking the chain. A slot whose node
//! has left is kept on a free list and reused by a later insertion.
//!
//! No node owns another, so a queue that goes out of scope is released slot
//! by slot, without recursion, however long its chain is.

use vstd::prelude::*;
use crate::fifo::{dequeued, enqueued, front};

verus! {

/// One cell of the chain: an element and the slot of the node behind it.
pub struct Node<T> {
    elem: T,
    next: Option<usize>,
}

/// The queue: an arena of nodes, the slots of the first and the last node of
/// the chain, and the number of nodes in the chain.
pub struct Queue<T> {
    /// The arena. A slot holds a node of the chain or is empty.
    slots: Vec<Option<Node<T>>>,
    /// The empty slots, the one to be used next last.
    free: Vec<usize>,
    /// The slot of the node at the front; `None` where the queue is empty.
    head: Option<usize>,
    /// The slot of the node at the back; `None` where the queue is empty. It
    /// owns nothing: it only says where the next node is to be linked.
    tail: Option<usize>,
    /// The number of nodes in the chain.
    length: usize,
    /// The slots of the chain's nodes, from the head to the tail.
    chain: Ghost<Seq<usize>>,
}

impl<T> Queue<T> {
    /// The node at position `k` of the chain is in its slot, and is linked
    /// to the node at position `k + 1`, or to nothing where it is the last.
    spec fn node_at(&self, k: int) -> bool {
        let chain = self.chain@;
        let slots = self.slots@;
        &&& chain[k] < slots.len()
        &&& slots[chain[k] as int] matches Some(node)
        &&& node.next == (if k + 1 < chain.len() {
            Some(chain[k + 1])
        } else {
            None
        })
    }

    /// Entry `j` of the free list names an empty slot.
    spec fn spare_at(&self, j: int) -> bool {
        &&& self.free@[j] < self.slots@.len()
        &&& self.slots@[self.free@[j] as int] is None
    }

    /// No slot holds two nodes of the chain, and each node is linked to the
    /// one behind it.
    spec fn linked(&self) -> bool {
        &&& self.chain@.no_duplicates()
        &&& forall|k: int| 0 <= k < self.chain@.len() ==> #[trigger] self.node_at(k)
    }

    /// The free list names each empty slot once, and every slot is either in
    /// the chain or on the free list.
    spec fn spare(&self) -> bool {
        &&& self.free@.no_duplicates()
        &&& forall|j: int| 0 <= j < self.free@.len() ==> #[trigger] self.spare_at(j)
        &&& self.slots@.len() == self.chain@.len() + self.free@.len()
    }

    /// The invariant of the queue: the chain is linked from the head to the
    /// tail through occupied slots, no slot is used twice, `length` counts the
    /// nodes of the chain, and `head` and `tail` are `None` exactly where the
    /// chain is empty.
    pub closed spec fn wf(&self) -> bool {
        let chain = self.chain@;
        &&& self.linked()
        &&& self.spare()
        &&& self.length == chain.len()
        &&& self.head == (if chain.len() == 0 {
            None
        } else {
            Some(chain[0])
        })
        &&& self.tail == (if chain.len() == 0 {
            None
        } else {
            Some(chain.last())
        })
    }
}

impl<T> View for Queue<T> {
    type V = Seq<T>;

    /// The elements, front first.
    closed spec fn view(&self) -> Seq<T> {
        Seq::new(self.chain@.len(), |k: int| self.slots@[self.chain@[k] as int]->0.elem)
    }
}

impl<T> Queue<T> {
    /// An empty queue.
    pub fn new() -> (queue: Self)
        ensures
            queue.wf(),
            queue@ == Seq::<T>::empty(),
    {
        Queue {
            slots: Vec::new(),
            free: Vec::new(),
            head: None,
            tail: None,
            length: 0,
            chain: Ghost(Seq::empty()),
        }
    }

    /// Appends `elem` at the back. The new node goes to a spare slot, or to
    /// a fresh one where none is spare, and the old tail is linked to it.
    pub fn enqueue(&mut self, elem: T)
        requires
            old(self).wf(),
        ensures
            final(self).wf(),
            final(self)@ == enqueued(old(self)@, elem),
    {
        let ghost before = *self;
        let node = Node { elem, next: None };
        let slot = match self.free.pop() {
            Some(spare) => {
                assert(before.spare_at(before.free@.len() - 1));
                self.slots[spare] = Some(node);
                spare
            },
            None => {
                self.slots.push(Some(node));
                self.slots.len() - 1
            },
        };
        let ghost placed = *self;
        let ghost chain = before.chain@;
        proof {
            assert forall|k: int| 0 <= k < chain.len() implies chain[k] != slot
                && placed.slots@[chain[k] as int] == before.slots@[chain[k] as int] by {
                assert(before.node_at(k));
            }
            assert forall|j: int| 0 <= j < placed.free@.len() implies placed.free@[j] != slot
                && placed.slots@[placed.free@[j] as int] is None by {
                assert(before.spare_at(j));
            }
        }
        match self.tail {
            Some(last) => {
                assert(before.node_at(chain.len() - 1));
                match &mut self.slots[last] {
                    Some(tail_node) => {
                        tail_node.next = Some(slot);
                    },
                    None => {},
                }
            },
            None => {
                self.head = Some(slot);
            },
        }
        self.tail = Some(slot);
        assert(self.length < self.slots.len());
        self.length = self.length + 1;
        self.chain = Ghost(chain.push(slot));
        proof {
            assert forall|k: int| 0 <= k <= chain.len() implies #[trigger] self.node_at(k) by {
                if k < chain.len() {
                    assert(before.node_at(k));
                }
            }
            assert forall|j: int| 0 <= j < self.free@.len() implies #[trigger] self.spare_at(j) by {
                assert(before.spare_at(j));
                if chain.len() > 0 {
                    assert(before.node_at(chain.len() - 1));
                }
            }
            assert(self@ =~= enqueued(before@, elem)) by {
                assert forall|k: int| 0 <= k < chain.len() implies self@[k] == before@[k] by {
                    assert(before.node_at(k));
                }
            }
        }
    }

    /// Removes the element at the front and returns it; `None`, and nothing
    /// changes, where the queue is empty. The slot of the node that left joins
    /// the free list.
    pub fn dequeue(&mut self) -> (elem: Option<T>)
        requires
            old(self).wf(),
        ensures
            final(self).wf(),
            elem == front(old(self)@),
            final(self)@ == dequeued(old(self)@),
            old(self)@.len() == 0 ==> *final(self) == *old(self),
    {
        let ghost before = *self;
        match self.head {
            None => None,
            Some(first) => {
                assert(before.node_at(0));
                match self.slots[first].take() {
                    Some(node) => {
                        self.head = node.next;
                        if self.head.is_none() {
                            self.tail = None;
                        }
                        self.length = self.length - 1;
                        self.free.push(first);
                        self.chain = Ghost(before.chain@.drop_first());
                        proof {
                            assert forall|k: int| 0 <= k < self.chain@.len() implies #[trigger]
                                self.node_at(k) by {
                                assert(before.node_at(k + 1));
                            }
                            assert forall|j: int| 0 <= j < self.free@.len() implies #[trigger]
                                self.spare_at(j) by {
                                if j < before.free@.len() {
                                    assert(before.spare_at(j));
                                }
                            }
                            assert forall|j: int| 0 <= j < before.free@.len() implies
                                before.free@[j] != first by {
                                assert(before.spare_at(j));
                            }
                            assert(self@ =~= dequeued(before@)) by {
                                assert forall|k: int| 0 <= k < self.chain@.len() implies self@[k]
                                    == before@[k + 1] by {
                                    assert(before.node_at(k + 1));
                                }
                            }
                        }
                        Some(node.elem)
                    },
                    None => None,
                }
            },
        }
    }

    /// The element at the front, left in place.
    pub fn peek(&self) -> (elem: Option<&T>)
        requires
            self.wf(),
        ensures
            match elem {
                Some(first) => front(self@) == Some(*first),
                None => front(self@) is None,
            },
    {
        match self.head {
            None => None,
            Some(first) => {
                assert(self.node_at(0));
                match &self.slots[first] {
                    Some(node) => Some(&node.elem),
                    None => None,
                }
            },
        }
    }

    /// Tears the chain down without recursion: the elements leave one by one,
    /// front first, each by the path that `dequeue` takes, until none is left.
    pub fn clear(&mut self)
        requires
            old(self).wf(),
        ensures
            final(self).wf(),
            final(self)@ == Seq::<T>::empty(),
    {
        loop
            invariant
                self.wf(),
            ensures
                self.wf(),
                self@.len() == 0,
            decreases self@.len(),
        {
            if self.dequeue().is_none() {
                break ;
            }
        }
    }

    /// The number of elements.
    pub fn len(&self) -> (n: usize)
        requires
            self.wf(),
        ensures
            n == self@.len(),
    {
        self.length
    }
}

} // verus!
