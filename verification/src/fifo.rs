//! The abstract FIFO discipline: a queue seen as the sequence of its
//! elements, oldest first, and what each operation does to that sequence.

use vstd::prelude::*;

verus! {

/// The sequence after `elem` has joined at the back.
pub open spec fn enqueued<T>(items: Seq<T>, elem: T) -> Seq<T> {
    items.push(elem)
}

/// The element at the front, if there is one.
pub open spec fn front<T>(items: Seq<T>) -> Option<T> {
    if items.len() == 0 {
        None
    } else {
        Some(items[0])
    }
}

/// The sequence after the front element has left; an empty sequence stays
/// as it is.
pub open spec fn dequeued<T>(items: Seq<T>) -> Seq<T> {
    if items.len() == 0 {
        items
    } else {
        items.drop_first()
    }
}

/// One call on a queue.
pub enum Call<T> {
    Enqueue(T),
    Dequeue,
    Peek,
    Len,
}

/// The sequence after `call`. Only `Enqueue` and `Dequeue` change it.
pub open spec fn after<T>(items: Seq<T>, call: Call<T>) -> Seq<T> {
    match call {
        Call::Enqueue(elem) => enqueued(items, elem),
        Call::Dequeue => dequeued(items),
        Call::Peek => items,
        Call::Len => items,
    }
}

/// The sequence after all of `calls`, made in their order.
pub open spec fn after_all<T>(items: Seq<T>, calls: Seq<Call<T>>) -> Seq<T>
    decreases calls.len(),
{
    if calls.len() == 0 {
        items
    } else {
        after(after_all(items, calls.drop_last()), calls.last())
    }
}

/// How many of `calls` are an `Enqueue`.
pub open spec fn enqueues<T>(calls: Seq<Call<T>>) -> nat
    decreases calls.len(),
{
    if calls.len() == 0 {
        0
    } else if calls.last() is Enqueue {
        enqueues(calls.drop_last()) + 1
    } else {
        enqueues(calls.drop_last())
    }
}

/// How many of `calls`, made in their order from `items` on, are a `Dequeue`
/// that finds an element to return.
pub open spec fn dequeues<T>(items: Seq<T>, calls: Seq<Call<T>>) -> nat
    decreases calls.len(),
{
    if calls.len() == 0 {
        0
    } else if calls.last() is Dequeue && front(after_all(items, calls.drop_last())) is Some {
        dequeues(items, calls.drop_last()) + 1
    } else {
        dequeues(items, calls.drop_last())
    }
}

/// The calls that enqueue `elems` one after the other.
pub open spec fn enqueue_each<T>(elems: Seq<T>) -> Seq<Call<T>> {
    Seq::new(elems.len(), |i: int| Call::Enqueue(elems[i]))
}

/// `n` calls of `Dequeue`.
pub open spec fn dequeue_times<T>(n: nat) -> Seq<Call<T>> {
    Seq::new(n, |i: int| Call::Dequeue)
}

/// `n` calls of `Peek`.
pub open spec fn peek_times<T>(n: nat) -> Seq<Call<T>> {
    Seq::new(n, |i: int| Call::Peek)
}

/// Enqueuing `elems` one after the other appends them in their order.
pub proof fn lemma_enqueue_each<T>(items: Seq<T>, elems: Seq<T>)
    ensures
        after_all(items, enqueue_each(elems)) == items + elems,
    decreases elems.len(),
{
    if elems.len() == 0 {
        assert(items + elems =~= items);
    } else {
        lemma_enqueue_each(items, elems.drop_last());
        assert(enqueue_each(elems).drop_last() =~= enqueue_each(elems.drop_last()));
        assert(items + elems =~= (items + elems.drop_last()).push(elems.last()));
    }
}

/// `n` dequeues take the first `n` elements away, or all of them where
/// there are fewer.
pub proof fn lemma_dequeue_times<T>(items: Seq<T>, n: nat)
    ensures
        after_all(items, dequeue_times(n)) == if n <= items.len() {
            items.skip(n as int)
        } else {
            Seq::empty()
        },
    decreases n,
{
    if n == 0 {
        assert(items.skip(0) =~= items);
    } else {
        lemma_dequeue_times(items, (n - 1) as nat);
        assert(dequeue_times::<T>(n).drop_last() =~= dequeue_times::<T>((n - 1) as nat));
        if n <= items.len() {
            assert(items.skip(n - 1).drop_first() =~= items.skip(n as int));
        }
    }
}

/// First in, first out: after `elems` have been enqueued on an empty queue,
/// one after the other, the dequeues return them in that very order, and
/// the dequeue after the last of them finds nothing.
pub proof fn lemma_fifo_order<T>(elems: Seq<T>, k: nat)
    ensures
        front(after_all(after_all(Seq::empty(), enqueue_each(elems)), dequeue_times(k))) == if k
            < elems.len() {
            Some(elems[k as int])
        } else {
            None
        },
{
    lemma_enqueue_each(Seq::empty(), elems);
    assert(Seq::<T>::empty() + elems =~= elems);
    lemma_dequeue_times(elems, k);
}

/// The length is the number of the enqueues less the number of the
/// dequeues that returned an element, whatever calls were made on a queue
/// that began empty.
pub proof fn lemma_length_consistency<T>(calls: Seq<Call<T>>)
    ensures
        after_all(Seq::<T>::empty(), calls).len() == enqueues(calls) - dequeues(
            Seq::<T>::empty(),
            calls,
        ),
    decreases calls.len(),
{
    if calls.len() > 0 {
        lemma_length_consistency(calls.drop_last());
    }
}

/// On an empty queue `Dequeue` and `Peek` find nothing and change nothing,
/// however often and in whatever order they are called.
pub proof fn lemma_empty_idempotence<T>(calls: Seq<Call<T>>)
    requires
        forall|i: int| 0 <= i < calls.len() ==> calls[i] is Dequeue || calls[i] is Peek,
    ensures
        after_all(Seq::<T>::empty(), calls) == Seq::<T>::empty(),
        front(after_all(Seq::<T>::empty(), calls)) is None,
    decreases calls.len(),
{
    if calls.len() > 0 {
        lemma_empty_idempotence(calls.drop_last());
    }
}

/// After as many dequeues as it had elements a queue is empty, as a new one
/// is.
pub proof fn lemma_drained_is_empty<T>(items: Seq<T>)
    ensures
        after_all(items, dequeue_times(items.len())) == Seq::<T>::empty(),
{
    lemma_dequeue_times(items, items.len());
    assert(items.skip(items.len() as int) =~= Seq::<T>::empty());
}

/// However often `Peek` is called, the queue stays as it is: its length and
/// what the next dequeue returns are the same as before.
pub proof fn lemma_peek_changes_nothing<T>(items: Seq<T>, n: nat)
    ensures
        after_all(items, peek_times(n)) == items,
        after_all(items, peek_times(n)).len() == items.len(),
        front(after_all(items, peek_times(n))) == front(items),
    decreases n,
{
    if n > 0 {
        lemma_peek_changes_nothing(items, (n - 1) as nat);
        assert(peek_times::<T>(n).drop_last() =~= peek_times::<T>((n - 1) as nat));
    }
}

} // verus!
