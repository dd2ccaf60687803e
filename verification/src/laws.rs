//! Laws relating the buffer's operations, stated over the sequence models
//! that the operations' contracts use and proved once and for all.

use vstd::prelude::*;
use crate::pushed;

verus! {

/// The logical sequence after pushing each element of `vs`, in order, onto
/// a buffer of capacity `cap` whose live elements are `s`.
pub open spec fn push_all<T>(s: Seq<T>, cap: nat, vs: Seq<T>) -> Seq<T>
    decreases vs.len(),
{
    if vs.len() == 0 {
        s
    } else {
        push_all(pushed(s, cap, vs[0]), cap, vs.subrange(1, vs.len() as int))
    }
}

/// The sequence of values yielded by popping a buffer whose live elements
/// are `s` until it is empty.
pub open spec fn drained<T>(s: Seq<T>) -> Seq<T>
    decreases s.len(),
{
    if s.len() == 0 {
        Seq::<T>::empty()
    } else {
        seq![s[0]] + drained(s.subrange(1, s.len() as int))
    }
}

/// The sequence of values a cursor standing at position `k` still yields,
/// in order, before it reports the end.
pub open spec fn iterated_from<T>(s: Seq<T>, k: nat) -> Seq<T>
    decreases s.len() - k,
    when k <= s.len()
{
    if k >= s.len() {
        Seq::<T>::empty()
    } else {
        seq![s[k as int]] + iterated_from(s, k + 1)
    }
}

/// Pushing a batch that still fits appends it: no element is lost or
/// reordered while the buffer has room.
pub proof fn lemma_push_all_appends<T>(s: Seq<T>, cap: nat, vs: Seq<T>)
    requires
        s.len() + vs.len() <= cap,
    ensures
        push_all(s, cap, vs) == s + vs,
    decreases vs.len(),
{
    if vs.len() == 0 {
        assert(s + vs =~= s);
    } else {
        assert(pushed(s, cap, vs[0]) == s.push(vs[0]));
        lemma_push_all_appends(s.push(vs[0]), cap, vs.subrange(1, vs.len() as int));
        assert(s.push(vs[0]) + vs.subrange(1, vs.len() as int) =~= s + vs);
    }
}

/// Pushing one more value after a batch is the same as pushing the batch
/// and then that value.
pub proof fn lemma_push_all_snoc<T>(s: Seq<T>, cap: nat, vs: Seq<T>, v: T)
    ensures
        push_all(s, cap, vs.push(v)) == pushed(push_all(s, cap, vs), cap, v),
    decreases vs.len(),
{
    if vs.len() == 0 {
        assert(vs.push(v)[0] == v);
        assert(vs.push(v).subrange(1, 1) =~= Seq::<T>::empty());
        assert(push_all(s, cap, vs.push(v)) == push_all(
            pushed(s, cap, v),
            cap,
            Seq::<T>::empty(),
        ));
        assert(push_all(pushed(s, cap, v), cap, Seq::<T>::empty()) == pushed(s, cap, v));
        assert(push_all(s, cap, vs) == s);
    } else {
        assert(vs.push(v)[0] == vs[0]);
        assert(vs.push(v).subrange(1, (vs.len() + 1) as int) =~= vs.subrange(
            1,
            vs.len() as int,
        ).push(v));
        assert(push_all(s, cap, vs.push(v)) == push_all(
            pushed(s, cap, vs[0]),
            cap,
            vs.subrange(1, vs.len() as int).push(v),
        ));
        lemma_push_all_snoc(pushed(s, cap, vs[0]), cap, vs.subrange(1, vs.len() as int), v);
        assert(push_all(s, cap, vs) == push_all(
            pushed(s, cap, vs[0]),
            cap,
            vs.subrange(1, vs.len() as int),
        ));
    }
}

/// Filling an empty buffer of capacity `cap` with at most `cap` values
/// retains exactly those values, in insertion order. With exactly `cap`
/// values the buffer ends full.
pub proof fn lemma_fill_from_empty<T>(vs: Seq<T>, cap: nat)
    requires
        vs.len() <= cap,
    ensures
        push_all(Seq::<T>::empty(), cap, vs) == vs,
{
    lemma_push_all_appends(Seq::<T>::empty(), cap, vs);
    assert(Seq::<T>::empty() + vs =~= vs);
}

/// Pushing one value past capacity evicts exactly the oldest element: a
/// full buffer built from `vs` holds `vs` without its first element,
/// followed by the new value, and its length stays at the capacity.
pub proof fn lemma_push_past_capacity_evicts_oldest<T>(vs: Seq<T>, cap: nat, v: T)
    requires
        vs.len() == cap,
        cap > 0,
    ensures
        push_all(Seq::<T>::empty(), cap, vs.push(v)) == vs.subrange(1, cap as int).push(v),
        push_all(Seq::<T>::empty(), cap, vs.push(v)).len() == cap,
{
    lemma_push_all_snoc(Seq::<T>::empty(), cap, vs, v);
    lemma_fill_from_empty(vs, cap);
}

/// Popping repeatedly yields the live elements strictly in insertion
/// order, oldest first, one per pop, until the buffer is empty.
pub proof fn lemma_pop_yields_fifo<T>(s: Seq<T>)
    ensures
        drained(s) == s,
    decreases s.len(),
{
    if s.len() == 0 {
        assert(drained(s) =~= s);
    } else {
        lemma_pop_yields_fifo(s.subrange(1, s.len() as int));
        assert(seq![s[0]] + s.subrange(1, s.len() as int) =~= s);
    }
}

/// A cursor standing at position `k` yields exactly the elements from `k`
/// to the end, in order.
proof fn lemma_iterated_from_subrange<T>(s: Seq<T>, k: nat)
    requires
        k <= s.len(),
    ensures
        iterated_from(s, k) == s.subrange(k as int, s.len() as int),
    decreases s.len() - k,
{
    if k >= s.len() {
        assert(iterated_from(s, k) =~= s.subrange(k as int, s.len() as int));
    } else {
        lemma_iterated_from_subrange(s, k + 1);
        assert(seq![s[k as int]] + s.subrange(k as int + 1, s.len() as int) =~= s.subrange(
            k as int,
            s.len() as int,
        ));
    }
}

/// A full iteration yields the live elements exactly, so the `i`-th value
/// an iteration yields equals the element at logical index `i`: sequential
/// iteration and random access agree.
pub proof fn lemma_iteration_matches_random_access<T>(s: Seq<T>)
    ensures
        iterated_from(s, 0) == s,
        forall|i: int| 0 <= i < s.len() ==> iterated_from(s, 0)[i] == s[i],
{
    lemma_iterated_from_subrange(s, 0);
    assert(s.subrange(0, s.len() as int) =~= s);
}

/// Round trip: filling an empty buffer with at most `cap` values and then
/// popping until empty returns exactly those values, in the order they
/// were inserted, and leaves the buffer empty.
pub proof fn lemma_round_trip<T>(vs: Seq<T>, cap: nat)
    requires
        vs.len() <= cap,
    ensures
        push_all(Seq::<T>::empty(), cap, vs) == vs,
        drained(push_all(Seq::<T>::empty(), cap, vs)) == vs,
{
    lemma_fill_from_empty(vs, cap);
    lemma_pop_yields_fifo(vs);
}

} // verus!
