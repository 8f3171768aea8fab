//! Laws of the ring model: what sequences of pushes and pops yield, proved
//! over `RingModel` so they hold of every ring the exec operations produce.

use vstd::prelude::*;

use crate::model::RingModel;
use vstd::arithmetic::div_mod::lemma_fundamental_div_mod;
use vstd::arithmetic::div_mod::lemma_mod_multiples_vanish;
use vstd::arithmetic::div_mod::lemma_mod_self_0;
use vstd::arithmetic::div_mod::lemma_small_mod;

verus! {

/// Adding a multiple of the modulus on the left leaves the remainder alone.
proof fn lemma_mod_add_left(a: int, b: int, m: int)
    requires
        m > 0,
    ensures
        (a % m + b) % m == (a + b) % m,
{
    lemma_fundamental_div_mod(a, m);
    lemma_mod_multiples_vanish(a / m, a % m + b, m);
}

/// Advancing a cursor that sits in `[0, cap)` either steps it by one or
/// wraps it to zero.
proof fn lemma_advance(i: int, cap: int)
    requires
        0 <= i < cap,
    ensures
        (i + 1) % cap == if i + 1 == cap { 0int } else { i + 1 },
{
    if i + 1 == cap {
        lemma_mod_self_0(cap);
    } else {
        lemma_small_mod((i + 1) as nat, cap as nat);
    }
}

/// Pushing a sequence never touches the read cursor or the capacity, and
/// moves the write cursor by the sequence length, modulo the capacity.
proof fn lemma_pushes_cursors<T>(m: RingModel<T>, vs: Seq<T>)
    requires
        m.wf(),
    ensures
        ({
            let p = m.after_pushes(vs);
            &&& p.wf()
            &&& p.cap() == m.cap()
            &&& p.read == m.read
            &&& p.write == (m.write + vs.len()) % m.cap()
        }),
    decreases vs.len(),
{
    let cap = m.cap();
    if vs.len() == 0 {
        lemma_small_mod(m.write as nat, cap as nat);
    } else {
        let m1 = m.after_push(vs[0]);
        lemma_advance(m.write, cap);
        lemma_pushes_cursors(m1, vs.drop_first());
        let p = m.after_pushes(vs);
        assert(p.write == (m1.write + vs.len() - 1) % cap);
        if m.write + 1 == cap {
            lemma_mod_multiples_vanish(1, m1.write + vs.len() - 1, cap);
            assert(cap * 1 + (m1.write + vs.len() - 1) == m.write + vs.len());
        }
    }
}

/// Pushing a concatenation is pushing the first part, then the second.
proof fn lemma_pushes_compose<T>(m: RingModel<T>, vs1: Seq<T>, vs2: Seq<T>)
    ensures
        m.after_pushes(vs1 + vs2) == m.after_pushes(vs1).after_pushes(vs2),
    decreases vs1.len(),
{
    if vs1.len() == 0 {
        assert(vs1 + vs2 =~= vs2);
    } else {
        assert((vs1 + vs2)[0] == vs1[0]);
        assert((vs1 + vs2).drop_first() =~= vs1.drop_first() + vs2);
        lemma_pushes_compose(m.after_push(vs1[0]), vs1.drop_first(), vs2);
    }
}

/// Pushing `vs` when it fits between the write cursor and the end of the
/// storage fills the slots `[write, write + |vs|)` in order and leaves every
/// other slot alone.
proof fn lemma_pushes_no_wrap<T>(m: RingModel<T>, vs: Seq<T>)
    requires
        m.wf(),
        m.write + vs.len() <= m.cap(),
    ensures
        ({
            let p = m.after_pushes(vs);
            &&& p.wf()
            &&& p.cap() == m.cap()
            &&& p.read == m.read
            &&& p.write == (m.write + vs.len()) % m.cap()
            &&& p.slots == Seq::new(
                m.cap() as nat,
                |i: int|
                    if m.write <= i < m.write + vs.len() {
                        Some(vs[i - m.write])
                    } else {
                        m.slots[i]
                    },
            )
        }),
    decreases vs.len(),
{
    let cap = m.cap();
    let p = m.after_pushes(vs);
    lemma_pushes_cursors(m, vs);
    if vs.len() == 0 {
        assert(p.slots =~= Seq::new(
            cap as nat,
            |i: int|
                if m.write <= i < m.write + vs.len() {
                    Some(vs[i - m.write])
                } else {
                    m.slots[i]
                },
        ));
    } else {
        let m1 = m.after_push(vs[0]);
        lemma_advance(m.write, cap);
        lemma_pushes_no_wrap(m1, vs.drop_first());
        assert(p.slots =~= Seq::new(
            cap as nat,
            |i: int|
                if m.write <= i < m.write + vs.len() {
                    Some(vs[i - m.write])
                } else {
                    m.slots[i]
                },
        ));
    }
}

/// Popping `n` slots when they fit between the read cursor and the end of
/// the storage returns exactly those slots in order, empties them, and
/// leaves every other slot and the write cursor alone.
proof fn lemma_pops_no_wrap<T>(m: RingModel<T>, n: int)
    requires
        m.wf(),
        0 <= n,
        m.read + n <= m.cap(),
    ensures
        ({
            let p = m.after_pops(n as nat);
            &&& m.pop_results(n as nat) == m.slots.subrange(m.read, m.read + n)
            &&& p.wf()
            &&& p.cap() == m.cap()
            &&& p.write == m.write
            &&& p.read == (m.read + n) % m.cap()
            &&& p.slots == Seq::new(
                m.cap() as nat,
                |i: int| if m.read <= i < m.read + n { None } else { m.slots[i] },
            )
        }),
    decreases n,
{
    let cap = m.cap();
    let p = m.after_pops(n as nat);
    if n == 0 {
        lemma_small_mod(m.read as nat, cap as nat);
        assert(m.pop_results(0) =~= m.slots.subrange(m.read, m.read));
        assert(p.slots =~= Seq::new(
            cap as nat,
            |i: int| if m.read <= i < m.read + n { None } else { m.slots[i] },
        ));
    } else {
        let m1 = m.after_pop();
        lemma_advance(m.read, cap);
        lemma_pops_no_wrap(m1, n - 1);
        if m.read + 1 == cap {
            lemma_mod_multiples_vanish(1, 0, cap);
        } else {
            lemma_mod_add_left(m.read + 1, n - 1, cap);
            lemma_small_mod((m.read + 1) as nat, cap as nat);
        }
        assert(m.pop_results(n as nat) =~= m.slots.subrange(m.read, m.read + n));
        assert(p.slots =~= Seq::new(
            cap as nat,
            |i: int| if m.read <= i < m.read + n { None } else { m.slots[i] },
        ));
    }
}

/// A ring created empty yields "no value" on each of its first `capacity`
/// pops, absent any push.
pub proof fn lemma_new_pops_nothing<T>(cap: int, n: int)
    requires
        0 < cap,
        0 <= n <= cap,
    ensures
        RingModel::<T>::empty(cap).pop_results(n as nat) == Seq::new(
            n as nat,
            |i: int| Option::<T>::None,
        ),
{
    let m = RingModel::<T>::empty(cap);
    lemma_pops_no_wrap(m, n);
    assert(m.slots.subrange(0, n) =~= Seq::new(n as nat, |i: int| Option::<T>::None));
}

/// Round trip: pushing `vs` (at most `capacity` values) into an empty ring
/// with no intervening pops, then popping `|vs|` times, yields exactly `vs`
/// in order.
pub proof fn lemma_round_trip<T>(cap: int, vs: Seq<T>)
    requires
        0 < cap,
        vs.len() <= cap,
    ensures
        RingModel::<T>::empty(cap).after_pushes(vs).pop_results(vs.len()) == vs.map(
            |i: int, v: T| Some(v),
        ),
{
    let m = RingModel::<T>::empty(cap);
    lemma_pushes_no_wrap(m, vs);
    let p = m.after_pushes(vs);
    lemma_pops_no_wrap(p, vs.len() as int);
    assert(p.slots.subrange(0, vs.len() as int) =~= vs.map(|i: int, v: T| Some(v)));
}

/// Overwrite under overflow: pushing `cap + extra` values into an empty
/// ring, where `extra` is a positive multiple of the capacity, then popping
/// `cap` times, yields the last `cap` values pushed, oldest surviving value
/// first; one further pop yields "no value". (When `extra` is not a
/// multiple of the capacity the read cursor — still at slot zero — meets
/// the survivors mid-lap, so the pops start at the newest value instead.)
pub proof fn lemma_overwrite_fifo<T>(cap: int, vs: Seq<T>)
    requires
        0 < cap,
        vs.len() > cap,
        vs.len() as int % cap == 0,
    ensures
        ({
            let p = RingModel::<T>::empty(cap).after_pushes(vs);
            &&& p.pop_results(cap as nat) == vs.skip(vs.len() - cap).map(|i: int, v: T| Some(v))
            &&& p.after_pops(cap as nat).pop_result() is None
        }),
{
    let m0 = RingModel::<T>::empty(cap);
    let k = vs.len() - cap;
    let head = vs.take(k as int);
    let tail = vs.skip(k as int);
    assert(head + tail =~= vs);
    lemma_pushes_compose(m0, head, tail);
    let m1 = m0.after_pushes(head);
    lemma_pushes_cursors(m0, head);
    // k is a multiple of cap, so the write cursor is back at zero.
    lemma_fundamental_div_mod(vs.len() as int, cap);
    lemma_mod_multiples_vanish(vs.len() as int / cap - 1, 0, cap);
    let q = vs.len() as int / cap;
    assert(cap * (q - 1) == cap * q - cap) by (nonlinear_arith);
    assert(cap * (q - 1) + 0 == k);
    assert(m1.write == 0);
    lemma_pushes_no_wrap(m1, tail);
    let p = m1.after_pushes(tail);
    lemma_mod_self_0(cap);
    assert(p == m0.after_pushes(vs));
    lemma_pops_no_wrap(p, cap);
    assert(p.slots.subrange(0, cap) =~= tail.map(|i: int, v: T| Some(v)));
    assert(p.after_pops(cap as nat).pop_result() is None);
}

/// Interleaving: from any well-formed state whose cursors coincide — as
/// they do in a fresh ring and after every such pair — a push followed by a
/// pop returns exactly the value pushed, and leaves the cursors coincident
/// again, at an unchanged capacity.
pub proof fn lemma_alternating<T>(m: RingModel<T>, v: T)
    requires
        m.wf(),
        m.read == m.write,
    ensures
        m.after_push(v).pop_result() == Some(v),
        m.after_push(v).after_pop().wf(),
        m.after_push(v).after_pop().cap() == m.cap(),
        m.after_push(v).after_pop().read == m.after_push(v).after_pop().write,
{
    lemma_advance(m.write, m.cap());
}

/// Construction from a non-empty sequence sets the capacity to its length;
/// an immediate push of `x` followed by that many pops yields `x` and then
/// the tail of the sequence: the first element — the logically oldest — is
/// the one overwritten, since the write cursor starts at zero independent
/// of the read cursor.
pub proof fn lemma_from_overwrites_oldest<T>(vs: Seq<T>, x: T)
    requires
        vs.len() > 0,
    ensures
        RingModel::<T>::full_of(vs).cap() == vs.len(),
        RingModel::<T>::full_of(vs).after_push(x).pop_results(vs.len()) == seq![Some(x)]
            + vs.skip(1).map(|i: int, v: T| Some(v)),
{
    let m = RingModel::<T>::full_of(vs);
    let m1 = m.after_push(x);
    lemma_advance(0, m.cap());
    lemma_pops_no_wrap(m1, vs.len() as int);
    assert(m1.slots.subrange(0, vs.len() as int) =~= seq![Some(x)] + vs.skip(1).map(
        |i: int, v: T| Some(v),
    ));
}

} // verus!
