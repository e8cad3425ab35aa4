//! The queue's model, a sequence of items oldest first, and the laws that
//! runs of pushes and pops obey on it.
use vstd::prelude::*;

verus! {

/// One pop on a queue holding `q`: the item returned and the items left.
pub open spec fn pop_model<T>(q: Seq<T>) -> (Option<T>, Seq<T>) {
    if q.len() == 0 {
        (None, q)
    } else {
        (Some(q[0]), q.drop_first())
    }
}

/// The items after pushing each value of `vs`, in order, onto a queue
/// holding `q`.
pub open spec fn push_all<T>(q: Seq<T>, vs: Seq<T>) -> Seq<T>
    decreases vs.len(),
{
    if vs.len() == 0 {
        q
    } else {
        push_all(q.push(vs[0]), vs.drop_first())
    }
}

/// `n` pops in a row on a queue holding `q`: what each returned, and the
/// items left.
pub open spec fn pop_n<T>(q: Seq<T>, n: nat) -> (Seq<Option<T>>, Seq<T>)
    decreases n,
{
    if n == 0 {
        (Seq::empty(), q)
    } else {
        let first = pop_model(q);
        let rest = pop_n(first.1, (n - 1) as nat);
        (seq![first.0] + rest.0, rest.1)
    }
}

/// A run of operations on a queue holding `q`, where `Some(v)` pushes `v`
/// and `None` pops: the items that the pops returned, in order, and the items
/// left. A pop on an empty queue returns nothing.
pub open spec fn run<T>(q: Seq<T>, ops: Seq<Option<T>>) -> (Seq<T>, Seq<T>)
    decreases ops.len(),
{
    if ops.len() == 0 {
        (Seq::empty(), q)
    } else {
        match ops[0] {
            Some(v) => run(q.push(v), ops.drop_first()),
            None => {
                let first = pop_model(q);
                let rest = run(first.1, ops.drop_first());
                match first.0 {
                    Some(x) => (seq![x] + rest.0, rest.1),
                    None => rest,
                }
            },
        }
    }
}

/// The values that the pushes of a run push, in order.
pub open spec fn pushed<T>(ops: Seq<Option<T>>) -> Seq<T>
    decreases ops.len(),
{
    if ops.len() == 0 {
        Seq::empty()
    } else {
        match ops[0] {
            Some(v) => seq![v] + pushed(ops.drop_first()),
            None => pushed(ops.drop_first()),
        }
    }
}

/// The items that the pops of a run of calls returned, in order: `ops[i]`
/// is the call made (`Some(v)` a push of `v`, `None` a pop) and `rs[i]` what
/// a pop returned.
pub open spec fn returned<T>(ops: Seq<Option<T>>, rs: Seq<Option<T>>) -> Seq<T>
    decreases ops.len(),
{
    if ops.len() == 0 {
        Seq::empty()
    } else {
        let before = returned(ops.drop_last(), rs.drop_last());
        if ops.last() is None && rs.last() is Some {
            before.push(rs.last()->0)
        } else {
            before
        }
    }
}

/// `pushed` of a run with one more call.
pub(crate) proof fn lemma_pushed_push<T>(ops: Seq<Option<T>>, op: Option<T>)
    ensures
        pushed(ops.push(op)) == match op {
            Some(v) => pushed(ops).push(v),
            None => pushed(ops),
        },
    decreases ops.len(),
{
    if ops.len() == 0 {
        assert(ops.push(op).drop_first() =~= Seq::<Option<T>>::empty());
        assert(pushed(ops.push(op).drop_first()) == Seq::<T>::empty());
        assert(ops.push(op)[0] == op);
        assert(ops =~= Seq::<Option<T>>::empty());
        match op {
            Some(v) => {
                assert(seq![v] + Seq::<T>::empty() =~= Seq::<T>::empty().push(v));
            },
            None => {},
        }
    } else {
        assert(ops.push(op).drop_first() =~= ops.drop_first().push(op));
        lemma_pushed_push(ops.drop_first(), op);
        assert(ops.push(op)[0] == ops[0]);
        match ops[0] {
            Some(v) => {
                match op {
                    Some(w) => {
                        assert(seq![v] + pushed(ops.drop_first()).push(w) =~= (seq![v] + pushed(
                            ops.drop_first(),
                        )).push(w));
                    },
                    None => {},
                }
            },
            None => {},
        }
    }
}

proof fn lemma_push_all<T>(q: Seq<T>, vs: Seq<T>)
    ensures
        push_all(q, vs) == q + vs,
    decreases vs.len(),
{
    if vs.len() > 0 {
        lemma_push_all(q.push(vs[0]), vs.drop_first());
        assert(q.push(vs[0]) + vs.drop_first() =~= q + vs);
    }
}

proof fn lemma_pop_n_all<T>(q: Seq<T>)
    ensures
        pop_n(q, q.len()) == (q.map_values(|v: T| Some(v)), Seq::<T>::empty()),
    decreases q.len(),
{
    if q.len() > 0 {
        lemma_pop_n_all(q.drop_first());
        let rest = pop_n(q.drop_first(), q.drop_first().len());
        assert(seq![Some(q[0])] + rest.0 =~= q.map_values(|v: T| Some(v)));
    } else {
        assert(q.map_values(|v: T| Some(v)) =~= Seq::<Option<T>>::empty());
        assert(q =~= Seq::<T>::empty());
    }
}

/// First in, first out: pushing the values `vs` onto an empty queue and then
/// popping as many times returns every value of `vs` in the order pushed, and
/// leaves the queue empty.
pub proof fn lemma_fifo<T>(vs: Seq<T>)
    ensures
        pop_n(push_all(Seq::<T>::empty(), vs), vs.len()) == (
            vs.map_values(|v: T| Some(v)),
            Seq::<T>::empty(),
        ),
{
    lemma_push_all(Seq::<T>::empty(), vs);
    assert(Seq::<T>::empty() + vs =~= vs);
    lemma_pop_n_all(vs);
}

/// A queue is empty exactly when a pop on it returns nothing.
pub proof fn lemma_empty_iff_pop_none<T>(q: Seq<T>)
    ensures
        (q.len() == 0) == (pop_model(q).0 is None),
{
}

proof fn lemma_run<T>(q: Seq<T>, ops: Seq<Option<T>>)
    ensures
        run(q, ops).0 + run(q, ops).1 == q + pushed(ops),
    decreases ops.len(),
{
    if ops.len() > 0 {
        let tail = ops.drop_first();
        match ops[0] {
            Some(v) => {
                lemma_run(q.push(v), tail);
                assert(q.push(v) + pushed(tail) =~= q + (seq![v] + pushed(tail)));
            },
            None => {
                lemma_run(pop_model(q).1, tail);
                if q.len() > 0 {
                    let rest = run(q.drop_first(), tail);
                    assert(seq![q[0]] + rest.0 + rest.1 =~= seq![q[0]] + (rest.0 + rest.1));
                    assert(seq![q[0]] + (q.drop_first() + pushed(tail)) =~= q + pushed(tail));
                }
            },
        }
    } else {
        assert(Seq::<T>::empty() + q =~= q + Seq::<T>::empty());
    }
}

/// No item is lost or made twice: over any run of pushes and pops from an
/// empty queue, the items the pops returned followed by the items left are
/// the pushed values in the order pushed. So the two together hold each
/// pushed value as often as it was pushed, and the values pushed by any one
/// producer come out in that producer's order.
pub proof fn lemma_no_loss<T>(ops: Seq<Option<T>>)
    ensures
        run(Seq::<T>::empty(), ops).0 + run(Seq::<T>::empty(), ops).1 == pushed(ops),
        (run(Seq::<T>::empty(), ops).0 + run(Seq::<T>::empty(), ops).1).to_multiset()
            == pushed(ops).to_multiset(),
{
    lemma_run(Seq::<T>::empty(), ops);
    assert(Seq::<T>::empty() + pushed(ops) =~= pushed(ops));
}

/// Conservation: over any run of pushes and pops from an empty queue, the
/// number of items popped plus the number left is the number of pushes.
pub proof fn lemma_conservation<T>(ops: Seq<Option<T>>)
    ensures
        run(Seq::<T>::empty(), ops).0.len() + run(Seq::<T>::empty(), ops).1.len()
            == pushed(ops).len(),
{
    lemma_no_loss(ops);
}

} // verus!
