//! Transformations of the keys or the values of a list of key-value pairs, in order.

use vstd::prelude::*;

verus! {

/// The pairs whose transformed key is present, with that key.
pub open spec fn kept_keys<K, K2, V>(entries: Seq<(K, V)>, outs: Seq<Option<K2>>) -> Seq<(K2, V)>
    decreases entries.len(),
{
    if entries.len() == 0 || outs.len() == 0 {
        Seq::empty()
    } else {
        let rest = kept_keys(entries.drop_last(), outs.drop_last());
        match outs.last() {
            Some(k) => rest.push((k, entries.last().1)),
            None => rest,
        }
    }
}

/// The pairs whose transformed value is present, with that value.
pub open spec fn kept_values<K, V, V2>(entries: Seq<(K, V)>, outs: Seq<Option<V2>>) -> Seq<(K, V2)>
    decreases entries.len(),
{
    if entries.len() == 0 || outs.len() == 0 {
        Seq::empty()
    } else {
        let rest = kept_values(entries.drop_last(), outs.drop_last());
        match outs.last() {
            Some(v) => rest.push((entries.last().0, v)),
            None => rest,
        }
    }
}

/// Applies `f` to every key, keeping the values and the order.
pub fn map_keys<K, K2, V, F: Fn(K) -> K2>(entries: Vec<(K, V)>, f: F) -> (r: Vec<(K2, V)>)
    requires
        forall|k: K| call_requires(f, (k,)),
    ensures
        r@.len() == entries@.len(),
        forall|i: int|
            0 <= i < r@.len() ==> call_ensures(f, (entries@[i].0,), #[trigger] r@[i].0) && r@[i].1
                == entries@[i].1,
{
    let ghost start = entries@;
    let mut rest = entries;
    let mut out: Vec<(K2, V)> = Vec::new();
    while rest.len() > 0
        invariant
            forall|k: K| call_requires(f, (k,)),
            out@.len() + rest@.len() == start.len(),
            rest@ == start.subrange(out@.len() as int, start.len() as int),
            forall|i: int|
                0 <= i < out@.len() ==> call_ensures(f, (start[i].0,), #[trigger] out@[i].0)
                    && out@[i].1 == start[i].1,
        decreases rest@.len(),
    {
        let (k, v) = rest.remove(0);
        out.push((f(k), v));
    }
    out
}

/// Applies `f` to every value, keeping the keys and the order.
pub fn map_values<K, V, V2, F: Fn(V) -> V2>(entries: Vec<(K, V)>, f: F) -> (r: Vec<(K, V2)>)
    requires
        forall|v: V| call_requires(f, (v,)),
    ensures
        r@.len() == entries@.len(),
        forall|i: int|
            0 <= i < r@.len() ==> call_ensures(f, (entries@[i].1,), #[trigger] r@[i].1) && r@[i].0
                == entries@[i].0,
{
    let ghost start = entries@;
    let mut rest = entries;
    let mut out: Vec<(K, V2)> = Vec::new();
    while rest.len() > 0
        invariant
            forall|v: V| call_requires(f, (v,)),
            out@.len() + rest@.len() == start.len(),
            rest@ == start.subrange(out@.len() as int, start.len() as int),
            forall|i: int|
                0 <= i < out@.len() ==> call_ensures(f, (start[i].1,), #[trigger] out@[i].1)
                    && out@[i].0 == start[i].0,
        decreases rest@.len(),
    {
        let (k, v) = rest.remove(0);
        out.push((k, f(v)));
    }
    out
}

/// Applies `f` to every key and keeps, in order, the pairs for which it gives a key.
pub fn filter_map_keys<K, K2, V, F: Fn(K) -> Option<K2>>(entries: Vec<(K, V)>, f: F) -> (r: Vec<
    (K2, V),
>)
    requires
        forall|k: K| call_requires(f, (k,)),
    ensures
        exists|outs: Seq<Option<K2>>|
            outs.len() == entries@.len() && (forall|i: int|
                0 <= i < outs.len() ==> call_ensures(f, (entries@[i].0,), #[trigger] outs[i]))
                && r@ == kept_keys(entries@, outs),
{
    let ghost start = entries@;
    let ghost mut outs: Seq<Option<K2>> = Seq::empty();
    let mut rest = entries;
    let mut out: Vec<(K2, V)> = Vec::new();
    while rest.len() > 0
        invariant
            forall|k: K| call_requires(f, (k,)),
            outs.len() + rest@.len() == start.len(),
            rest@ == start.subrange(outs.len() as int, start.len() as int),
            forall|i: int| 0 <= i < outs.len() ==> call_ensures(f, (start[i].0,), #[trigger] outs[i]),
            out@ == kept_keys(start.subrange(0, outs.len() as int), outs),
        decreases rest@.len(),
    {
        let ghost n = outs.len() as int;
        let ghost old_outs = outs;
        let ghost old_out = out@;
        let (k, v) = rest.remove(0);
        assert((k, v) == start[n]);
        let o = f(k);
        proof {
            outs = outs.push(o);
            assert(start.subrange(0, n + 1).drop_last() =~= start.subrange(0, n));
            assert(outs.drop_last() =~= old_outs);
            assert(start.subrange(0, n + 1).last() == start[n]);
        }
        if let Some(k2) = o {
            out.push((k2, v));
        }
        assert(out@ =~= kept_keys(start.subrange(0, n + 1), outs));
    }
    assert(start.subrange(0, outs.len() as int) =~= start);
    out
}

/// Applies `f` to every value and keeps, in order, the pairs for which it gives a value.
pub fn filter_map_values<K, V, V2, F: Fn(V) -> Option<V2>>(entries: Vec<(K, V)>, f: F) -> (r: Vec<
    (K, V2),
>)
    requires
        forall|v: V| call_requires(f, (v,)),
    ensures
        exists|outs: Seq<Option<V2>>|
            outs.len() == entries@.len() && (forall|i: int|
                0 <= i < outs.len() ==> call_ensures(f, (entries@[i].1,), #[trigger] outs[i]))
                && r@ == kept_values(entries@, outs),
{
    let ghost start = entries@;
    let ghost mut outs: Seq<Option<V2>> = Seq::empty();
    let mut rest = entries;
    let mut out: Vec<(K, V2)> = Vec::new();
    while rest.len() > 0
        invariant
            forall|v: V| call_requires(f, (v,)),
            outs.len() + rest@.len() == start.len(),
            rest@ == start.subrange(outs.len() as int, start.len() as int),
            forall|i: int| 0 <= i < outs.len() ==> call_ensures(f, (start[i].1,), #[trigger] outs[i]),
            out@ == kept_values(start.subrange(0, outs.len() as int), outs),
        decreases rest@.len(),
    {
        let ghost n = outs.len() as int;
        let ghost old_outs = outs;
        let ghost old_out = out@;
        let (k, v) = rest.remove(0);
        assert((k, v) == start[n]);
        let o = f(v);
        proof {
            outs = outs.push(o);
            assert(start.subrange(0, n + 1).drop_last() =~= start.subrange(0, n));
            assert(outs.drop_last() =~= old_outs);
            assert(start.subrange(0, n + 1).last() == start[n]);
        }
        if let Some(v2) = o {
            out.push((k, v2));
        }
        assert(out@ =~= kept_values(start.subrange(0, n + 1), outs));
    }
    assert(start.subrange(0, outs.len() as int) =~= start);
    out
}

} // verus!
