//! Lookup of declarations by name: the first declaration with the name wins.

use crate::text::str_eq;
use vstd::prelude::*;

verus! {

/// A declaration that carries a name.
pub trait Named {
    spec fn spec_name(&self) -> Seq<char>;

    fn name_str(&self) -> (r: &str)
        ensures
            r@ == self.spec_name(),
    ;
}

/// `i` is the first position in `s` whose element satisfies `p`.
pub open spec fn is_first<T>(s: Seq<T>, p: spec_fn(T) -> bool, i: int) -> bool {
    &&& 0 <= i < s.len()
    &&& p(s[i])
    &&& forall|j: int| 0 <= j < i ==> !p(#[trigger] s[j])
}

/// The first element of `s` that satisfies `p`.
pub open spec fn find_first<T>(s: Seq<T>, p: spec_fn(T) -> bool) -> Option<T> {
    if exists|i: int| is_first(s, p, i) {
        Some(s[choose|i: int| is_first(s, p, i)])
    } else {
        None
    }
}

/// The element is named `name`.
pub open spec fn name_is<T: Named>(name: Seq<char>) -> spec_fn(T) -> bool {
    |x: T| x.spec_name() == name
}

/// The first element of `s` named `name`.
pub open spec fn named<T: Named>(s: Seq<T>, name: Seq<char>) -> Option<T> {
    find_first(s, name_is(name))
}

/// What `find_first` finds is an element of the sequence.
pub proof fn lemma_found_in<T>(s: Seq<T>, p: spec_fn(T) -> bool)
    requires
        find_first(s, p) is Some,
    ensures
        exists|j: int| 0 <= j < s.len() && s[j] == find_first(s, p)->0,
{
    let k = choose|i: int| is_first(s, p, i);
    assert(0 <= k < s.len() && s[k] == find_first(s, p)->0);
}

pub proof fn lemma_find_first_at<T>(s: Seq<T>, p: spec_fn(T) -> bool, i: int)
    requires
        is_first(s, p, i),
    ensures
        find_first(s, p) == Some(s[i]),
{
    let k = choose|k: int| is_first(s, p, k);
    assert(k == i) by {
        if k < i {
            assert(!p(s[k]));
        } else if k > i {
            assert(!p(s[i]));
        }
    }
}

pub proof fn lemma_find_first_none<T>(s: Seq<T>, p: spec_fn(T) -> bool)
    requires
        forall|j: int| 0 <= j < s.len() ==> !p(#[trigger] s[j]),
    ensures
        find_first(s, p) is None,
{
}

/// What `find_first` finds in a prefix it also finds in the whole.
pub proof fn lemma_find_first_prefix<T>(s: Seq<T>, t: Seq<T>, p: spec_fn(T) -> bool)
    requires
        find_first(s, p) is Some,
    ensures
        find_first(s + t, p) == find_first(s, p),
{
    let i = choose|i: int| is_first(s, p, i);
    assert(is_first(s + t, p, i)) by {
        assert forall|j: int| 0 <= j < i implies !p(#[trigger] (s + t)[j]) by {
            assert((s + t)[j] == s[j]);
        }
    }
    lemma_find_first_at(s + t, p, i);
    lemma_find_first_at(s, p, i);
}

/// The first element of `items` named `name`.
pub fn find_named<'a, T: Named>(items: &'a Vec<T>, name: &str) -> (r: Option<&'a T>)
    ensures
        match r {
            Some(x) => named(items@, name@) == Some(*x),
            None => named(items@, name@) is None,
        },
{
    let ghost p = name_is::<T>(name@);
    let mut i: usize = 0;
    while i < items.len()
        invariant
            i <= items@.len(),
            p == name_is::<T>(name@),
            forall|j: int| 0 <= j < i ==> !p(#[trigger] items@[j]),
        decreases items@.len() - i,
    {
        if str_eq(items[i].name_str(), name) {
            proof {
                lemma_find_first_at(items@, p, i as int);
            }
            return Some(&items[i]);
        }
        i += 1;
    }
    proof {
        lemma_find_first_none(items@, p);
    }
    None
}


/// `f` applied to every element of `s`, in order; `None` as soon as one application fails.
pub open spec fn map_all<A, B>(s: Seq<A>, f: spec_fn(A) -> Option<B>) -> Option<Seq<B>>
    decreases s.len(),
{
    if s.len() == 0 {
        Some(Seq::empty())
    } else {
        match map_all(s.drop_last(), f) {
            Some(bs) => match f(s.last()) {
                Some(b) => Some(bs.push(b)),
                None => None,
            },
            None => None,
        }
    }
}

/// One more element of a traversal by `map_all`.
pub proof fn lemma_map_all_step<A, B>(s: Seq<A>, f: spec_fn(A) -> Option<B>, k: int)
    requires
        0 <= k < s.len(),
    ensures
        map_all(s.subrange(0, k + 1), f) == (match map_all(s.subrange(0, k), f) {
            Some(bs) => match f(s[k]) {
                Some(b) => Some(bs.push(b)),
                None => None,
            },
            None => None,
        }),
{
    assert(s.subrange(0, k + 1).drop_last() =~= s.subrange(0, k));
}

/// A traversal by `map_all` that fails on a prefix fails on the whole sequence.
pub proof fn lemma_map_all_prefix<A, B>(s: Seq<A>, f: spec_fn(A) -> Option<B>, k: int)
    requires
        0 <= k <= s.len(),
        map_all(s.subrange(0, k), f) is None,
    ensures
        map_all(s, f) is None,
    decreases s.len() - k,
{
    if k < s.len() {
        lemma_map_all_step(s, f, k);
        lemma_map_all_prefix(s, f, k + 1);
    } else {
        assert(s.subrange(0, k) =~= s);
    }
}

} // verus!
