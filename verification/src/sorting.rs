//! Sorting by a total order on the items' views, used to list a flow's nodes
//! and edges in an order that does not depend on how the flow was built.
use vstd::prelude::*;
use vstd::relations::*;
use vstd::seq_lib::*;
use vstd::multiset::*;
use crate::text::{lemma_text_order_total, text_le, text_less_eq, text_order};

verus! {

/// The views of a sequence of items.
pub open spec fn views<T: View>(s: Seq<T>) -> Seq<T::V> {
    s.map_values(|x: T| x@)
}

/// Items that can be compared through their views by a total order.
pub trait SortKey: View + Sized {
    /// The order on views.
    spec fn key_le(a: Self::V, b: Self::V) -> bool;

    /// `key_le` is a total order.
    proof fn lemma_key_order_total()
        ensures
            total_ordering(|a: Self::V, b: Self::V| Self::key_le(a, b)),
    ;

    /// Whether `self` comes no later than `other`.
    fn key_less_eq(&self, other: &Self) -> (le: bool)
        ensures
            le == Self::key_le(self@, other@),
    ;
}

/// `key_le` as a spec closure, the form `sort_by` takes.
pub open spec fn key_order<T: SortKey>() -> spec_fn(T::V, T::V) -> bool {
    |a: T::V, b: T::V| T::key_le(a, b)
}

proof fn lemma_insert_keeps_sorted<A>(s: Seq<A>, j: int, x: A, leq: spec_fn(A, A) -> bool)
    requires
        total_ordering(leq),
        sorted_by(s, leq),
        0 <= j <= s.len(),
        forall|i: int| 0 <= i < j ==> #[trigger] leq(s[i], x),
        j < s.len() ==> leq(x, s[j]),
    ensures
        sorted_by(s.insert(j, x), leq),
{
    let t = s.insert(j, x);
    assert forall|a: int, b: int| 0 <= a < b < t.len() implies #[trigger] leq(t[a], t[b]) by {
        if b < j {
            assert(t[a] == s[a] && t[b] == s[b]);
        } else if b == j {
            assert(t[a] == s[a]);
        } else if a == j {
            assert(t[b] == s[b - 1]);
            if b - 1 > j {
                assert(leq(s[j], s[b - 1]));
            }
        } else if a < j {
            assert(t[a] == s[a] && t[b] == s[b - 1]);
        } else {
            assert(t[a] == s[a - 1] && t[b] == s[b - 1]);
        }
    }
}

/// The items of `items` in the order of their keys: the one sequence that is
/// sorted and holds the same views as often as `items` does.
pub fn sort_by_key<T: SortKey>(items: Vec<T>) -> (sorted: Vec<T>)
    ensures
        views(sorted@) == views(items@).sort_by(key_order::<T>()),
{
    broadcast use group_to_multiset_ensures;
    broadcast use vstd::multiset::group_multiset_axioms;

    let ghost original = views(items@);
    let ghost leq = key_order::<T>();
    proof {
        T::lemma_key_order_total();
        assert(leq =~= |a: T::V, b: T::V| T::key_le(a, b));
    }
    let mut rest = items;
    let mut out: Vec<T> = Vec::new();
    assert(views(out@) =~= Seq::<T::V>::empty());
    assert(views(rest@) =~= original);
    while rest.len() > 0
        invariant
            leq == key_order::<T>(),
            total_ordering(leq),
            sorted_by(views(out@), leq),
            views(out@).to_multiset().add(views(rest@).to_multiset()) =~= original.to_multiset(),
        decreases rest.len(),
    {
        let ghost before_rest = views(rest@);
        let ghost before_out = views(out@);
        let x = rest.pop().unwrap();
        assert(before_rest =~= views(rest@).push(x@));
        let mut j: usize = 0;
        while j < out.len() && out[j].key_less_eq(&x)
            invariant
                j <= out@.len(),
                before_out == views(out@),
                forall|i: int| 0 <= i < j ==> #[trigger] leq(before_out[i], x@),
                leq == key_order::<T>(),
            decreases out@.len() - j,
        {
            j = j + 1;
        }
        proof {
            if j < out@.len() {
                assert(!leq(before_out[j as int], x@));
                assert(leq(before_out[j as int], x@) || leq(x@, before_out[j as int]));
            }
            lemma_insert_keeps_sorted(before_out, j as int, x@, leq);
        }
        out.insert(j, x);
        assert(views(out@) =~= before_out.insert(j as int, x@));
        proof {
            to_multiset_insert(before_out, j as int, x@);
            to_multiset_build(views(rest@), x@);
        }
        assert(views(out@).to_multiset() =~= before_out.to_multiset().insert(x@));
        assert(before_rest.to_multiset() =~= views(rest@).to_multiset().insert(x@));
    }
    assert(views(rest@) =~= Seq::<T::V>::empty());
    assert(views(rest@).to_multiset() =~= Multiset::empty());
    assert(views(out@).to_multiset() =~= original.to_multiset());
    proof {
        original.lemma_sort_by_ensures(leq);
        lemma_sorted_unique(views(out@), original.sort_by(leq), leq);
    }
    out
}

/// Sorting depends on the items only, not on the order they come in.
pub proof fn lemma_sort_by_same_items<A>(a: Seq<A>, b: Seq<A>, leq: spec_fn(A, A) -> bool)
    requires
        total_ordering(leq),
        a.to_multiset() == b.to_multiset(),
    ensures
        a.sort_by(leq) == b.sort_by(leq),
{
    a.lemma_sort_by_ensures(leq);
    b.lemma_sort_by_ensures(leq);
    lemma_sorted_unique(a.sort_by(leq), b.sort_by(leq), leq);
}

/// A finite set, listed, holds each of its elements once.
pub proof fn lemma_to_seq_no_duplicates<A>(s: Set<A>)
    requires
        s.finite(),
    ensures
        s.to_seq().no_duplicates(),
        s.to_seq().to_set() == s,
    decreases s.len(),
{
    broadcast use vstd::set::group_set_axioms;
    broadcast use vstd::set_lib::group_set_properties;

    s.lemma_to_seq_to_set_id();
    if s.len() != 0 {
        let x = s.choose();
        let rest = s.remove(x);
        lemma_to_seq_no_duplicates(rest);
        let listed = Seq::<A>::empty().push(x) + rest.to_seq();
        assert(s.to_seq() == listed);
        assert(!rest.to_seq().contains(x)) by {
            if rest.to_seq().contains(x) {
                assert(rest.to_seq().to_set().contains(x));
            }
        }
        assert forall|i: int, j: int|
            0 <= i < listed.len() && 0 <= j < listed.len() && i != j implies listed[i]
            != listed[j] by {
            if i == 0 {
                assert(listed[j] == rest.to_seq()[j - 1]);
            } else if j == 0 {
                assert(listed[i] == rest.to_seq()[i - 1]);
            } else {
                assert(listed[i] == rest.to_seq()[i - 1]);
                assert(listed[j] == rest.to_seq()[j - 1]);
            }
        }
    }
}

/// Two sequences without duplicates that hold the same elements hold them
/// equally often.
pub proof fn lemma_same_distinct_items<A>(a: Seq<A>, b: Seq<A>)
    requires
        a.no_duplicates(),
        b.no_duplicates(),
        a.to_set() == b.to_set(),
    ensures
        a.to_multiset() == b.to_multiset(),
{
    broadcast use group_to_multiset_ensures;
    broadcast use vstd::multiset::group_multiset_axioms;

    a.lemma_multiset_has_no_duplicates();
    b.lemma_multiset_has_no_duplicates();
    assert forall|x: A| a.to_multiset().count(x) == b.to_multiset().count(x) by {
        assert(a.to_set().contains(x) == a.contains(x));
        assert(b.to_set().contains(x) == b.contains(x));
        if a.contains(x) {
            assert(a.to_multiset().contains(x));
            assert(b.to_multiset().contains(x));
        }
    }
    assert(a.to_multiset() =~= b.to_multiset());
}

/// Sorting a sequence without duplicates gives the sorted listing of its set.
pub proof fn lemma_sort_distinct_is_sorted_set<A>(a: Seq<A>, leq: spec_fn(A, A) -> bool)
    requires
        total_ordering(leq),
        a.no_duplicates(),
    ensures
        a.sort_by(leq) == a.to_set().to_sorted_seq(leq),
{
    broadcast use vstd::seq_lib::seq_to_set_is_finite;

    let s = a.to_set();
    lemma_to_seq_no_duplicates(s);
    lemma_same_distinct_items(a, s.to_seq());
    lemma_sort_by_same_items(a, s.to_seq(), leq);
}

impl SortKey for String {
    open spec fn key_le(a: Seq<char>, b: Seq<char>) -> bool {
        text_le(a, b)
    }

    proof fn lemma_key_order_total() {
        lemma_text_order_total();
        assert(text_order() =~= |a: Seq<char>, b: Seq<char>| Self::key_le(a, b));
    }

    fn key_less_eq(&self, other: &Self) -> (le: bool) {
        text_less_eq(self.as_str(), other.as_str())
    }
}

} // verus!
