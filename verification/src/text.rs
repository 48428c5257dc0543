//! Character-sequence helpers: the lexicographic order in which node names
//! and edges are listed, and the exec functions that compare and copy text.
use vstd::prelude::*;
use vstd::relations::*;
use vstd::string::*;

verus! {

/// Lexicographic order on texts, comparing code points one by one; a proper
/// prefix comes first. This is the order of Rust's `str`, since UTF-8 keeps
/// the order of code points.
pub open spec fn text_le(a: Seq<char>, b: Seq<char>) -> bool
    decreases a.len(),
{
    if a.len() == 0 {
        true
    } else if b.len() == 0 {
        false
    } else if a[0] != b[0] {
        (a[0] as int) < (b[0] as int)
    } else {
        text_le(a.drop_first(), b.drop_first())
    }
}

/// `text_le` as a spec closure, the form `sort_by` takes.
pub open spec fn text_order() -> spec_fn(Seq<char>, Seq<char>) -> bool {
    |a: Seq<char>, b: Seq<char>| text_le(a, b)
}

proof fn lemma_text_le_reflexive(a: Seq<char>)
    ensures
        text_le(a, a),
    decreases a.len(),
{
    if a.len() > 0 {
        lemma_text_le_reflexive(a.drop_first());
    }
}

proof fn lemma_text_le_antisymmetric(a: Seq<char>, b: Seq<char>)
    requires
        text_le(a, b),
        text_le(b, a),
    ensures
        a == b,
    decreases a.len(),
{
    if a.len() > 0 && b.len() > 0 {
        if a[0] == b[0] {
            lemma_text_le_antisymmetric(a.drop_first(), b.drop_first());
            assert(a =~= seq![a[0]] + a.drop_first());
            assert(b =~= seq![b[0]] + b.drop_first());
        }
    }
}

proof fn lemma_text_le_transitive(a: Seq<char>, b: Seq<char>, c: Seq<char>)
    requires
        text_le(a, b),
        text_le(b, c),
    ensures
        text_le(a, c),
    decreases a.len(),
{
    if a.len() > 0 && b.len() > 0 && c.len() > 0 {
        if a[0] == b[0] && b[0] == c[0] {
            lemma_text_le_transitive(a.drop_first(), b.drop_first(), c.drop_first());
        }
    }
}

proof fn lemma_text_le_connected(a: Seq<char>, b: Seq<char>)
    ensures
        text_le(a, b) || text_le(b, a),
    decreases a.len(),
{
    if a.len() > 0 && b.len() > 0 && a[0] == b[0] {
        lemma_text_le_connected(a.drop_first(), b.drop_first());
    }
}

/// `a` comes no later than `b` exactly when `a` is a prefix of `b`, or at
/// the first position where they differ, `a` has the smaller code point.
pub proof fn lemma_text_le_is_lexicographic(a: Seq<char>, b: Seq<char>)
    ensures
        text_le(a, b) <==> (a.is_prefix_of(b) || exists|i: int|
            0 <= i < a.len() && i < b.len() && a.take(i) == b.take(i) && (a[i] as int) < (
            b[i] as int)),
    decreases a.len(),
{
    if a.len() > 0 && b.len() > 0 {
        if a[0] != b[0] {
            if (a[0] as int) < (b[0] as int) {
                assert(a.take(0) =~= b.take(0));
            } else {
                assert(!a.is_prefix_of(b)) by {
                    if a.len() <= b.len() {
                        assert(b.subrange(0, a.len() as int)[0] == b[0]);
                    }
                }
                assert forall|i: int|
                    0 <= i < a.len() && i < b.len() && a.take(i) == b.take(i) implies !((
                    a[i] as int) < (b[i] as int)) by {
                    if i > 0 {
                        assert(a.take(i)[0] == b.take(i)[0]);
                    }
                }
            }
        } else {
            let a1 = a.drop_first();
            let b1 = b.drop_first();
            lemma_text_le_is_lexicographic(a1, b1);
            assert(a.is_prefix_of(b) == a1.is_prefix_of(b1)) by {
                if a1.is_prefix_of(b1) {
                    assert(a =~= b.subrange(0, a.len() as int)) by {
                        assert forall|k: int| 0 <= k < a.len() implies a[k] == b[k] by {
                            if k > 0 {
                                assert(a1[k - 1] == b1.subrange(0, a1.len() as int)[k - 1]);
                            }
                        }
                    }
                }
                if a.is_prefix_of(b) {
                    assert(a1 =~= b1.subrange(0, a1.len() as int)) by {
                        assert forall|k: int| 0 <= k < a1.len() implies a1[k] == b1[k] by {
                            assert(a[k + 1] == b.subrange(0, a.len() as int)[k + 1]);
                        }
                    }
                }
            }
            if exists|i: int|
                0 <= i < a1.len() && i < b1.len() && a1.take(i) == b1.take(i) && (a1[i] as int) < (
                b1[i] as int) {
                let i = choose|i: int|
                    0 <= i < a1.len() && i < b1.len() && a1.take(i) == b1.take(i) && (a1[i] as int)
                        < (b1[i] as int);
                assert(a.take(i + 1) =~= seq![a[0]] + a1.take(i));
                assert(b.take(i + 1) =~= seq![b[0]] + b1.take(i));
                assert(a[i + 1] == a1[i] && b[i + 1] == b1[i]);
            }
            if exists|i: int|
                0 <= i < a.len() && i < b.len() && a.take(i) == b.take(i) && (a[i] as int) < (
                b[i] as int) {
                let i = choose|i: int|
                    0 <= i < a.len() && i < b.len() && a.take(i) == b.take(i) && (a[i] as int) < (
                    b[i] as int);
                assert(i > 0);
                assert(a1.take(i - 1) =~= a.take(i).drop_first());
                assert(b1.take(i - 1) =~= b.take(i).drop_first());
                assert(a1[i - 1] == a[i] && b1[i - 1] == b[i]);
            }
        }
    } else if a.len() == 0 {
        assert(a =~= b.subrange(0, 0));
    } else {
        assert(!a.is_prefix_of(b));
    }
}

/// The lexicographic order is a total order.
pub proof fn lemma_text_order_total()
    ensures
        total_ordering(text_order()),
{
    let r = text_order();
    assert forall|x: Seq<char>| #[trigger] r(x, x) by {
        lemma_text_le_reflexive(x);
    }
    assert forall|x: Seq<char>, y: Seq<char>| #[trigger] r(x, y) && #[trigger] r(y, x) implies x
        == y by {
        lemma_text_le_antisymmetric(x, y);
    }
    assert forall|x: Seq<char>, y: Seq<char>, z: Seq<char>| #[trigger]
        r(x, y) && #[trigger] r(y, z) implies r(x, z) by {
        lemma_text_le_transitive(x, y, z);
    }
    assert forall|x: Seq<char>, y: Seq<char>| #[trigger] r(x, y) || #[trigger] r(y, x) by {
        lemma_text_le_connected(x, y);
    }
}

/// The characters of `s`, one per element.
pub fn chars_of(s: &str) -> (chars: Vec<char>)
    ensures
        chars@ == s@,
{
    let mut chars: Vec<char> = Vec::new();
    for c in it: s.chars()
        invariant
            it.seq() == s@,
            chars@ == it.seq().take(it.index() as int),
    {
        chars.push(c);
    }
    chars
}

/// Whether `a` comes no later than `b` in the lexicographic order.
pub fn text_less_eq(a: &str, b: &str) -> (le: bool)
    ensures
        le == text_le(a@, b@),
{
    let ca = chars_of(a);
    let cb = chars_of(b);
    let mut i: usize = 0;
    assert(a@.skip(0) =~= a@);
    assert(b@.skip(0) =~= b@);
    while i < ca.len() && i < cb.len() && ca[i] == cb[i]
        invariant
            i <= ca@.len(),
            i <= cb@.len(),
            ca@ == a@,
            cb@ == b@,
            text_le(a@, b@) == text_le(a@.skip(i as int), b@.skip(i as int)),
        decreases ca@.len() - i,
    {
        assert(a@.skip(i as int).drop_first() =~= a@.skip(i + 1));
        assert(b@.skip(i as int).drop_first() =~= b@.skip(i + 1));
        i = i + 1;
    }
    if i == ca.len() {
        true
    } else if i == cb.len() {
        false
    } else {
        ca[i] < cb[i]
    }
}

/// Whether two texts are the same.
pub fn text_equal(a: &str, b: &str) -> (same: bool)
    ensures
        same == (a@ == b@),
{
    let ca = chars_of(a);
    let cb = chars_of(b);
    if ca.len() != cb.len() {
        return false;
    }
    let mut i: usize = 0;
    while i < ca.len()
        invariant
            i <= ca@.len(),
            ca@.len() == cb@.len(),
            ca@ == a@,
            cb@ == b@,
            forall|j: int| 0 <= j < i ==> ca@[j] == cb@[j],
        decreases ca@.len() - i,
    {
        if ca[i] != cb[i] {
            return false;
        }
        i = i + 1;
    }
    assert(ca@ =~= cb@);
    true
}

/// An owned copy of `s`.
pub fn text_to_string(s: &str) -> (owned: String)
    ensures
        owned@ == s@,
{
    s.to_owned()
}

} // verus!
