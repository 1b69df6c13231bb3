//! The order of strings, and sorting by it.
use vstd::prelude::*;
use vstd::std_specs::iter::IteratorSpec;

verus! {

/// Whether `a` is `b` or stands before it in the order of strings: the first
/// character in which they differ decides, by its code point, and a string
/// stands before each of its extensions.
pub open spec fn text_le(a: Seq<char>, b: Seq<char>) -> bool
    decreases a.len(),
{
    if a.len() == 0 {
        true
    } else if b.len() == 0 {
        false
    } else if a[0] != b[0] {
        (a[0] as u32) < (b[0] as u32)
    } else {
        text_le(a.drop_first(), b.drop_first())
    }
}

/// Tells whether `a` is `b` or stands before it in the order of strings.
pub fn at_most(a: &str, b: &str) -> (r: bool)
    ensures
        r == text_le(a@, b@),
{
    let mut left = a.chars();
    let mut right = b.chars();
    loop
        invariant
            left.decrease() is Some,
            text_le(a@, b@) == text_le(left.remaining(), right.remaining()),
        decreases left.decrease()->0,
    {
        match left.next() {
            None => {
                return true;
            },
            Some(x) => match right.next() {
                None => {
                    return false;
                },
                Some(y) => {
                    if x != y {
                        return (x as u32) < (y as u32);
                    }
                },
            },
        }
    }
}

/// Of two strings, one is the other or stands before it.
pub proof fn lemma_text_le_total(a: Seq<char>, b: Seq<char>)
    ensures
        text_le(a, b) || text_le(b, a),
    decreases a.len(),
{
    if a.len() > 0 && b.len() > 0 {
        if a[0] == b[0] {
            lemma_text_le_total(a.drop_first(), b.drop_first());
        } else {
            vstd::utf8::char_u32_cast(a[0], a[0] as u32);
            vstd::utf8::char_u32_cast(b[0], b[0] as u32);
        }
    }
}

/// Two strings each of which is the other or stands before it are one string.
pub proof fn lemma_text_le_antisymmetric(a: Seq<char>, b: Seq<char>)
    requires
        text_le(a, b),
        text_le(b, a),
    ensures
        a == b,
    decreases a.len(),
{
    if a.len() > 0 && b.len() > 0 {
        lemma_text_le_antisymmetric(a.drop_first(), b.drop_first());
        assert(a =~= seq![a[0]] + a.drop_first());
        assert(b =~= seq![b[0]] + b.drop_first());
    } else {
        assert(a =~= b);
    }
}

/// The order of strings is transitive.
pub proof fn lemma_text_le_transitive(a: Seq<char>, b: Seq<char>, c: Seq<char>)
    requires
        text_le(a, b),
        text_le(b, c),
    ensures
        text_le(a, c),
    decreases a.len(),
{
    if a.len() > 0 && b.len() > 0 && c.len() > 0 && a[0] == b[0] && b[0] == c[0] {
        lemma_text_le_transitive(a.drop_first(), b.drop_first(), c.drop_first());
    }
}

/// A type whose values have an order to sort by: one that leaves no two
/// values unordered and is transitive.
pub trait Ranked: Sized {
    /// Whether `self` may stand before `other` in sorted order.
    spec fn le(&self, other: &Self) -> bool;

    /// Tells whether `self` may stand before `other` in sorted order.
    fn at_most(&self, other: &Self) -> (r: bool)
        ensures
            r == self.le(other),
    ;

    proof fn le_is_total(a: &Self, b: &Self)
        ensures
            a.le(b) || b.le(a),
    ;

    proof fn le_is_transitive(a: &Self, b: &Self, c: &Self)
        requires
            a.le(b),
            b.le(c),
        ensures
            a.le(c),
    ;
}

/// Whether each item of `s` may stand before all that come after it.
pub open spec fn is_sorted<T: Ranked>(s: Seq<T>) -> bool {
    forall|i: int, j: int| 0 <= i < j < s.len() ==> (#[trigger] s[i]).le(#[trigger] &s[j])
}

/// Whether `r` holds the items of `items`, each as often, in rising order.
pub open spec fn is_sorting_of<T: Ranked>(r: Seq<T>, items: Seq<T>) -> bool {
    is_sorted(r) && r.to_multiset() == items.to_multiset()
}

/// Sorts the items: the result holds the same items, each as often as
/// `items` does, in rising order.
pub fn sort<T: Ranked>(items: Vec<T>) -> (r: Vec<T>)
    ensures
        is_sorting_of(r@, items@),
{
    let ghost all = items@;
    let mut rest = items;
    let mut out: Vec<T> = Vec::new();
    proof {
        out@.to_multiset_ensures();
        vstd::multiset::lemma_multiset_empty_len(out@.to_multiset());
        assert(out@.to_multiset().add(rest@.to_multiset()) =~= all.to_multiset());
    }
    while rest.len() > 0
        invariant
            is_sorted(out@),
            out@.to_multiset().add(rest@.to_multiset()) == all.to_multiset(),
        decreases rest@.len(),
    {
        let ghost before = rest@;
        let item = rest.pop().unwrap();
        proof {
            assert(before =~= rest@.push(item));
            vstd::seq_lib::to_multiset_build(rest@, item);
        }
        let mut p: usize = 0;
        while p < out.len() && !item.at_most(&out[p])
            invariant
                p <= out@.len(),
                forall|j: int| 0 <= j < p ==> (#[trigger] out@[j]).le(&item),
            decreases out@.len() - p,
        {
            proof {
                T::le_is_total(&item, &out@[p as int]);
            }
            p = p + 1;
        }
        proof {
            let after = out@.insert(p as int, item);
            assert forall|i: int, j: int| 0 <= i < j < after.len() implies (#[trigger] after[i]).le(
                #[trigger] &after[j],
            ) by {
                if j < p {
                    assert(after[i] == out@[i] && after[j] == out@[j]);
                } else if j == p {
                    assert(after[i] == out@[i]);
                } else if i < p {
                    assert(after[i] == out@[i] && after[j] == out@[j - 1]);
                } else if i == p {
                    assert(after[j] == out@[j - 1]);
                    if p < j - 1 {
                        T::le_is_transitive(&item, &out@[p as int], &after[j]);
                    }
                } else {
                    assert(after[i] == out@[i - 1] && after[j] == out@[j - 1]);
                }
            }
            vstd::seq_lib::to_multiset_insert(out@, p as int, item);
            assert(after.to_multiset().add(rest@.to_multiset()) =~= out@.to_multiset().add(
                before.to_multiset(),
            ));
        }
        out.insert(p, item);
    }
    proof {
        rest@.to_multiset_ensures();
        vstd::multiset::lemma_multiset_empty_len(rest@.to_multiset());
        assert(out@.to_multiset().add(rest@.to_multiset()) =~= out@.to_multiset());
    }
    out
}

} // verus!
