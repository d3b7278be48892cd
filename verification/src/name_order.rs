//! The order in which tag names are kept and listed: lexicographic, by code
//! point, with a proper prefix before its extensions.

use vstd::prelude::*;
use vstd::std_specs::iter::IteratorSpec;
use vstd::string::group_string_axioms;

verus! {

/// `a` and `b` agree on their first `k` characters.
pub open spec fn agree_upto(a: Seq<char>, b: Seq<char>, k: int) -> bool {
    &&& 0 <= k <= a.len()
    &&& k <= b.len()
    &&& forall|j: int| 0 <= j < k ==> a[j] == b[j]
}

/// `a` sorts strictly before `b`: at the first place where they part, either
/// `a` has ended and `b` has not, or `a` holds the smaller character.
pub open spec fn name_lt(a: Seq<char>, b: Seq<char>) -> bool {
    exists|k: int| #[trigger]
        agree_upto(a, b, k) && k < b.len() && (k < a.len() ==> a[k] < b[k])
}

/// Each name sorts strictly before every later one.
pub open spec fn strictly_sorted(names: Seq<Seq<char>>) -> bool {
    forall|i: int, j: int| 0 <= i < j < names.len() ==> name_lt(names[i], names[j])
}

/// How one name stands to another in the listing order.
#[derive(Clone, Copy, Debug, PartialEq, Eq)]
pub enum NameOrder {
    Before,
    Same,
    After,
}

/// No name sorts before itself.
pub proof fn lemma_name_lt_irreflexive(a: Seq<char>)
    ensures
        !name_lt(a, a),
{
}

/// The order is transitive.
pub proof fn lemma_name_lt_transitive(a: Seq<char>, b: Seq<char>, c: Seq<char>)
    requires
        name_lt(a, b),
        name_lt(b, c),
    ensures
        name_lt(a, c),
{
    let k1 = choose|k: int| #[trigger]
        agree_upto(a, b, k) && k < b.len() && (k < a.len() ==> a[k] < b[k]);
    let k2 = choose|k: int| #[trigger]
        agree_upto(b, c, k) && k < c.len() && (k < b.len() ==> b[k] < c[k]);
    let k = if k1 <= k2 { k1 } else { k2 };
    assert(agree_upto(a, c, k));
}

/// Two names never sort before each other.
pub proof fn lemma_name_lt_asymmetric(a: Seq<char>, b: Seq<char>)
    requires
        name_lt(a, b),
    ensures
        !name_lt(b, a),
{
    if name_lt(b, a) {
        lemma_name_lt_transitive(a, b, a);
        lemma_name_lt_irreflexive(a);
    }
}

/// The first index from `from` on at which `a` and `b` part, or the length
/// of the shorter where one is a prefix of the other.
pub open spec fn first_difference(a: Seq<char>, b: Seq<char>, from: int) -> int
    decreases a.len() - from,
{
    if 0 <= from < a.len() && from < b.len() && a[from] == b[from] {
        first_difference(a, b, from + 1)
    } else {
        from
    }
}

/// Up to their first difference two names agree, and there they part.
pub proof fn lemma_first_difference(a: Seq<char>, b: Seq<char>, from: int)
    requires
        agree_upto(a, b, from),
    ensures
        agree_upto(a, b, first_difference(a, b, from)),
        ({
            let k = first_difference(a, b, from);
            k == a.len() || k == b.len() || a[k] != b[k]
        }),
    decreases a.len() - from,
{
    if from < a.len() && from < b.len() && a[from] == b[from] {
        assert(agree_upto(a, b, from + 1));
        lemma_first_difference(a, b, from + 1);
    }
}

/// Of two different names one sorts before the other.
pub proof fn lemma_name_lt_total(a: Seq<char>, b: Seq<char>)
    ensures
        a == b || name_lt(a, b) || name_lt(b, a),
{
    let k = first_difference(a, b, 0);
    lemma_first_difference(a, b, 0);
    assert(agree_upto(b, a, k));
    if k == a.len() && k == b.len() {
        assert(a =~= b);
    }
}

/// A set of names has one strictly ascending listing only.
pub proof fn lemma_sorted_listing_is_unique(a: Seq<Seq<char>>, b: Seq<Seq<char>>)
    requires
        strictly_sorted(a),
        strictly_sorted(b),
        forall|name: Seq<char>| a.contains(name) <==> b.contains(name),
    ensures
        a == b,
    decreases a.len(),
{
    if a.len() == 0 {
        if b.len() > 0 {
            assert(b.contains(b[0]));
        }
        assert(a =~= b);
    } else {
        let last_a = a.last();
        assert(a.contains(last_a));
        let k = choose|k: int| 0 <= k < b.len() && b[k] == last_a;
        let last_b = b.last();
        assert(b.contains(last_b));
        let m = choose|m: int| 0 <= m < a.len() && a[m] == last_b;
        if k < b.len() - 1 {
            assert(name_lt(b[k], b[b.len() - 1]));
            if m < a.len() - 1 {
                assert(name_lt(a[m], a[a.len() - 1]));
                lemma_name_lt_asymmetric(last_a, last_b);
            } else {
                lemma_name_lt_irreflexive(last_a);
            }
        }
        assert(last_a == last_b);
        let shorter_a = a.drop_last();
        let shorter_b = b.drop_last();
        lemma_name_lt_irreflexive(last_a);
        assert forall|name: Seq<char>| shorter_a.contains(name) <==> shorter_b.contains(
            name,
        ) by {
            if shorter_a.contains(name) {
                let i = choose|i: int| 0 <= i < shorter_a.len() && shorter_a[i] == name;
                assert(name_lt(a[i], a[a.len() - 1]));
                assert(a.contains(name));
                let j = choose|j: int| 0 <= j < b.len() && b[j] == name;
                assert(shorter_b[j] == name);
            }
            if shorter_b.contains(name) {
                let i = choose|i: int| 0 <= i < shorter_b.len() && shorter_b[i] == name;
                assert(name_lt(b[i], b[b.len() - 1]));
                assert(b.contains(name));
                let j = choose|j: int| 0 <= j < a.len() && a[j] == name;
                assert(shorter_a[j] == name);
            }
        }
        lemma_sorted_listing_is_unique(shorter_a, shorter_b);
        assert(a =~= shorter_a.push(last_a));
        assert(b =~= shorter_b.push(last_b));
    }
}

/// Where `a` stands to `b`.
pub open spec fn name_order(a: Seq<char>, b: Seq<char>) -> NameOrder {
    if a == b {
        NameOrder::Same
    } else if name_lt(a, b) {
        NameOrder::Before
    } else {
        NameOrder::After
    }
}

/// Compares two names character by character, in one pass over both.
pub fn order_names(a: &str, b: &str) -> (r: NameOrder)
    ensures
        r == name_order(a@, b@),
        r is After <==> name_lt(b@, a@),
{
    broadcast use group_string_axioms;

    let mut rest_a = a.chars();
    let mut rest_b = b.chars();
    let ghost mut k: int = 0;
    loop
        invariant
            agree_upto(a@, b@, k),
            rest_a.remaining() == a@.skip(k),
            rest_b.remaining() == b@.skip(k),
        decreases a@.len() - k,
    {
        let next_a = rest_a.next();
        let next_b = rest_b.next();
        match (next_a, next_b) {
            (None, None) => {
                assert(a@ =~= b@);
                proof {
                    lemma_name_lt_irreflexive(a@);
                }
                return NameOrder::Same;
            },
            (None, Some(_)) => {
                proof {
                    lemma_name_lt_asymmetric(a@, b@);
                }
                return NameOrder::Before;
            },
            (Some(_), None) => {
                assert(agree_upto(b@, a@, k));
                proof {
                    lemma_name_lt_asymmetric(b@, a@);
                }
                return NameOrder::After;
            },
            (Some(x), Some(y)) => {
                if x < y {
                    proof {
                        lemma_name_lt_asymmetric(a@, b@);
                    }
                    return NameOrder::Before;
                } else if y < x {
                    assert(agree_upto(b@, a@, k));
                    proof {
                        lemma_name_lt_asymmetric(b@, a@);
                    }
                    return NameOrder::After;
                }
                assert(a@.skip(k).drop_first() =~= a@.skip(k + 1));
                assert(b@.skip(k).drop_first() =~= b@.skip(k + 1));
                proof {
                    k = k + 1;
                }
            },
        }
    }
}

/// Whether two texts are equal.
pub fn same_text(a: &str, b: &str) -> (same: bool)
    ensures
        same == (a@ == b@),
{
    match order_names(a, b) {
        NameOrder::Same => true,
        _ => false,
    }
}

} // verus!
