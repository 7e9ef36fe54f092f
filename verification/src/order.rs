//! The order in which names are visited: that of their bytes, position by
//! position, a name coming before every longer name that starts with it.

use vstd::prelude::*;
use vstd::string::StringSliceAdditionalSpecFns;
use vstd::utf8::encode_utf8;

verus! {

/// `a` and `b` hold the same bytes at every offset below `n`.
pub open spec fn agree(a: Seq<u8>, b: Seq<u8>, n: int) -> bool {
    &&& 0 <= n <= a.len()
    &&& n <= b.len()
    &&& forall|k: int| 0 <= k < n ==> a[k] == b[k]
}

/// `a` and `b` agree below `n`, and at `n` either `a` ends while `b` goes on,
/// or `a` holds the smaller byte.
pub open spec fn parts_at(a: Seq<u8>, b: Seq<u8>, n: int) -> bool {
    &&& agree(a, b, n)
    &&& n < b.len()
    &&& n < a.len() ==> a[n] < b[n]
}

/// `a` comes strictly before `b`.
pub open spec fn precedes(a: Seq<u8>, b: Seq<u8>) -> bool {
    exists|n: int| parts_at(a, b, n)
}

/// `a` is `b` or comes before it.
pub open spec fn in_order(a: Seq<u8>, b: Seq<u8>) -> bool {
    a == b || precedes(a, b)
}

/// Every name of `names` is in order with every later one.
pub open spec fn ascending(names: Seq<Seq<u8>>) -> bool {
    forall|i: int, j: int| 0 <= i <= j < names.len() ==> in_order(names[i], names[j])
}

/// The names of `names` in ascending order, each as often as it is there.
pub open spec fn arranged(names: Seq<Seq<u8>>) -> Seq<Seq<u8>> {
    names.sort_by(|a: Seq<u8>, b: Seq<u8>| in_order(a, b))
}

/// The bytes of each of `names`, in the same positions.
pub open spec fn bytes_of(names: Seq<String>) -> Seq<Seq<u8>> {
    Seq::new(names.len(), |i: int| encode_utf8(names[i]@))
}

/// Of two names that agree below `n`, one is the other or one comes first.
pub proof fn lemma_comparable_from(a: Seq<u8>, b: Seq<u8>, n: int)
    requires
        agree(a, b, n),
    ensures
        a == b || precedes(a, b) || precedes(b, a),
    decreases a.len() - n,
{
    if n == a.len() {
        if n == b.len() {
            assert(a =~= b);
        } else {
            assert(parts_at(a, b, n));
        }
    } else if n == b.len() {
        assert(parts_at(b, a, n));
    } else if a[n] < b[n] {
        assert(parts_at(a, b, n));
    } else if b[n] < a[n] {
        assert(parts_at(b, a, n));
    } else {
        lemma_comparable_from(a, b, n + 1);
    }
}

/// Any two names are in order one way or the other.
pub proof fn lemma_in_order_total(a: Seq<u8>, b: Seq<u8>)
    ensures
        in_order(a, b) || in_order(b, a),
{
    lemma_comparable_from(a, b, 0);
}

/// No name comes before one that comes before it.
pub proof fn lemma_precedes_asymmetric(a: Seq<u8>, b: Seq<u8>)
    requires
        precedes(a, b),
    ensures
        !precedes(b, a),
        a != b,
{
    let n = choose|n: int| parts_at(a, b, n);
    if precedes(b, a) {
        let m = choose|m: int| parts_at(b, a, m);
        if m < n {
            assert(a[m] == b[m]);
        } else if n < m {
            assert(a[n] == b[n]);
        }
    }
}

/// Two names that are in order both ways are the same name.
pub proof fn lemma_in_order_antisymmetric(a: Seq<u8>, b: Seq<u8>)
    requires
        in_order(a, b),
        in_order(b, a),
    ensures
        a == b,
{
    if precedes(a, b) {
        lemma_precedes_asymmetric(a, b);
    }
}

/// What comes before a name comes before all that the name comes before.
pub proof fn lemma_precedes_transitive(a: Seq<u8>, b: Seq<u8>, c: Seq<u8>)
    requires
        precedes(a, b),
        precedes(b, c),
    ensures
        precedes(a, c),
{
    let n = choose|n: int| parts_at(a, b, n);
    let m = choose|m: int| parts_at(b, c, m);
    let least = if n <= m { n } else { m };
    assert forall|k: int| 0 <= k < least implies a[k] == c[k] by {
        assert(a[k] == b[k]);
        assert(b[k] == c[k]);
    }
    if m < n {
        assert(a[m] == b[m]);
    } else if n < m {
        assert(b[n] == c[n]);
    }
    assert(parts_at(a, c, least));
}

/// Being in order carries over a name in between.
pub proof fn lemma_in_order_transitive(a: Seq<u8>, b: Seq<u8>, c: Seq<u8>)
    requires
        in_order(a, b),
        in_order(b, c),
    ensures
        in_order(a, c),
{
    if a != b && b != c {
        lemma_precedes_transitive(a, b, c);
    }
}

/// Being in order is a total order of names.
pub proof fn lemma_in_order_is_total_ordering()
    ensures
        vstd::relations::total_ordering(|a: Seq<u8>, b: Seq<u8>| in_order(a, b)),
{
    let leq = |a: Seq<u8>, b: Seq<u8>| in_order(a, b);
    assert forall|a: Seq<u8>, b: Seq<u8>| #[trigger] leq(a, b) && leq(b, a) implies a == b by {
        lemma_in_order_antisymmetric(a, b);
    }
    assert forall|a: Seq<u8>, b: Seq<u8>, c: Seq<u8>| #[trigger]
        leq(a, b) && #[trigger] leq(b, c) implies leq(a, c) by {
        lemma_in_order_transitive(a, b, c);
    }
    assert forall|a: Seq<u8>, b: Seq<u8>| #[trigger] leq(a, b) || #[trigger] leq(b, a) by {
        lemma_in_order_total(a, b);
    }
}

/// The arrangement of `names` is ascending and holds each name as often as
/// `names` does.
pub proof fn lemma_arranged(names: Seq<Seq<u8>>)
    ensures
        ascending(arranged(names)),
        arranged(names).to_multiset() == names.to_multiset(),
        arranged(names).len() == names.len(),
{
    let leq = |a: Seq<u8>, b: Seq<u8>| in_order(a, b);
    lemma_in_order_is_total_ordering();
    names.lemma_sort_by_ensures(leq);
    let sorted = names.sort_by(leq);
    assert forall|i: int, j: int| 0 <= i <= j < sorted.len() implies in_order(
        sorted[i],
        sorted[j],
    ) by {
        if i < j {
            assert(leq(sorted[i], sorted[j]));
        }
    }
    vstd::seq_lib::to_multiset_len(sorted);
    vstd::seq_lib::to_multiset_len(names);
}

/// An ascending sequence that holds each name as often as `names` does is
/// the arrangement of `names`: the order of the input does not show in it.
pub proof fn lemma_arranged_unique(names: Seq<Seq<u8>>, sorted: Seq<Seq<u8>>)
    requires
        ascending(sorted),
        sorted.to_multiset() == names.to_multiset(),
    ensures
        sorted == arranged(names),
{
    let leq = |a: Seq<u8>, b: Seq<u8>| in_order(a, b);
    lemma_in_order_is_total_ordering();
    lemma_arranged(names);
    let other = arranged(names);
    assert(vstd::relations::sorted_by(sorted, leq));
    assert(vstd::relations::sorted_by(other, leq)) by {
        assert forall|i: int, j: int| 0 <= i < j < other.len() implies #[trigger] leq(
            other[i],
            other[j],
        ) by {
            assert(in_order(other[i], other[j]));
        }
    }
    vstd::seq_lib::lemma_sorted_unique(sorted, other, leq);
}

/// Tells whether the bytes `a` are the bytes `b` or come before them.
pub fn bytes_in_order(a: &[u8], b: &[u8]) -> (yes: bool)
    ensures
        yes == in_order(a@, b@),
{
    let mut n: usize = 0;
    while n < a.len() && n < b.len()
        invariant
            agree(a@, b@, n as int),
        decreases a.len() - n,
    {
        if a[n] < b[n] {
            assert(parts_at(a@, b@, n as int));
            return true;
        }
        if a[n] > b[n] {
            proof {
                assert(parts_at(b@, a@, n as int));
                lemma_precedes_asymmetric(b@, a@);
            }
            return false;
        }
        n += 1;
    }
    if n == a.len() {
        proof {
            if n == b.len() {
                assert(a@ =~= b@);
            } else {
                assert(parts_at(a@, b@, n as int));
            }
        }
        true
    } else {
        proof {
            assert(parts_at(b@, a@, n as int));
            lemma_precedes_asymmetric(b@, a@);
        }
        false
    }
}

/// Tells whether the name `a` is the name `b` or comes before it.
pub fn names_in_order(a: &str, b: &str) -> (yes: bool)
    ensures
        yes == in_order(a.spec_bytes(), b.spec_bytes()),
{
    bytes_in_order(a.as_bytes(), b.as_bytes())
}

/// Puts `names` in ascending order. Nothing is added and nothing is lost: each
/// name is in the result as often as it was given.
pub fn sort_names(names: Vec<String>) -> (sorted: Vec<String>)
    ensures
        bytes_of(sorted@) == arranged(bytes_of(names@)),
{
    broadcast use {vstd::multiset::group_multiset_axioms, vstd::seq_lib::group_to_multiset_ensures};

    let ghost given = bytes_of(names@);
    let mut rest = names;
    let mut sorted: Vec<String> = Vec::new();
    assert(bytes_of(sorted@) =~= Seq::<Seq<u8>>::empty());
    assert(bytes_of(sorted@).to_multiset().add(given.to_multiset()) =~= given.to_multiset());
    while rest.len() > 0
        invariant
            ascending(bytes_of(sorted@)),
            bytes_of(sorted@).to_multiset().add(bytes_of(rest@).to_multiset())
                == given.to_multiset(),
            sorted@.len() + rest@.len() == given.len(),
        decreases rest.len(),
    {
        let ghost before_rest = bytes_of(rest@);
        let ghost before = bytes_of(sorted@);
        let name = rest.pop().unwrap();
        let ghost key = encode_utf8(name@);
        proof {
            assert(bytes_of(rest@) =~= before_rest.drop_last());
            assert(before_rest =~= bytes_of(rest@).push(key));
        }
        let mut at: usize = 0;
        while at < sorted.len() && names_in_order(sorted[at].as_str(), name.as_str())
            invariant
                at <= sorted.len(),
                before == bytes_of(sorted@),
                key == encode_utf8(name@),
                forall|k: int| 0 <= k < at ==> in_order(before[k], key),
            decreases sorted.len() - at,
        {
            at += 1;
        }
        sorted.insert(at, name);
        proof {
            let after = bytes_of(sorted@);
            assert(after =~= before.insert(at as int, key));
            if at < before.len() {
                lemma_in_order_total(before[at as int], key);
            }
            assert forall|i: int, j: int| 0 <= i <= j < after.len() implies in_order(
                after[i],
                after[j],
            ) by {
                if i == at && j > at {
                    assert(after[j] == before[j - 1]);
                    assert(in_order(before[at as int], before[j - 1]));
                    lemma_in_order_transitive(key, before[at as int], before[j - 1]);
                } else if j == at {
                    if i < at {
                        assert(after[i] == before[i]);
                    }
                } else if i < at && j < at {
                    assert(in_order(before[i], before[j]));
                } else if i < at && j > at {
                    assert(in_order(before[i], before[j - 1]));
                } else {
                    assert(in_order(before[i - 1], before[j - 1]));
                }
            }
            vstd::seq_lib::to_multiset_insert(before, at as int, key);
            vstd::seq_lib::to_multiset_build(bytes_of(rest@), key);
            assert(after.to_multiset().add(bytes_of(rest@).to_multiset()) =~= before.to_multiset().add(
                before_rest.to_multiset(),
            ));
        }
    }
    proof {
        assert(bytes_of(rest@) =~= Seq::<Seq<u8>>::empty());
        assert(bytes_of(sorted@).to_multiset().add(bytes_of(rest@).to_multiset()) =~= bytes_of(
            sorted@,
        ).to_multiset());
        lemma_arranged_unique(given, bytes_of(sorted@));
    }
    sorted
}

} // verus!
