//! The mathematical model of a sparse, default-zero mapping.
//!
//! Balances and allowances are stored as association lists with pairwise
//! distinct keys. A key that is absent reads as zero, so storage stays
//! proportional to the number of keys that were ever written. The functions
//! here give such a list its meaning — `lookup` and `sum_values` — and the
//! lemmas relate them across the two ways a list is written: updating the
//! entry of an existing key, and appending a fresh key.

use vstd::prelude::*;

verus! {

/// No key occurs in two entries.
pub open spec fn keys_distinct<K>(s: Seq<(K, u128)>) -> bool {
    forall|i: int, j: int| 0 <= i < j < s.len() ==> s[i].0 != s[j].0
}

/// The value stored under `k`; an absent key reads as zero.
pub open spec fn lookup<K>(s: Seq<(K, u128)>, k: K) -> u128
    decreases s.len(),
{
    if s.len() == 0 {
        0
    } else if s[0].0 == k {
        s[0].1
    } else {
        lookup(s.drop_first(), k)
    }
}

/// The sum of every stored value.
pub open spec fn sum_values<K>(s: Seq<(K, u128)>) -> int
    decreases s.len(),
{
    if s.len() == 0 {
        0
    } else {
        s[0].1 + sum_values(s.drop_first())
    }
}

/// Distinctness is inherited by the tail of a list.
pub proof fn lemma_distinct_drop_first<K>(s: Seq<(K, u128)>)
    requires
        keys_distinct(s),
        s.len() > 0,
    ensures
        keys_distinct(s.drop_first()),
{
    assert forall|i: int, j: int|
        0 <= i < j < s.drop_first().len() implies s.drop_first()[i].0 != s.drop_first()[j].0 by {
        assert(s.drop_first()[i] == s[i + 1]);
        assert(s.drop_first()[j] == s[j + 1]);
    }
}

/// With distinct keys, the entry at any index is the one `lookup` finds.
pub proof fn lemma_lookup_at_index<K>(s: Seq<(K, u128)>, i: int)
    requires
        keys_distinct(s),
        0 <= i < s.len(),
    ensures
        lookup(s, s[i].0) == s[i].1,
    decreases i,
{
    if i > 0 {
        lemma_distinct_drop_first(s);
        lemma_lookup_at_index(s.drop_first(), i - 1);
        assert(s.drop_first()[i - 1] == s[i]);
    }
}

/// A key that occurs in no entry reads as zero.
pub proof fn lemma_lookup_absent<K>(s: Seq<(K, u128)>, k: K)
    requires
        forall|i: int| 0 <= i < s.len() ==> s[i].0 != k,
    ensures
        lookup(s, k) == 0,
    decreases s.len(),
{
    if s.len() > 0 {
        assert forall|i: int| 0 <= i < s.drop_first().len() implies s.drop_first()[i].0 != k by {
            assert(s.drop_first()[i] == s[i + 1]);
        }
        lemma_lookup_absent(s.drop_first(), k);
    }
}

/// Overwriting the value at index `i` changes that key's reading to the new
/// value, leaves every other key's reading alone, and moves the sum by the
/// difference of the two values.
pub proof fn lemma_update<K>(s: Seq<(K, u128)>, i: int, v: u128)
    requires
        keys_distinct(s),
        0 <= i < s.len(),
    ensures
        keys_distinct(s.update(i, (s[i].0, v))),
        lookup(s.update(i, (s[i].0, v)), s[i].0) == v,
        forall|k: K| k != s[i].0 ==> lookup(s.update(i, (s[i].0, v)), k) == lookup(s, k),
        sum_values(s.update(i, (s[i].0, v))) == sum_values(s) - s[i].1 + v,
    decreases i,
{
    let u = s.update(i, (s[i].0, v));
    assert forall|j: int| 0 <= j < s.len() implies u[j].0 == s[j].0 by {}
    if i == 0 {
        assert(u.drop_first() =~= s.drop_first());
        assert forall|k: K| k != s[i].0 implies lookup(u, k) == lookup(s, k) by {
            assert(lookup(u, k) == lookup(u.drop_first(), k));
            assert(lookup(s, k) == lookup(s.drop_first(), k));
        }
    } else {
        lemma_distinct_drop_first(s);
        lemma_lookup_at_index(s, i);
        assert(u.drop_first() =~= s.drop_first().update(i - 1, (s.drop_first()[i - 1].0, v)));
        lemma_update(s.drop_first(), i - 1, v);
        assert(s.drop_first()[i - 1] == s[i]);
        assert(u[0] == s[0]);
        assert(lookup(u, s[i].0) == lookup(u.drop_first(), s[i].0));
        assert forall|k: K| k != s[i].0 implies lookup(u, k) == lookup(s, k) by {
            if k == s[0].0 {
                assert(lookup(u, k) == u[0].1);
                assert(lookup(s, k) == s[0].1);
            } else {
                assert(lookup(u, k) == lookup(u.drop_first(), k));
                assert(lookup(s, k) == lookup(s.drop_first(), k));
            }
        }
        assert(sum_values(u) == u[0].1 + sum_values(u.drop_first()));
        assert(sum_values(s) == s[0].1 + sum_values(s.drop_first()));
    }
}

/// Appending an entry under a fresh key gives that key the new value, leaves
/// every other key's reading alone, and adds the value to the sum.
pub proof fn lemma_push<K>(s: Seq<(K, u128)>, k: K, v: u128)
    requires
        keys_distinct(s),
        forall|i: int| 0 <= i < s.len() ==> s[i].0 != k,
    ensures
        keys_distinct(s.push((k, v))),
        lookup(s.push((k, v)), k) == v,
        forall|x: K| x != k ==> lookup(s.push((k, v)), x) == lookup(s, x),
        sum_values(s.push((k, v))) == sum_values(s) + v,
    decreases s.len(),
{
    let p = s.push((k, v));
    assert forall|i: int, j: int| 0 <= i < j < p.len() implies p[i].0 != p[j].0 by {
        if j < s.len() {
            assert(p[i] == s[i] && p[j] == s[j]);
        } else {
            assert(p[i] == s[i] && p[j] == (k, v));
        }
    }
    if s.len() == 0 {
        assert(p.drop_first() =~= Seq::<(K, u128)>::empty());
        assert forall|x: K| x != k implies lookup(p, x) == lookup(s, x) by {
            assert(lookup(p, x) == lookup(p.drop_first(), x));
        }
        assert(sum_values(p) == p[0].1 + sum_values(p.drop_first()));
    } else {
        assert forall|i: int| 0 <= i < s.drop_first().len() implies s.drop_first()[i].0 != k by {
            assert(s.drop_first()[i] == s[i + 1]);
        }
        lemma_distinct_drop_first(s);
        lemma_push(s.drop_first(), k, v);
        assert(p.drop_first() =~= s.drop_first().push((k, v)));
        assert(p[0] == s[0]);
        assert(lookup(p, k) == lookup(p.drop_first(), k));
        assert forall|x: K| x != k implies lookup(p, x) == lookup(s, x) by {
            if x == s[0].0 {
                assert(lookup(p, x) == p[0].1);
                assert(lookup(s, x) == s[0].1);
            } else {
                assert(lookup(p, x) == lookup(p.drop_first(), x));
                assert(lookup(s, x) == lookup(s.drop_first(), x));
            }
        }
        assert(sum_values(p) == p[0].1 + sum_values(p.drop_first()));
        assert(sum_values(s) == s[0].1 + sum_values(s.drop_first()));
    }
}

/// The sum of unsigned values is never negative.
pub proof fn lemma_sum_nonneg<K>(s: Seq<(K, u128)>)
    ensures
        sum_values(s) >= 0,
    decreases s.len(),
{
    if s.len() > 0 {
        lemma_sum_nonneg(s.drop_first());
    }
}

/// With distinct keys, every reading lies between zero and the sum of all
/// stored values. In the ledger this is what bounds any one balance by the
/// total supply.
pub proof fn lemma_lookup_le_sum<K>(s: Seq<(K, u128)>, k: K)
    requires
        keys_distinct(s),
    ensures
        0 <= lookup(s, k),
        lookup(s, k) <= sum_values(s),
    decreases s.len(),
{
    if s.len() > 0 {
        lemma_distinct_drop_first(s);
        lemma_lookup_le_sum(s.drop_first(), k);
    }
}

/// With distinct keys, the readings of two different keys together never
/// exceed the sum of all stored values. In the ledger this is why crediting
/// one account with (part of) another account's balance cannot overflow.
pub proof fn lemma_two_lookups_le_sum<K>(s: Seq<(K, u128)>, a: K, b: K)
    requires
        keys_distinct(s),
        a != b,
    ensures
        lookup(s, a) + lookup(s, b) <= sum_values(s),
    decreases s.len(),
{
    if s.len() > 0 {
        lemma_distinct_drop_first(s);
        if s[0].0 == a {
            lemma_lookup_le_sum(s.drop_first(), b);
        } else if s[0].0 == b {
            lemma_lookup_le_sum(s.drop_first(), a);
        } else {
            lemma_two_lookups_le_sum(s.drop_first(), a, b);
        }
    }
}

} // verus!
