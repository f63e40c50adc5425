use vstd::prelude::*;

use crate::account::AccountId;

verus! {

// A sparse association store, kept as a vector of entries with pairwise
// distinct keys. Absence of a key reads as amount 0. Two instantiations are
// needed: balances, keyed by one account, and allowances, keyed by an
// (owner, spender) pair.

// ---------------------------------------------------------------------------
// Balance store: AccountId -> u128
// ---------------------------------------------------------------------------

/// Amount stored under key `k`: the first matching entry, or 0 if none.
pub open spec fn lookup(s: Seq<(AccountId, u128)>, k: AccountId) -> u128
    decreases s.len(),
{
    if s.len() == 0 {
        0
    } else if s[0].0 == k {
        s[0].1
    } else {
        lookup(s.drop_first(), k)
    }
}

/// All keys are pairwise distinct.
pub open spec fn keys_unique(s: Seq<(AccountId, u128)>) -> bool {
    forall|i: int, j: int|
        0 <= i < j < s.len() ==> #[trigger] s[i].0 != #[trigger] s[j].0
}

/// Sum of all stored amounts, as an unbounded integer.
pub open spec fn sum_values(s: Seq<(AccountId, u128)>) -> int
    decreases s.len(),
{
    if s.len() == 0 {
        0
    } else {
        s[0].1 + sum_values(s.drop_first())
    }
}

pub proof fn lemma_sum_nonneg(s: Seq<(AccountId, u128)>)
    ensures
        sum_values(s) >= 0,
    decreases s.len(),
{
    if s.len() > 0 {
        lemma_sum_nonneg(s.drop_first());
    }
}

/// No single stored amount exceeds the sum of all of them.
pub proof fn lemma_lookup_le_sum(s: Seq<(AccountId, u128)>, k: AccountId)
    ensures
        lookup(s, k) <= sum_values(s),
    decreases s.len(),
{
    if s.len() > 0 {
        if s[0].0 == k {
            lemma_sum_nonneg(s.drop_first());
        } else {
            lemma_lookup_le_sum(s.drop_first(), k);
        }
    }
}

/// If no entry before `i` carries the key of entry `i`, the lookup of that
/// key reads entry `i`.
pub proof fn lemma_lookup_at(s: Seq<(AccountId, u128)>, i: int)
    requires
        0 <= i < s.len(),
        forall|m: int| 0 <= m < i ==> #[trigger] s[m].0 != s[i].0,
    ensures
        lookup(s, s[i].0) == s[i].1,
    decreases i,
{
    if i > 0 {
        assert(s.drop_first()[i - 1] == s[i]);
        assert forall|m: int| 0 <= m < i - 1 implies #[trigger] s.drop_first()[m].0
            != s.drop_first()[i - 1].0 by {
            assert(s.drop_first()[m] == s[m + 1]);
        }
        lemma_lookup_at(s.drop_first(), i - 1);
    }
}

/// A key that no entry carries reads as 0.
pub proof fn lemma_lookup_absent(s: Seq<(AccountId, u128)>, k: AccountId)
    requires
        forall|m: int| 0 <= m < s.len() ==> #[trigger] s[m].0 != k,
    ensures
        lookup(s, k) == 0,
    decreases s.len(),
{
    if s.len() > 0 {
        assert forall|m: int| 0 <= m < s.drop_first().len()
            implies #[trigger] s.drop_first()[m].0 != k by {
            assert(s.drop_first()[m] == s[m + 1]);
        }
        lemma_lookup_absent(s.drop_first(), k);
    }
}

/// Overwriting the amount of entry `i` in place: the lookup of its key now
/// reads the new amount, every other key is untouched, and the sum moves by
/// exactly the difference.
pub proof fn lemma_update(s: Seq<(AccountId, u128)>, i: int, v: u128)
    requires
        0 <= i < s.len(),
        keys_unique(s),
    ensures
        keys_unique(s.update(i, (s[i].0, v))),
        lookup(s.update(i, (s[i].0, v)), s[i].0) == v,
        forall|a: AccountId| a != s[i].0 ==> lookup(
            s.update(i, (s[i].0, v)),
            a,
        ) == lookup(s, a),
        sum_values(s.update(i, (s[i].0, v))) == sum_values(s) - s[i].1 + v,
    decreases i,
{
    let t = s.update(i, (s[i].0, v));
    assert forall|m: int, n: int| 0 <= m < n < t.len() implies #[trigger] t[m].0
        != #[trigger] t[n].0 by {
        assert(t[m].0 == s[m].0);
        assert(t[n].0 == s[n].0);
    }
    if i == 0 {
        assert(t.drop_first() =~= s.drop_first());
        assert forall|a: AccountId| a != s[0].0 implies lookup(t, a) == lookup(s, a) by {
            assert(t[0].0 == s[0].0);
            assert(lookup(t, a) == lookup(t.drop_first(), a));
            assert(lookup(s, a) == lookup(s.drop_first(), a));
        }
    } else {
        let sd = s.drop_first();
        assert forall|m: int, n: int| 0 <= m < n < sd.len() implies #[trigger] sd[m].0
            != #[trigger] sd[n].0 by {
            assert(sd[m] == s[m + 1]);
            assert(sd[n] == s[n + 1]);
        }
        assert(sd[i - 1] == s[i]);
        lemma_update(sd, i - 1, v);
        let td = sd.update(i - 1, (sd[i - 1].0, v));
        assert(t.drop_first() =~= td);
        assert(t[0] == s[0]);
        assert(s[0].0 != s[i].0);
        assert(lookup(t, s[i].0) == lookup(td, s[i].0));
        assert(sum_values(t) == t[0].1 + sum_values(td));
        assert(sum_values(s) == s[0].1 + sum_values(sd));
        assert forall|a: AccountId| a != s[i].0 implies lookup(t, a) == lookup(s, a) by {
            if a == s[0].0 {
                assert(lookup(t, a) == t[0].1);
                assert(lookup(s, a) == s[0].1);
            } else {
                assert(lookup(t, a) == lookup(td, a));
                assert(lookup(s, a) == lookup(sd, a));
            }
        }
    }
}

/// Appending an entry under a fresh key: its lookup reads the new amount,
/// every other key is untouched, and the sum grows by the new amount.
pub proof fn lemma_push(s: Seq<(AccountId, u128)>, k: AccountId, v: u128)
    requires
        keys_unique(s),
        forall|m: int| 0 <= m < s.len() ==> #[trigger] s[m].0 != k,
    ensures
        keys_unique(s.push((k, v))),
        lookup(s.push((k, v)), k) == v,
        forall|a: AccountId| a != k ==> lookup(s.push((k, v)), a) == lookup(s, a),
        sum_values(s.push((k, v))) == sum_values(s) + v,
    decreases s.len(),
{
    let t = s.push((k, v));
    assert forall|m: int, n: int| 0 <= m < n < t.len() implies #[trigger] t[m].0
        != #[trigger] t[n].0 by {
        if n < s.len() {
            assert(t[m] == s[m]);
            assert(t[n] == s[n]);
        } else {
            assert(t[m] == s[m]);
            assert(t[n] == (k, v));
        }
    }
    if s.len() == 0 {
        assert(t.drop_first() =~= Seq::<(AccountId, u128)>::empty());
        assert(t[0] == (k, v));
        assert(sum_values(t) == v + sum_values(t.drop_first()));
        assert forall|a: AccountId| a != k implies lookup(t, a) == lookup(s, a) by {
            assert(lookup(t, a) == lookup(t.drop_first(), a));
        }
    } else {
        let sd = s.drop_first();
        assert forall|m: int, n: int| 0 <= m < n < sd.len() implies #[trigger] sd[m].0
            != #[trigger] sd[n].0 by {
            assert(sd[m] == s[m + 1]);
            assert(sd[n] == s[n + 1]);
        }
        assert forall|m: int| 0 <= m < sd.len() implies #[trigger] sd[m].0 != k by {
            assert(sd[m] == s[m + 1]);
        }
        lemma_push(sd, k, v);
        let td = sd.push((k, v));
        assert(t.drop_first() =~= td);
        assert(t[0] == s[0]);
        assert(s[0].0 != k);
        assert(lookup(t, k) == lookup(td, k));
        assert(sum_values(t) == t[0].1 + sum_values(td));
        assert(sum_values(s) == s[0].1 + sum_values(sd));
        assert forall|a: AccountId| a != k implies lookup(t, a) == lookup(s, a) by {
            if a == s[0].0 {
                assert(lookup(t, a) == t[0].1);
                assert(lookup(s, a) == s[0].1);
            } else {
                assert(lookup(t, a) == lookup(td, a));
                assert(lookup(s, a) == lookup(sd, a));
            }
        }
    }
}

/// Amount stored under `k`, or 0 when `k` has no entry.
pub fn map_get(v: &Vec<(AccountId, u128)>, k: AccountId) -> (r: u128)
    ensures
        r == lookup(v@, k),
{
    let mut i: usize = 0;
    while i < v.len()
        invariant
            0 <= i as int <= v@.len(),
            forall|m: int| 0 <= m < i as int ==> #[trigger] v@[m].0 != k,
        decreases v@.len() - i as int,
    {
        if v[i].0 == k {
            proof {
                lemma_lookup_at(v@, i as int);
            }
            return v[i].1;
        }
        i = i + 1;
    }
    proof {
        lemma_lookup_absent(v@, k);
    }
    0
}

/// Store `val` under `k`, overwriting in place or appending a fresh entry.
#[verifier::loop_isolation(false)]
pub fn map_set(v: &mut Vec<(AccountId, u128)>, k: AccountId, val: u128)
    requires
        keys_unique(old(v)@),
    ensures
        keys_unique(final(v)@),
        lookup(final(v)@, k) == val,
        forall|a: AccountId| a != k ==> lookup(final(v)@, a) == lookup(old(v)@, a),
        sum_values(final(v)@) == sum_values(old(v)@) - lookup(old(v)@, k) + val,
{
    let mut i: usize = 0;
    while i < v.len()
        invariant
            v@ == old(v)@,
            0 <= i as int <= v@.len(),
            forall|m: int| 0 <= m < i as int ==> #[trigger] v@[m].0 != k,
        decreases v@.len() - i as int,
    {
        if v[i].0 == k {
            proof {
                lemma_lookup_at(v@, i as int);
                lemma_update(v@, i as int, val);
                assert((k, val) == (v@[i as int].0, val));
            }
            v.set(i, (k, val));
            return;
        }
        i = i + 1;
    }
    proof {
        lemma_lookup_absent(v@, k);
        lemma_push(v@, k, val);
    }
    v.push((k, val));
}

// ---------------------------------------------------------------------------
// Allowance store: (owner, spender) -> u128
// ---------------------------------------------------------------------------

/// Amount stored under the pair `(o, p)`: the first matching entry, or 0.
pub open spec fn lookup2(s: Seq<(AccountId, AccountId, u128)>, o: AccountId, p: AccountId) -> u128
    decreases s.len(),
{
    if s.len() == 0 {
        0
    } else if s[0].0 == o && s[0].1 == p {
        s[0].2
    } else {
        lookup2(s.drop_first(), o, p)
    }
}

/// All key pairs are pairwise distinct.
pub open spec fn keys_unique2(s: Seq<(AccountId, AccountId, u128)>) -> bool {
    forall|i: int, j: int|
        0 <= i < j < s.len() ==> !(#[trigger] s[i].0 == #[trigger] s[j].0 && s[i].1 == s[j].1)
}

/// If no entry before `i` carries the key pair of entry `i`, the lookup of
/// that pair reads entry `i`.
pub proof fn lemma_lookup2_at(s: Seq<(AccountId, AccountId, u128)>, i: int)
    requires
        0 <= i < s.len(),
        forall|m: int| 0 <= m < i ==> !(#[trigger] s[m].0 == s[i].0 && s[m].1 == s[i].1),
    ensures
        lookup2(s, s[i].0, s[i].1) == s[i].2,
    decreases i,
{
    if i > 0 {
        assert(s.drop_first()[i - 1] == s[i]);
        assert forall|m: int| 0 <= m < i - 1 implies !(#[trigger] s.drop_first()[m].0
            == s.drop_first()[i - 1].0 && s.drop_first()[m].1 == s.drop_first()[i - 1].1) by {
            assert(s.drop_first()[m] == s[m + 1]);
        }
        lemma_lookup2_at(s.drop_first(), i - 1);
    }
}

/// A key pair that no entry carries reads as 0.
pub proof fn lemma_lookup2_absent(s: Seq<(AccountId, AccountId, u128)>, o: AccountId, p: AccountId)
    requires
        forall|m: int| 0 <= m < s.len() ==> !(#[trigger] s[m].0 == o && s[m].1 == p),
    ensures
        lookup2(s, o, p) == 0,
    decreases s.len(),
{
    if s.len() > 0 {
        assert forall|m: int| 0 <= m < s.drop_first().len()
            implies !(#[trigger] s.drop_first()[m].0 == o && s.drop_first()[m].1 == p) by {
            assert(s.drop_first()[m] == s[m + 1]);
        }
        lemma_lookup2_absent(s.drop_first(), o, p);
    }
}

/// Overwriting the amount of entry `i` in place, for the pair-keyed store.
pub proof fn lemma_update2(s: Seq<(AccountId, AccountId, u128)>, i: int, v: u128)
    requires
        0 <= i < s.len(),
        keys_unique2(s),
    ensures
        keys_unique2(s.update(i, (s[i].0, s[i].1, v))),
        lookup2(s.update(i, (s[i].0, s[i].1, v)), s[i].0, s[i].1) == v,
        forall|o: AccountId, p: AccountId| !(o == s[i].0 && p == s[i].1) ==> lookup2(
            s.update(i, (s[i].0, s[i].1, v)),
            o,
            p,
        ) == lookup2(s, o, p),
    decreases i,
{
    let t = s.update(i, (s[i].0, s[i].1, v));
    assert forall|m: int, n: int| 0 <= m < n < t.len() implies !(#[trigger] t[m].0
        == #[trigger] t[n].0 && t[m].1 == t[n].1) by {
        assert(t[m].0 == s[m].0 && t[m].1 == s[m].1);
        assert(t[n].0 == s[n].0 && t[n].1 == s[n].1);
    }
    if i == 0 {
        assert(t.drop_first() =~= s.drop_first());
        assert forall|o: AccountId, p: AccountId| !(o == s[0].0 && p == s[0].1)
            implies lookup2(t, o, p) == lookup2(s, o, p) by {
            assert(t[0].0 == s[0].0 && t[0].1 == s[0].1);
            assert(lookup2(t, o, p) == lookup2(t.drop_first(), o, p));
            assert(lookup2(s, o, p) == lookup2(s.drop_first(), o, p));
        }
    } else {
        let sd = s.drop_first();
        assert forall|m: int, n: int| 0 <= m < n < sd.len() implies !(#[trigger] sd[m].0
            == #[trigger] sd[n].0 && sd[m].1 == sd[n].1) by {
            assert(sd[m] == s[m + 1]);
            assert(sd[n] == s[n + 1]);
        }
        assert(sd[i - 1] == s[i]);
        lemma_update2(sd, i - 1, v);
        let td = sd.update(i - 1, (sd[i - 1].0, sd[i - 1].1, v));
        assert(t.drop_first() =~= td);
        assert(t[0] == s[0]);
        assert(!(s[0].0 == s[i].0 && s[0].1 == s[i].1));
        assert(lookup2(t, s[i].0, s[i].1) == lookup2(td, s[i].0, s[i].1));
        assert forall|o: AccountId, p: AccountId| !(o == s[i].0 && p == s[i].1)
            implies lookup2(t, o, p) == lookup2(s, o, p) by {
            if o == s[0].0 && p == s[0].1 {
                assert(lookup2(t, o, p) == t[0].2);
                assert(lookup2(s, o, p) == s[0].2);
            } else {
                assert(lookup2(t, o, p) == lookup2(td, o, p));
                assert(lookup2(s, o, p) == lookup2(sd, o, p));
            }
        }
    }
}

/// Appending an entry under a fresh key pair.
pub proof fn lemma_push2(s: Seq<(AccountId, AccountId, u128)>, o: AccountId, p: AccountId, v: u128)
    requires
        keys_unique2(s),
        forall|m: int| 0 <= m < s.len() ==> !(#[trigger] s[m].0 == o && s[m].1 == p),
    ensures
        keys_unique2(s.push((o, p, v))),
        lookup2(s.push((o, p, v)), o, p) == v,
        forall|a: AccountId, b: AccountId| !(a == o && b == p) ==> lookup2(
            s.push((o, p, v)),
            a,
            b,
        ) == lookup2(s, a, b),
    decreases s.len(),
{
    let t = s.push((o, p, v));
    assert forall|m: int, n: int| 0 <= m < n < t.len() implies !(#[trigger] t[m].0
        == #[trigger] t[n].0 && t[m].1 == t[n].1) by {
        if n < s.len() {
            assert(t[m] == s[m]);
            assert(t[n] == s[n]);
        } else {
            assert(t[m] == s[m]);
            assert(t[n] == (o, p, v));
        }
    }
    if s.len() == 0 {
        assert(t.drop_first() =~= Seq::<(AccountId, AccountId, u128)>::empty());
        assert(t[0] == (o, p, v));
        assert forall|a: AccountId, b: AccountId| !(a == o && b == p)
            implies lookup2(t, a, b) == lookup2(s, a, b) by {
            assert(lookup2(t, a, b) == lookup2(t.drop_first(), a, b));
        }
    } else {
        let sd = s.drop_first();
        assert forall|m: int, n: int| 0 <= m < n < sd.len() implies !(#[trigger] sd[m].0
            == #[trigger] sd[n].0 && sd[m].1 == sd[n].1) by {
            assert(sd[m] == s[m + 1]);
            assert(sd[n] == s[n + 1]);
        }
        assert forall|m: int| 0 <= m < sd.len() implies !(#[trigger] sd[m].0 == o
            && sd[m].1 == p) by {
            assert(sd[m] == s[m + 1]);
        }
        lemma_push2(sd, o, p, v);
        let td = sd.push((o, p, v));
        assert(t.drop_first() =~= td);
        assert(t[0] == s[0]);
        assert(!(s[0].0 == o && s[0].1 == p));
        assert(lookup2(t, o, p) == lookup2(td, o, p));
        assert forall|a: AccountId, b: AccountId| !(a == o && b == p)
            implies lookup2(t, a, b) == lookup2(s, a, b) by {
            if a == s[0].0 && b == s[0].1 {
                assert(lookup2(t, a, b) == t[0].2);
                assert(lookup2(s, a, b) == s[0].2);
            } else {
                assert(lookup2(t, a, b) == lookup2(td, a, b));
                assert(lookup2(s, a, b) == lookup2(sd, a, b));
            }
        }
    }
}

/// Amount stored under `(o, p)`, or 0 when that pair has no entry.
pub fn map2_get(v: &Vec<(AccountId, AccountId, u128)>, o: AccountId, p: AccountId) -> (r: u128)
    ensures
        r == lookup2(v@, o, p),
{
    let mut i: usize = 0;
    while i < v.len()
        invariant
            0 <= i as int <= v@.len(),
            forall|m: int| 0 <= m < i as int ==> !(#[trigger] v@[m].0 == o && v@[m].1 == p),
        decreases v@.len() - i as int,
    {
        if v[i].0 == o && v[i].1 == p {
            proof {
                lemma_lookup2_at(v@, i as int);
            }
            return v[i].2;
        }
        i = i + 1;
    }
    proof {
        lemma_lookup2_absent(v@, o, p);
    }
    0
}

/// Store `val` under `(o, p)`, overwriting in place or appending a fresh
/// entry.
#[verifier::loop_isolation(false)]
pub fn map2_set(v: &mut Vec<(AccountId, AccountId, u128)>, o: AccountId, p: AccountId, val: u128)
    requires
        keys_unique2(old(v)@),
    ensures
        keys_unique2(final(v)@),
        lookup2(final(v)@, o, p) == val,
        forall|a: AccountId, b: AccountId| !(a == o && b == p) ==> lookup2(
            final(v)@,
            a,
            b,
        ) == lookup2(old(v)@, a, b),
{
    let mut i: usize = 0;
    while i < v.len()
        invariant
            v@ == old(v)@,
            0 <= i as int <= v@.len(),
            forall|m: int| 0 <= m < i as int ==> !(#[trigger] v@[m].0 == o && v@[m].1 == p),
        decreases v@.len() - i as int,
    {
        if v[i].0 == o && v[i].1 == p {
            proof {
                lemma_lookup2_at(v@, i as int);
                lemma_update2(v@, i as int, val);
                assert((o, p, val) == (v@[i as int].0, v@[i as int].1, val));
            }
            v.set(i, (o, p, val));
            return;
        }
        i = i + 1;
    }
    proof {
        lemma_lookup2_absent(v@, o, p);
        lemma_push2(v@, o, p, val);
    }
    v.push((o, p, val));
}

} // verus!
