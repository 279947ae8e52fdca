//! A small map from row values to arbitrary data.
//!
//! Keys are compared as values (numeric scalars as rational numbers), and the
//! entries keep their insertion order, so iterating a map is deterministic:
//! a derived collection folded out of map contents is a function of what was
//! inserted, never of a hasher's seed. Lookup is linear; the maps the
//! encoders keep are per-column vocabularies, small next to the data.

use vstd::prelude::*;

use crate::types::row_value::lemma_eqv_sym;
use crate::types::row_value::lemma_eqv_trans;
use crate::types::row_value::lemma_like_congruent;
use crate::types::row_value::lemma_like_wf;
use crate::types::row_value::RowValue;

verus! {

/// No two entries carry equal keys.
pub open spec fn distinct_keys<T>(s: Seq<(RowValue, T)>) -> bool {
    forall|i: int, j: int|
        0 <= i < j < s.len() ==> !(#[trigger] s[i]).0.spec_eqv((#[trigger] s[j]).0)
}

/// Every key is a well-formed value.
pub open spec fn wf_keys<T>(s: Seq<(RowValue, T)>) -> bool {
    forall|i: int| 0 <= i < s.len() ==> (#[trigger] s[i]).0.wf()
}

/// The index of the first entry whose key equals `k`, or `-1` when no entry
/// does.
pub open spec fn spec_index_of<T>(s: Seq<(RowValue, T)>, k: RowValue) -> int
    decreases s.len(),
{
    if s.len() == 0 {
        -1
    } else if s[0].0.spec_eqv(k) {
        0
    } else {
        let r = spec_index_of(s.drop_first(), k);
        if r == -1 {
            -1
        } else {
            r + 1
        }
    }
}

/// The value stored under `k`, if any.
pub open spec fn spec_get<T>(s: Seq<(RowValue, T)>, k: RowValue) -> Option<T> {
    let i = spec_index_of(s, k);
    if i == -1 {
        None
    } else {
        Some(s[i].1)
    }
}

/// Whether some entry's key equals `k`.
pub open spec fn spec_contains_key<T>(s: Seq<(RowValue, T)>, k: RowValue) -> bool {
    spec_index_of(s, k) != -1
}

/// What `spec_index_of` finds: a well-placed first match, or a proof that no
/// entry matches.
pub proof fn lemma_index_of<T>(s: Seq<(RowValue, T)>, k: RowValue)
    ensures
        spec_index_of(s, k) == -1 ==> forall|j: int|
            0 <= j < s.len() ==> !(#[trigger] s[j]).0.spec_eqv(k),
        spec_index_of(s, k) != -1 ==> {
            &&& 0 <= spec_index_of(s, k) < s.len()
            &&& s[spec_index_of(s, k)].0.spec_eqv(k)
            &&& forall|j: int| 0 <= j < spec_index_of(s, k) ==> !(#[trigger] s[j]).0.spec_eqv(k)
        },
    decreases s.len(),
{
    if s.len() > 0 && !s[0].0.spec_eqv(k) {
        lemma_index_of(s.drop_first(), k);
        assert(forall|j: int|
            1 <= j < s.len() ==> #[trigger] s[j] == s.drop_first()[j - 1]);
    }
}

/// A map from row values to `T`, backed by an ordered list of entries with
/// pairwise distinct keys.
#[derive(Debug, Clone)]
pub struct SafeHashMap<T> {
    entries: Vec<(RowValue, T)>,
}

impl<T> View for SafeHashMap<T> {
    type V = Seq<(RowValue, T)>;

    closed spec fn view(&self) -> Seq<(RowValue, T)> {
        self.entries@
    }
}

impl<T> SafeHashMap<T> {
    /// Well-formedness: no two entries carry equal keys.
    pub open spec fn wf(self) -> bool {
        distinct_keys(self@)
    }

    /// An empty map.
    pub fn new() -> (r: SafeHashMap<T>)
        ensures
            r@ =~= Seq::<(RowValue, T)>::empty(),
            r.wf(),
    {
        SafeHashMap { entries: Vec::new() }
    }

    /// How many entries the map holds.
    pub fn len(&self) -> (r: usize)
        ensures
            r == self@.len(),
    {
        self.entries.len()
    }

    /// Stores `value` under `key`: replaces the value of the entry whose key
    /// equals `key`, or appends a new entry.
    pub fn insert(&mut self, key: RowValue, value: T)
        requires
            old(self).wf(),
        ensures
            final(self).wf(),
            if spec_index_of(old(self)@, key) == -1 {
                final(self)@ == old(self)@.push((key, value))
            } else {
                final(self)@ == old(self)@.update(
                    spec_index_of(old(self)@, key),
                    (old(self)@[spec_index_of(old(self)@, key)].0, value),
                )
            },
    {
        proof {
            lemma_index_of(self@, key);
        }
        let ghost orig = self@;
        let mut i: usize = 0;
        while i < self.entries.len()
            invariant
                0 <= i <= self.entries@.len(),
                self.entries@ == orig,
                orig == old(self)@,
                old(self).wf(),
                forall|j: int| 0 <= j < i ==> !(#[trigger] orig[j]).0.spec_eqv(key),
            decreases self.entries@.len() - i,
        {
            if self.entries[i].0.eqv(&key) {
                proof {
                    lemma_index_of(orig, key);
                    assert(spec_index_of(orig, key) == i) by {
                        lemma_index_of_unique(orig, key, i as int);
                    }
                }
                let (k0, _old_value) = self.entries.remove(i);
                self.entries.insert(i, (k0, value));
                proof {
                    assert(self.entries@ =~= orig.update(i as int, (orig[i as int].0, value)));
                }
                return ;
            }
            i += 1;
        }
        proof {
            assert(spec_index_of(orig, key) == -1) by {
                lemma_index_of(orig, key);
                if spec_index_of(orig, key) != -1 {
                    assert(orig[spec_index_of(orig, key)].0.spec_eqv(key));
                }
            }
        }
        self.entries.push((key, value));
    }

    /// The value stored under `key`, if any.
    pub fn get(&self, key: &RowValue) -> (r: Option<&T>)
        requires
            self.wf(),
        ensures
            match r {
                Some(v) => spec_get(self@, *key) == Some(*v),
                None => spec_get(self@, *key) is None,
            },
    {
        let mut i: usize = 0;
        while i < self.entries.len()
            invariant
                0 <= i <= self.entries@.len(),
                self@ == self.entries@,
                forall|j: int| 0 <= j < i ==> !(#[trigger] self@[j]).0.spec_eqv(*key),
            decreases self.entries@.len() - i,
        {
            if self.entries[i].0.eqv(key) {
                proof {
                    lemma_index_of_unique(self@, *key, i as int);
                }
                return Some(&self.entries[i].1);
            }
            i += 1;
        }
        proof {
            lemma_index_of(self@, *key);
            if spec_index_of(self@, *key) != -1 {
                assert(self@[spec_index_of(self@, *key)].0.spec_eqv(*key));
            }
        }
        None
    }

    /// The keys of the map, in entry order.
    pub fn keys(&self) -> (r: Vec<RowValue>)
        ensures
            r@.len() == self@.len(),
            forall|i: int| 0 <= i < r@.len() ==> (#[trigger] r@[i]).like(self@[i].0),
    {
        let mut out: Vec<RowValue> = Vec::new();
        let mut i: usize = 0;
        while i < self.entries.len()
            invariant
                0 <= i <= self.entries@.len(),
                self@ == self.entries@,
                out@.len() == i,
                forall|j: int| 0 <= j < i ==> (#[trigger] out@[j]).like(self@[j].0),
            decreases self.entries@.len() - i,
        {
            out.push(self.entries[i].0.clone());
            i += 1;
        }
        out
    }

    /// The entries of the map, in entry order.
    pub fn iter(&self) -> (r: &Vec<(RowValue, T)>)
        ensures
            r@ == self@,
    {
        &self.entries
    }

    /// Removes the entry whose key equals `key`, if any.
    pub fn remove(&mut self, key: &RowValue)
        requires
            old(self).wf(),
        ensures
            final(self).wf(),
            if spec_index_of(old(self)@, *key) == -1 {
                final(self)@ == old(self)@
            } else {
                final(self)@ == old(self)@.remove(spec_index_of(old(self)@, *key))
            },
    {
        let ghost orig = self@;
        let mut i: usize = 0;
        while i < self.entries.len()
            invariant
                0 <= i <= self.entries@.len(),
                self.entries@ == orig,
                orig == old(self)@,
                old(self).wf(),
                forall|j: int| 0 <= j < i ==> !(#[trigger] orig[j]).0.spec_eqv(*key),
            decreases self.entries@.len() - i,
        {
            if self.entries[i].0.eqv(key) {
                proof {
                    lemma_index_of_unique(orig, *key, i as int);
                }
                self.entries.remove(i);
                return ;
            }
            i += 1;
        }
        proof {
            lemma_index_of(orig, *key);
            if spec_index_of(orig, *key) != -1 {
                assert(orig[spec_index_of(orig, *key)].0.spec_eqv(*key));
            }
        }
    }
}

/// Lookups cannot tell `like` keys apart.
pub proof fn lemma_get_like<T>(s: Seq<(RowValue, T)>, k1: RowValue, k2: RowValue)
    requires
        k1.like(k2),
    ensures
        spec_index_of(s, k1) == spec_index_of(s, k2),
        spec_get(s, k1) == spec_get(s, k2),
    decreases s.len(),
{
    if s.len() > 0 {
        lemma_like_congruent(k1, k2, s[0].0);
        lemma_get_like(s.drop_first(), k1, k2);
    }
}

/// Lookups cannot tell equal well-formed keys apart.
pub proof fn lemma_get_eqv<T>(s: Seq<(RowValue, T)>, k1: RowValue, k2: RowValue)
    requires
        k1.wf(),
        k2.wf(),
        k1.spec_eqv(k2),
    ensures
        spec_index_of(s, k1) == spec_index_of(s, k2),
        spec_get(s, k1) == spec_get(s, k2),
    decreases s.len(),
{
    if s.len() > 0 {
        if s[0].0.spec_eqv(k1) {
            lemma_eqv_trans(s[0].0, k1, k2);
        }
        if s[0].0.spec_eqv(k2) {
            lemma_eqv_sym(k1, k2);
            lemma_eqv_trans(s[0].0, k2, k1);
        }
        lemma_get_eqv(s.drop_first(), k1, k2);
    }
}

/// Lookups agree on two entry lists whose keys are pointwise `like`.
pub proof fn lemma_index_like_pointwise<T, U>(
    s1: Seq<(RowValue, T)>,
    s2: Seq<(RowValue, U)>,
    k: RowValue,
)
    requires
        s1.len() == s2.len(),
        forall|i: int| 0 <= i < s1.len() ==> (#[trigger] s1[i]).0.like((#[trigger] s2[i]).0),
    ensures
        spec_index_of(s1, k) == spec_index_of(s2, k),
    decreases s1.len(),
{
    if s1.len() > 0 {
        lemma_like_congruent(s1[0].0, s2[0].0, k);
        assert(forall|i: int|
            0 <= i < s1.drop_first().len() ==> #[trigger] s1.drop_first()[i] == s1[i + 1]
                && #[trigger] s2.drop_first()[i] == s2[i + 1]);
        lemma_index_like_pointwise(s1.drop_first(), s2.drop_first(), k);
    }
}

/// Pushing an entry under a fresh key (given as a clone of a well-formed
/// value no entry matches) keeps the map well-formed and changes exactly
/// that key class.
pub proof fn lemma_insert_fresh<T>(
    s_pre: Seq<(RowValue, T)>,
    s_post: Seq<(RowValue, T)>,
    key: RowValue,
    value_rv: RowValue,
    v: T,
)
    requires
        distinct_keys(s_pre),
        wf_keys(s_pre),
        key.like(value_rv),
        value_rv.wf(),
        spec_index_of(s_pre, value_rv) == -1,
        s_post == s_pre.push((key, v)),
    ensures
        distinct_keys(s_post),
        wf_keys(s_post),
        s_post.len() == s_pre.len() + 1,
        forall|k2: RowValue|
            k2.wf() ==> spec_get(s_post, k2) == (if value_rv.spec_eqv(k2) {
                Some(v)
            } else {
                spec_get(s_pre, k2)
            }),
{
    lemma_index_of(s_pre, value_rv);
    assert(forall|j: int| 0 <= j < s_pre.len() ==> #[trigger] s_post[j] == s_pre[j]);
    assert(wf_keys(s_post)) by {
        lemma_like_wf(key, value_rv);
    }
    assert(distinct_keys(s_post)) by {
        assert forall|m: int, n: int| 0 <= m < n < s_post.len() implies !(
        #[trigger] s_post[m]).0.spec_eqv((#[trigger] s_post[n]).0) by {
            if n == s_post.len() - 1 {
                lemma_like_congruent(key, value_rv, s_pre[m].0);
                if s_pre[m].0.spec_eqv(key) {
                    assert(s_pre[m].0.spec_eqv(value_rv));
                    assert(false);
                }
            }
        }
    }
    assert forall|k2: RowValue| k2.wf() implies spec_get(s_post, k2) == (if value_rv.spec_eqv(
        k2,
    ) {
        Some(v)
    } else {
        spec_get(s_pre, k2)
    }) by {
        lemma_get_push(s_pre, key, v, k2);
        lemma_like_congruent(key, value_rv, k2);
        if value_rv.spec_eqv(k2) {
            if spec_contains_key(s_pre, k2) {
                lemma_eqv_sym(value_rv, k2);
                lemma_get_eqv(s_pre, k2, value_rv);
                assert(false);
            }
        }
    }
}

/// What `insert` with a clone of a well-formed value does to lookups: the
/// value's own class now reads `v`, every other class is untouched, and
/// existing entries keep their keys.
pub proof fn lemma_set_value<T>(
    s_pre: Seq<(RowValue, T)>,
    s_post: Seq<(RowValue, T)>,
    key: RowValue,
    value_rv: RowValue,
    v: T,
)
    requires
        distinct_keys(s_pre),
        wf_keys(s_pre),
        key.like(value_rv),
        value_rv.wf(),
        s_post == (if spec_index_of(s_pre, key) == -1 {
            s_pre.push((key, v))
        } else {
            s_pre.update(spec_index_of(s_pre, key), (s_pre[spec_index_of(s_pre, key)].0, v))
        }),
    ensures
        distinct_keys(s_post),
        wf_keys(s_post),
        s_post.len() == s_pre.len() + (if spec_contains_key(s_pre, value_rv) {
            0int
        } else {
            1
        }),
        forall|k2: RowValue|
            k2.wf() ==> spec_get(s_post, k2) == (if value_rv.spec_eqv(k2) {
                Some(v)
            } else {
                spec_get(s_pre, k2)
            }),
        forall|j: int|
            0 <= j < s_pre.len() ==> (#[trigger] s_post[j]).0 == s_pre[j].0 && (s_post[j].1
                == s_pre[j].1 || s_post[j].1 == v),
{
    lemma_get_like(s_pre, key, value_rv);
    let i = spec_index_of(s_pre, value_rv);
    lemma_index_of(s_pre, value_rv);
    if i == -1 {
        lemma_insert_fresh(s_pre, s_post, key, value_rv, v);
    } else {
        assert(s_pre[i].0.spec_eqv(value_rv));
        assert(wf_keys(s_post)) by {
            assert(forall|j: int|
                0 <= j < s_post.len() ==> (#[trigger] s_post[j]).0 == s_pre[j].0);
        }
        assert(distinct_keys(s_post)) by {
            assert(forall|j: int|
                0 <= j < s_post.len() ==> (#[trigger] s_post[j]).0 == s_pre[j].0);
        }
        assert forall|k2: RowValue| k2.wf() implies spec_get(s_post, k2) == (
        if value_rv.spec_eqv(k2) {
            Some(v)
        } else {
            spec_get(s_pre, k2)
        }) by {
            lemma_get_update_value(s_pre, i, v, k2);
            if value_rv.spec_eqv(k2) {
                lemma_eqv_sym(value_rv, k2);
                lemma_get_eqv(s_pre, k2, value_rv);
            } else {
                if spec_index_of(s_pre, k2) == i {
                    lemma_index_of(s_pre, k2);
                    assert(s_pre[i].0.spec_eqv(k2));
                    lemma_eqv_sym(s_pre[i].0, value_rv);
                    lemma_eqv_trans(value_rv, s_pre[i].0, k2);
                    assert(false);
                }
            }
        }
    }
}

/// Removing the entry that matches a well-formed value keeps the map
/// well-formed and erases exactly that key class.
pub proof fn lemma_remove_class<T>(
    s_pre: Seq<(RowValue, T)>,
    s_post: Seq<(RowValue, T)>,
    value_rv: RowValue,
)
    requires
        distinct_keys(s_pre),
        wf_keys(s_pre),
        value_rv.wf(),
        spec_index_of(s_pre, value_rv) != -1,
        s_post == s_pre.remove(spec_index_of(s_pre, value_rv)),
    ensures
        distinct_keys(s_post),
        wf_keys(s_post),
        s_post.len() == s_pre.len() - 1,
        forall|k2: RowValue|
            k2.wf() ==> spec_get(s_post, k2) == (if value_rv.spec_eqv(k2) {
                None
            } else {
                spec_get(s_pre, k2)
            }),
{
    let i = spec_index_of(s_pre, value_rv);
    lemma_index_of(s_pre, value_rv);
    assert(forall|j: int| 0 <= j < i ==> #[trigger] s_post[j] == s_pre[j]);
    assert(forall|j: int| i <= j < s_post.len() ==> #[trigger] s_post[j] == s_pre[j + 1]);
    assert forall|k2: RowValue| k2.wf() implies spec_get(s_post, k2) == (if value_rv.spec_eqv(
        k2,
    ) {
        None
    } else {
        spec_get(s_pre, k2)
    }) by {
        lemma_get_remove(s_pre, i, k2);
        if value_rv.spec_eqv(k2) {
            lemma_eqv_sym(value_rv, k2);
            lemma_get_eqv(s_pre, k2, value_rv);
        } else {
            if spec_index_of(s_pre, k2) == i {
                lemma_index_of(s_pre, k2);
                assert(s_pre[i].0.spec_eqv(k2));
                assert(s_pre[i].0.spec_eqv(value_rv));
                lemma_eqv_sym(s_pre[i].0, value_rv);
                lemma_eqv_trans(value_rv, s_pre[i].0, k2);
                assert(false);
            }
        }
    }
}

/// How a lookup reads off the first entry.
pub proof fn lemma_get_step<T>(s: Seq<(RowValue, T)>, k2: RowValue)
    requires
        s.len() > 0,
    ensures
        spec_get(s, k2) == if s[0].0.spec_eqv(k2) {
            Some(s[0].1)
        } else {
            spec_get(s.drop_first(), k2)
        },
        spec_contains_key(s, k2) == (s[0].0.spec_eqv(k2) || spec_contains_key(
            s.drop_first(),
            k2,
        )),
{
    lemma_index_of(s.drop_first(), k2);
    if !s[0].0.spec_eqv(k2) {
        let r = spec_index_of(s.drop_first(), k2);
        if r != -1 {
            assert(spec_index_of(s, k2) == r + 1);
            assert(s[r + 1] == s.drop_first()[r]);
        }
    }
}

/// How a lookup reads through a pushed entry.
pub proof fn lemma_get_push<T>(s: Seq<(RowValue, T)>, key: RowValue, value: T, k2: RowValue)
    ensures
        spec_get(s.push((key, value)), k2) == if spec_contains_key(s, k2) {
            spec_get(s, k2)
        } else if key.spec_eqv(k2) {
            Some(value)
        } else {
            None::<T>
        },
    decreases s.len(),
{
    let t = s.push((key, value));
    lemma_get_step(t, k2);
    if s.len() == 0 {
        assert(t.drop_first() =~= Seq::<(RowValue, T)>::empty());
    } else {
        assert(t[0] == s[0]);
        assert(t.drop_first() =~= s.drop_first().push((key, value)));
        lemma_get_step(s, k2);
        lemma_get_push(s.drop_first(), key, value, k2);
    }
}

/// How a lookup reads through an in-place value update.
pub proof fn lemma_get_update_value<T>(s: Seq<(RowValue, T)>, i: int, v2: T, k2: RowValue)
    requires
        0 <= i < s.len(),
    ensures
        spec_get(s.update(i, (s[i].0, v2)), k2) == if spec_index_of(s, k2) == i {
            Some(v2)
        } else {
            spec_get(s, k2)
        },
    decreases s.len(),
{
    let t = s.update(i, (s[i].0, v2));
    lemma_get_step(t, k2);
    lemma_get_step(s, k2);
    if i == 0 {
        assert(t[0] == (s[0].0, v2));
        assert(t.drop_first() =~= s.drop_first());
        if !s[0].0.spec_eqv(k2) {
            lemma_index_of(s.drop_first(), k2);
            lemma_index_of(s, k2);
        }
    } else {
        assert(t[0] == s[0]);
        assert(t.drop_first() =~= s.drop_first().update(i - 1, (s.drop_first()[i - 1].0, v2)));
        lemma_get_update_value(s.drop_first(), i - 1, v2, k2);
        if s[0].0.spec_eqv(k2) {
            assert(spec_index_of(s, k2) == 0);
        } else {
            lemma_index_of(s.drop_first(), k2);
            if spec_index_of(s.drop_first(), k2) == -1 {
                assert(spec_index_of(s, k2) == -1);
            } else {
                assert(spec_index_of(s, k2) == spec_index_of(s.drop_first(), k2) + 1);
            }
        }
    }
}

/// How a lookup for a well-formed key reads through a removal, given
/// distinct keys.
pub proof fn lemma_get_remove<T>(s: Seq<(RowValue, T)>, i: int, k2: RowValue)
    requires
        0 <= i < s.len(),
        distinct_keys(s),
        k2.wf(),
    ensures
        spec_get(s.remove(i), k2) == if spec_index_of(s, k2) == i {
            None::<T>
        } else {
            spec_get(s, k2)
        },
    decreases s.len(),
{
    let t = s.remove(i);
    lemma_index_of(s, k2);
    lemma_get_step(s, k2);
    if i == 0 {
        assert(t =~= s.drop_first());
        if s[0].0.spec_eqv(k2) {
            // No later entry can also match `k2`: its key would equal the
            // first key through `k2`.
            assert(spec_index_of(s, k2) == 0);
            lemma_index_of(t, k2);
            if spec_index_of(t, k2) != -1 {
                let j = spec_index_of(t, k2);
                assert(t[j] == s[j + 1]);
                assert(s[j + 1].0.spec_eqv(k2));
                lemma_eqv_sym(s[j + 1].0, k2);
                lemma_eqv_trans(s[0].0, k2, s[j + 1].0);
                assert(s[0].0.spec_eqv(s[j + 1].0));
                assert(false);
            }
        }
    } else {
        if t.len() > 0 {
            lemma_get_step(t, k2);
        }
        assert(t[0] == s[0]);
        assert(t.drop_first() =~= s.drop_first().remove(i - 1));
        assert(forall|m: int, n: int|
            0 <= m < n < s.drop_first().len() ==> !(#[trigger] s.drop_first()[m]).0.spec_eqv(
                (#[trigger] s.drop_first()[n]).0,
            )) by {
            assert(forall|m: int|
                0 <= m < s.drop_first().len() ==> #[trigger] s.drop_first()[m] == s[m + 1]);
        }
        lemma_get_remove(s.drop_first(), i - 1, k2);
        if !s[0].0.spec_eqv(k2) {
            lemma_index_of(s.drop_first(), k2);
            if spec_index_of(s.drop_first(), k2) == -1 {
                assert(spec_index_of(s, k2) == -1);
            } else {
                assert(spec_index_of(s, k2) == spec_index_of(s.drop_first(), k2) + 1);
            }
        }
    }
}

/// When an entry at `i` matches `k` and no earlier entry does, `i` is what
/// `spec_index_of` finds.
pub proof fn lemma_index_of_unique<T>(s: Seq<(RowValue, T)>, k: RowValue, i: int)
    requires
        0 <= i < s.len(),
        s[i].0.spec_eqv(k),
        forall|j: int| 0 <= j < i ==> !(#[trigger] s[j]).0.spec_eqv(k),
    ensures
        spec_index_of(s, k) == i,
    decreases s.len(),
{
    if i > 0 {
        assert(forall|j: int|
            1 <= j < s.len() ==> #[trigger] s[j] == s.drop_first()[j - 1]);
        lemma_index_of_unique(s.drop_first(), k, i - 1);
    }
}

} // verus!
