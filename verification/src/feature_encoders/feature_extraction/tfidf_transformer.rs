//! TF–IDF weighting over vector-valued inputs.
//!
//! The fit pass binarizes every input vector (a document contributes one
//! per position it uses, times its multiplicity) and folds the results into
//! a document-frequency aggregate. The transform pairs every term count
//! with its document frequency and the total document count; a position
//! whose term count or document frequency is zero weighs exactly zero, and
//! a driver turns the remaining pairs into `tf * ln(N / df)` at the edge.

use vstd::prelude::*;

use crate::types::ratio::Ratio;
use crate::types::row_value::RowValue;
use crate::EncodeError;

verus! {

/// Pointwise addition of two frequency vectors, the shorter padded with
/// zeros.
pub open spec fn padded_add(a: Seq<int>, b: Seq<int>) -> Seq<int> {
    Seq::new(
        if a.len() >= b.len() {
            a.len()
        } else {
            b.len()
        },
        |i: int|
            (if i < a.len() {
                a[i]
            } else {
                0
            }) + (if i < b.len() {
                b[i]
            } else {
                0
            }),
    )
}

/// The group law behind retraction: adding a frequency vector to its own
/// negation cancels every position.
pub proof fn lemma_df_group_law(a: Seq<int>, b: Seq<int>)
    requires
        b.len() == a.len(),
        forall|i: int| 0 <= i < a.len() ==> b[i] == -a[i],
    ensures
        forall|i: int| 0 <= i < padded_add(a, b).len() ==> #[trigger] padded_add(a, b)[i] == 0,
{
}

/// Merging two frequency readings stays inside the machine integers: the
/// padded pointwise sums and the count sum all fit.
pub open spec fn df_merge_fits(a_count: int, a: Seq<int>, b_count: int, b: Seq<int>) -> bool {
    &&& i64::MIN <= a_count + b_count <= i64::MAX
    &&& forall|i: int|
        0 <= i < padded_add(a, b).len() ==> i64::MIN <= #[trigger] padded_add(a, b)[i] <= i64::MAX
}

/// The per-position document frequencies of everything seen, plus the
/// signed number of documents.
#[derive(Debug, Clone)]
pub struct DocumentFrequencyAggregate {
    /// How many documents use each position; absent until the first
    /// contribution.
    pub frequencies: Option<Vec<i64>>,
    /// The signed number of documents summarized.
    pub count: i64,
}

impl DocumentFrequencyAggregate {
    /// The frequency vector as mathematical integers (empty before the
    /// first contribution).
    pub open spec fn freq(self) -> Seq<int> {
        match self.frequencies {
            Some(v) => v@.map_values(|x: i64| x as int),
            None => Seq::empty(),
        }
    }

    /// The group zero.
    pub fn zero() -> (r: DocumentFrequencyAggregate)
        ensures
            r.freq() =~= Seq::<int>::empty(),
            r.count == 0,
    {
        DocumentFrequencyAggregate { frequencies: None, count: 0 }
    }

    /// The aggregate contributed by one document: its binarized usage
    /// vector, scaled by the document's signed multiplicity.
    pub fn new(document: Vec<i64>, multiplicity: i64) -> (r: Result<
        DocumentFrequencyAggregate,
        EncodeError,
    >)
        ensures
            r matches Err(e) ==> e == EncodeError::Overflow,
            r is Ok <==> (forall|i: int|
                0 <= i < document@.len() ==> i64::MIN <= (#[trigger] document@[i]) * multiplicity
                    <= i64::MAX),
            r matches Ok(a) ==> {
                &&& a.count == multiplicity
                &&& a.freq().len() == document@.len()
                &&& forall|i: int|
                    0 <= i < document@.len() ==> a.freq()[i] == document@[i]
                        * multiplicity
            },
    {
        let mut out: Vec<i64> = Vec::new();
        let mut i: usize = 0;
        while i < document.len()
            invariant
                0 <= i <= document@.len(),
                out@.len() == i,
                forall|j: int|
                    0 <= j < i ==> (#[trigger] out@[j]) as int == document@[j] * multiplicity,
                forall|j: int|
                    0 <= j < i ==> i64::MIN <= (#[trigger] document@[j]) * multiplicity
                        <= i64::MAX,
            decreases document@.len() - i,
        {
            match document[i].checked_mul(multiplicity) {
                Some(x) => out.push(x),
                None => {
                    return Err(EncodeError::Overflow);
                },
            }
            i += 1;
        }
        Ok(DocumentFrequencyAggregate { frequencies: Some(out), count: multiplicity })
    }

    /// Whether the aggregate is the group zero.
    pub fn is_zero(&self) -> (r: bool)
        ensures
            r == (self.count == 0),
    {
        self.count == 0
    }

    /// Folds another aggregate in: pointwise addition of the frequency
    /// vectors (the shorter padded with zeros) and addition of the counts.
    pub fn plus_equals(&mut self, other: &DocumentFrequencyAggregate) -> (r: Result<
        (),
        EncodeError,
    >)
        ensures
            r is Err ==> r == Err::<(), EncodeError>(EncodeError::Overflow),
            r is Ok <==> df_merge_fits(
                old(self).count as int,
                old(self).freq(),
                other.count as int,
                other.freq(),
            ),
            r is Ok ==> {
                &&& final(self).count == old(self).count + other.count
                &&& final(self).freq() =~= padded_add(old(self).freq(), other.freq())
            },
    {
        let new_count = match self.count.checked_add(other.count) {
            Some(c) => c,
            None => {
                return Err(EncodeError::Overflow);
            },
        };
        let a: Vec<i64> = match self.frequencies.take() {
            Some(v) => v,
            None => Vec::new(),
        };
        let b: &Vec<i64> = match &other.frequencies {
            Some(v) => v,
            None => {
                // Nothing to add pointwise.
                self.frequencies = Some(a);
                self.count = new_count;
                proof {
                    assert(final(self).freq() =~= padded_add(old(self).freq(), other.freq()));
                    assert forall|i: int|
                        0 <= i < padded_add(old(self).freq(), other.freq()).len() implies i64::MIN
                        <= #[trigger] padded_add(old(self).freq(), other.freq())[i]
                        <= i64::MAX by {
                        assert(padded_add(old(self).freq(), other.freq())[i]
                            == final(self).freq()[i]);
                    }
                }
                return Ok(());
            },
        };
        let n = if a.len() >= b.len() {
            a.len()
        } else {
            b.len()
        };
        let mut out: Vec<i64> = Vec::new();
        let mut i: usize = 0;
        while i < n
            invariant
                0 <= i <= n,
                n == (if a@.len() >= b@.len() {
                    a@.len()
                } else {
                    b@.len()
                }),
                old(self).freq() == a@.map_values(|x: i64| x as int),
                other.freq() == b@.map_values(|x: i64| x as int),
                i64::MIN <= old(self).count + other.count <= i64::MAX,
                out@.len() == i,
                forall|j: int|
                    0 <= j < i ==> (#[trigger] out@[j]) as int == (if j < a@.len() {
                        a@[j] as int
                    } else {
                        0
                    }) + (if j < b@.len() {
                        b@[j] as int
                    } else {
                        0
                    }),
            decreases n - i,
        {
            let x: i64 = if i < a.len() {
                a[i]
            } else {
                0
            };
            let y: i64 = if i < b.len() {
                b[i]
            } else {
                0
            };
            match x.checked_add(y) {
                Some(z) => out.push(z),
                None => {
                    proof {
                        assert(padded_add(old(self).freq(), other.freq())[i as int] == x as int
                            + y as int);
                    }
                    return Err(EncodeError::Overflow);
                },
            }
            i += 1;
        }
        self.frequencies = Some(out);
        self.count = new_count;
        proof {
            assert(final(self).freq() =~= padded_add(old(self).freq(), other.freq()));
            assert forall|i: int|
                0 <= i < padded_add(old(self).freq(), other.freq()).len() implies i64::MIN
                <= #[trigger] padded_add(old(self).freq(), other.freq())[i] <= i64::MAX by {
                assert(padded_add(old(self).freq(), other.freq())[i] == final(self).freq()[i]);
            }
        }
        Ok(())
    }

    /// Negates the aggregate: every frequency and the count flip sign.
    pub fn negate(&mut self) -> (r: Result<(), EncodeError>)
        ensures
            r is Err ==> r == Err::<(), EncodeError>(EncodeError::Overflow),
            r is Ok <==> (old(self).count != i64::MIN && forall|i: int|
                0 <= i < old(self).freq().len() ==> #[trigger] old(self).freq()[i] != i64::MIN),
            r is Ok ==> {
                &&& final(self).count == -old(self).count
                &&& final(self).freq() =~= old(self).freq().map_values(|x: int| -x)
            },
    {
        let new_count = match 0i64.checked_sub(self.count) {
            Some(c) => c,
            None => {
                return Err(EncodeError::Overflow);
            },
        };
        let a: Vec<i64> = match self.frequencies.take() {
            Some(v) => v,
            None => {
                self.count = new_count;
                proof {
                    assert(final(self).freq() =~= old(self).freq().map_values(|x: int| -x));
                }
                return Ok(());
            },
        };
        let mut out: Vec<i64> = Vec::new();
        let mut i: usize = 0;
        while i < a.len()
            invariant
                0 <= i <= a@.len(),
                old(self).freq() == a@.map_values(|x: i64| x as int),
                old(self).count != i64::MIN,
                out@.len() == i,
                forall|j: int| 0 <= j < i ==> (#[trigger] out@[j]) as int == -(a@[j] as int),
                forall|j: int| 0 <= j < i ==> (#[trigger] a@[j]) != i64::MIN,
            decreases a@.len() - i,
        {
            match 0i64.checked_sub(a[i]) {
                Some(z) => out.push(z),
                None => {
                    proof {
                        assert(old(self).freq()[i as int] == i64::MIN);
                    }
                    return Err(EncodeError::Overflow);
                },
            }
            i += 1;
        }
        self.frequencies = Some(out);
        self.count = new_count;
        proof {
            assert(final(self).freq() =~= old(self).freq().map_values(|x: int| -x));
        }
        Ok(())
    }

    /// The frequency vector, if any document has contributed.
    pub fn get_frequencies(&self) -> (r: Option<&Vec<i64>>)
        ensures
            r matches Some(v) ==> self.frequencies == Some(*v),
            r is None ==> self.frequencies is None,
    {
        match &self.frequencies {
            Some(v) => Some(v),
            None => None,
        }
    }

    /// The signed number of documents summarized.
    pub fn get_count(&self) -> (r: i64)
        ensures
            r == self.count,
    {
        self.count
    }
}

/// The binarized usage of a document: one per position with a nonzero term
/// count, zero elsewhere, scaled by the document's signed multiplicity.
pub open spec fn df_contrib(u: ((usize, RowValue), i64)) -> Seq<int> {
    match u.0.1 {
        RowValue::Vector(v) => Seq::new(
            v@.len(),
            |i: int|
                (if v@[i].num == 0 {
                    0int
                } else {
                    1
                }) * u.1,
        ),
        _ => Seq::empty(),
    }
}

/// The document frequencies folded out of a batch: each document's
/// binarized usage is added pointwise, the shorter side padded with zeros.
pub open spec fn df_fold(start: Seq<int>, data: Seq<((usize, RowValue), i64)>) -> Seq<int>
    decreases data.len(),
{
    if data.len() == 0 {
        start
    } else {
        padded_add(df_fold(start, data.drop_last()), df_contrib(data.last()))
    }
}

/// Pointwise addition of frequency vectors is commutative.
pub proof fn lemma_padded_add_comm(a: Seq<int>, b: Seq<int>)
    ensures
        padded_add(a, b) =~= padded_add(b, a),
{
}

/// Pointwise addition of frequency vectors is associative.
pub proof fn lemma_padded_add_assoc(a: Seq<int>, b: Seq<int>, c: Seq<int>)
    ensures
        padded_add(padded_add(a, b), c) =~= padded_add(a, padded_add(b, c)),
{
}

/// Any one document can be folded in last: the frequency fold is
/// insensitive to where the document stands in the batch.
pub proof fn lemma_df_fold_remove(start: Seq<int>, data: Seq<((usize, RowValue), i64)>, j: int)
    requires
        0 <= j < data.len(),
    ensures
        df_fold(start, data) =~= padded_add(df_fold(start, data.remove(j)), df_contrib(data[j])),
    decreases data.len(),
{
    if j == data.len() - 1 {
        assert(data.remove(j) =~= data.drop_last());
    } else {
        lemma_df_fold_remove(start, data.drop_last(), j);
        assert(data.drop_last()[j] == data[j]);
        let f = df_fold(start, data.drop_last().remove(j));
        lemma_padded_add_assoc(f, df_contrib(data[j]), df_contrib(data.last()));
        lemma_padded_add_comm(df_contrib(data[j]), df_contrib(data.last()));
        lemma_padded_add_assoc(f, df_contrib(data.last()), df_contrib(data[j]));
        assert(data.remove(j).drop_last() =~= data.drop_last().remove(j));
        assert(data.remove(j).last() == data.last());
        assert(padded_add(padded_add(f, df_contrib(data[j])), df_contrib(data.last()))
            =~= padded_add(padded_add(f, df_contrib(data.last())), df_contrib(data[j])));
    }
}

/// The folded document frequencies are a function of the multiset of
/// updates: the settled frequencies cannot depend on the order in which
/// documents arrived within an epoch.
pub proof fn lemma_df_fold_permutation(
    start: Seq<int>,
    s1: Seq<((usize, RowValue), i64)>,
    s2: Seq<((usize, RowValue), i64)>,
)
    requires
        s1.to_multiset() == s2.to_multiset(),
    ensures
        df_fold(start, s1) =~= df_fold(start, s2),
    decreases s1.len(),
{
    s1.to_multiset_ensures();
    s2.to_multiset_ensures();
    if s1.len() == 0 {
        assert(s2.to_multiset().len() == 0);
        assert(s2.len() == 0);
    } else {
        let x = s1.last();
        assert(s1.to_multiset().contains(x));
        assert(s2.to_multiset().contains(x));
        assert(s2.contains(x));
        let j = choose|j: int| 0 <= j < s2.len() && s2[j] == x;
        lemma_df_fold_remove(start, s2, j);
        assert(s1.drop_last() =~= s1.remove(s1.len() - 1));
        assert(s1.drop_last().to_multiset() =~= s1.to_multiset().remove(x));
        assert(s2.remove(j).to_multiset() =~= s2.to_multiset().remove(x));
        lemma_df_fold_permutation(start, s1.drop_last(), s2.remove(j));
    }
}

/// One weighted position of a transformed document: the term count, the
/// position's document frequency, and the total document count. A driver
/// turns this into `tf * ln(doc_count / doc_freq)`.
#[derive(Debug, Clone, Copy)]
pub struct TfidfWeight {
    /// The term count at this position.
    pub tf: Ratio,
    /// In how many documents this position is used.
    pub doc_freq: i64,
    /// How many documents the fit saw.
    pub doc_count: i64,
}

/// The whole fitting fold stays inside the machine integers: every record
/// is a vector, and at every step the merged count and the padded pointwise
/// sums fit.
pub open spec fn tfidf_fit_ok(c0: int, f0: Seq<int>, data: Seq<((usize, RowValue), i64)>) -> bool {
    forall|i: int|
        0 <= i < data.len() ==> ((#[trigger] data[i]).0.1 is Vector && df_merge_fits(
            c0 + total_mult(data.take(i)),
            df_fold(f0, data.take(i)),
            data[i].1 as int,
            df_contrib(data[i]),
        ))
}

/// The TF–IDF transformer over vector-valued inputs.
pub struct TfidfTransformer {
    /// The fitted document-frequency aggregate; absent until the first
    /// `fit`.
    pub frequencies: Option<DocumentFrequencyAggregate>,
}

impl TfidfTransformer {
    /// A transformer with nothing fitted yet.
    pub fn new() -> (r: TfidfTransformer)
        ensures
            r.frequencies is None,
    {
        TfidfTransformer { frequencies: None }
    }

    /// Folds a batch of vector-valued documents into the document
    /// frequencies: each document contributes one per position it uses,
    /// times its signed multiplicity.
    pub fn fit(&mut self, data: &Vec<((usize, RowValue), i64)>) -> (r: Result<(), EncodeError>)
        ensures
            r matches Err(e) ==> e == EncodeError::TypeMismatch || e == EncodeError::Overflow,
            r is Ok <==> tfidf_fit_ok(
                match old(self).frequencies {
                    Some(b) => b.count as int,
                    None => 0,
                },
                match old(self).frequencies {
                    Some(b) => b.freq(),
                    None => Seq::empty(),
                },
                data@,
            ),
            r is Ok ==> final(self).frequencies is Some,
            r is Ok ==> (final(self).frequencies matches Some(a) && a.count as int == (
            match old(self).frequencies {
                Some(b) => b.count as int,
                None => 0,
            }) + total_mult(data@) && a.freq() =~= df_fold(
                match old(self).frequencies {
                    Some(b) => b.freq(),
                    None => Seq::empty(),
                },
                data@,
            )),
    {
        let mut agg = match self.frequencies.take() {
            Some(a) => a,
            None => DocumentFrequencyAggregate::zero(),
        };
        let ghost start_count = agg.count as int;
        let ghost start_freq = agg.freq();
        let mut i: usize = 0;
        while i < data.len()
            invariant
                0 <= i <= data@.len(),
                agg.count as int == start_count + total_mult(data@.take(i as int)),
                agg.freq() =~= df_fold(start_freq, data@.take(i as int)),
                start_count == (match old(self).frequencies {
                    Some(b) => b.count as int,
                    None => 0,
                }),
                start_freq == (match old(self).frequencies {
                    Some(b) => b.freq(),
                    None => Seq::<int>::empty(),
                }),
                forall|m: int|
                    0 <= m < i ==> ((#[trigger] data@[m]).0.1 is Vector && df_merge_fits(
                        start_count + total_mult(data@.take(m)),
                        df_fold(start_freq, data@.take(m)),
                        data@[m].1 as int,
                        df_contrib(data@[m]),
                    )),
            decreases data@.len() - i,
        {
            let v = match &data[i].0.1 {
                RowValue::Vector(v) => v,
                _ => {
                    proof {
                        assert(!((data@[i as int]).0.1 is Vector));
                    }
                    self.frequencies = Some(agg);
                    return Err(EncodeError::TypeMismatch);
                },
            };
            let mut bin: Vec<i64> = Vec::new();
            let mut p: usize = 0;
            while p < v.len()
                invariant
                    0 <= p <= v@.len(),
                    bin@.len() == p,
                    forall|l: int|
                        0 <= l < p ==> (#[trigger] bin@[l]) as int == (if v@[l].num == 0 {
                            0int
                        } else {
                            1
                        }),
                decreases v@.len() - p,
            {
                if v[p].num != 0 {
                    bin.push(1);
                } else {
                    bin.push(0);
                }
                p += 1;
            }
            let delta = match DocumentFrequencyAggregate::new(bin, data[i].1) {
                Ok(a) => a,
                Err(_) => {
                    proof {
                        // Binarized entries are zero or one, so scaling them
                        // by the multiplicity always fits.
                        assert(false);
                    }
                    self.frequencies = Some(agg);
                    return Err(EncodeError::Overflow);
                },
            };
            proof {
                assert(delta.freq() =~= df_contrib(data@[i as int]));
            }
            match agg.plus_equals(&delta) {
                Ok(_) => {},
                Err(_) => {
                    proof {
                        assert(!df_merge_fits(
                            start_count + total_mult(data@.take(i as int)),
                            df_fold(start_freq, data@.take(i as int)),
                            data@[i as int].1 as int,
                            df_contrib(data@[i as int]),
                        ));
                    }
                    self.frequencies = Some(agg);
                    return Err(EncodeError::Overflow);
                },
            }
            proof {
                lemma_total_mult_take_step(data@, i as int);
                assert(data@.take(i as int + 1).drop_last() =~= data@.take(i as int));
                assert(data@.take(i as int + 1).last() == data@[i as int]);
                assert(df_merge_fits(
                    start_count + total_mult(data@.take(i as int)),
                    df_fold(start_freq, data@.take(i as int)),
                    data@[i as int].1 as int,
                    df_contrib(data@[i as int]),
                ));
            }
            i += 1;
        }
        proof {
            assert(data@.take(data@.len() as int) =~= data@);
        }
        self.frequencies = Some(agg);
        Ok(())
    }

    /// Weighs every document against the fitted frequencies: position `p`
    /// of the output pairs the document's term count with the frequency at
    /// `p` and the total document count, and is empty exactly where the
    /// term count or the frequency is zero (those weigh exactly zero). The
    /// output covers the positions both vectors share.
    pub fn transform(&self, data: &Vec<((usize, RowValue), i64)>) -> (r: Result<
        Vec<((usize, Vec<Option<TfidfWeight>>), i64)>,
        EncodeError,
    >)
        ensures
            self.frequencies is None <==> r == Err::<
                Vec<((usize, Vec<Option<TfidfWeight>>), i64)>,
                EncodeError,
            >(EncodeError::NotFitted),
            r == Err::<Vec<((usize, Vec<Option<TfidfWeight>>), i64)>, EncodeError>(
                EncodeError::EmptyAggregate,
            ) <==> (self.frequencies matches Some(a) && a.frequencies is None),
            r is Ok <==> (self.frequencies matches Some(a) && a.frequencies is Some && forall|
                j: int,
            | 0 <= j < data@.len() ==> (#[trigger] data@[j]).0.1 is Vector),
            r matches Ok(out) ==> {
                &&& out@.len() == data@.len()
                &&& forall|j: int|
                    0 <= j < data@.len() ==> {
                        &&& (#[trigger] out@[j]).0.0 == data@[j].0.0
                        &&& out@[j].1 == data@[j].1
                        &&& data@[j].0.1 matches RowValue::Vector(tf)
                        &&& out@[j].0.1@.len() == (if data@[j].0.1->Vector_0@.len() <= self
                            .frequencies->Some_0.freq().len() {
                            data@[j].0.1->Vector_0@.len() as int
                        } else {
                            self.frequencies->Some_0.freq().len() as int
                        })
                        &&& forall|p: int|
                            0 <= p < out@[j].0.1@.len() ==> {
                                let tfp = data@[j].0.1->Vector_0@[p];
                                let dfp = self.frequencies->Some_0.freq()[p];
                                if tfp.num == 0 || dfp <= 0 {
                                    (#[trigger] out@[j].0.1@[p]) is None
                                } else {
                                    out@[j].0.1@[p] matches Some(w) && w.tf == tfp
                                        && w.doc_freq as int == dfp && w.doc_count == self
                                        .frequencies->Some_0.count
                                }
                            }
                    }
            },
    {
        let agg = match &self.frequencies {
            None => {
                return Err(EncodeError::NotFitted);
            },
            Some(a) => a,
        };
        let freq: &Vec<i64> = match &agg.frequencies {
            Some(v) => v,
            None => {
                return Err(EncodeError::EmptyAggregate);
            },
        };
        let doc_count = agg.count;
        let mut out: Vec<((usize, Vec<Option<TfidfWeight>>), i64)> = Vec::new();
        let mut i: usize = 0;
        while i < data.len()
            invariant
                0 <= i <= data@.len(),
                self.frequencies matches Some(a) && a == *agg,
                agg.frequencies matches Some(f) && f == *freq,
                agg.freq().len() == freq@.len(),
                forall|p: int| 0 <= p < freq@.len() ==> agg.freq()[p] == freq@[p] as int,
                doc_count == agg.count,
                forall|j: int| 0 <= j < i ==> (#[trigger] data@[j]).0.1 is Vector,
                out@.len() == i,
                forall|j: int|
                    0 <= j < i ==> {
                        &&& (#[trigger] out@[j]).0.0 == data@[j].0.0
                        &&& out@[j].1 == data@[j].1
                        &&& data@[j].0.1 matches RowValue::Vector(tf)
                        &&& out@[j].0.1@.len() == (if data@[j].0.1->Vector_0@.len()
                            <= freq@.len() {
                            data@[j].0.1->Vector_0@.len() as int
                        } else {
                            freq@.len() as int
                        })
                        &&& forall|p: int|
                            0 <= p < out@[j].0.1@.len() ==> {
                                let tfp = data@[j].0.1->Vector_0@[p];
                                let dfp = freq@[p] as int;
                                if tfp.num == 0 || dfp <= 0 {
                                    (#[trigger] out@[j].0.1@[p]) is None
                                } else {
                                    out@[j].0.1@[p] matches Some(w) && w.tf == tfp
                                        && w.doc_freq as int == dfp && w.doc_count == doc_count
                                }
                            }
                    },
            decreases data@.len() - i,
        {
            let tf = match &data[i].0.1 {
                RowValue::Vector(v) => v,
                _ => {
                    return Err(EncodeError::TypeMismatch);
                },
            };
            let n = if tf.len() <= freq.len() {
                tf.len()
            } else {
                freq.len()
            };
            let mut row: Vec<Option<TfidfWeight>> = Vec::new();
            let mut p: usize = 0;
            while p < n
                invariant
                    0 <= p <= n,
                    n <= tf@.len(),
                    n <= freq@.len(),
                    row@.len() == p,
                    forall|l: int|
                        0 <= l < p ==> {
                            let tfp = tf@[l];
                            let dfp = freq@[l] as int;
                            if tfp.num == 0 || dfp <= 0 {
                                (#[trigger] row@[l]) is None
                            } else {
                                row@[l] matches Some(w) && w.tf == tfp && w.doc_freq as int == dfp
                                    && w.doc_count == doc_count
                            }
                        },
                decreases n - p,
            {
                let tfp = tf[p];
                let dfp = freq[p];
                if tfp.num == 0 || dfp <= 0 {
                    row.push(None);
                } else {
                    row.push(Some(TfidfWeight { tf: tfp, doc_freq: dfp, doc_count }));
                }
                p += 1;
            }
            out.push(((data[i].0.0, row), data[i].1));
            i += 1;
        }
        Ok(out)
    }
}

/// The net number of documents a batch carries.
pub open spec fn total_mult(data: Seq<((usize, RowValue), i64)>) -> int
    decreases data.len(),
{
    if data.len() == 0 {
        0
    } else {
        data[0].1 as int + total_mult(data.drop_first())
    }
}

/// One more prefix update adds its own multiplicity.
pub proof fn lemma_total_mult_take_step(data: Seq<((usize, RowValue), i64)>, i: int)
    requires
        0 <= i < data.len(),
    ensures
        total_mult(data.take(i + 1)) == total_mult(data.take(i)) + data[i].1 as int,
    decreases i,
{
    if i == 0 {
        assert(data.take(1).drop_first() =~= data.take(0));
        assert(data.take(1)[0] == data[0]);
    } else {
        assert(data.take(i + 1).drop_first() =~= data.drop_first().take(i));
        assert(data.take(i).drop_first() =~= data.drop_first().take(i - 1));
        assert(data.take(i + 1)[0] == data[0]);
        assert(data.take(i)[0] == data[0]);
        lemma_total_mult_take_step(data.drop_first(), i - 1);
    }
}

} // verus!
