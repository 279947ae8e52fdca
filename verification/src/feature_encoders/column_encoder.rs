//! What all column encoders share: the shape of a time-varying input batch
//! and the net-multiplicity reading of it that every fit contract is stated
//! over.
//!
//! A batch is a sequence of signed updates `((row_id, value), multiplicity)`;
//! an insertion carries `+1`, a retraction `-1`, and a record may appear any
//! number of times. What an encoder learns from a batch depends only on the
//! net multiplicity of each value, never on the order of the updates.

use vstd::prelude::*;

use crate::feature_encoders::feature_extraction::count_vectorizer::count_doc_ok;
use crate::feature_encoders::feature_extraction::count_vectorizer::token_counts;
use crate::feature_encoders::feature_extraction::count_vectorizer::token_mult;
use crate::feature_encoders::feature_extraction::count_vectorizer::total_tokens;
use crate::feature_encoders::feature_extraction::count_vectorizer::CountVectorizer;
use crate::feature_encoders::feature_extraction::hash_vectorizer::hash_counts;
use crate::feature_encoders::feature_extraction::hash_vectorizer::hash_doc_ok;
use crate::feature_encoders::feature_extraction::utils::tokenize;
use crate::feature_encoders::kbins_discretizer::kbins_bin;
use crate::feature_encoders::kbins_discretizer::kbins_step_fits;
use crate::feature_encoders::minmax_scaler::minmax_fit_ok;
use crate::feature_encoders::minmax_scaler::prior_count;
use crate::feature_encoders::minmax_scaler::spec_extremes;
use crate::feature_encoders::polynomial_features_encoder::powers_fit;
use crate::feature_encoders::standard_scaler::get_fits;
use crate::feature_encoders::standard_scaler::mean_of;
use crate::feature_encoders::standard_scaler::v_fold;
use crate::feature_encoders::standard_scaler::v_fold_ok;
use crate::feature_encoders::standard_scaler::var_of;
use crate::feature_encoders::standard_scaler::VarModel;
use crate::types::ratio::scale_step_fits;
use crate::types::ratio::scales_to;
use crate::types::ratio::spec_sub_val;
use crate::feature_encoders::feature_extraction::hash_vectorizer::HashVectorizer;
use crate::feature_encoders::kbins_discretizer::KBinsDiscretizer;
use crate::feature_encoders::minmax_scaler::MinMaxScaler;
use crate::feature_encoders::one_hot_encoder::OneHotEncoder;
use crate::feature_encoders::ordinal_encoder::OrdinalEncoder;
use crate::feature_encoders::passthrough::Passthrough;
use crate::feature_encoders::polynomial_features_encoder::PolynomialFeaturesEncoder;
use crate::feature_encoders::standard_scaler::StandardScaler;
use crate::types::integer_assignment_aggregate::PositionAssignmentAggregate;
use crate::types::ratio::Ratio;
use crate::types::row_value::RowValue;
use crate::EncodeError;

verus! {

/// The net multiplicity that the updates of `data` give to the value class
/// of `q` (row ids do not matter for fitting).
pub open spec fn net_mult(data: Seq<((usize, RowValue), i64)>, q: RowValue) -> int
    decreases data.len(),
{
    if data.len() == 0 {
        0
    } else {
        (if data[0].0.1.spec_eqv(q) {
            data[0].1 as int
        } else {
            0
        }) + net_mult(data.drop_first(), q)
    }
}

/// The net multiplicity that the updates of `data` give to the numeric
/// value `q`, with integers promoted to scalars as the numeric encoders read
/// them.
pub open spec fn net_mult_number(data: Seq<((usize, RowValue), i64)>, q: Ratio) -> int
    decreases data.len(),
{
    if data.len() == 0 {
        0
    } else {
        (match data[0].0.1.spec_number() {
            Some(p) => if p.spec_eqv(q) {
                data[0].1 as int
            } else {
                0
            },
            None => 0,
        }) + net_mult_number(data.drop_first(), q)
    }
}

/// One more prefix update adds its own contribution to the numeric net
/// multiplicity.
pub proof fn lemma_net_mult_number_take_step(
    data: Seq<((usize, RowValue), i64)>,
    i: int,
    q: Ratio,
)
    requires
        0 <= i < data.len(),
    ensures
        net_mult_number(data.take(i + 1), q) == net_mult_number(data.take(i), q) + (
        match data[i].0.1.spec_number() {
            Some(p) => if p.spec_eqv(q) {
                data[i].1 as int
            } else {
                0
            },
            None => 0,
        }),
    decreases i,
{
    if i == 0 {
        assert(data.take(1).drop_first() =~= data.take(0));
        assert(data.take(1)[0] == data[0]);
    } else {
        assert(data.take(i + 1).drop_first() =~= data.drop_first().take(i));
        assert(data.take(i).drop_first() =~= data.drop_first().take(i - 1));
        assert(data.take(i + 1)[0] == data[0]);
        assert(data.take(i)[0] == data[0]);
        lemma_net_mult_number_take_step(data.drop_first(), i - 1, q);
    }
}

/// Every value carried by the batch is well-formed.
pub open spec fn wf_updates(data: Seq<((usize, RowValue), i64)>) -> bool {
    forall|i: int| 0 <= i < data.len() ==> (#[trigger] data[i]).0.1.wf()
}

/// One more prefix update adds its own contribution to the net multiplicity.
pub proof fn lemma_net_mult_take_step(data: Seq<((usize, RowValue), i64)>, i: int, q: RowValue)
    requires
        0 <= i < data.len(),
    ensures
        net_mult(data.take(i + 1), q) == net_mult(data.take(i), q) + (if data[i].0.1.spec_eqv(q) {
            data[i].1 as int
        } else {
            0
        }),
    decreases i,
{
    if i == 0 {
        assert(data.take(1).drop_first() =~= data.take(0));
        assert(data.take(1)[0] == data[0]);
    } else {
        assert(data.take(i + 1).drop_first() =~= data.drop_first().take(i));
        assert(data.take(i).drop_first() =~= data.drop_first().take(i - 1));
        assert(data.take(i + 1)[0] == data[0]);
        assert(data.take(i)[0] == data[0]);
        lemma_net_mult_take_step(data.drop_first(), i - 1, q);
    }
}

/// Removing one update takes away exactly its own contribution.
pub proof fn lemma_net_mult_remove(data: Seq<((usize, RowValue), i64)>, j: int, q: RowValue)
    requires
        0 <= j < data.len(),
    ensures
        net_mult(data, q) == net_mult(data.remove(j), q) + (if data[j].0.1.spec_eqv(q) {
            data[j].1 as int
        } else {
            0
        }),
    decreases data.len(),
{
    if j == 0 {
        assert(data.remove(0) =~= data.drop_first());
    } else {
        assert(data.remove(j).drop_first() =~= data.drop_first().remove(j - 1));
        assert(data.remove(j)[0] == data[0]);
        lemma_net_mult_remove(data.drop_first(), j - 1, q);
    }
}

/// The net count the fitted-so-far position aggregate holds before a batch.
pub open spec fn paa_prior_count(meta: Option<PositionAssignmentAggregate>, k2: RowValue) -> int {
    match meta {
        Some(b) => b.spec_count(k2),
        None => 0,
    }
}

/// Folding the batch into the position aggregate stays inside the machine
/// integers: at every step, the running net count of the step's value fits.
pub open spec fn paa_fit_ok(
    meta: Option<PositionAssignmentAggregate>,
    data: Seq<((usize, RowValue), i64)>,
) -> bool {
    forall|i: int|
        0 <= i < data.len() ==> i64::MIN <= paa_prior_count(meta, (#[trigger] data[i]).0.1)
            + net_mult(data.take(i), data[i].0.1) + data[i].1 <= i64::MAX
}

/// The fresh positions the fitted-so-far aggregate would hand out next.
pub open spec fn paa_prior_next(meta: Option<PositionAssignmentAggregate>) -> int {
    match meta {
        Some(b) => b.next_index as int,
        None => 0,
    }
}

/// A batch of insertions only (no negative multiplicity) never lowers a
/// net multiplicity below zero.
pub proof fn lemma_net_mult_nonneg(data: Seq<((usize, RowValue), i64)>, q: RowValue)
    requires
        forall|i: int| 0 <= i < data.len() ==> (#[trigger] data[i]).1 >= 0,
    ensures
        net_mult(data, q) >= 0,
    decreases data.len(),
{
    if data.len() > 0 {
        assert(forall|i: int|
            0 <= i < data.drop_first().len() ==> #[trigger] data.drop_first()[i] == data[i + 1]);
        lemma_net_mult_nonneg(data.drop_first(), q);
    }
}

/// A prefix of an insertion-only batch never carries a negative net
/// multiplicity.
pub proof fn lemma_net_mult_nonneg_take(data: Seq<((usize, RowValue), i64)>, i: int, q: RowValue)
    requires
        0 <= i <= data.len(),
        forall|j: int| 0 <= j < data.len() ==> (#[trigger] data[j]).1 > 0,
    ensures
        net_mult(data.take(i), q) >= 0,
{
    assert(forall|j: int|
        0 <= j < data.take(i).len() ==> (#[trigger] data.take(i)[j]).1 >= 0);
    lemma_net_mult_nonneg(data.take(i), q);
}

/// Every update of `s2` is an update of `s1` with its multiplicity negated,
/// position by position.
pub open spec fn negated_updates(
    s1: Seq<((usize, RowValue), i64)>,
    s2: Seq<((usize, RowValue), i64)>,
) -> bool {
    &&& s1.len() == s2.len()
    &&& forall|i: int|
        0 <= i < s1.len() ==> (#[trigger] s2[i]).0 == s1[i].0 && s2[i].1 as int == -(
        s1[i].1 as int)
}

/// Net multiplicities add up over concatenated batches.
pub proof fn lemma_net_mult_concat(
    s1: Seq<((usize, RowValue), i64)>,
    s2: Seq<((usize, RowValue), i64)>,
    q: RowValue,
)
    ensures
        net_mult(s1 + s2, q) == net_mult(s1, q) + net_mult(s2, q),
    decreases s1.len(),
{
    if s1.len() == 0 {
        assert(s1 + s2 =~= s2);
    } else {
        assert((s1 + s2).drop_first() =~= s1.drop_first() + s2);
        assert((s1 + s2)[0] == s1[0]);
        lemma_net_mult_concat(s1.drop_first(), s2, q);
    }
}

/// Inserting a batch and then retracting every one of its updates nets to
/// zero for every value: the settled state carries nothing.
pub proof fn lemma_net_mult_cancellation(
    s1: Seq<((usize, RowValue), i64)>,
    s2: Seq<((usize, RowValue), i64)>,
    q: RowValue,
)
    requires
        negated_updates(s1, s2),
    ensures
        net_mult(s1 + s2, q) == 0,
    decreases s1.len(),
{
    lemma_net_mult_concat(s1, s2, q);
    lemma_net_mult_negated(s1, s2, q);
}

/// A pointwise-negated batch carries the opposite net multiplicity.
pub proof fn lemma_net_mult_negated(
    s1: Seq<((usize, RowValue), i64)>,
    s2: Seq<((usize, RowValue), i64)>,
    q: RowValue,
)
    requires
        negated_updates(s1, s2),
    ensures
        net_mult(s2, q) == -net_mult(s1, q),
    decreases s1.len(),
{
    if s1.len() > 0 {
        assert(forall|i: int|
            0 <= i < s1.drop_first().len() ==> #[trigger] s1.drop_first()[i] == s1[i + 1]
                && #[trigger] s2.drop_first()[i] == s2[i + 1]);
        lemma_net_mult_negated(s1.drop_first(), s2.drop_first(), q);
    }
}

/// The net multiplicity is a function of the multiset of updates: any two
/// batches that hold the same updates, in whatever order, give every value
/// the same net multiplicity. This is why a settled fit cannot depend on
/// the order in which insertions arrived within an epoch.
pub proof fn lemma_net_mult_permutation(
    s1: Seq<((usize, RowValue), i64)>,
    s2: Seq<((usize, RowValue), i64)>,
    q: RowValue,
)
    requires
        s1.to_multiset() == s2.to_multiset(),
    ensures
        net_mult(s1, q) == net_mult(s2, q),
    decreases s1.len(),
{
    s1.to_multiset_ensures();
    s2.to_multiset_ensures();
    if s1.len() == 0 {
        assert(s2.to_multiset().len() == 0);
        assert(s2.len() == 0);
    } else {
        let x = s1[0];
        assert(s1.to_multiset().contains(x));
        assert(s2.to_multiset().contains(x));
        assert(s2.contains(x));
        let j = choose|j: int| 0 <= j < s2.len() && s2[j] == x;
        lemma_net_mult_remove(s2, j, q);
        lemma_net_mult_remove(s1, 0, q);
        assert(s1.remove(0) =~= s1.drop_first());
        assert(s1.drop_first().to_multiset() =~= s1.to_multiset().remove(x));
        assert(s2.remove(j).to_multiset() =~= s2.to_multiset().remove(x));
        lemma_net_mult_permutation(s1.drop_first(), s2.remove(j), q);
    }
}

/// Removing one update takes away exactly its own numeric contribution.
pub proof fn lemma_net_mult_number_remove(data: Seq<((usize, RowValue), i64)>, j: int, q: Ratio)
    requires
        0 <= j < data.len(),
    ensures
        net_mult_number(data, q) == net_mult_number(data.remove(j), q) + (
        match data[j].0.1.spec_number() {
            Some(p) => if p.spec_eqv(q) {
                data[j].1 as int
            } else {
                0
            },
            None => 0,
        }),
    decreases data.len(),
{
    if j == 0 {
        assert(data.remove(0) =~= data.drop_first());
    } else {
        assert(data.remove(j).drop_first() =~= data.drop_first().remove(j - 1));
        assert(data.remove(j)[0] == data[0]);
        lemma_net_mult_number_remove(data.drop_first(), j - 1, q);
    }
}

/// The numeric net multiplicity is a function of the multiset of updates,
/// too: the scalers' settled meta cannot depend on insertion order within
/// an epoch.
pub proof fn lemma_net_mult_number_permutation(
    s1: Seq<((usize, RowValue), i64)>,
    s2: Seq<((usize, RowValue), i64)>,
    q: Ratio,
)
    requires
        s1.to_multiset() == s2.to_multiset(),
    ensures
        net_mult_number(s1, q) == net_mult_number(s2, q),
    decreases s1.len(),
{
    s1.to_multiset_ensures();
    s2.to_multiset_ensures();
    if s1.len() == 0 {
        assert(s2.to_multiset().len() == 0);
        assert(s2.len() == 0);
    } else {
        let x = s1[0];
        assert(s1.to_multiset().contains(x));
        assert(s2.to_multiset().contains(x));
        assert(s2.contains(x));
        let j = choose|j: int| 0 <= j < s2.len() && s2[j] == x;
        lemma_net_mult_number_remove(s2, j, q);
        lemma_net_mult_number_remove(s1, 0, q);
        assert(s1.remove(0) =~= s1.drop_first());
        assert(s1.drop_first().to_multiset() =~= s1.to_multiset().remove(x));
        assert(s2.remove(j).to_multiset() =~= s2.to_multiset().remove(x));
        lemma_net_mult_number_permutation(s1.drop_first(), s2.remove(j), q);
    }
}

/// What a successful dispatched `fit` guarantees, by variant: the same
/// meta-fold facts the concrete encoders state.
pub open spec fn fit_post(
    pre: ColumnEncoder,
    post: ColumnEncoder,
    data: Seq<((usize, RowValue), i64)>,
    ok: bool,
) -> bool {
    match (pre, post) {
        (ColumnEncoder::StandardScaler(e0), ColumnEncoder::StandardScaler(e1)) => ok ==> (
        e1.meta matches Some(a) && a.wf() && a@ == v_fold(
            match e0.meta {
                Some(b) => b@,
                None => VarModel { s_num: 0, s_den: 1, q_num: 0, q_den: 1, count: 0 },
            },
            data,
        )),
        (ColumnEncoder::MinMaxScaler(e0), ColumnEncoder::MinMaxScaler(e1)) => ok ==> (
        e1.meta matches Some(a) && a.wf() && forall|q: Ratio|
            q.wf() ==> #[trigger] a.spec_count_ratio(q) == prior_count(e0.meta, q)
                + net_mult_number(data, q)),
        (ColumnEncoder::KBinsDiscretizer(e0), ColumnEncoder::KBinsDiscretizer(e1)) => {
            &&& e1.k == e0.k
            &&& ok ==> (e1.meta matches Some((mn, rng))
                && crate::feature_encoders::minmax_scaler::is_range_meta_of_data(data, mn, rng)
                && rng.wf())
        },
        (ColumnEncoder::OrdinalEncoder(e0), ColumnEncoder::OrdinalEncoder(e1)) => ok ==> (
        e1.value_map matches Some(a) && a.wf() && forall|k2: RowValue|
            k2.wf() ==> #[trigger] a.spec_count(k2) == paa_prior_count(e0.value_map, k2)
                + net_mult(data, k2)),
        (ColumnEncoder::OneHotEncoder(e0), ColumnEncoder::OneHotEncoder(e1)) => ok ==> (
        e1.value_positions matches Some(a) && a.wf() && forall|k2: RowValue|
            k2.wf() ==> #[trigger] a.spec_count(k2) == paa_prior_count(e0.value_positions, k2)
                + net_mult(data, k2)),
        (ColumnEncoder::CountVectorizer(e0), ColumnEncoder::CountVectorizer(e1)) => {
            &&& e1.binary == e0.binary
            &&& ok ==> (e1.corpus matches Some(a) && a.wf() && forall|k2: RowValue|
                k2.wf() ==> #[trigger] a.spec_count(k2) == (match e0.corpus {
                    Some(b) => b.spec_count(k2),
                    None => 0,
                }) + token_mult(data, k2))
        },
        (ColumnEncoder::HashVectorizer(e0), ColumnEncoder::HashVectorizer(e1)) => e1 == e0 && ok,
        (ColumnEncoder::PolynomialFeatures(e0), ColumnEncoder::PolynomialFeatures(e1)) => e1 == e0
            && ok,
        (ColumnEncoder::Passthrough(e0), ColumnEncoder::Passthrough(e1)) => ok,
        _ => false,
    }
}

/// When a dispatched `fit` is owed success, by variant: the same success
/// conditions the concrete encoders state.
pub open spec fn fit_ok_relay(
    pre: ColumnEncoder,
    data: Seq<((usize, RowValue), i64)>,
    ok: bool,
) -> bool {
    match pre {
        ColumnEncoder::StandardScaler(e) => (forall|i: int|
            0 <= i < data.len() ==> (#[trigger] data[i]).0.1.spec_number() is Some) ==> (ok
            <==> v_fold_ok(
            match e.meta {
                Some(b) => b@,
                None => VarModel { s_num: 0, s_den: 1, q_num: 0, q_den: 1, count: 0 },
            },
            data,
        )),
        ColumnEncoder::MinMaxScaler(e) => (forall|i: int|
            0 <= i < data.len() ==> (#[trigger] data[i]).0.1.spec_number() is Some) ==> (ok
            <==> minmax_fit_ok(e.meta, data)),
        ColumnEncoder::KBinsDiscretizer(_) => true,
        ColumnEncoder::OrdinalEncoder(e) => paa_prior_next(e.value_map) + data.len()
            <= usize::MAX ==> (ok <==> paa_fit_ok(e.value_map, data)),
        ColumnEncoder::OneHotEncoder(e) => paa_prior_next(e.value_positions) + data.len()
            <= usize::MAX ==> (ok <==> paa_fit_ok(e.value_positions, data)),
        ColumnEncoder::CountVectorizer(e) => (e.corpus is None && total_tokens(data) <= i64::MAX
            && total_tokens(data) <= usize::MAX && forall|i: int|
            0 <= i < data.len() ==> (#[trigger] data[i]).0.1 is Text && data[i].1 == 1) ==> ok,
        ColumnEncoder::HashVectorizer(_) => ok,
        ColumnEncoder::PolynomialFeatures(_) => ok,
        ColumnEncoder::Passthrough(_) => ok,
    }
}

/// What a successful dispatched `transform` emits, by variant: the same
/// pointwise output clauses the concrete encoders state.
pub open spec fn transform_post(
    enc: ColumnEncoder,
    data: Seq<((usize, RowValue), i64)>,
    out: Seq<((usize, RowValue), i64)>,
) -> bool {
    &&& out.len() == data.len()
    &&& forall|j: int|
        0 <= j < data.len() ==> (#[trigger] out[j]).0.0 == data[j].0.0 && out[j].1 == data[j].1
    &&& match enc {
        ColumnEncoder::StandardScaler(e) => forall|j: int|
            0 <= j < data.len() ==> ((#[trigger] out[j]).0.1 matches RowValue::Number(oq)
                && oq.wf() && scales_to(
                data[j].0.1.spec_number()->Some_0,
                mean_of(e.meta->Some_0),
                var_of(e.meta->Some_0),
                oq,
            )),
        ColumnEncoder::MinMaxScaler(e) => spec_extremes(e.meta->Some_0.counts@) matches Some(ext)
            && forall|j: int|
            0 <= j < data.len() ==> ((#[trigger] out[j]).0.1 matches RowValue::Number(oq)
                && oq.wf() && scales_to(
                data[j].0.1.spec_number()->Some_0,
                ext.0,
                spec_sub_val(ext.1, ext.0),
                oq,
            )),
        ColumnEncoder::KBinsDiscretizer(e) => forall|j: int|
            0 <= j < data.len() ==> ((#[trigger] out[j]).0.1 matches RowValue::Number(oq)
                && oq.den == 1 && oq.num == kbins_bin(
                data[j].0.1.spec_number()->Some_0,
                e.meta->Some_0.0,
                e.meta->Some_0.1,
                e.k as int,
            )),
        ColumnEncoder::OrdinalEncoder(e) => forall|j: int|
            0 <= j < data.len() ==> ((#[trigger] out[j]).0.1 matches RowValue::Number(oq)
                && oq.den == 1 && (match e.value_map->Some_0.spec_index(data[j].0.1) {
                Some(idx) => oq.num == idx,
                None => oq.num == -1,
            })),
        ColumnEncoder::OneHotEncoder(e) => forall|j: int|
            0 <= j < data.len() ==> ((#[trigger] out[j]).0.1 matches RowValue::Vector(v)
                && v@.len() == e.value_positions->Some_0.len && (
            match e.value_positions->Some_0.spec_index(data[j].0.1) {
                Some(idx) => idx < v@.len() && forall|p: int|
                    0 <= p < v@.len() ==> (#[trigger] v@[p]) == (if p == idx {
                        Ratio { num: 1, den: 1 }
                    } else {
                        Ratio { num: 0, den: 1 }
                    }),
                None => forall|p: int|
                    0 <= p < v@.len() ==> (#[trigger] v@[p]) == (Ratio { num: 0, den: 1 }),
            })),
        ColumnEncoder::CountVectorizer(e) => forall|j: int|
            0 <= j < data.len() ==> ((#[trigger] out[j]).0.1 matches RowValue::Vector(v)
                && v@.len() == e.corpus->Some_0.len && forall|p: int|
                0 <= p < v@.len() ==> (#[trigger] v@[p]).den == 1 && v@[p].num == token_counts(
                    tokenize(data[j].0.1->Text_0@),
                    e.corpus->Some_0.val_to_index@,
                    e.corpus->Some_0.len as int,
                    e.binary,
                )[p]),
        ColumnEncoder::HashVectorizer(e) => forall|j: int|
            0 <= j < data.len() ==> ((#[trigger] out[j]).0.1 matches RowValue::Vector(v)
                && v@.len() == e.n_features && forall|p: int|
                0 <= p < v@.len() ==> (#[trigger] v@[p]).den == 1 && v@[p].num == hash_counts(
                    tokenize(data[j].0.1->Text_0@),
                    e.n_features as int,
                    e.binary,
                )[p]),
        ColumnEncoder::PolynomialFeatures(e) => forall|j: int|
            0 <= j < data.len() ==> ((#[trigger] out[j]).0.1 matches RowValue::Vector(v)
                && v@.len() == e.max_degree + 1 - e.min_degree && forall|d: int|
                0 <= d < v@.len() ==> (#[trigger] v@[d]).num == vstd::arithmetic::power::pow(
                    data[j].0.1.spec_number()->Some_0.num as int,
                    (e.min_degree + d) as nat,
                ) && v@[d].den == vstd::arithmetic::power::pow(
                    data[j].0.1.spec_number()->Some_0.den as int,
                    (e.min_degree + d) as nat,
                )),
        ColumnEncoder::Passthrough(_) => forall|j: int|
            0 <= j < data.len() ==> (#[trigger] out[j]).0.1.like(data[j].0.1),
    }
}

/// When a dispatched `transform` is owed success, by variant: the same
/// success conditions the concrete encoders state.
pub open spec fn transform_ok(enc: ColumnEncoder, data: Seq<((usize, RowValue), i64)>) -> bool {
    match enc {
        ColumnEncoder::StandardScaler(e) => e.meta matches Some(a) && a.count != 0 && get_fits(a)
            && var_of(a).num != 0 && forall|j: int|
            0 <= j < data.len() ==> ((#[trigger] data[j]).0.1.spec_number() matches Some(vq)
                && scale_step_fits(vq, mean_of(a), var_of(a))),
        ColumnEncoder::MinMaxScaler(e) => e.meta matches Some(a) && spec_extremes(a.counts@)
            matches Some(ext) && ext.1.sub_fits(ext.0) && spec_sub_val(ext.1, ext.0).num != 0
            && forall|j: int|
            0 <= j < data.len() ==> ((#[trigger] data[j]).0.1.spec_number() matches Some(vq)
                && scale_step_fits(vq, ext.0, spec_sub_val(ext.1, ext.0))),
        ColumnEncoder::KBinsDiscretizer(e) => e.meta matches Some((mn, rng)) && rng.num > 0
            && forall|j: int|
            0 <= j < data.len() ==> ((#[trigger] data[j]).0.1.spec_number() matches Some(vq)
                && kbins_step_fits(vq, mn, rng, e.k as int)),
        ColumnEncoder::OrdinalEncoder(e) => e.value_map matches Some(a) && forall|j: int|
            0 <= j < data.len() ==> (match a.spec_index((#[trigger] data[j]).0.1) {
                Some(idx) => idx <= i64::MAX,
                None => true,
            }),
        ColumnEncoder::OneHotEncoder(e) => e.value_positions is Some,
        ColumnEncoder::CountVectorizer(e) => e.corpus matches Some(a) && forall|j: int|
            0 <= j < data.len() ==> ((#[trigger] data[j]).0.1 matches RowValue::Text(s)
                && count_doc_ok(tokenize(s@), a.val_to_index@, a.len as int, e.binary)),
        ColumnEncoder::HashVectorizer(e) => forall|j: int|
            0 <= j < data.len() ==> ((#[trigger] data[j]).0.1 matches RowValue::Text(s)
                && hash_doc_ok(tokenize(s@), e.n_features as int, e.binary)),
        ColumnEncoder::PolynomialFeatures(e) => forall|j: int|
            0 <= j < data.len() ==> ((#[trigger] data[j]).0.1.spec_number() matches Some(vq)
                && powers_fit(vq, e.max_degree as int)),
        ColumnEncoder::Passthrough(_) => true,
    }
}

/// One column encoder of any kind, so that a heterogeneous configuration
/// can mix them. Dispatch is by variant; the per-kind contracts live on the
/// concrete encoders.
pub enum ColumnEncoder {
    StandardScaler(StandardScaler),
    MinMaxScaler(MinMaxScaler),
    KBinsDiscretizer(KBinsDiscretizer),
    OrdinalEncoder(OrdinalEncoder),
    OneHotEncoder(OneHotEncoder),
    CountVectorizer(CountVectorizer),
    HashVectorizer(HashVectorizer),
    PolynomialFeatures(PolynomialFeaturesEncoder),
    Passthrough(Passthrough),
}

impl ColumnEncoder {
    /// Well-formedness of whatever state the encoder carries.
    pub open spec fn wf(self) -> bool {
        match self {
            ColumnEncoder::StandardScaler(e) => e.wf(),
            ColumnEncoder::MinMaxScaler(e) => e.wf(),
            ColumnEncoder::KBinsDiscretizer(e) => e.wf(),
            ColumnEncoder::OrdinalEncoder(e) => e.wf(),
            ColumnEncoder::OneHotEncoder(e) => e.wf(),
            ColumnEncoder::CountVectorizer(e) => e.wf(),
            ColumnEncoder::HashVectorizer(e) => e.wf(),
            ColumnEncoder::PolynomialFeatures(e) => e.wf(),
            ColumnEncoder::Passthrough(_) => true,
        }
    }

    /// Fits the encoder on a batch of updates and stores its metadata.
    pub fn fit(&mut self, data: &Vec<((usize, RowValue), i64)>) -> (r: Result<(), EncodeError>)
        requires
            old(self).wf(),
            wf_updates(data@),
        ensures
            final(self).wf(),
            fit_post(*old(self), *final(self), data@, r is Ok),
            fit_ok_relay(*old(self), data@, r is Ok),
    {
        match self {
            ColumnEncoder::StandardScaler(e) => e.fit(data),
            ColumnEncoder::MinMaxScaler(e) => e.fit(data),
            ColumnEncoder::KBinsDiscretizer(e) => e.fit(data),
            ColumnEncoder::OrdinalEncoder(e) => e.fit(data),
            ColumnEncoder::OneHotEncoder(e) => e.fit(data),
            ColumnEncoder::CountVectorizer(e) => e.fit(data),
            ColumnEncoder::HashVectorizer(e) => e.fit(data),
            ColumnEncoder::PolynomialFeatures(e) => e.fit(data),
            ColumnEncoder::Passthrough(e) => e.fit(data),
        }
    }

    /// Transforms a batch against the stored metadata: one output record
    /// per input record, with the row id and the multiplicity kept.
    pub fn transform(&self, data: &Vec<((usize, RowValue), i64)>) -> (r: Result<
        Vec<((usize, RowValue), i64)>,
        EncodeError,
    >)
        requires
            self.wf(),
            wf_updates(data@),
        ensures
            r is Ok <==> transform_ok(*self, data@),
            r matches Ok(out) ==> transform_post(*self, data@, out@),
    {
        match self {
            ColumnEncoder::StandardScaler(e) => e.transform(data),
            ColumnEncoder::MinMaxScaler(e) => e.transform(data),
            ColumnEncoder::KBinsDiscretizer(e) => e.transform(data),
            ColumnEncoder::OrdinalEncoder(e) => e.transform(data),
            ColumnEncoder::OneHotEncoder(e) => e.transform(data),
            ColumnEncoder::CountVectorizer(e) => e.transform(data),
            ColumnEncoder::HashVectorizer(e) => e.transform(data),
            ColumnEncoder::PolynomialFeatures(e) => e.transform(data),
            ColumnEncoder::Passthrough(e) => e.transform(data),
        }
    }
}

} // verus!
