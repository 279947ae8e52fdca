//! Count vectorization: a vocabulary of tokens with assigned positions, and
//! per-document token counts at those positions.
//!
//! The vocabulary is a position-assignment aggregate over the tokens of
//! every document, weighted by the document's multiplicity, so retracting a
//! document removes its tokens' contributions exactly. Tokens outside the
//! vocabulary are dropped.

use vstd::prelude::*;

use crate::feature_encoders::feature_extraction::utils::default_tokenizer;
use crate::feature_encoders::feature_extraction::utils::tokenize;
use crate::types::integer_assignment_aggregate::PositionAssignmentAggregate;
use crate::types::ratio::Ratio;
use crate::types::row_value::RowValue;
use crate::types::safe_hash_map::spec_get;
use crate::types::safe_hash_map::spec_index_of;
use crate::EncodeError;
use vstd::pervasive::VecAdditionalExecFns;

verus! {

/// How often `k2` occurs among the tokens (tokens are compared to text
/// values by their characters).
pub open spec fn tok_occurrences(tokens: Seq<Seq<char>>, k2: RowValue) -> int
    decreases tokens.len(),
{
    if tokens.len() == 0 {
        0
    } else {
        (match k2 {
            RowValue::Text(t2) => if t2@ == tokens[0] {
                1int
            } else {
                0
            },
            _ => 0,
        }) + tok_occurrences(tokens.drop_first(), k2)
    }
}

/// The net multiplicity that the updates of `data` give to the token class
/// of `k2`: each text record contributes its token occurrences, weighted by
/// the record's signed multiplicity.
pub open spec fn token_mult(data: Seq<((usize, RowValue), i64)>, k2: RowValue) -> int
    decreases data.len(),
{
    if data.len() == 0 {
        0
    } else {
        (match data[0].0.1 {
            RowValue::Text(s) => data[0].1 as int * tok_occurrences(tokenize(s@), k2),
            _ => 0,
        }) + token_mult(data.drop_first(), k2)
    }
}

/// One more prefix update adds its own contribution to the token
/// multiplicity.
pub proof fn lemma_token_mult_take_step(data: Seq<((usize, RowValue), i64)>, i: int, k2: RowValue)
    requires
        0 <= i < data.len(),
    ensures
        token_mult(data.take(i + 1), k2) == token_mult(data.take(i), k2) + (match data[i].0.1 {
            RowValue::Text(s) => data[i].1 as int * tok_occurrences(tokenize(s@), k2),
            _ => 0,
        }),
    decreases i,
{
    if i == 0 {
        assert(data.take(1).drop_first() =~= data.take(0));
        assert(data.take(1)[0] == data[0]);
    } else {
        assert(data.take(i + 1).drop_first() =~= data.drop_first().take(i));
        assert(data.take(i).drop_first() =~= data.drop_first().take(i - 1));
        assert(data.take(i + 1)[0] == data[0]);
        assert(data.take(i)[0] == data[0]);
        lemma_token_mult_take_step(data.drop_first(), i - 1, k2);
    }
}

/// One more prefix token adds its own occurrence.
pub proof fn lemma_tok_occurrences_take_step(tokens: Seq<Seq<char>>, i: int, k2: RowValue)
    requires
        0 <= i < tokens.len(),
    ensures
        tok_occurrences(tokens.take(i + 1), k2) == tok_occurrences(tokens.take(i), k2) + (
        match k2 {
            RowValue::Text(t2) => if t2@ == tokens[i] {
                1int
            } else {
                0
            },
            _ => 0,
        }),
    decreases i,
{
    if i == 0 {
        assert(tokens.take(1).drop_first() =~= tokens.take(0));
        assert(tokens.take(1)[0] == tokens[0]);
    } else {
        assert(tokens.take(i + 1).drop_first() =~= tokens.drop_first().take(i));
        assert(tokens.take(i).drop_first() =~= tokens.drop_first().take(i - 1));
        assert(tokens.take(i + 1)[0] == tokens[0]);
        assert(tokens.take(i)[0] == tokens[0]);
        lemma_tok_occurrences_take_step(tokens.drop_first(), i - 1, k2);
    }
}

/// Removing one update takes away exactly its own token contribution.
pub proof fn lemma_token_mult_remove(data: Seq<((usize, RowValue), i64)>, j: int, k2: RowValue)
    requires
        0 <= j < data.len(),
    ensures
        token_mult(data, k2) == token_mult(data.remove(j), k2) + (match data[j].0.1 {
            RowValue::Text(s) => data[j].1 as int * tok_occurrences(tokenize(s@), k2),
            _ => 0,
        }),
    decreases data.len(),
{
    if j == 0 {
        assert(data.remove(0) =~= data.drop_first());
    } else {
        assert(data.remove(j).drop_first() =~= data.drop_first().remove(j - 1));
        assert(data.remove(j)[0] == data[0]);
        lemma_token_mult_remove(data.drop_first(), j - 1, k2);
    }
}

/// The token multiplicity is a function of the multiset of updates: the
/// settled vocabulary cannot depend on the order in which documents arrived
/// within an epoch.
pub proof fn lemma_token_mult_permutation(
    s1: Seq<((usize, RowValue), i64)>,
    s2: Seq<((usize, RowValue), i64)>,
    k2: RowValue,
)
    requires
        s1.to_multiset() == s2.to_multiset(),
    ensures
        token_mult(s1, k2) == token_mult(s2, k2),
    decreases s1.len(),
{
    s1.to_multiset_ensures();
    s2.to_multiset_ensures();
    if s1.len() == 0 {
        assert(s2.to_multiset().len() == 0);
        assert(s2.len() == 0);
    } else {
        let x = s1[0];
        assert(s1.to_multiset().contains(x));
        assert(s2.to_multiset().contains(x));
        assert(s2.contains(x));
        let j = choose|j: int| 0 <= j < s2.len() && s2[j] == x;
        lemma_token_mult_remove(s2, j, k2);
        lemma_token_mult_remove(s1, 0, k2);
        assert(s1.remove(0) =~= s1.drop_first());
        assert(s1.drop_first().to_multiset() =~= s1.to_multiset().remove(x));
        assert(s2.remove(j).to_multiset() =~= s2.to_multiset().remove(x));
        lemma_token_mult_permutation(s1.drop_first(), s2.remove(j), k2);
    }
}

/// How many tokens the batch carries in total.
pub open spec fn total_tokens(data: Seq<((usize, RowValue), i64)>) -> int
    decreases data.len(),
{
    if data.len() == 0 {
        0
    } else {
        (match data[0].0.1 {
            RowValue::Text(s) => tokenize(s@).len() as int,
            _ => 0,
        }) + total_tokens(data.drop_first())
    }
}

/// One more prefix document adds its own token count.
pub proof fn lemma_total_tokens_take_step(data: Seq<((usize, RowValue), i64)>, i: int)
    requires
        0 <= i < data.len(),
    ensures
        total_tokens(data.take(i + 1)) == total_tokens(data.take(i)) + (match data[i].0.1 {
            RowValue::Text(s) => tokenize(s@).len() as int,
            _ => 0,
        }),
        total_tokens(data.take(i)) >= 0,
    decreases i,
{
    if i == 0 {
        assert(data.take(1).drop_first() =~= data.take(0));
        assert(data.take(1)[0] == data[0]);
    } else {
        assert(data.take(i + 1).drop_first() =~= data.drop_first().take(i));
        assert(data.take(i).drop_first() =~= data.drop_first().take(i - 1));
        assert(data.take(i + 1)[0] == data[0]);
        assert(data.take(i)[0] == data[0]);
        lemma_total_tokens_take_step(data.drop_first(), i - 1);
    }
}

/// Token totals are nonnegative, and a prefix never carries more than the
/// whole batch.
pub proof fn lemma_total_tokens_prefix(data: Seq<((usize, RowValue), i64)>, j: int)
    requires
        0 <= j <= data.len(),
    ensures
        0 <= total_tokens(data.take(j)) <= total_tokens(data),
    decreases data.len() - j,
{
    if j == data.len() {
        assert(data.take(j) =~= data);
        lemma_total_tokens_nonneg(data.take(j));
    } else {
        lemma_total_tokens_take_step(data, j);
        lemma_total_tokens_prefix(data, j + 1);
    }
}

/// Token totals are nonnegative.
pub proof fn lemma_total_tokens_nonneg(data: Seq<((usize, RowValue), i64)>)
    ensures
        total_tokens(data) >= 0,
    decreases data.len(),
{
    if data.len() > 0 {
        lemma_total_tokens_nonneg(data.drop_first());
    }
}

/// The position the vocabulary assigns to a token, read by characters.
pub open spec fn spec_token_index(entries: Seq<(RowValue, usize)>, t: Seq<char>) -> Option<usize>
    decreases entries.len(),
{
    if entries.len() == 0 {
        None
    } else if entries[0].0 matches RowValue::Text(k) && k@ == t {
        Some(entries[0].1)
    } else {
        spec_token_index(entries.drop_first(), t)
    }
}

/// Looking a text value up in the vocabulary map reads the token's assigned
/// position.
pub proof fn lemma_token_index(entries: Seq<(RowValue, usize)>, t: Seq<char>, rv: RowValue)
    requires
        rv matches RowValue::Text(x) && x@ == t,
    ensures
        spec_get(entries, rv) == spec_token_index(entries, t),
    decreases entries.len(),
{
    if entries.len() > 0 {
        lemma_token_index(entries.drop_first(), t, rv);
        crate::types::safe_hash_map::lemma_index_of(entries.drop_first(), rv);
        if !entries[0].0.spec_eqv(rv) {
            let r = spec_index_of(entries.drop_first(), rv);
            if r != -1 {
                assert(entries[r + 1] == entries.drop_first()[r]);
            }
        }
    }
}

/// The per-position token counts of a document against a vocabulary: the
/// tokens are folded in order, each adding one (or saturating at one in
/// binary mode) at its assigned position; unknown tokens are dropped.
pub open spec fn token_counts(
    tokens: Seq<Seq<char>>,
    entries: Seq<(RowValue, usize)>,
    width: int,
    binary: bool,
) -> Seq<int>
    decreases tokens.len(),
{
    if tokens.len() == 0 {
        Seq::new(width as nat, |i: int| 0)
    } else {
        let prev = token_counts(tokens.drop_last(), entries, width, binary);
        match spec_token_index(entries, tokens.last()) {
            Some(p) => if p < width {
                prev.update(
                    p as int,
                    if binary {
                        1int
                    } else {
                        prev[p as int] + 1
                    },
                )
            } else {
                prev
            },
            None => prev,
        }
    }
}

/// The counts vector always has the nominal width.
pub proof fn lemma_token_counts_len(
    tokens: Seq<Seq<char>>,
    entries: Seq<(RowValue, usize)>,
    width: int,
    binary: bool,
)
    requires
        width >= 0,
    ensures
        token_counts(tokens, entries, width, binary).len() == width,
    decreases tokens.len(),
{
    if tokens.len() > 0 {
        lemma_token_counts_len(tokens.drop_last(), entries, width, binary);
    }
}

/// Without saturation, a prefix of the tokens never counts more at any
/// position than the whole document.
pub proof fn lemma_token_counts_prefix_le(
    tokens: Seq<Seq<char>>,
    i: int,
    entries: Seq<(RowValue, usize)>,
    width: int,
    p: int,
)
    requires
        width >= 0,
        0 <= i <= tokens.len(),
        0 <= p < width,
    ensures
        token_counts(tokens.take(i), entries, width, false)[p] <= token_counts(
            tokens,
            entries,
            width,
            false,
        )[p],
    decreases tokens.len() - i,
{
    lemma_token_counts_len(tokens.take(i), entries, width, false);
    lemma_token_counts_len(tokens, entries, width, false);
    if i == tokens.len() {
        assert(tokens.take(i) =~= tokens);
    } else {
        lemma_token_counts_len(tokens.take(i + 1), entries, width, false);
        assert(tokens.take(i + 1).drop_last() =~= tokens.take(i));
        assert(tokens.take(i + 1).last() == tokens[i]);
        lemma_token_counts_prefix_le(tokens, i + 1, entries, width, p);
    }
}

/// In saturating (binary) mode every count stays zero or one.
pub proof fn lemma_token_counts_binary(
    tokens: Seq<Seq<char>>,
    entries: Seq<(RowValue, usize)>,
    width: int,
    p: int,
)
    requires
        width >= 0,
        0 <= p < width,
    ensures
        0 <= token_counts(tokens, entries, width, true)[p] <= 1,
    decreases tokens.len(),
{
    lemma_token_counts_len(tokens, entries, width, true);
    if tokens.len() > 0 {
        lemma_token_counts_len(tokens.drop_last(), entries, width, true);
        lemma_token_counts_binary(tokens.drop_last(), entries, width, p);
    }
}

/// A document counts cleanly against the vocabulary: in saturating mode
/// always, otherwise when no position's total leaves the machine integers.
pub open spec fn count_doc_ok(
    tokens: Seq<Seq<char>>,
    entries: Seq<(RowValue, usize)>,
    width: int,
    binary: bool,
) -> bool {
    binary || forall|p: int|
        0 <= p < width ==> #[trigger] token_counts(tokens, entries, width, binary)[p] <= i64::MAX
}

/// The count vectorizer: a vocabulary of tokens with assigned positions.
pub struct CountVectorizer {
    /// The fitted vocabulary aggregate; absent until the first `fit`.
    pub corpus: Option<PositionAssignmentAggregate>,
    /// Whether transformed counts saturate at one.
    pub binary: bool,
}

impl CountVectorizer {
    /// A vectorizer with nothing fitted yet.
    pub fn new(binary: bool) -> (r: CountVectorizer)
        ensures
            r.corpus is None,
            r.binary == binary,
    {
        CountVectorizer { corpus: None, binary }
    }

    /// Whether the fitted aggregate is well-formed.
    pub open spec fn wf(self) -> bool {
        self.corpus matches Some(a) ==> a.wf()
    }

    /// Folds a batch of text documents into the vocabulary: every token of
    /// a document is counted once per occurrence, weighted by the
    /// document's signed multiplicity.
    pub fn fit(&mut self, data: &Vec<((usize, RowValue), i64)>) -> (r: Result<(), EncodeError>)
        requires
            old(self).wf(),
        ensures
            final(self).wf(),
            final(self).binary == old(self).binary,
            r matches Err(e) ==> e == EncodeError::TypeMismatch || e == EncodeError::Overflow,
            r == Err::<(), EncodeError>(EncodeError::TypeMismatch) <==> exists|i: int|
                0 <= i < data@.len() && !((#[trigger] data@[i]).0.1 is Text),
            (old(self).corpus is None && total_tokens(data@) <= i64::MAX && total_tokens(data@)
                <= usize::MAX && forall|i: int|
                0 <= i < data@.len() ==> (#[trigger] data@[i]).0.1 is Text && data@[i].1
                    == 1) ==> r is Ok,
            r is Ok ==> (final(self).corpus matches Some(a) && a.wf() && forall|k2: RowValue|
                k2.wf() ==> #[trigger] a.spec_count(k2) == (match old(self).corpus {
                    Some(b) => b.spec_count(k2),
                    None => 0,
                }) + token_mult(data@, k2)),
    {
        let mut i: usize = 0;
        while i < data.len()
            invariant
                0 <= i <= data@.len(),
                *self == *old(self),
                old(self).wf(),
                forall|j: int| 0 <= j < i ==> (#[trigger] data@[j]).0.1 is Text,
            decreases data@.len() - i,
        {
            match data[i].0.1 {
                RowValue::Text(_) => {},
                _ => {
                    return Err(EncodeError::TypeMismatch);
                },
            }
            i += 1;
        }
        let ghost fresh_unit = old(self).corpus is None && total_tokens(data@) <= i64::MAX
            && total_tokens(data@) <= usize::MAX && forall|i: int|
            0 <= i < data@.len() ==> (#[trigger] data@[i]).0.1 is Text && data@[i].1 == 1;
        let mut agg = match self.corpus.take() {
            Some(a) => a,
            None => PositionAssignmentAggregate::zero(),
        };
        let ghost start = agg;
        let ghost mut seen: int = 0;
        proof {
            assert(data@.take(0) =~= Seq::<((usize, RowValue), i64)>::empty());
            lemma_total_tokens_nonneg(data@);
        }
        let mut i: usize = 0;
        while i < data.len()
            invariant
                0 <= i <= data@.len(),
                forall|j: int| 0 <= j < data@.len() ==> (#[trigger] data@[j]).0.1 is Text,
                self.binary == old(self).binary,
                agg.wf(),
                start.wf(),
                fresh_unit == (old(self).corpus is None && total_tokens(data@) <= i64::MAX
                    && total_tokens(data@) <= usize::MAX && forall|j: int|
                    0 <= j < data@.len() ==> (#[trigger] data@[j]).0.1 is Text && data@[j].1
                        == 1),
                fresh_unit ==> seen == total_tokens(data@.take(i as int)),
                fresh_unit ==> seen <= total_tokens(data@),
                fresh_unit ==> agg.next_index <= seen,
                fresh_unit ==> forall|k2: RowValue|
                    k2.wf() ==> 0 <= #[trigger] agg.spec_count(k2) <= seen,
                forall|k2: RowValue|
                    k2.wf() ==> #[trigger] agg.spec_count(k2) == start.spec_count(k2) + token_mult(
                        data@.take(i as int),
                        k2,
                    ),
            decreases data@.len() - i,
        {
            let text = match &data[i].0.1 {
                RowValue::Text(s) => s,
                _ => {
                    proof {
                        assert(false);
                    }
                    vstd::pervasive::unreached()
                },
            };
            let tokens = default_tokenizer(text.as_str());
            let mult = data[i].1;
            let ghost doc_start = agg;
            let ghost toks = tokenize(text@);
            proof {
                lemma_total_tokens_take_step(data@, i as int);
                lemma_total_tokens_prefix(data@, i as int + 1);
            }
            let mut ti: usize = 0;
            while ti < tokens.len()
                invariant
                    0 <= ti <= tokens@.len(),
                    tokens@.map_values(|t: String| t@) == toks,
                    self.binary == old(self).binary,
                    agg.wf(),
                    doc_start.wf(),
                    forall|j: int| 0 <= j < data@.len() ==> (#[trigger] data@[j]).0.1 is Text,
                    fresh_unit == (old(self).corpus is None && total_tokens(data@) <= i64::MAX
                        && total_tokens(data@) <= usize::MAX && forall|j: int|
                        0 <= j < data@.len() ==> (#[trigger] data@[j]).0.1 is Text && data@[j].1
                            == 1),
                    fresh_unit ==> (mult == 1 && seen + toks.len() <= total_tokens(data@)
                        && total_tokens(data@) <= i64::MAX && total_tokens(data@) <= usize::MAX
                        && seen >= 0),
                    fresh_unit ==> agg.next_index <= seen + ti,
                    fresh_unit ==> forall|k2: RowValue|
                        k2.wf() ==> 0 <= #[trigger] agg.spec_count(k2) <= seen + ti,
                    forall|k2: RowValue|
                        k2.wf() ==> #[trigger] agg.spec_count(k2) == doc_start.spec_count(k2)
                            + mult as int * tok_occurrences(toks.take(ti as int), k2),
                decreases tokens@.len() - ti,
            {
                let rv = RowValue::Text(tokens[ti].clone());
                let ghost before = agg;
                proof {
                    if fresh_unit {
                        assert(before.spec_count(rv) + mult <= seen + ti + 1);
                        assert(seen + ti + 1 <= total_tokens(data@));
                        assert(before.next_index < usize::MAX);
                    }
                }
                match agg.plus_equals_value_count(&rv, mult) {
                    Ok(_) => {},
                    Err(_) => {
                        proof {
                            assert(!fresh_unit);
                        }
                        self.corpus = Some(agg);
                        return Err(EncodeError::Overflow);
                    },
                }
                proof {
                    if fresh_unit {
                        assert forall|k2: RowValue| k2.wf() implies 0 <= #[trigger] agg.spec_count(
                            k2,
                        ) <= seen + ti + 1 by {
                            assert(agg.spec_count(k2) == before.spec_count(k2) + (
                            if rv.spec_eqv(k2) {
                                mult as int
                            } else {
                                0
                            }));
                        }
                    }
                    assert forall|k2: RowValue| k2.wf() implies #[trigger] agg.spec_count(k2)
                        == doc_start.spec_count(k2) + mult as int * tok_occurrences(
                        toks.take(ti as int + 1),
                        k2,
                    ) by {
                        lemma_tok_occurrences_take_step(toks, ti as int, k2);
                        assert(toks[ti as int] == tokens@[ti as int]@);
                        assert(rv.spec_eqv(k2) == (match k2 {
                            RowValue::Text(t2) => t2@ == toks[ti as int],
                            _ => false,
                        })) by {
                            crate::types::row_value::lemma_eqv_sym(rv, k2);
                        }
                        assert(agg.spec_count(k2) == before.spec_count(k2) + (if rv.spec_eqv(k2) {
                            mult as int
                        } else {
                            0
                        }));
                        let o0 = tok_occurrences(toks.take(ti as int), k2);
                        let o1 = tok_occurrences(toks.take(ti as int + 1), k2);
                        if rv.spec_eqv(k2) {
                            assert(o1 == o0 + 1);
                            assert(mult as int * o1 == mult as int * o0 + mult as int)
                                by (nonlinear_arith)
                                requires
                                    o1 == o0 + 1,
                            ;
                        } else {
                            assert(o1 == o0);
                        }
                    }
                }
                ti += 1;
            }
            proof {
                assert(toks.take(toks.len() as int) =~= toks);
                assert forall|k2: RowValue| k2.wf() implies #[trigger] agg.spec_count(k2)
                    == start.spec_count(k2) + token_mult(data@.take(i as int + 1), k2) by {
                    lemma_token_mult_take_step(data@, i as int, k2);
                    assert(doc_start.spec_count(k2) == start.spec_count(k2) + token_mult(
                        data@.take(i as int),
                        k2,
                    ));
                }
                lemma_total_tokens_take_step(data@, i as int);
                seen = seen + toks.len();
            }
            i += 1;
        }
        proof {
            assert(data@.take(data@.len() as int) =~= data@);
        }
        self.corpus = Some(agg);
        Ok(())
    }

    /// Replaces every document by its per-position token counts against the
    /// vocabulary, as a vector of the current nominal width. Unknown tokens
    /// are dropped; in binary mode a position saturates at one.
    pub fn transform(&self, data: &Vec<((usize, RowValue), i64)>) -> (r: Result<
        Vec<((usize, RowValue), i64)>,
        EncodeError,
    >)
        requires
            self.wf(),
        ensures
            self.corpus is None <==> r == Err::<Vec<((usize, RowValue), i64)>, EncodeError>(
                EncodeError::NotFitted,
            ),
            r is Ok <==> (self.corpus matches Some(a) && forall|j: int|
                0 <= j < data@.len() ==> ((#[trigger] data@[j]).0.1 matches RowValue::Text(s)
                    && count_doc_ok(
                    tokenize(s@),
                    a.val_to_index@,
                    a.len as int,
                    self.binary,
                ))),
            r matches Ok(out) ==> {
                &&& out@.len() == data@.len()
                &&& forall|j: int|
                    0 <= j < data@.len() ==> {
                        &&& (#[trigger] out@[j]).0.0 == data@[j].0.0
                        &&& out@[j].1 == data@[j].1
                        &&& data@[j].0.1 matches RowValue::Text(s)
                        &&& out@[j].0.1 matches RowValue::Vector(v) && v@.len() == self
                            .corpus->Some_0.len && forall|p: int|
                            0 <= p < v@.len() ==> (#[trigger] v@[p]).den == 1 && v@[p].num
                                == token_counts(
                                tokenize(data@[j].0.1->Text_0@),
                                self.corpus->Some_0.val_to_index@,
                                self.corpus->Some_0.len as int,
                                self.binary,
                            )[p]
                    }
            },
    {
        let agg = match &self.corpus {
            None => {
                return Err(EncodeError::NotFitted);
            },
            Some(a) => a,
        };
        let width = agg.len;
        let mut out: Vec<((usize, RowValue), i64)> = Vec::new();
        let mut i: usize = 0;
        while i < data.len()
            invariant
                0 <= i <= data@.len(),
                self.wf(),
                self.corpus matches Some(a) && a == *agg,
                width == agg.len,
                forall|j: int|
                    0 <= j < i ==> ((#[trigger] data@[j]).0.1 matches RowValue::Text(s)
                        && count_doc_ok(tokenize(s@), agg.val_to_index@, agg.len as int,
                        self.binary)),
                out@.len() == i,
                forall|j: int|
                    0 <= j < i ==> {
                        &&& (#[trigger] out@[j]).0.0 == data@[j].0.0
                        &&& out@[j].1 == data@[j].1
                        &&& data@[j].0.1 matches RowValue::Text(s)
                        &&& out@[j].0.1 matches RowValue::Vector(v) && v@.len() == agg.len
                            && forall|p: int|
                            0 <= p < v@.len() ==> (#[trigger] v@[p]).den == 1 && v@[p].num
                                == token_counts(
                                tokenize(data@[j].0.1->Text_0@),
                                agg.val_to_index@,
                                agg.len as int,
                                self.binary,
                            )[p]
                    },
            decreases data@.len() - i,
        {
            let text = match &data[i].0.1 {
                RowValue::Text(s) => s,
                _ => {
                    return Err(EncodeError::TypeMismatch);
                },
            };
            let tokens = default_tokenizer(text.as_str());
            let ghost toks = tokenize(text@);
            let mut vec: Vec<Ratio> = Vec::new();
            let mut p: usize = 0;
            while p < width
                invariant
                    0 <= p <= width,
                    vec@.len() == p,
                    forall|l: int| 0 <= l < p ==> (#[trigger] vec@[l]).den == 1 && vec@[l].num
                        == 0,
                decreases width - p,
            {
                vec.push(Ratio::zero());
                p += 1;
            }
            proof {
                assert forall|l: int| 0 <= l < width implies (#[trigger] vec@[l]).num
                    == token_counts(toks.take(0), agg.val_to_index@, width as int, self.binary)[l]
                    && vec@[l].den == 1 by {
                    assert(toks.take(0) =~= Seq::<Seq<char>>::empty());
                }
            }
            let mut ti: usize = 0;
            while ti < tokens.len()
                invariant
                    0 <= ti <= tokens@.len(),
                    tokens@.map_values(|t: String| t@) == toks,
                    self.corpus matches Some(a) && a == *agg,
                    agg.wf(),
                    width == agg.len,
                    0 <= i < data@.len(),
                    data@[i as int].0.1 matches RowValue::Text(s) && toks == tokenize(s@),
                    vec@.len() == width,
                    forall|l: int| 0 <= l < width ==> (#[trigger] vec@[l]).den == 1 && vec@[l].num
                        == token_counts(
                        toks.take(ti as int),
                        agg.val_to_index@,
                        width as int,
                        self.binary,
                    )[l],
                decreases tokens@.len() - ti,
            {
                let rv = RowValue::Text(tokens[ti].clone());
                let ghost prev = vec@;
                let ghost tc0 = token_counts(
                    toks.take(ti as int),
                    agg.val_to_index@,
                    width as int,
                    self.binary,
                );
                proof {
                    lemma_token_index(agg.val_to_index@, toks[ti as int], rv);
                    lemma_token_counts_len(
                        toks.take(ti as int),
                        agg.val_to_index@,
                        width as int,
                        self.binary,
                    );
                }
                match agg.val_to_index.get(&rv) {
                    Some(idx) => {
                        let ix = *idx;
                        if ix < width {
                            let cur = vec[ix];
                            let newv = if self.binary {
                                Ratio::from_int(1)
                            } else {
                                match cur.num.checked_add(1) {
                                    Some(c) => Ratio { num: c, den: 1 },
                                    None => {
                                        proof {
                                            // This position's total exceeds
                                            // the machine integers.
                                            assert(toks.take(ti as int + 1).drop_last()
                                                =~= toks.take(ti as int));
                                            assert(toks.take(ti as int + 1).last()
                                                == toks[ti as int]);
                                            lemma_token_counts_len(toks.take(ti as int),
                                                agg.val_to_index@, width as int, self.binary);
                                            assert(token_counts(toks.take(ti as int + 1),
                                                agg.val_to_index@, width as int, self.binary)[
                                                ix as int] == i64::MAX as int + 1);
                                            lemma_token_counts_prefix_le(toks, ti as int + 1,
                                                agg.val_to_index@, width as int, ix as int);
                                        }
                                        return Err(EncodeError::Overflow);
                                    },
                                }
                            };
                            vec.set(ix, newv);
                        }
                    },
                    None => {},
                }
                proof {
                    assert(toks.take(ti as int + 1).drop_last() =~= toks.take(ti as int));
                    assert(toks.take(ti as int + 1).last() == toks[ti as int]);
                    let tc1 = token_counts(
                        toks.take(ti as int + 1),
                        agg.val_to_index@,
                        width as int,
                        self.binary,
                    );
                    assert forall|l: int| 0 <= l < width implies (#[trigger] vec@[l]).den == 1
                        && vec@[l].num == tc1[l] by {
                        match spec_token_index(agg.val_to_index@, toks[ti as int]) {
                            Some(p) => {
                                if p < width {
                                    assert(tc1 == tc0.update(
                                        p as int,
                                        if self.binary {
                                            1int
                                        } else {
                                            tc0[p as int] + 1
                                        },
                                    ));
                                    assert(prev[p as int].num == tc0[p as int]);
                                } else {
                                    assert(tc1 == tc0);
                                    assert(vec@ == prev);
                                }
                            },
                            None => {
                                assert(tc1 == tc0);
                                assert(vec@ == prev);
                            },
                        }
                    }
                }
                ti += 1;
            }
            proof {
                assert(toks.take(toks.len() as int) =~= toks);
                if !self.binary {
                    assert forall|p: int| 0 <= p < width implies #[trigger] token_counts(
                        toks,
                        agg.val_to_index@,
                        width as int,
                        self.binary,
                    )[p] <= i64::MAX by {
                        assert(vec@[p].num == token_counts(toks, agg.val_to_index@, width as int,
                            self.binary)[p]);
                    }
                }
            }
            out.push(((data[i].0.0, RowValue::Vector(vec)), data[i].1));
            i += 1;
        }
        Ok(out)
    }
}

} // verus!
