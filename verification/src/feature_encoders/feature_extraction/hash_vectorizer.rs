//! Hash vectorization: stateless token counting into a fixed number of
//! features. Each token is hashed and counted at `hash mod n_features`;
//! collisions are accepted by design.

use vstd::prelude::*;

use crate::feature_encoders::feature_extraction::utils::default_tokenizer;
use crate::feature_encoders::feature_extraction::utils::tokenize;
use crate::types::ratio::Ratio;
use crate::types::row_value::RowValue;
use crate::EncodeError;
use vstd::pervasive::VecAdditionalExecFns;

verus! {

/// One multiply of the rolling hash, wrapping at the machine word.
pub open spec fn mul_wrap(a: u64, b: u64) -> u64 {
    ((a * b) % 0x1_0000_0000_0000_0000) as u64
}

/// The deterministic token hash: a fold over the characters with xor and a
/// wrapping multiply by a large odd constant.
pub open spec fn token_hash(s: Seq<char>) -> u64
    decreases s.len(),
{
    if s.len() == 0 {
        0xcbf2_9ce4_8422_2325u64
    } else {
        mul_wrap(token_hash(s.drop_last()) ^ (s.last() as u64), 0x0000_0100_0000_01b3u64)
    }
}

/// The per-position token counts of a document under hashing: the tokens
/// are folded in order, each adding one (or saturating at one in binary
/// mode) at `hash mod n`.
pub open spec fn hash_counts(tokens: Seq<Seq<char>>, n: int, binary: bool) -> Seq<int>
    decreases tokens.len(),
{
    if tokens.len() == 0 {
        Seq::new(n as nat, |i: int| 0)
    } else {
        let prev = hash_counts(tokens.drop_last(), n, binary);
        let p = token_hash(tokens.last()) as int % n;
        prev.update(
            p,
            if binary {
                1int
            } else {
                prev[p] + 1
            },
        )
    }
}

/// The hashed counts vector always has `n` positions.
pub proof fn lemma_hash_counts_len(tokens: Seq<Seq<char>>, n: int, binary: bool)
    requires
        n >= 1,
    ensures
        hash_counts(tokens, n, binary).len() == n,
        tokens.len() > 0 ==> 0 <= token_hash(tokens.last()) as int % n < n,
    decreases tokens.len(),
{
    if tokens.len() > 0 {
        lemma_hash_counts_len(tokens.drop_last(), n, binary);
    }
}

/// Without saturation, a prefix of the tokens never counts more at any
/// position than the whole document.
pub proof fn lemma_hash_counts_prefix_le(tokens: Seq<Seq<char>>, i: int, n: int, p: int)
    requires
        n >= 1,
        0 <= i <= tokens.len(),
        0 <= p < n,
    ensures
        hash_counts(tokens.take(i), n, false)[p] <= hash_counts(tokens, n, false)[p],
    decreases tokens.len() - i,
{
    lemma_hash_counts_len(tokens.take(i), n, false);
    lemma_hash_counts_len(tokens, n, false);
    if i == tokens.len() {
        assert(tokens.take(i) =~= tokens);
    } else {
        lemma_hash_counts_len(tokens.take(i + 1), n, false);
        assert(tokens.take(i + 1).drop_last() =~= tokens.take(i));
        assert(tokens.take(i + 1).last() == tokens[i]);
        lemma_hash_counts_prefix_le(tokens, i + 1, n, p);
    }
}

/// A document hashes cleanly: in saturating (binary) mode always, otherwise
/// when no position's total leaves the machine integers.
pub open spec fn hash_doc_ok(tokens: Seq<Seq<char>>, n: int, binary: bool) -> bool {
    binary || forall|p: int| 0 <= p < n ==> #[trigger] hash_counts(tokens, n, binary)[p]
        <= i64::MAX
}

/// Hashes one token.
fn hash_token(t: &str) -> (r: u64)
    ensures
        r == token_hash(t@),
{
    let n = t.unicode_len();
    let mut h: u64 = 0xcbf2_9ce4_8422_2325u64;
    let mut i: usize = 0;
    while i < n
        invariant
            0 <= i <= n,
            n == t@.len(),
            h == token_hash(t@.take(i as int)),
        decreases n - i,
    {
        let c = t.get_char(i);
        h = (h ^ (c as u64)).wrapping_mul(0x0000_0100_0000_01b3u64);
        proof {
            assert(t@.take(i as int + 1).drop_last() =~= t@.take(i as int));
            assert(t@.take(i as int + 1).last() == t@[i as int]);
        }
        i += 1;
    }
    proof {
        assert(t@.take(n as int) =~= t@);
    }
    h
}

/// The hash vectorizer: stateless, with a fixed number of features.
pub struct HashVectorizer {
    /// How many positions the output vectors have.
    pub n_features: usize,
    /// Whether counts saturate at one.
    pub binary: bool,
}

impl HashVectorizer {
    /// A vectorizer with `n_features` output positions.
    pub fn new(n_features: usize, binary: bool) -> (r: HashVectorizer)
        requires
            n_features >= 1,
        ensures
            r.n_features == n_features,
            r.binary == binary,
            r.wf(),
    {
        HashVectorizer { n_features, binary }
    }

    /// Well-formedness: at least one feature position.
    pub open spec fn wf(self) -> bool {
        self.n_features >= 1
    }

    /// Fitting is a no-op: the vectorizer keeps no state.
    pub fn fit(&mut self, data: &Vec<((usize, RowValue), i64)>) -> (r: Result<(), EncodeError>)
        ensures
            *final(self) == *old(self),
            r is Ok,
    {
        Ok(())
    }

    /// Replaces every text document by its hashed token counts.
    pub fn transform(&self, data: &Vec<((usize, RowValue), i64)>) -> (r: Result<
        Vec<((usize, RowValue), i64)>,
        EncodeError,
    >)
        requires
            self.wf(),
        ensures
            r is Ok <==> (forall|j: int|
                0 <= j < data@.len() ==> ((#[trigger] data@[j]).0.1 matches RowValue::Text(s)
                    && hash_doc_ok(tokenize(s@), self.n_features as int, self.binary))),
            r matches Ok(out) ==> {
                &&& out@.len() == data@.len()
                &&& forall|j: int|
                    0 <= j < data@.len() ==> {
                        &&& (#[trigger] out@[j]).0.0 == data@[j].0.0
                        &&& out@[j].1 == data@[j].1
                        &&& data@[j].0.1 matches RowValue::Text(s)
                        &&& out@[j].0.1 matches RowValue::Vector(v) && v@.len() == self.n_features
                            && forall|p: int|
                            0 <= p < v@.len() ==> (#[trigger] v@[p]).den == 1 && v@[p].num
                                == hash_counts(
                                tokenize(data@[j].0.1->Text_0@),
                                self.n_features as int,
                                self.binary,
                            )[p]
                    }
            },
    {
        let width = self.n_features;
        let mut out: Vec<((usize, RowValue), i64)> = Vec::new();
        let mut i: usize = 0;
        while i < data.len()
            invariant
                0 <= i <= data@.len(),
                self.wf(),
                width == self.n_features,
                forall|j: int|
                    0 <= j < i ==> ((#[trigger] data@[j]).0.1 matches RowValue::Text(s)
                        && hash_doc_ok(tokenize(s@), width as int, self.binary)),
                out@.len() == i,
                forall|j: int|
                    0 <= j < i ==> {
                        &&& (#[trigger] out@[j]).0.0 == data@[j].0.0
                        &&& out@[j].1 == data@[j].1
                        &&& data@[j].0.1 matches RowValue::Text(s)
                        &&& out@[j].0.1 matches RowValue::Vector(v) && v@.len() == width
                            && forall|p: int|
                            0 <= p < v@.len() ==> (#[trigger] v@[p]).den == 1 && v@[p].num
                                == hash_counts(
                                tokenize(data@[j].0.1->Text_0@),
                                width as int,
                                self.binary,
                            )[p]
                    },
            decreases data@.len() - i,
        {
            let text = match &data[i].0.1 {
                RowValue::Text(s) => s,
                _ => {
                    return Err(EncodeError::TypeMismatch);
                },
            };
            let tokens = default_tokenizer(text.as_str());
            let ghost toks = tokenize(text@);
            let mut vec: Vec<Ratio> = Vec::new();
            let mut p: usize = 0;
            while p < width
                invariant
                    0 <= p <= width,
                    vec@.len() == p,
                    forall|l: int| 0 <= l < p ==> (#[trigger] vec@[l]).den == 1 && vec@[l].num
                        == 0,
                decreases width - p,
            {
                vec.push(Ratio::zero());
                p += 1;
            }
            proof {
                assert forall|l: int| 0 <= l < width implies (#[trigger] vec@[l]).num
                    == hash_counts(toks.take(0), width as int, self.binary)[l] && vec@[l].den
                    == 1 by {
                    assert(toks.take(0) =~= Seq::<Seq<char>>::empty());
                }
            }
            let mut ti: usize = 0;
            while ti < tokens.len()
                invariant
                    0 <= ti <= tokens@.len(),
                    tokens@.map_values(|t: String| t@) == toks,
                    self.wf(),
                    width == self.n_features,
                    0 <= i < data@.len(),
                    data@[i as int].0.1 matches RowValue::Text(s) && toks == tokenize(s@),
                    vec@.len() == width,
                    forall|l: int| 0 <= l < width ==> (#[trigger] vec@[l]).den == 1 && vec@[l].num
                        == hash_counts(toks.take(ti as int), width as int, self.binary)[l],
                decreases tokens@.len() - ti,
            {
                let h = hash_token(tokens[ti].as_str());
                let ix = (h % (width as u64)) as usize;
                let ghost prev = vec@;
                let ghost tc0 = hash_counts(toks.take(ti as int), width as int, self.binary);
                proof {
                    lemma_hash_counts_len(toks.take(ti as int), width as int, self.binary);
                    assert(tokens@[ti as int]@ == toks[ti as int]);
                }
                let cur = vec[ix];
                let newv = if self.binary {
                    Ratio::from_int(1)
                } else {
                    match cur.num.checked_add(1) {
                        Some(c) => Ratio { num: c, den: 1 },
                        None => {
                            proof {
                                assert(toks.take(ti as int + 1).drop_last() =~= toks.take(
                                    ti as int,
                                ));
                                assert(toks.take(ti as int + 1).last() == toks[ti as int]);
                                lemma_hash_counts_len(toks.take(ti as int), width as int,
                                    self.binary);
                                assert(hash_counts(toks.take(ti as int + 1), width as int,
                                    self.binary)[ix as int] == i64::MAX as int + 1);
                                lemma_hash_counts_prefix_le(toks, ti as int + 1, width as int,
                                    ix as int);
                            }
                            return Err(EncodeError::Overflow);
                        },
                    }
                };
                vec.set(ix, newv);
                proof {
                    assert(toks.take(ti as int + 1).drop_last() =~= toks.take(ti as int));
                    assert(toks.take(ti as int + 1).last() == toks[ti as int]);
                    let tc1 = hash_counts(toks.take(ti as int + 1), width as int, self.binary);
                    assert forall|l: int| 0 <= l < width implies (#[trigger] vec@[l]).den == 1
                        && vec@[l].num == tc1[l] by {
                        assert(tc1 == tc0.update(
                            token_hash(toks[ti as int]) as int % (width as int),
                            if self.binary {
                                1int
                            } else {
                                tc0[token_hash(toks[ti as int]) as int % (width as int)] + 1
                            },
                        ));
                        assert(ix as int == token_hash(toks[ti as int]) as int % (width as int));
                        assert(prev[ix as int].num == tc0[ix as int]);
                    }
                }
                ti += 1;
            }
            proof {
                assert(toks.take(toks.len() as int) =~= toks);
                if !self.binary {
                    assert forall|p: int| 0 <= p < width implies #[trigger] hash_counts(
                        toks,
                        width as int,
                        self.binary,
                    )[p] <= i64::MAX by {
                        assert(vec@[p].num == hash_counts(toks, width as int, self.binary)[p]);
                    }
                }
            }
            out.push(((data[i].0.0, RowValue::Vector(vec)), data[i].1));
            i += 1;
        }
        Ok(out)
    }
}

} // verus!
