//! Fan-out over columns: each configured column is projected out, fitted
//! and transformed by its own encoder, and the per-encoder outputs are
//! joined back by row id into one dense vector per row, concatenated in
//! configuration order.

use vstd::prelude::*;

use crate::feature_encoders::column_encoder::fit_post;
use crate::feature_encoders::column_encoder::transform_post;
use crate::feature_encoders::column_encoder::wf_updates;
use crate::feature_encoders::column_encoder::ColumnEncoder;
use crate::types::dense_vector::DenseVector;
use crate::types::ratio::Ratio;
use crate::types::row::Row;
use crate::types::row_value::RowValue;
use crate::EncodeError;

verus! {

/// The scalars an encoder output contributes to the joined vector: a
/// number is one scalar, a vector all of its scalars, an integer its exact
/// promotion; text contributes nothing (it is rejected when joining).
pub open spec fn part_view(v: RowValue) -> Seq<Ratio> {
    match v {
        RowValue::Number(q) => seq![q],
        RowValue::Integer(a) => seq![Ratio { num: a, den: 1 }],
        RowValue::Vector(vs) => vs@,
        RowValue::Text(_) => Seq::empty(),
    }
}

/// The concatenation of all the parts, in order.
pub open spec fn flatten_parts(parts: Seq<RowValue>) -> Seq<Ratio>
    decreases parts.len(),
{
    if parts.len() == 0 {
        Seq::empty()
    } else {
        flatten_parts(parts.drop_last()) + part_view(parts.last())
    }
}

/// Joins the per-encoder outputs of one row into a single dense vector, in
/// exactly the order the parts are given: the result reads as the
/// concatenation of the parts' scalars. A text part cannot be joined.
pub fn concat_outputs(parts: &Vec<RowValue>) -> (r: Result<DenseVector, EncodeError>)
    ensures
        r is Err <==> (exists|i: int| 0 <= i < parts@.len() && (#[trigger] parts@[i]) is Text),
        r matches Err(e) ==> e == EncodeError::TypeMismatch,
        r matches Ok(v) ==> v@ == flatten_parts(parts@) && v is Vector,
{
    let mut acc = DenseVector::Vector(Vec::new());
    let mut i: usize = 0;
    while i < parts.len()
        invariant
            0 <= i <= parts@.len(),
            forall|j: int| 0 <= j < i ==> !((#[trigger] parts@[j]) is Text),
            acc@ == flatten_parts(parts@.take(i as int)),
            acc is Vector,
        decreases parts@.len() - i,
    {
        let piece: DenseVector = match &parts[i] {
            RowValue::Number(q) => DenseVector::Scalar(*q),
            RowValue::Integer(a) => DenseVector::Scalar(Ratio::from_int(*a)),
            RowValue::Vector(vs) => {
                let mut copy: Vec<Ratio> = Vec::new();
                let mut p: usize = 0;
                while p < vs.len()
                    invariant
                        0 <= p <= vs@.len(),
                        copy@.len() == p,
                        forall|l: int| 0 <= l < p ==> #[trigger] copy@[l] == vs@[l],
                    decreases vs@.len() - p,
                {
                    copy.push(vs[p]);
                    p += 1;
                }
                proof {
                    assert(copy@ =~= vs@);
                }
                DenseVector::Vector(copy)
            },
            RowValue::Text(_) => {
                return Err(EncodeError::TypeMismatch);
            },
        };
        proof {
            assert(piece@ == part_view(parts@[i as int]));
        }
        acc = acc.concat_dense_vector(piece);
        proof {
            assert(parts@.take(i as int + 1).drop_last() =~= parts@.take(i as int));
            assert(parts@.take(i as int + 1).last() == parts@[i as int]);
        }
        i += 1;
    }
    proof {
        assert(parts@.take(parts@.len() as int) =~= parts@);
    }
    Ok(acc)
}

/// Projects one column out of every row.
fn project_column(data: &Vec<((usize, Row), i64)>, col: usize) -> (r: Result<
    Vec<((usize, RowValue), i64)>,
    EncodeError,
>)
    requires
        forall|j: int| 0 <= j < data@.len() ==> (#[trigger] data@[j]).0.1.wf(),
    ensures
        r is Err <==> (exists|j: int|
            0 <= j < data@.len() && col >= (#[trigger] data@[j]).0.1.values@.len()),
        r matches Err(e) ==> e == EncodeError::TypeMismatch,
        r matches Ok(out) ==> {
            &&& out@.len() == data@.len()
            &&& wf_updates(out@)
            &&& forall|j: int|
                0 <= j < data@.len() ==> (#[trigger] out@[j]).0.0 == data@[j].0.0 && out@[j].1
                    == data@[j].1 && out@[j].0.1.like(data@[j].0.1.values@[col as int])
        },
{
    let mut out: Vec<((usize, RowValue), i64)> = Vec::new();
    let mut j: usize = 0;
    while j < data.len()
        invariant
            0 <= j <= data@.len(),
            forall|l: int| 0 <= l < data@.len() ==> (#[trigger] data@[l]).0.1.wf(),
            forall|l: int| 0 <= l < j ==> col < (#[trigger] data@[l]).0.1.values@.len(),
            out@.len() == j,
            wf_updates(out@),
            forall|l: int|
                0 <= l < j ==> (#[trigger] out@[l]).0.0 == data@[l].0.0 && out@[l].1 == data@[l].1
                    && out@[l].0.1.like(data@[l].0.1.values@[col as int]),
        decreases data@.len() - j,
    {
        let row = &data[j].0.1;
        if col >= row.values.len() {
            return Err(EncodeError::TypeMismatch);
        }
        let v = row.values[col].clone();
        proof {
            crate::types::row_value::lemma_like_wf(v, data@[j as int].0.1.values@[col as int]);
        }
        out.push(((data[j].0.0, v), data[j].1));
        j += 1;
    }
    Ok(out)
}

/// `like` parts contribute the same scalars.
pub proof fn lemma_part_view_like(a: RowValue, b: RowValue)
    requires
        a.like(b),
    ensures
        part_view(a) == part_view(b),
{
}

/// Part lists with pointwise equal contributions flatten identically.
pub proof fn lemma_flatten_pointwise(s1: Seq<RowValue>, s2: Seq<RowValue>)
    requires
        s1.len() == s2.len(),
        forall|i: int| 0 <= i < s1.len() ==> part_view(#[trigger] s1[i]) == part_view(s2[i]),
    ensures
        flatten_parts(s1) == flatten_parts(s2),
    decreases s1.len(),
{
    if s1.len() > 0 {
        assert(forall|i: int|
            0 <= i < s1.drop_last().len() ==> #[trigger] s1.drop_last()[i] == s1[i]
                && #[trigger] s2.drop_last()[i] == s2[i]);
        lemma_flatten_pointwise(s1.drop_last(), s2.drop_last());
    }
}

/// One full run of the fan-out: per configured column, a projected column
/// (the rows' cells, ids and multiplicities kept), the encoder fitted on
/// it, and its transform of it; the joined output reads, row by row, as the
/// concatenation of the per-encoder outputs in configuration order.
pub open spec fn multi_column_run(
    data: Seq<((usize, Row), i64)>,
    config: Seq<(usize, ColumnEncoder)>,
    cols: Seq<Seq<((usize, RowValue), i64)>>,
    fitted: Seq<ColumnEncoder>,
    outs: Seq<Seq<((usize, RowValue), i64)>>,
    out: Seq<((usize, DenseVector), i64)>,
) -> bool {
    &&& cols.len() == config.len()
    &&& fitted.len() == config.len()
    &&& outs.len() == config.len()
    &&& out.len() == data.len()
    &&& forall|e: int|
        0 <= e < config.len() ==> {
            &&& (#[trigger] cols[e]).len() == data.len()
            &&& forall|j: int|
                0 <= j < data.len() ==> (#[trigger] cols[e][j]).0.0 == data[j].0.0 && cols[e][j].1
                    == data[j].1 && cols[e][j].0.1.like(
                    data[j].0.1.values@[config[e].0 as int],
                )
            &&& fit_post(config[e].1, fitted[e], cols[e], true)
            &&& transform_post(fitted[e], cols[e], outs[e])
        }
    &&& forall|j: int|
        0 <= j < data.len() ==> (#[trigger] out[j]).0.1@ == flatten_parts(
            Seq::new(config.len(), |e: int| outs[e][j].0.1),
        )
}

/// Fits and transforms every configured column, then joins the per-encoder
/// outputs row by row into dense vectors, concatenated in configuration
/// order. Row ids and multiplicities pass through.
pub fn multi_column_encoder(data: &Vec<((usize, Row), i64)>, config: Vec<(usize, ColumnEncoder)>)
    -> (r: Result<Vec<((usize, DenseVector), i64)>, EncodeError>)
    requires
        forall|j: int| 0 <= j < data@.len() ==> (#[trigger] data@[j]).0.1.wf(),
        forall|e: int| 0 <= e < config@.len() ==> (#[trigger] config@[e]).1.wf(),
    ensures
        config@.len() == 0 ==> r == Err::<Vec<((usize, DenseVector), i64)>, EncodeError>(
            EncodeError::EmptyConfig,
        ),
        r is Ok ==> config@.len() > 0,
        r matches Ok(out) ==> {
            &&& out@.len() == data@.len()
            &&& forall|j: int|
                0 <= j < data@.len() ==> (#[trigger] out@[j]).0.0 == data@[j].0.0 && out@[j].1
                    == data@[j].1 && (out@[j].0.1) is Vector
        },
        r matches Ok(out) ==> exists|
            cols: Seq<Seq<((usize, RowValue), i64)>>,
            fitted: Seq<ColumnEncoder>,
            outs: Seq<Seq<((usize, RowValue), i64)>>,
        |
            #![trigger multi_column_run(data@, config@, cols, fitted, outs, out@)]
            multi_column_run(data@, config@, cols, fitted, outs, out@),
{
    if config.len() == 0 {
        return Err(EncodeError::EmptyConfig);
    }
    let n_enc = config.len();
    let mut outs: Vec<Vec<((usize, RowValue), i64)>> = Vec::new();
    let ghost orig_config = config@;
    let mut cfg = config;
    let ghost mut cols_g: Seq<Seq<((usize, RowValue), i64)>> = Seq::empty();
    let ghost mut fitted_g: Seq<ColumnEncoder> = Seq::empty();
    let mut e: usize = 0;
    while e < n_enc
        invariant
            0 <= e <= n_enc,
            n_enc == cfg@.len(),
            n_enc == config@.len(),
            n_enc >= 1,
            orig_config == config@,
            forall|l: int| e <= l < n_enc ==> (#[trigger] cfg@[l]) == orig_config[l],
            forall|l: int| 0 <= l < cfg@.len() ==> (#[trigger] cfg@[l]).1.wf(),
            forall|j: int| 0 <= j < data@.len() ==> (#[trigger] data@[j]).0.1.wf(),
            outs@.len() == e,
            cols_g.len() == e,
            fitted_g.len() == e,
            forall|l: int|
                0 <= l < e ==> {
                    &&& (#[trigger] cols_g[l]).len() == data@.len()
                    &&& forall|j: int|
                        0 <= j < data@.len() ==> (#[trigger] cols_g[l][j]).0.0 == data@[j].0.0
                            && cols_g[l][j].1 == data@[j].1 && cols_g[l][j].0.1.like(
                            data@[j].0.1.values@[orig_config[l].0 as int],
                        )
                    &&& fit_post(orig_config[l].1, fitted_g[l], cols_g[l], true)
                    &&& transform_post(fitted_g[l], cols_g[l], outs@[l]@)
                },
            forall|l: int|
                0 <= l < e ==> (#[trigger] outs@[l])@.len() == data@.len() && forall|j: int|
                    0 <= j < data@.len() ==> (#[trigger] outs@[l]@[j]).0.0 == data@[j].0.0
                        && outs@[l]@[j].1 == data@[j].1,
        decreases n_enc - e,
    {
        let col = cfg[e].0;
        let coldata = match project_column(data, col) {
            Ok(c) => c,
            Err(err) => {
                return Err(err);
            },
        };
        // Rotate the encoder out to fit it, then back in.
        let (col_id, mut enc) = cfg.remove(e);
        match enc.fit(&coldata) {
            Ok(_) => {},
            Err(err) => {
                cfg.insert(e, (col_id, enc));
                return Err(err);
            },
        }
        let out_e = match enc.transform(&coldata) {
            Ok(o) => o,
            Err(err) => {
                cfg.insert(e, (col_id, enc));
                return Err(err);
            },
        };
        proof {
            cols_g = cols_g.push(coldata@);
            fitted_g = fitted_g.push(enc);
        }
        cfg.insert(e, (col_id, enc));
        outs.push(out_e);
        e += 1;
    }
    // Join: per row, concatenate the per-encoder outputs in order.
    let mut joined: Vec<((usize, DenseVector), i64)> = Vec::new();
    let mut j: usize = 0;
    while j < data.len()
        invariant
            0 <= j <= data@.len(),
            n_enc >= 1,
            n_enc == config@.len(),
            outs@.len() == n_enc,
            forall|l: int|
                0 <= l < outs@.len() ==> (#[trigger] outs@[l])@.len() == data@.len() && forall|
                    jj: int,
                |
                    0 <= jj < data@.len() ==> (#[trigger] outs@[l]@[jj]).0.0 == data@[jj].0.0
                        && outs@[l]@[jj].1 == data@[jj].1,
            joined@.len() == j,
            forall|l: int|
                0 <= l < j ==> (#[trigger] joined@[l]).0.0 == data@[l].0.0 && joined@[l].1
                    == data@[l].1 && (joined@[l].0.1) is Vector,
            forall|l: int|
                0 <= l < j ==> (#[trigger] joined@[l]).0.1@ == flatten_parts(
                    Seq::new(n_enc as nat, |e3: int| outs@[e3]@[l].0.1),
                ),
        decreases data@.len() - j,
    {
        let mut parts: Vec<RowValue> = Vec::new();
        let mut e2: usize = 0;
        while e2 < n_enc
            invariant
                0 <= e2 <= n_enc,
                0 <= j < data@.len(),
                outs@.len() == n_enc,
                forall|l: int|
                    0 <= l < outs@.len() ==> (#[trigger] outs@[l])@.len() == data@.len(),
                parts@.len() == e2,
                forall|l: int|
                    0 <= l < e2 ==> (#[trigger] parts@[l]).like(outs@[l]@[j as int].0.1),
            decreases n_enc - e2,
        {
            parts.push(outs[e2][j].0.1.clone());
            e2 += 1;
        }
        let vec = match concat_outputs(&parts) {
            Ok(v) => v,
            Err(err) => {
                return Err(err);
            },
        };
        proof {
            let ideal = Seq::new(n_enc as nat, |e3: int| outs@[e3]@[j as int].0.1);
            assert forall|l: int| 0 <= l < parts@.len() implies part_view(#[trigger] parts@[l])
                == part_view(ideal[l]) by {
                lemma_part_view_like(parts@[l], ideal[l]);
            }
            lemma_flatten_pointwise(parts@, ideal);
        }
        joined.push(((data[j].0.0, vec), data[j].1));
        j += 1;
    }
    proof {
        let outs_view = outs@.map_values(|v: Vec<((usize, RowValue), i64)>| v@);
        assert(multi_column_run(data@, config@, cols_g, fitted_g, outs_view, joined@)) by {
            assert forall|e3: int| 0 <= e3 < config@.len() implies {
                &&& (#[trigger] cols_g[e3]).len() == data@.len()
                &&& forall|jj: int|
                    0 <= jj < data@.len() ==> (#[trigger] cols_g[e3][jj]).0.0 == data@[jj].0.0
                        && cols_g[e3][jj].1 == data@[jj].1 && cols_g[e3][jj].0.1.like(
                        data@[jj].0.1.values@[config@[e3].0 as int],
                    )
                &&& fit_post(config@[e3].1, fitted_g[e3], cols_g[e3], true)
                &&& transform_post(fitted_g[e3], cols_g[e3], outs_view[e3])
            } by {
                assert(outs_view[e3] == outs@[e3]@);
            }
            assert forall|jj: int| 0 <= jj < data@.len() implies (#[trigger] joined@[jj]).0.1@
                == flatten_parts(Seq::new(config@.len(), |e3: int| outs_view[e3][jj].0.1)) by {
                assert(Seq::new(config@.len(), |e3: int| outs_view[e3][jj].0.1) =~= Seq::new(
                    n_enc as nat,
                    |e3: int| outs@[e3]@[jj].0.1,
                ));
            }
        }
    }
    Ok(joined)
}

} // verus!
