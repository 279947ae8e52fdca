//! Sequential composition of encoders on one column: each stage is fitted
//! on the previous stage's transformed output, and transforms run in order.

use vstd::prelude::*;

use crate::feature_encoders::column_encoder::fit_post;
use crate::feature_encoders::column_encoder::transform_post;
use crate::feature_encoders::column_encoder::wf_updates;
use crate::feature_encoders::column_encoder::ColumnEncoder;
use crate::types::row_value::RowValue;
use crate::EncodeError;

verus! {

/// The input reading of a chain: the first intermediate is the batch
/// itself (ids and multiplicities kept, values up to cloning).
pub open spec fn chain_start(
    data: Seq<((usize, RowValue), i64)>,
    first: Seq<((usize, RowValue), i64)>,
) -> bool {
    &&& first.len() == data.len()
    &&& forall|j: int|
        0 <= j < data.len() ==> (#[trigger] first[j]).0.0 == data[j].0.0 && first[j].1
            == data[j].1 && first[j].0.1.like(data[j].0.1)
}

/// One full run of a pipeline's transforms: a chain of intermediates,
/// starting at the batch, where stage `i` transforms the `i`-th
/// intermediate into the next, and the output is the last.
pub open spec fn pipeline_run(
    config: Seq<ColumnEncoder>,
    data: Seq<((usize, RowValue), i64)>,
    inters: Seq<Seq<((usize, RowValue), i64)>>,
    out: Seq<((usize, RowValue), i64)>,
) -> bool {
    &&& inters.len() == config.len() + 1
    &&& chain_start(data, inters[0])
    &&& forall|i: int|
        0 <= i < config.len() ==> transform_post(#[trigger] config[i], inters[i], inters[i + 1])
    &&& out == inters[config.len() as int]
}

/// One full fitting pass: stage `i` is fitted on the transformed output of
/// the stages before it, and then transforms it for the next stage.
pub open spec fn pipeline_fit_run(
    pre: Seq<ColumnEncoder>,
    post: Seq<ColumnEncoder>,
    data: Seq<((usize, RowValue), i64)>,
    inters: Seq<Seq<((usize, RowValue), i64)>>,
) -> bool {
    &&& post.len() == pre.len()
    &&& inters.len() == pre.len() + 1
    &&& chain_start(data, inters[0])
    &&& forall|i: int|
        0 <= i < pre.len() ==> fit_post(#[trigger] pre[i], post[i], inters[i], true)
            && transform_post(post[i], inters[i], inters[i + 1])
}

/// Some chain of intermediates carries the batch through every stage to
/// the output.
pub open spec fn pipeline_ran(
    config: Seq<ColumnEncoder>,
    data: Seq<((usize, RowValue), i64)>,
    out: Seq<((usize, RowValue), i64)>,
) -> bool {
    exists|inters: Seq<Seq<((usize, RowValue), i64)>>|
        #![trigger pipeline_run(config, data, inters, out)]
        pipeline_run(config, data, inters, out)
}

/// Some chain of intermediates fits every stage on its predecessors'
/// output.
pub open spec fn pipeline_fit_ran(
    pre: Seq<ColumnEncoder>,
    post: Seq<ColumnEncoder>,
    data: Seq<((usize, RowValue), i64)>,
) -> bool {
    exists|inters: Seq<Seq<((usize, RowValue), i64)>>|
        #![trigger pipeline_fit_run(pre, post, data, inters)]
        pipeline_fit_run(pre, post, data, inters)
}

/// A sequence of encoders applied in order to one column.
pub struct Pipeline {
    /// The stages, first to last.
    pub config: Vec<ColumnEncoder>,
}

impl Pipeline {
    /// Well-formedness of every stage.
    pub open spec fn wf(self) -> bool {
        forall|i: int| 0 <= i < self.config@.len() ==> (#[trigger] self.config@[i]).wf()
    }

    /// A pipeline of the given stages.
    pub fn new(config: Vec<ColumnEncoder>) -> (r: Pipeline)
        ensures
            r.config == config,
    {
        Pipeline { config }
    }

    /// Fits every stage in order, each on the previous stage's transformed
    /// output.
    pub fn fit(&mut self, data: &Vec<((usize, RowValue), i64)>) -> (r: Result<(), EncodeError>)
        requires
            old(self).wf(),
            wf_updates(data@),
        ensures
            final(self).wf(),
            old(self).config@.len() == 0 ==> r == Err::<(), EncodeError>(EncodeError::EmptyConfig),
            r is Ok ==> old(self).config@.len() > 0,
            r is Ok ==> final(self).config@.len() == old(self).config@.len(),
            r is Ok ==> pipeline_fit_ran(old(self).config@, final(self).config@, data@),
    {
        if self.config.len() == 0 {
            return Err(EncodeError::EmptyConfig);
        }
        let mut inter: Vec<((usize, RowValue), i64)> = clone_updates(data);
        let ghost orig = self.config@;
        let ghost mut fitted_g: Seq<ColumnEncoder> = Seq::empty();
        let ghost mut inters_g: Seq<Seq<((usize, RowValue), i64)>> = seq![inter@];
        let n = self.config.len();
        let mut i: usize = 0;
        while i < n
            invariant
                0 <= i <= n,
                self.wf(),
                n == orig.len(),
                orig == old(self).config@,
                self.config@.len() == n,
                self.config@ =~= orig.skip(i as int) + fitted_g,
                fitted_g.len() == i,
                inters_g.len() == i + 1,
                inters_g[i as int] == inter@,
                chain_start(data@, inters_g[0]),
                forall|l: int|
                    0 <= l < i ==> fit_post(#[trigger] orig[l], fitted_g[l], inters_g[l], true)
                        && transform_post(fitted_g[l], inters_g[l], inters_g[l + 1]),
                wf_updates(inter@),
            decreases n - i,
        {
            // Rotate the stage out, work with it, and rotate it back in;
            // after the last step the stages stand in their original order.
            let mut enc = self.config.remove(0);
            proof {
                assert(self.config@ =~= orig.skip(i as int + 1) + fitted_g);
                assert(enc == orig[i as int]);
            }
            match enc.fit(&inter) {
                Ok(_) => {},
                Err(e) => {
                    self.config.push(enc);
                    return Err(e);
                },
            }
            let next = match enc.transform(&inter) {
                Ok(o) => o,
                Err(e) => {
                    self.config.push(enc);
                    return Err(e);
                },
            };
            self.config.push(enc);
            proof {
                assert(self.config@ =~= orig.skip(i as int + 1) + fitted_g.push(enc));
                fitted_g = fitted_g.push(enc);
                inters_g = inters_g.push(next@);
            }
            inter = match check_wf(next) {
                Ok(o) => o,
                Err(e) => {
                    return Err(e);
                },
            };
            i += 1;
        }
        proof {
            assert(orig.skip(n as int) =~= Seq::<ColumnEncoder>::empty());
            assert(self.config@ =~= fitted_g);
            assert(pipeline_fit_run(orig, self.config@, data@, inters_g));
            assert(pipeline_fit_ran(orig, self.config@, data@));
        }
        Ok(())
    }

    /// Runs every stage's transform in order.
    pub fn transform(&self, data: &Vec<((usize, RowValue), i64)>) -> (r: Result<
        Vec<((usize, RowValue), i64)>,
        EncodeError,
    >)
        requires
            self.wf(),
            wf_updates(data@),
        ensures
            self.config@.len() == 0 ==> r == Err::<Vec<((usize, RowValue), i64)>, EncodeError>(
                EncodeError::EmptyConfig,
            ),
            r is Ok ==> self.config@.len() > 0,
            r matches Ok(out) ==> {
                &&& out@.len() == data@.len()
                &&& forall|j: int|
                    0 <= j < data@.len() ==> (#[trigger] out@[j]).0.0 == data@[j].0.0
                        && out@[j].1 == data@[j].1
            },
            r matches Ok(out) ==> pipeline_ran(self.config@, data@, out@),
    {
        if self.config.len() == 0 {
            return Err(EncodeError::EmptyConfig);
        }
        let mut inter: Vec<((usize, RowValue), i64)> = clone_updates(data);
        let ghost mut inters_g: Seq<Seq<((usize, RowValue), i64)>> = seq![inter@];
        let n = self.config.len();
        let mut i: usize = 0;
        while i < n
            invariant
                0 <= i <= n,
                n == self.config@.len(),
                self.wf(),
                inters_g.len() == i + 1,
                inters_g[i as int] == inter@,
                chain_start(data@, inters_g[0]),
                forall|l: int|
                    0 <= l < i ==> transform_post(#[trigger] self.config@[l], inters_g[l],
                    inters_g[l + 1]),
                wf_updates(inter@),
                inter@.len() == data@.len(),
                forall|j: int|
                    0 <= j < data@.len() ==> (#[trigger] inter@[j]).0.0 == data@[j].0.0
                        && inter@[j].1 == data@[j].1,
            decreases n - i,
        {
            let next = match self.config[i].transform(&inter) {
                Ok(o) => o,
                Err(e) => {
                    return Err(e);
                },
            };
            proof {
                inters_g = inters_g.push(next@);
            }
            inter = match check_wf(next) {
                Ok(o) => o,
                Err(e) => {
                    return Err(e);
                },
            };
            i += 1;
        }
        proof {
            assert(pipeline_run(self.config@, data@, inters_g, inter@));
            assert(pipeline_ran(self.config@, data@, inter@));
        }
        Ok(inter)
    }
}

/// A copy of a batch that keeps every observed value.
pub fn clone_updates(data: &Vec<((usize, RowValue), i64)>) -> (r: Vec<((usize, RowValue), i64)>)
    requires
        wf_updates(data@),
    ensures
        r@.len() == data@.len(),
        wf_updates(r@),
        forall|j: int|
            0 <= j < data@.len() ==> (#[trigger] r@[j]).0.0 == data@[j].0.0 && r@[j].1
                == data@[j].1 && r@[j].0.1.like(data@[j].0.1),
{
    let mut out: Vec<((usize, RowValue), i64)> = Vec::new();
    let mut i: usize = 0;
    while i < data.len()
        invariant
            0 <= i <= data@.len(),
            wf_updates(data@),
            out@.len() == i,
            wf_updates(out@),
            forall|j: int|
                0 <= j < i ==> (#[trigger] out@[j]).0.0 == data@[j].0.0 && out@[j].1 == data@[j].1
                    && out@[j].0.1.like(data@[j].0.1),
        decreases data@.len() - i,
    {
        out.push(((data[i].0.0, data[i].0.1.clone()), data[i].1));
        i += 1;
    }
    out
}

/// Checks that every value of a batch is well-formed. The encoders only
/// produce well-formed values, so this re-check is defensive; a failure is
/// reported as a mismatched value.
pub fn check_wf(data: Vec<((usize, RowValue), i64)>) -> (r: Result<
    Vec<((usize, RowValue), i64)>,
    EncodeError,
>)
    ensures
        r matches Ok(out) ==> out == data && wf_updates(data@),
        r is Err ==> r == Err::<Vec<((usize, RowValue), i64)>, EncodeError>(
            EncodeError::TypeMismatch,
        ),
{
    let mut i: usize = 0;
    while i < data.len()
        invariant
            0 <= i <= data@.len(),
            forall|j: int| 0 <= j < i ==> (#[trigger] data@[j]).0.1.wf(),
        decreases data@.len() - i,
    {
        let ok = match &data[i].0.1 {
            RowValue::Integer(_) => true,
            RowValue::Text(_) => true,
            RowValue::Number(q) => q.den >= 1,
            RowValue::Vector(v) => {
                let mut p: usize = 0;
                let mut good = true;
                while p < v.len()
                    invariant
                        0 <= p <= v@.len(),
                        good ==> forall|l: int| 0 <= l < p ==> (#[trigger] v@[l]).wf(),
                    decreases v@.len() - p,
                {
                    if v[p].den < 1 {
                        good = false;
                    }
                    p += 1;
                }
                good
            },
        };
        if !ok {
            return Err(EncodeError::TypeMismatch);
        }
        proof {
            assert(data@[i as int].0.1.wf());
        }
        i += 1;
    }
    Ok(data)
}

} // verus!
