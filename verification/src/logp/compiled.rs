//! The log density of a bound model with its gradient, built at every point or once for all.

use vstd::prelude::*;

#[allow(unused_imports)]
use crate::data::{data_views, number_views};
use crate::error::Error;
#[allow(unused_imports)]
use crate::error::{outcome, Fault};
#[allow(unused_imports)]
use crate::investigation::ledger::views;
#[allow(unused_imports)]
use crate::ir::list_views;
#[allow(unused_imports)]
use crate::model::{all_filled, packed_end, SlotModel};
use crate::number::Number;
#[allow(unused_imports)]
use crate::number::NumberModel;
use crate::posterior::Posterior;
#[allow(unused_imports)]
use crate::posterior::{places, slot_place};
use crate::predictive::forward::zeros;
#[allow(unused_imports)]
use crate::predictive::forward::zero;
use crate::tensor::Tensor;
#[allow(unused_imports)]
use crate::tensor::TensorModel;

use super::calculus::Calculus;
#[allow(unused_imports)]
use super::calculus::{sized, usable};
use super::graph::CompiledLogp;
#[allow(unused_imports)]
use super::graph::{form_places, made, site_forms, slot_form, slot_forms, tiled, GraphModel};
#[allow(unused_imports)]
use super::point::{
    built_outcome, graph_fits, graph_gives, lemma_tiled_slots_fit, logp_gives, represents, slots_tile,
};

verus! {

/// The packed vector of zeros.
pub open spec fn origin(n_params: usize) -> Seq<NumberModel> {
    Seq::new(n_params as nat, |i: int| zero())
}

/// The log density of a bound model as expressions, where every free value has its form.
pub open spec fn graph_of(p: Posterior) -> GraphModel {
    GraphModel {
        slots: Seq::new(p.free@.len(), |i: int| slot_form(p.free@[i])->Ok_0),
        sites: site_forms(list_views(p.sites@)),
        data: data_views(p.data@),
        n_params: p.n_params,
    }
}

/// A compiled log density that is made of what a model is made of is that of the model.
proof fn lemma_represented(graph: GraphModel, p: Posterior)
    requires
        represents(graph, p),
    ensures
        graph == graph_of(p),
        form_places(graph.slots) == places(p.free@),
{
    let all = slot_forms(p.free@);
    assert(graph.slots.len() == made(graph.slots).len());
    assert forall|i: int| 0 <= i < graph.slots.len() implies graph.slots[i] == slot_form(
        p.free@[i],
    )->Ok_0 && graph.slots[i].place == slot_place(p.free@[i]) by {
        assert(made(graph.slots)[i] == all[i]);
    }
    assert(graph.slots =~= graph_of(p).slots);
    assert(form_places(graph.slots) =~= places(p.free@));
}

/// Whether a compiled log density is what building the density came to.
pub open spec fn compiled_of(
    p: Posterior,
    built: Result<TensorModel, Fault>,
    r: Result<CompiledLogp, Error>,
) -> bool {
    match built {
        Err(fault) => r matches Err(error) && error@ == fault,
        Ok(_) => r matches Ok(found) && represents(found@, p),
    }
}

/// Whether compiling the log density of a bound model can come to that: it is built at zero, and
/// a failure there is the error.
pub open spec fn compiles<S: Calculus>(
    s: &S,
    p: Posterior,
    r: Result<CompiledLogp, Error>,
) -> bool {
    exists|built: Result<TensorModel, Fault>| #[trigger]
        logp_gives(s, p, origin(p.n_params), built) && compiled_of(p, built, r)
}

/// The entries of tensors, one tensor behind the other.
pub open spec fn flattened(tensors: Seq<TensorModel>) -> Seq<NumberModel>
    decreases tensors.len(),
{
    if tensors.len() == 0 {
        Seq::empty()
    } else {
        flattened(tensors.drop_last()) + tensors.last().values
    }
}

/// Whether a value with its gradient can come to that, by the derivatives.
pub open spec fn slopes_joined(
    value: NumberModel,
    slopes: Seq<TensorModel>,
    out: Result<(NumberModel, Seq<NumberModel>), Fault>,
) -> bool {
    out == Ok::<(NumberModel, Seq<NumberModel>), Fault>((value, flattened(slopes)))
}

/// Whether a log density with its gradient can come to that, by what the density came to: the
/// derivatives of these expressions at that point, in packing order.
pub open spec fn gradient_joined<S: Calculus>(
    s: &S,
    graph: GraphModel,
    q: Seq<NumberModel>,
    total: Result<TensorModel, Fault>,
    out: Result<(NumberModel, Seq<NumberModel>), Fault>,
) -> bool {
    match total {
        Err(fault) => out == Err::<(NumberModel, Seq<NumberModel>), Fault>(fault),
        Ok(t) => exists|slopes: Seq<TensorModel>| #[trigger]
            slopes_joined(t.values[0], slopes, out) && s.slopes_give(graph, q, slopes) && sized(
                graph,
                slopes,
            ),
    }
}

/// Whether a compiled log density with its gradient can come to that at a point.
pub open spec fn graph_grades<S: Calculus>(
    s: &S,
    graph: GraphModel,
    q: Seq<NumberModel>,
    out: Result<(NumberModel, Seq<NumberModel>), Fault>,
) -> bool {
    exists|total: Result<TensorModel, Fault>| #[trigger]
        gradient_joined(s, graph, q, total, out) && graph_gives(s, graph, q, total)
}

/// Whether the log density of a bound model with its gradient can come to that at a point.
pub open spec fn model_grades<S: Calculus>(
    s: &S,
    p: Posterior,
    q: Seq<NumberModel>,
    out: Result<(NumberModel, Seq<NumberModel>), Fault>,
) -> bool {
    exists|total: Result<TensorModel, Fault>| #[trigger]
        gradient_joined(s, graph_of(p), q, total, out) && logp_gives(s, p, q, total)
}

/// The content of a value with its gradient.
pub open spec fn graded_outcome(r: Result<(Number, Vec<Number>), Error>) -> Result<
    (NumberModel, Seq<NumberModel>),
    Fault,
> {
    match r {
        Ok(found) => Ok((found.0@, number_views(found.1@))),
        Err(error) => Err(error@),
    }
}

/// Derivatives by free values that fill a vector fill it too.
proof fn lemma_flattened_fills(slots: Seq<SlotModel>, n: nat, slopes: Seq<TensorModel>)
    requires
        tiled(slots, n),
        slopes.len() == slots.len(),
        forall|i: int|
            0 <= i < slopes.len() ==> (#[trigger] slopes[i]).values.len() == slots[i].size,
    ensures
        flattened(slopes).len() == n,
    decreases slots.len(),
{
    if slots.len() > 0 {
        let fewer = slots.drop_last();
        let less = slopes.drop_last();
        let k = slots.len() - 1;
        assert(slopes[k].values.len() == slots[k].size);
        assert(slots[k].offset == packed_end(fewer)) by {
            if k > 0 {
                assert(fewer.last() == slots[k - 1]);
            }
        }
        assert forall|i: int| 0 <= i < fewer.len() implies (#[trigger] fewer[i]).offset == (if i
            == 0 {
            0
        } else {
            fewer[i - 1].offset + fewer[i - 1].size
        }) by {
            assert(slots[i].offset == fewer[i].offset);
        }
        assert forall|i: int| 0 <= i < less.len() implies (#[trigger] less[i]).values.len()
            == fewer[i].size by {
            assert(slopes[i].values.len() == slots[i].size);
        }
        lemma_flattened_fills(fewer, packed_end(fewer), less);
    }
}

/// A gradient has as many entries as the packed vector.
pub proof fn law_gradient_fills_the_vector<S: Calculus>(
    s: &S,
    graph: GraphModel,
    q: Seq<NumberModel>,
    out: Result<(NumberModel, Seq<NumberModel>), Fault>,
)
    requires
        graph_fits(graph),
        graph_grades(s, graph, q, out),
    ensures
        out is Ok ==> out->Ok_0.1.len() == graph.n_params,
{
    let total = choose|total: Result<TensorModel, Fault>| #[trigger]
        gradient_joined(s, graph, q, total, out) && graph_gives(s, graph, q, total);
    if total is Ok {
        let slopes = choose|slopes: Seq<TensorModel>| #[trigger]
            slopes_joined(total->Ok_0.values[0], slopes, out) && s.slopes_give(graph, q, slopes)
                && sized(graph, slopes);
        lemma_flattened_fills(form_places(graph.slots), graph.n_params as nat, slopes);
    }
}

/// A compiled log density gives at every point exactly what the bound model gives there: the same
/// failures, the same values and the same gradients, each with as many entries as there are
/// parameters.
pub proof fn law_compiled_density_is_that_of_the_model<S: Calculus>(
    s: &S,
    p: Posterior,
    compiled: CompiledLogp,
    q: Seq<NumberModel>,
    out: Result<(NumberModel, Seq<NumberModel>), Fault>,
)
    requires
        compiles(s, p, Ok(compiled)),
        slots_tile(p),
        all_filled(data_views(p.data@)),
    ensures
        graph_grades(s, compiled@, q, out) <==> model_grades(s, p, q, out),
        model_grades(s, p, q, out) && out is Ok ==> out->Ok_0.1.len() == p.n_params,
        graph_fits(compiled@),
{
    lemma_represented(compiled@, p);
    assert forall|total: Result<TensorModel, Fault>|
        graph_gives(s, compiled@, q, total) == logp_gives(s, p, q, total) by {}
    if graph_grades(s, compiled@, q, out) {
        let total = choose|total: Result<TensorModel, Fault>| #[trigger]
            gradient_joined(s, compiled@, q, total, out) && graph_gives(s, compiled@, q, total);
        assert(gradient_joined(s, graph_of(p), q, total, out));
        law_gradient_fills_the_vector(s, compiled@, q, out);
    }
    if model_grades(s, p, q, out) {
        let total = choose|total: Result<TensorModel, Fault>| #[trigger]
            gradient_joined(s, graph_of(p), q, total, out) && logp_gives(s, p, q, total);
        assert(gradient_joined(s, compiled@, q, total, out));
    }
}

fn flatten(tensors: &Vec<Tensor>) -> (r: Vec<Number>)
    ensures
        number_views(r@) == flattened(views(tensors@)),
{
    let ghost all = views(tensors@);
    let mut out: Vec<Number> = Vec::new();
    let mut i: usize = 0;
    assert(number_views(out@) =~= flattened(all.take(0)));
    while i < tensors.len()
        invariant
            i <= tensors.len(),
            all == views(tensors@),
            number_views(out@) == flattened(all.take(i as int)),
        decreases tensors.len() - i,
    {
        let ghost done = all.take(i + 1);
        let ghost before = number_views(out@);
        proof {
            assert(done.drop_last() =~= all.take(i as int));
            assert(done.last() == tensors@[i as int]@);
        }
        let values: &Vec<Number> = &tensors[i].values;
        let ghost entries = number_views(values@);
        let mut k: usize = 0;
        assert(entries.take(0) =~= Seq::empty());
        assert(number_views(out@) =~= before + entries.take(0));
        while k < values.len()
            invariant
                k <= values.len(),
                entries == number_views(values@),
                number_views(out@) == before + entries.take(k as int),
            decreases values.len() - k,
        {
            let ghost now = number_views(out@);
            assert(entries[k as int] == values@[k as int]@);
            out.push(values[k].copy());
            assert(number_views(out@) =~= now.push(entries[k as int]));
            assert(entries.take(k + 1) =~= entries.take(k as int).push(entries[k as int]));
            assert(number_views(out@) =~= before + entries.take(k + 1));
            k += 1;
        }
        assert(entries.take(k as int) =~= entries);
        assert(number_views(out@) =~= flattened(done));
        i += 1;
    }
    assert(all.take(i as int) =~= all);
    out
}

fn with_gradient<S: Calculus>(s: &S, graph: &CompiledLogp, q: &Vec<Number>, value: Number) -> (r: (
    Number,
    Vec<Number>,
))
    requires
        usable(s),
    ensures
        exists|slopes: Seq<TensorModel>| #[trigger]
            slopes_joined(value@, slopes, Ok((r.0@, number_views(r.1@)))) && s.slopes_give(
                graph@,
                number_views(q@),
                slopes,
            ) && sized(graph@, slopes),
{
    let slopes: Vec<Tensor> = s.slopes(graph, q);
    let ghost found = views(slopes@);
    let gradient: Vec<Number> = flatten(&slopes);
    let out: (Number, Vec<Number>) = (value, gradient);
    assert(s.slopes_give(graph@, number_views(q@), found) && sized(graph@, found));
    assert(slopes_joined(value@, found, Ok((out.0@, number_views(out.1@)))));
    out
}

impl Posterior {
    /// The log density at a point, with its gradient.
    pub fn logp_grad<S: Calculus>(&self, s: &S, q: &Vec<Number>) -> (r: Result<
        (Number, Vec<Number>),
        Error,
    >)
        requires
            usable(s),
            slots_tile(*self),
            all_filled(data_views(self.data@)),
        ensures
            model_grades(s, *self, number_views(q@), graded_outcome(r)),
            r is Ok ==> r->Ok_0.1@.len() == self.n_params,
    {
        proof {
            lemma_tiled_slots_fit(*self);
        }
        let ghost point = number_views(q@);
        let built: Result<(Tensor, CompiledLogp), Error> = self.build_logp(s, q);
        let ghost total = built_outcome(built);
        assert(logp_gives(s, *self, point, total));
        match built {
            Err(error) => {
                assert(gradient_joined(s, graph_of(*self), point, total, Err(error@)));
                Err(error)
            },
            Ok((value, graph)) => {
                proof {
                    lemma_represented(graph@, *self);
                }
                let first: Number = value.values[0].copy();
                let ghost head = first@;
                assert(head == total->Ok_0.values[0]);
                let found: (Number, Vec<Number>) = with_gradient(s, &graph, q, first);
                proof {
                    let slopes = choose|slopes: Seq<TensorModel>| #[trigger]
                        slopes_joined(head, slopes, Ok((found.0@, number_views(found.1@))))
                            && s.slopes_give(graph@, point, slopes) && sized(graph@, slopes);
                    let out = Ok::<(NumberModel, Seq<NumberModel>), Fault>(
                        (found.0@, number_views(found.1@)),
                    );
                    assert(slopes_joined(total->Ok_0.values[0], slopes, out));
                    assert(gradient_joined(s, graph_of(*self), point, total, out));
                    assert(gradient_joined(s, graph@, point, total, out) && graph_gives(
                        s,
                        graph@,
                        point,
                        total,
                    ));
                    law_gradient_fills_the_vector(s, graph@, point, out);
                }
                Ok(found)
            },
        }
    }

    /// Builds the log density once, at zero. What it is made of does not depend on the point.
    pub fn compile<S: Calculus>(&self, s: &S) -> (r: Result<CompiledLogp, Error>)
        requires
            usable(s),
            slots_tile(*self),
            all_filled(data_views(self.data@)),
        ensures
            compiles(s, *self, r),
            r is Ok ==> graph_fits(r->Ok_0@),
    {
        proof {
            lemma_tiled_slots_fit(*self);
        }
        let start: Vec<Number> = zeros(self.n_params);
        assert(number_views(start@) =~= origin(self.n_params));
        let built: Result<(Tensor, CompiledLogp), Error> = self.build_logp(s, &start);
        let ghost came = built_outcome(built);
        assert(logp_gives(s, *self, origin(self.n_params), came));
        match built {
            Err(error) => Err(error),
            Ok((_, graph)) => {
                proof {
                    lemma_represented(graph@, *self);
                }
                Ok(graph)
            },
        }
    }
}

impl CompiledLogp {
    pub fn n_params(&self) -> (r: usize)
        ensures
            r == self.n_params,
    {
        self.n_params
    }

    /// The log density at a point, with its gradient.
    pub fn logp_grad<S: Calculus>(&self, s: &S, q: &Vec<Number>) -> (r: Result<
        (Number, Vec<Number>),
        Error,
    >)
        requires
            usable(s),
            graph_fits(self@),
        ensures
            graph_grades(s, self@, number_views(q@), graded_outcome(r)),
            r is Ok ==> r->Ok_0.1@.len() == self.n_params,
    {
        let ghost point = number_views(q@);
        let value: Result<Tensor, Error> = self.replay(s, q);
        let ghost total = outcome(value);
        assert(graph_gives(s, self@, point, total));
        match value {
            Err(error) => {
                assert(gradient_joined(s, self@, point, total, Err(error@)));
                Err(error)
            },
            Ok(value) => {
                let first: Number = value.values[0].copy();
                let ghost head = first@;
                assert(head == total->Ok_0.values[0]);
                let found: (Number, Vec<Number>) = with_gradient(s, self, q, first);
                proof {
                    let slopes = choose|slopes: Seq<TensorModel>| #[trigger]
                        slopes_joined(head, slopes, Ok((found.0@, number_views(found.1@))))
                            && s.slopes_give(self@, point, slopes) && sized(self@, slopes);
                    let out = Ok::<(NumberModel, Seq<NumberModel>), Fault>(
                        (found.0@, number_views(found.1@)),
                    );
                    assert(slopes_joined(total->Ok_0.values[0], slopes, out));
                    assert(gradient_joined(s, self@, point, total, out));
                    law_gradient_fills_the_vector(s, self@, point, out);
                }
                Ok(found)
            },
        }
    }
}

} // verus!
