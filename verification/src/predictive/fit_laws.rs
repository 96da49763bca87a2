//! What draws that were read are: those of their lines, under the names of their parameters, and
//! of the model and data that were asked for.

use vstd::prelude::*;

#[allow(unused_imports)]
use crate::error::Fault;
#[allow(unused_imports)]
use crate::json::{array_of, field, integer_of, number_of, string_of, Json};
#[allow(unused_imports)]
use crate::tensor::TensorModel;
#[allow(unused_imports)]
use crate::lines::lines_of;

#[allow(unused_imports)]
use super::fit::{
    entries_upto, fit_draw, fit_header, fit_value, line_kept, line_read, lines_read, numbered_line_read,
    stream_behind, stream_end, stream_read, values_upto, FitDrawModel, FitModel, FitParamModel, ProgressModel,
};

verus! {

/// Whether a document holds the numbers of a value: one number without axes, else a list of them.
pub open spec fn holds_numbers(document: Option<Json>, value: TensorModel) -> bool {
    if value.shape.len() == 0 {
        value.values.len() == 1 && number_of(document) == Some(value.values[0])
    } else {
        array_of(document) matches Some(items) && items.len() == value.values.len() && forall|j: int|
            0 <= j < items.len() ==> number_of(Some(#[trigger] items[j])) == Some(value.values[j])
    }
}

/// Whether a draw is what a document says: its chain and number, and under the name of every
/// parameter its value.
pub open spec fn says_draw(
    document: Json,
    params: Seq<FitParamModel>,
    draw: FitDrawModel,
) -> bool {
    &&& integer_of(field(document, "chain"@)) == Some(draw.chain)
    &&& integer_of(field(document, "draw"@)) == Some(draw.draw)
    &&& draw.values.len() == params.len()
    &&& field(document, "values"@) matches Some(values) && forall|k: int|
        0 <= k < params.len() ==> holds_numbers(
            field(values, (#[trigger] params[k]).name),
            draw.values[k],
        )
}

/// Whether a line is read as a document that says a draw.
pub open spec fn line_says_draw(
    reading: spec_fn(Seq<char>, Result<Json, Fault>) -> bool,
    line: Seq<char>,
    params: Seq<FitParamModel>,
    draw: FitDrawModel,
) -> bool {
    exists|document: Json| #[trigger]
        reading(line, Ok::<Json, Fault>(document)) && says_draw(document, params, draw)
}

/// Whether a document names the model and data: by the fingerprint where one is asked for and one
/// is carried, else by the identity hash.
pub open spec fn names_inputs(
    document: Json,
    hash: Seq<char>,
    fingerprint: Option<Seq<char>>,
) -> bool {
    ||| fingerprint is Some && string_of(field(document, "model_data_fingerprint"@)) == fingerprint
    ||| (fingerprint is None || string_of(field(document, "model_data_fingerprint"@)) is None)
        && string_of(field(document, "posterior_identity_hash"@)) == Some(hash)
}

/// Whether a line is read as a header of posterior draws of those inputs, with that seed and count.
pub open spec fn line_says_header(
    reading: spec_fn(Seq<char>, Result<Json, Fault>) -> bool,
    line: Seq<char>,
    hash: Seq<char>,
    fingerprint: Option<Seq<char>>,
    seed: i64,
    count: nat,
) -> bool {
    exists|document: Json| #[trigger]
        reading(line, Ok::<Json, Fault>(document)) && says_stream(
            document,
            hash,
            fingerprint,
            seed,
            count,
        )
}

/// Whether a line is read as a trailer of posterior draws of those inputs, with that seed and count.
pub open spec fn line_says_trailer(
    reading: spec_fn(Seq<char>, Result<Json, Fault>) -> bool,
    line: Seq<char>,
    hash: Seq<char>,
    fingerprint: Option<Seq<char>>,
    seed: i64,
    count: nat,
) -> bool {
    exists|document: Json| #[trigger]
        reading(line, Ok::<Json, Fault>(document)) && (field(document, "trailer"@) matches Some(
            trailer,
        ) && says_stream(trailer, hash, fingerprint, seed, count))
}

/// Whether a document speaks of posterior draws of those inputs, with that seed and count.
pub open spec fn says_stream(
    document: Json,
    hash: Seq<char>,
    fingerprint: Option<Seq<char>>,
    seed: i64,
    count: nat,
) -> bool {
    &&& string_of(field(document, "artifact_kind"@)) == Some("posterior_draws"@)
    &&& names_inputs(document, hash, fingerprint)
    &&& integer_of(field(document, "seed"@)) == Some(seed)
    &&& integer_of(field(document, "draw_count"@)) matches Some(n) && n == count
}

proof fn lemma_entries_read(items: Seq<Json>, name: Seq<char>, n: nat)
    requires
        n <= items.len(),
        entries_upto(items, name, n) is Ok,
    ensures
        entries_upto(items, name, n)->Ok_0.len() == n,
        forall|j: int|
            0 <= j < n ==> number_of(Some(#[trigger] items[j])) == Some(
                entries_upto(items, name, n)->Ok_0[j],
            ),
    decreases n,
{
    if n > 0 {
        lemma_entries_read(items, name, (n - 1) as nat);
    }
}

proof fn lemma_values_read(v: Json, params: Seq<FitParamModel>, n: nat)
    requires
        n <= params.len(),
        values_upto(v, params, n) is Ok,
    ensures
        values_upto(v, params, n)->Ok_0.len() == n,
        forall|k: int|
            0 <= k < n ==> holds_numbers(
                field(v, (#[trigger] params[k]).name),
                values_upto(v, params, n)->Ok_0[k],
            ),
    decreases n,
{
    if n > 0 {
        lemma_values_read(v, params, (n - 1) as nat);
        let drawn = field(v, params[n - 1].name)->0;
        if params[n - 1].shape.len() > 0 {
            let items = array_of(Some(drawn))->0;
            lemma_entries_read(items, params[n - 1].name, items.len());
        }
        assert(holds_numbers(Some(drawn), fit_value(drawn, params[n - 1])->Ok_0));
    }
}

/// A draw has the chain and the number that its line states, and every parameter has in it the
/// numbers that stand under its name.
pub proof fn law_draw_is_what_its_line_says(
    line: Json,
    params: Seq<FitParamModel>,
    due: usize,
    draw: FitDrawModel,
)
    requires
        fit_draw(line, params, due) == Ok::<FitDrawModel, Fault>(draw),
    ensures
        says_draw(line, params, draw),
        draw.draw_index == due,
{
    lemma_values_read(field(line, "values"@)->0, params, params.len());
}

proof fn lemma_lines_are_draws(
    reading: spec_fn(Seq<char>, Result<Json, Fault>) -> bool,
    all: Seq<Seq<char>>,
    params: Seq<FitParamModel>,
    n: nat,
    progress: ProgressModel,
)
    requires
        1 <= n <= all.len(),
        lines_read(reading, all, params, n, Ok(progress)),
    ensures
        progress.trailer is None ==> progress.draws.len() + 1 == n,
        progress.trailer is Some ==> progress.draws.len() + 2 == n && exists|document: Json| #[trigger]
            reading(all[n - 1], Ok::<Json, Fault>(document)) && field(document, "trailer"@)
                == progress.trailer,
        forall|i: int|
            0 <= i < progress.draws.len() ==> line_says_draw(
                reading,
                all[i + 1],
                params,
                #[trigger] progress.draws[i],
            ),
    decreases n,
{
    if n > 1 {
        let before = choose|before: ProgressModel| #[trigger]
            numbered_line_read(reading, all, n, params, before, Ok(progress)) && lines_read(
                reading,
                all,
                params,
                (n - 1) as nat,
                Ok(before),
            );
        lemma_lines_are_draws(reading, all, params, (n - 1) as nat, before);
        let line = all[n - 1];
        assert(line_read(reading, line, n, params, before, Ok(progress)));
        let document = choose|document: Result<Json, Fault>| #[trigger]
            reading(line, document) && Ok::<ProgressModel, Fault>(progress) == line_kept(
                document,
                params,
                before,
            );
        let doc = document->Ok_0;
        assert(reading(line, Ok::<Json, Fault>(doc)));
        if field(doc, "trailer"@) is None {
            let due = before.draws.len() as usize;
            let draw = fit_draw(doc, params, due)->Ok_0;
            law_draw_is_what_its_line_says(doc, params, due, draw);
            assert(line_says_draw(reading, line, params, draw));
            assert forall|i: int| 0 <= i < progress.draws.len() implies line_says_draw(
                reading,
                all[i + 1],
                params,
                #[trigger] progress.draws[i],
            ) by {
                if i < before.draws.len() {
                    assert(progress.draws[i] == before.draws[i]);
                }
            }
        }
    }
}

/// A stream that was read is its lines, each in its place: a header, one line for every draw, and a
/// trailer. Both ends name the model and data that were asked for, the seed and the number of
/// draws.
pub proof fn law_read_fit_is_its_lines(
    reading: spec_fn(Seq<char>, Result<Json, Fault>) -> bool,
    text: Seq<char>,
    packing: Seq<(Seq<char>, Seq<usize>)>,
    hash: Seq<char>,
    fingerprint: Option<Seq<char>>,
    fit: FitModel,
)
    requires
        stream_read(reading, text, packing, hash, fingerprint, Ok(fit)),
    ensures
        lines_of(text).len() == fit.draws.len() + 2,
        line_says_header(
            reading,
            lines_of(text)[0],
            hash,
            fingerprint,
            fit.source_seed,
            fit.draws.len(),
        ),
        forall|i: int|
            0 <= i < fit.draws.len() ==> line_says_draw(
                reading,
                lines_of(text)[i + 1],
                fit.params,
                #[trigger] fit.draws[i],
            ),
        line_says_trailer(
            reading,
            lines_of(text)[fit.draws.len() as int + 1],
            hash,
            fingerprint,
            fit.source_seed,
            fit.draws.len(),
        ),
{
    let all = lines_of(text);
    let document = choose|document: Result<Json, Fault>| #[trigger]
        reading(all[0], document) && document is Ok && fit_header(
            document->Ok_0,
            packing,
            hash,
            fingerprint,
        ) is Ok && stream_behind(
            reading,
            all,
            fit_header(document->Ok_0, packing, hash, fingerprint)->Ok_0,
            hash,
            fingerprint,
            Ok(fit),
        );
    let header = fit_header(document->Ok_0, packing, hash, fingerprint)->Ok_0;
    let progress = choose|progress: Result<ProgressModel, Fault>| #[trigger]
        lines_read(reading, all, header.params, all.len(), progress) && Ok::<FitModel, Fault>(fit)
            == stream_end(header, progress, hash, fingerprint);
    lemma_lines_are_draws(reading, all, header.params, all.len(), progress->Ok_0);
    let first = document->Ok_0;
    assert(reading(all[0], Ok::<Json, Fault>(first)));
    assert(says_stream(first, hash, fingerprint, fit.source_seed, fit.draws.len()));
    let last = choose|document: Json| #[trigger]
        reading(all[all.len() - 1], Ok::<Json, Fault>(document)) && field(document, "trailer"@)
            == progress->Ok_0.trailer;
    assert(says_stream(
        field(last, "trailer"@)->0,
        hash,
        fingerprint,
        fit.source_seed,
        fit.draws.len(),
    ));
}

} // verus!
