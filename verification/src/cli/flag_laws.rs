//! What arguments ask for: every flag with the value behind it, once.

use vstd::prelude::*;

#[allow(unused_imports)]
use crate::error::Fault;

#[allow(unused_imports)]
use super::args::{
    generate_asked, sample_asked, GenerateModel, GenerateSourceModel, SampleModel, SettingsModel,
};
#[allow(unused_imports)]
use super::flags::{
    flag_value, flags_read, kind_of, repeat_fault, scanned, value_from, value_of, ArgumentModel, FlagKind, FlagModel,
};

verus! {

/// Whether flags were read from arguments: two for each, its name and behind it its value, which is
/// read by what the table says of the name.
pub open spec fn read_in_pairs(
    artifact: Seq<char>,
    argv: Seq<ArgumentModel>,
    table: Seq<(Seq<char>, FlagKind)>,
    from: int,
    found: Seq<(Seq<char>, FlagModel)>,
) -> bool {
    &&& argv.len() == from + 2 * found.len()
    &&& forall|k: int|
        0 <= k < found.len() ==> (#[trigger] found[k]).0 == argv[from + 2 * k].text && (kind_of(
            table,
            found[k].0,
        ) matches Some(kind) && flag_value(
            kind,
            found[k].0,
            argv[from + 2 * k + 1],
            artifact,
        ) == Ok::<FlagModel, Fault>(found[k].1))
}

proof fn lemma_scanned(
    command: Seq<char>,
    artifact: Seq<char>,
    argv: Seq<ArgumentModel>,
    table: Seq<(Seq<char>, FlagKind)>,
    i: int,
    found: Seq<(Seq<char>, FlagModel)>,
)
    requires
        0 <= i <= argv.len(),
        scanned(command, artifact, argv, table, i) == Ok::<Seq<(Seq<char>, FlagModel)>, Fault>(
            found,
        ),
    ensures
        read_in_pairs(artifact, argv, table, i, found),
    decreases argv.len() - i,
{
    if i < argv.len() {
        let rest = scanned(command, artifact, argv, table, i + 2)->Ok_0;
        lemma_scanned(command, artifact, argv, table, i + 2, rest);
        assert forall|k: int| 0 <= k < found.len() implies (#[trigger] found[k]).0 == argv[i + 2
            * k].text && (kind_of(table, found[k].0) matches Some(kind) && flag_value(
            kind,
            found[k].0,
            argv[i + 2 * k + 1],
            artifact,
        ) == Ok::<FlagModel, Fault>(found[k].1)) by {
            if k > 0 {
                assert(found[k] == rest[k - 1]);
                assert(i + 2 + 2 * (k - 1) == i + 2 * k);
            }
        }
    }
}

proof fn lemma_not_repeated(
    command: Seq<char>,
    artifact: Seq<char>,
    argv: Seq<ArgumentModel>,
    table: Seq<(Seq<char>, FlagKind)>,
    seen: Seq<Seq<char>>,
    i: int,
    found: Seq<(Seq<char>, FlagModel)>,
)
    requires
        0 <= i <= argv.len(),
        repeat_fault(command, argv, table, seen, i) is None,
        scanned(command, artifact, argv, table, i) == Ok::<Seq<(Seq<char>, FlagModel)>, Fault>(
            found,
        ),
    ensures
        forall|k: int| 0 <= k < found.len() ==> !seen.contains((#[trigger] found[k]).0),
        forall|j: int, k: int|
            0 <= j < k < found.len() ==> (#[trigger] found[j]).0 != (#[trigger] found[k]).0,
    decreases argv.len() - i,
{
    if i < argv.len() {
        let rest = scanned(command, artifact, argv, table, i + 2)->Ok_0;
        let more = seen.push(argv[i].text);
        lemma_not_repeated(command, artifact, argv, table, more, i + 2, rest);
        assert forall|k: int| 0 <= k < found.len() implies !seen.contains(
            (#[trigger] found[k]).0,
        ) by {
            if k > 0 {
                assert(found[k] == rest[k - 1]);
                if seen.contains(found[k].0) {
                    let n = choose|n: int| 0 <= n < seen.len() && seen[n] == found[k].0;
                    assert(more[n] == found[k].0);
                }
            }
        }
        assert forall|j: int, k: int| 0 <= j < k < found.len() implies (#[trigger] found[j]).0 != (
        #[trigger] found[k]).0 by {
            assert(found[k] == rest[k - 1]);
            if j > 0 {
                assert(found[j] == rest[j - 1]);
            } else {
                assert(more[seen.len() as int] == argv[i].text);
            }
        }
    }
}

/// The flags of a command are its arguments in pairs, each a name of the table with the value behind
/// it, and none of them twice.
pub proof fn law_flags_are_arguments_in_pairs(
    command: Seq<char>,
    artifact: Seq<char>,
    argv: Seq<ArgumentModel>,
    table: Seq<(Seq<char>, FlagKind)>,
    found: Seq<(Seq<char>, FlagModel)>,
)
    requires
        flags_read(command, artifact, argv, table) == Ok::<Seq<(Seq<char>, FlagModel)>, Fault>(
            found,
        ),
    ensures
        read_in_pairs(artifact, argv, table, 0, found),
        forall|j: int, k: int|
            0 <= j < k < found.len() ==> (#[trigger] found[j]).0 != (#[trigger] found[k]).0,
        forall|k: int|
            0 <= k < found.len() ==> value_of(found, (#[trigger] found[k]).0) == Some(found[k].1),
{
    lemma_scanned(command, artifact, argv, table, 0, found);
    lemma_not_repeated(command, artifact, argv, table, Seq::empty(), 0, found);
    assert forall|k: int| 0 <= k < found.len() implies value_of(found, (#[trigger] found[k]).0)
        == Some(found[k].1) by {
        lemma_value_from(found, 0, k);
    }
}

proof fn lemma_value_from(found: Seq<(Seq<char>, FlagModel)>, from: int, k: int)
    requires
        0 <= from <= k < found.len(),
        forall|i: int, j: int|
            0 <= i < j < found.len() ==> (#[trigger] found[i]).0 != (#[trigger] found[j]).0,
    ensures
        value_from(found, found[k].0, from) == Some(found[k].1),
    decreases k - from,
{
    if from < k {
        assert(found[from].0 != found[k].0);
        lemma_value_from(found, from + 1, k);
    }
}

/// Whether a flag gives a count, or is missing where a default stands for it.
pub open spec fn asks_count(
    found: Seq<(Seq<char>, FlagModel)>,
    name: Seq<char>,
    default: u64,
    count: u64,
) -> bool {
    value_of(found, name) == Some(FlagModel::Count(count)) || !(value_of(
        found,
        name,
    ) matches Some(FlagModel::Count(_))) && count == default
}

/// Whether a flag gives a size, or is missing where a default stands for it.
pub open spec fn asks_size(
    found: Seq<(Seq<char>, FlagModel)>,
    name: Seq<char>,
    default: usize,
    size: usize,
) -> bool {
    match value_of(found, name) {
        Some(FlagModel::Count(n)) => size == n as usize,
        _ => size == default,
    }
}

/// What `sample` is asked is what its flags say, each in its own place, within the ranges that it
/// can run with: at least one chain, four draws and a tree depth between one and twenty.
pub proof fn law_sample_asks_what_its_flags_say(
    found: Seq<(Seq<char>, FlagModel)>,
    defaults: SettingsModel,
    out: SampleModel,
)
    requires
        sample_asked(found, defaults) == Ok::<SampleModel, Fault>(out),
    ensures
        value_of(found, "--model"@) == Some(FlagModel::Text(out.model_path)),
        value_of(found, "--data"@) == Some(FlagModel::Text(out.data_path)),
        value_of(found, "--out"@) == Some(FlagModel::Text(out.out_path)) || out.out_path == "-"@,
        asks_count(found, "--seed"@, 0, out.seed),
        asks_count(found, "--chains"@, 4, out.chains),
        asks_size(found, "--warmup"@, defaults.num_warmup, out.settings.num_warmup),
        asks_size(found, "--draws"@, defaults.num_draws, out.settings.num_draws),
        asks_size(found, "--max-treedepth"@, defaults.max_treedepth, out.settings.max_treedepth),
        value_of(found, "--target-accept"@) == Some(FlagModel::Rate(out.settings.target_accept))
            || out.settings.target_accept == defaults.target_accept,
        1 <= out.chains <= i64::MAX,
        4 <= out.settings.num_draws <= i64::MAX,
        out.settings.num_warmup <= i64::MAX,
        1 <= out.settings.max_treedepth <= 20,
{
}

/// What `generate` is asked is what its flags say: a source takes the flags of its own and no other
/// flags, the count is between one and a thousand, and the seed is one that every number can hold.
pub proof fn law_generate_asks_what_its_flags_say(
    found: Seq<(Seq<char>, FlagModel)>,
    out: GenerateModel,
)
    requires
        generate_asked(found) == Ok::<GenerateModel, Fault>(out),
    ensures
        value_of(found, "--model"@) == Some(FlagModel::Text(out.model_path)),
        value_of(found, "--design"@) == Some(FlagModel::Text(out.design_path)),
        value_of(found, "--out"@) == Some(FlagModel::Text(out.out_path)) || out.out_path == "-"@,
        asks_count(found, "--seed"@, 0, out.seed),
        asks_size(found, "--count"@, 100, out.count),
        1 <= out.count <= 1000,
        out.seed < 0x20_0000_0000_0000,
        ({
            let parameters = value_of(found, "--parameters"@);
            let fit = value_of(found, "--fit"@);
            let fit_data = value_of(found, "--fit-data"@);
            match out.source {
                GenerateSourceModel::Fixed { parameters_path } => value_of(found, "--source"@)
                    == Some(FlagModel::Text("fixed"@)) && parameters == Some(
                    FlagModel::Text(parameters_path),
                ) && !(fit matches Some(FlagModel::Text(_))) && !(fit_data matches Some(
                    FlagModel::Text(_),
                )),
                GenerateSourceModel::ModelPrior => value_of(found, "--source"@) == Some(
                    FlagModel::Text("model-prior"@),
                ) && !(parameters matches Some(FlagModel::Text(_))) && !(fit matches Some(
                    FlagModel::Text(_),
                )) && !(fit_data matches Some(FlagModel::Text(_))),
                GenerateSourceModel::Posterior { fit_path, fit_data_path } => value_of(
                    found,
                    "--source"@,
                ) == Some(FlagModel::Text("posterior"@)) && fit == Some(FlagModel::Text(fit_path))
                    && fit_data == Some(FlagModel::Text(fit_data_path)) && !(parameters matches Some(
                    FlagModel::Text(_),
                )),
            }
        }),
{
}

} // verus!
