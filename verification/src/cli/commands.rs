//! The commands of the program.

use vstd::prelude::*;

use crate::error::{invalid_settings, Error};
#[allow(unused_imports)]
use crate::error::{kind_name, outcome, settings_fault, Fault};
#[allow(unused_imports)]
use crate::investigation::fields::names_view;
#[allow(unused_imports)]
use crate::ir::list_views;
use crate::json::Value;
#[allow(unused_imports)]
use crate::json::Json;
use crate::render::{texts_value, Fields};
#[allow(unused_imports)]
use crate::render::texts_json;
use crate::text;

use super::args::{parse_generate_args, parse_sample_args, GenerateArgs, SampleArgs, Settings};
#[allow(unused_imports)]
use super::args::{generate_parsed, sample_parsed, GenerateModel, SampleModel, SettingsModel};
use super::documents::{
    parse_diagnose_args, parse_posterior_check_args, parse_posterior_predictive_args, parse_prior_predictive_args,
    parse_recover_args, parse_recover_check_args, parse_sbc_args, parse_simulate_args, DiagnoseArgs, PosteriorPredictiveArgs,
    PriorPredictiveArgs, RecoverArgs, RecoverCheckArgs, SbcArgs, SimulateArgs,
};
#[allow(unused_imports)]
use super::documents::{
    diagnose_parsed, posterior_predictive_parsed, prior_predictive_parsed, recover_check_parsed, recover_parsed, sbc_parsed,
    simulate_parsed, DiagnoseModel, PriorArgsModel, RecoverCheckModel, RecoverModel, ReplicateModel, SbcModel, SimulateModel,
};
use super::flags::Argument;
#[allow(unused_imports)]
use super::flags::ArgumentModel;

verus! {

/// How the program is called.
pub const USAGE: &'static str = "usage: bayesite sample --model <ir.json|-> --data <data.json|-> [--seed N] [--chains C] [--warmup W] [--draws D] [--max-treedepth T] [--target-accept A] [--out <fit.jsonl|->]\nusage: bayesite diagnose --fit <fit.jsonl|-> [--out <diagnostics.json|->]\nusage: bayesite prior-predictive --model <ir.json|-> --data <data.json|-> [--seed N] [--draws D] [--out <pp.jsonl|->]\nusage: bayesite generate --model <ir.json|-> --design <data.json|-> --source <fixed|model-prior|posterior> [--parameters <params.json|->] [--fit <fit.jsonl|-> --fit-data <data.json|->] [--count N] [--seed N] [--out <generated.jsonl|->]\nusage: bayesite posterior-predictive --model <ir.json|-> --data <data.json|-> --fit <fit.jsonl|-> [--seed N] [--out <yrep.jsonl|->]\nusage: bayesite posterior-check --model <ir.json|-> --data <data.json|-> --fit <fit.jsonl|-> [--seed N] [--out <ppc.json|->]\nusage: bayesite simulate --model <ir.json|-> --data <data.json|-> --truth <truth.json|-> [--seed N] [--out <data.json|->]\nusage: bayesite recover-check --fit <fit.jsonl|-> --truth <truth.json|-> [--targets <targets.json|->] [--interval P] [--out <report.json|->]\nusage: bayesite recover --model <ir.json|-> --scenario <scenario.json|-> [--out <report.json|->]\nusage: bayesite sbc --model <ir.json|-> --scenario <scenario.json|-> [--replicates N] [--out <report.json|->]\nusage: bayesite capabilities";

/// A command with its arguments.
#[derive(Debug)]
pub enum Command {
    Sample(SampleArgs),
    Diagnose(DiagnoseArgs),
    PriorPredictive(PriorPredictiveArgs),
    Generate(GenerateArgs),
    PosteriorPredictive(PosteriorPredictiveArgs),
    PosteriorCheck(PosteriorPredictiveArgs),
    Simulate(SimulateArgs),
    RecoverCheck(RecoverCheckArgs),
    Recover(RecoverArgs),
    Sbc(SbcArgs),
    Capabilities,
}

/// The mathematical content of a [`Command`].
#[verifier::ext_equal]
pub enum CommandModel {
    Sample(SampleModel),
    Diagnose(DiagnoseModel),
    PriorPredictive(PriorArgsModel),
    Generate(GenerateModel),
    PosteriorPredictive(ReplicateModel),
    PosteriorCheck(ReplicateModel),
    Simulate(SimulateModel),
    RecoverCheck(RecoverCheckModel),
    Recover(RecoverModel),
    Sbc(SbcModel),
    Capabilities,
}

impl View for Command {
    type V = CommandModel;

    open spec fn view(&self) -> CommandModel {
        match *self {
            Command::Sample(args) => CommandModel::Sample(args@),
            Command::Diagnose(args) => CommandModel::Diagnose(args@),
            Command::PriorPredictive(args) => CommandModel::PriorPredictive(args@),
            Command::Generate(args) => CommandModel::Generate(args@),
            Command::PosteriorPredictive(args) => CommandModel::PosteriorPredictive(args@),
            Command::PosteriorCheck(args) => CommandModel::PosteriorCheck(args@),
            Command::Simulate(args) => CommandModel::Simulate(args@),
            Command::RecoverCheck(args) => CommandModel::RecoverCheck(args@),
            Command::Recover(args) => CommandModel::Recover(args@),
            Command::Sbc(args) => CommandModel::Sbc(args@),
            Command::Capabilities => CommandModel::Capabilities,
        }
    }
}

/// The names of the commands.
pub open spec fn command_names() -> Seq<Seq<char>> {
    seq![
        "sample"@,
        "diagnose"@,
        "prior-predictive"@,
        "generate"@,
        "posterior-predictive"@,
        "posterior-check"@,
        "simulate"@,
        "recover-check"@,
        "recover"@,
        "sbc"@,
        "capabilities"@,
    ]
}

fn command_list() -> (r: Vec<&'static str>)
    ensures
        names_view(r@) == command_names(),
{
    let names: Vec<&'static str> = vec![
        "sample",
        "diagnose",
        "prior-predictive",
        "generate",
        "posterior-predictive",
        "posterior-check",
        "simulate",
        "recover-check",
        "recover",
        "sbc",
        "capabilities",
    ];
    assert(names_view(names@) =~= command_names());
    names
}

/// A command that takes no arguments.
pub open spec fn capabilities_parsed(argv: Seq<ArgumentModel>) -> Result<CommandModel, Fault> {
    if argv.len() > 0 {
        Err(
            settings_fault("capabilities takes no arguments; remove "@ + argv[0].text),
        )
    } else {
        Ok(CommandModel::Capabilities)
    }
}

/// The command that a name and arguments stand for.
pub open spec fn command_parsed(name: Seq<char>, rest: Seq<ArgumentModel>, defaults: SettingsModel) -> Result<
    CommandModel,
    Fault,
> {
    if name == "sample"@ {
        match sample_parsed(rest, defaults) {
            Ok(args) => Ok(CommandModel::Sample(args)),
            Err(fault) => Err(fault),
        }
    } else if name == "diagnose"@ {
        match diagnose_parsed(rest) {
            Ok(args) => Ok(CommandModel::Diagnose(args)),
            Err(fault) => Err(fault),
        }
    } else if name == "prior-predictive"@ {
        match prior_predictive_parsed(rest) {
            Ok(args) => Ok(CommandModel::PriorPredictive(args)),
            Err(fault) => Err(fault),
        }
    } else if name == "generate"@ {
        match generate_parsed(rest) {
            Ok(args) => Ok(CommandModel::Generate(args)),
            Err(fault) => Err(fault),
        }
    } else if name == "posterior-predictive"@ {
        match posterior_predictive_parsed(rest) {
            Ok(args) => Ok(CommandModel::PosteriorPredictive(args)),
            Err(fault) => Err(fault),
        }
    } else if name == "posterior-check"@ {
        match posterior_predictive_parsed(rest) {
            Ok(args) => Ok(CommandModel::PosteriorCheck(args)),
            Err(fault) => Err(fault),
        }
    } else if name == "simulate"@ {
        match simulate_parsed(rest) {
            Ok(args) => Ok(CommandModel::Simulate(args)),
            Err(fault) => Err(fault),
        }
    } else if name == "recover-check"@ {
        match recover_check_parsed(rest) {
            Ok(args) => Ok(CommandModel::RecoverCheck(args)),
            Err(fault) => Err(fault),
        }
    } else if name == "recover"@ {
        match recover_parsed(rest) {
            Ok(args) => Ok(CommandModel::Recover(args)),
            Err(fault) => Err(fault),
        }
    } else if name == "sbc"@ {
        match sbc_parsed(rest) {
            Ok(args) => Ok(CommandModel::Sbc(args)),
            Err(fault) => Err(fault),
        }
    } else if name == "capabilities"@ {
        capabilities_parsed(rest)
    } else {
        Err(settings_fault("unknown command \""@ + name + "\"; "@ + USAGE@))
    }
}

/// What the command line asks for.
pub open spec fn line_parsed(argv: Seq<ArgumentModel>, defaults: SettingsModel) -> Result<
    CommandModel,
    Fault,
> {
    if argv.len() == 0 {
        Err(settings_fault("missing command; "@ + USAGE@))
    } else {
        command_parsed(argv[0].text, argv.skip(1), defaults)
    }
}

fn parse_command(name: &str, rest: &Vec<Argument>, defaults: &Settings) -> (r: Result<Command, Error>)
    ensures
        outcome(r) == command_parsed(name@, list_views(rest@), defaults@),
{
    if text::same(name, "sample") {
        return Ok(Command::Sample(parse_sample_args(rest, defaults)?));
    }
    if text::same(name, "diagnose") {
        return Ok(Command::Diagnose(parse_diagnose_args(rest)?));
    }
    if text::same(name, "prior-predictive") {
        return Ok(Command::PriorPredictive(parse_prior_predictive_args(rest)?));
    }
    if text::same(name, "generate") {
        return Ok(Command::Generate(parse_generate_args(rest)?));
    }
    if text::same(name, "posterior-predictive") {
        return Ok(Command::PosteriorPredictive(parse_posterior_predictive_args(rest)?));
    }
    if text::same(name, "posterior-check") {
        return Ok(Command::PosteriorCheck(parse_posterior_check_args(rest)?));
    }
    if text::same(name, "simulate") {
        return Ok(Command::Simulate(parse_simulate_args(rest)?));
    }
    if text::same(name, "recover-check") {
        return Ok(Command::RecoverCheck(parse_recover_check_args(rest)?));
    }
    if text::same(name, "recover") {
        return Ok(Command::Recover(parse_recover_args(rest)?));
    }
    if text::same(name, "sbc") {
        return Ok(Command::Sbc(parse_sbc_args(rest)?));
    }
    if text::same(name, "capabilities") {
        if rest.len() > 0 {
            assert(list_views(rest@)[0] == rest@[0]@);
            return Err(
                invalid_settings(
                    text::cat2(
                        "capabilities takes no arguments; remove ",
                        rest[0].text.as_str(),
                    ),
                ),
            );
        }
        assert(list_views(rest@).len() == 0);
        return Ok(Command::Capabilities);
    }
    Err(invalid_settings(text::cat4("unknown command \"", name, "\"; ", USAGE)))
}

/// Reads the command line.
pub fn parse_args(argv: Vec<Argument>, defaults: &Settings) -> (r: Result<Command, Error>)
    ensures
        outcome(r) == line_parsed(list_views(argv@), defaults@),
{
    let ghost all = list_views(argv@);
    let ghost given = argv@;
    if argv.len() == 0 {
        return Err(invalid_settings(text::cat2("missing command; ", USAGE)));
    }
    let mut rest: Vec<Argument> = argv;
    let command: Argument = rest.remove(0);
    assert(all[0] == command@);
    assert(list_views(rest@) =~= all.skip(1));
    parse_command(command.text.as_str(), &rest, defaults)
}

/// The fields of the document on what the program can do.
pub open spec fn capability_entries(version: Seq<char>) -> Seq<(Seq<char>, Json)> {
    seq![
        ("capabilities_format"@, Json::Str("v0-provisional"@)),
        ("version"@, Json::Str(version)),
        ("commands"@, texts_json(command_names())),
        ("ir"@, Json::Object(ir_entries())),
        ("schemas"@, Json::Object(schema_entries())),
    ]
}

pub open spec fn ir_entries() -> Seq<(Seq<char>, Json)> {
    seq![("bayeswire_ir"@, Json::Int(1))]
}

pub open spec fn schema_entries() -> Seq<(Seq<char>, Json)> {
    seq![
        ("recover_scenario"@, Json::Str("v0-provisional"@)),
        ("sbc_scenario"@, Json::Str("v0-provisional"@)),
        ("recover_check_targets"@, Json::Str("v0-provisional"@)),
        ("error_format"@, Json::Str("v0-provisional"@)),
    ]
}

/// The document on what the program can do.
pub fn capabilities_document(version: &str) -> (r: Value)
    ensures
        r@ == Json::Object(capability_entries(version@)),
{
    let mut ir: Fields = Fields::new();
    ir.put_int("bayeswire_ir", 1);
    assert(ir@ == ir_entries());
    let mut schemas: Fields = Fields::new();
    schemas.put_text("recover_scenario", "v0-provisional");
    schemas.put_text("sbc_scenario", "v0-provisional");
    schemas.put_text("recover_check_targets", "v0-provisional");
    schemas.put_text("error_format", "v0-provisional");
    assert(schemas@ == schema_entries());
    let mut out: Fields = Fields::new();
    out.put_text("capabilities_format", "v0-provisional");
    out.put_text("version", version);
    out.put("commands", texts_value(&command_list()));
    out.put("ir", ir.done());
    out.put("schemas", schemas.done());
    assert(out@ == capability_entries(version@));
    out.done()
}

/// The fields of the document on a failure.
pub open spec fn failure_entries(fault: Fault) -> Seq<(Seq<char>, Json)> {
    seq![
        ("error_format"@, Json::Str("v0-provisional"@)),
        ("error"@, Json::Str(kind_name(fault.kind))),
        ("message"@, Json::Str(fault.message)),
    ]
}

/// The document on a failure.
pub fn failure_document(error: &Error) -> (r: Value)
    ensures
        r@ == Json::Object(failure_entries(error@)),
{
    let mut out: Fields = Fields::new();
    out.put_text("error_format", "v0-provisional");
    out.put_text("error", error.kind.name());
    out.put_text("message", error.message.as_str());
    assert(out@ == failure_entries(error@));
    out.done()
}

/// The capabilities advertise exactly the commands that the command line knows: any other name is
/// refused.
pub proof fn law_only_advertised_commands_are_known(
    name: Seq<char>,
    rest: Seq<ArgumentModel>,
    defaults: SettingsModel,
)
    requires
        !command_names().contains(name),
    ensures
        command_parsed(name, rest, defaults) == Err::<CommandModel, Fault>(
            settings_fault("unknown command \""@ + name + "\"; "@ + USAGE@),
        ),
{
    let names = command_names();
    assert(forall|i: int| 0 <= i < names.len() ==> #[trigger] names[i] != name);
    assert(names[0] == "sample"@);
    assert(names[1] == "diagnose"@);
    assert(names[2] == "prior-predictive"@);
    assert(names[3] == "generate"@);
    assert(names[4] == "posterior-predictive"@);
    assert(names[5] == "posterior-check"@);
    assert(names[6] == "simulate"@);
    assert(names[7] == "recover-check"@);
    assert(names[8] == "recover"@);
    assert(names[9] == "sbc"@);
    assert(names[10] == "capabilities"@);
}

} // verus!
