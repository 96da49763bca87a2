//! The arguments of the commands that read documents and write one.

use vstd::prelude::*;

use crate::error::{invalid_settings, Error};
#[allow(unused_imports)]
use crate::error::{outcome, settings_fault, Fault};
#[allow(unused_imports)]
use crate::ir::list_views;
use crate::number::Number;
#[allow(unused_imports)]
use crate::number::NumberModel;
#[allow(unused_imports)]
use crate::text::text_views;
use crate::predictive::records::PriorPredictiveSettings;

use super::args::PATH_FORM;
use super::flags::{
    find_value, given_count, given_rate, given_text, given_text_or_hyphen, read_flags, require_text, validate_single_stdin_input,
    validate_target_accept, Argument, FlagKind, FlagTable, FlagValue,
};
#[allow(unused_imports)]
use super::flags::{
    count_given, flag_views, flags_read, input_views, optional_text, rate_fault, rate_given, stdin_fault, table_view,
    text_given, text_or_hyphen, text_required, value_of, ArgumentModel, FlagModel,
};

verus! {

/// The paths that the first `n` named flags must give.
pub open spec fn paths_required(found: Seq<(Seq<char>, FlagModel)>, names: Seq<Seq<char>>, n: nat) -> Result<
    Seq<Seq<char>>,
    Fault,
>
    decreases n,
{
    if n == 0 {
        Ok(Seq::empty())
    } else {
        match paths_required(found, names, (n - 1) as nat) {
            Err(fault) => Err(fault),
            Ok(before) => match text_required(found, names[n - 1], PATH_FORM@) {
                Err(fault) => Err(fault),
                Ok(path) => Ok(before.push(path)),
            },
        }
    }
}

proof fn lemma_paths_fail(found: Seq<(Seq<char>, FlagModel)>, names: Seq<Seq<char>>, m: nat, n: nat)
    requires
        m <= n,
        paths_required(found, names, m) is Err,
    ensures
        paths_required(found, names, n) == paths_required(found, names, m),
    decreases n - m,
{
    if m < n {
        lemma_paths_fail(found, names, m, (n - 1) as nat);
    }
}

/// Names with their paths.
pub open spec fn named_paths(names: Seq<Seq<char>>, paths: Seq<Seq<char>>) -> Seq<
    (Seq<char>, Seq<char>),
> {
    Seq::new(names.len(), |i: int| (names[i], paths[i]))
}

/// The paths that flags must give, at most one of them standard input.
pub open spec fn inputs_asked(
    command: Seq<char>,
    found: Seq<(Seq<char>, FlagModel)>,
    names: Seq<Seq<char>>,
) -> Result<Seq<Seq<char>>, Fault> {
    match paths_required(found, names, names.len()) {
        Err(fault) => Err(fault),
        Ok(paths) => match stdin_fault(command, named_paths(names, paths), None, 0) {
            Some(fault) => Err(fault),
            None => Ok(paths),
        },
    }
}

/// The view of paths.
pub open spec fn paths_outcome(r: Result<Vec<String>, Error>) -> Result<Seq<Seq<char>>, Fault> {
    match r {
        Ok(paths) => Ok(text_views(paths@)),
        Err(error) => Err(error@),
    }
}

/// The content of static names.
pub open spec fn static_views(names: Seq<&'static str>) -> Seq<Seq<char>> {
    names.map_values(|name: &'static str| name@)
}

fn require_inputs(command: &str, found: &Vec<(String, FlagValue)>, names: &Vec<&'static str>) -> (r: Result<
    Vec<String>,
    Error,
>)
    ensures
        paths_outcome(r) == inputs_asked(command@, flag_views(found@), static_views(names@)),
        r is Ok ==> r->Ok_0@.len() == names@.len(),
{
    let ghost given = flag_views(found@);
    let ghost all = static_views(names@);
    let ghost count = all.len();
    assert(count == names@.len());
    let mut paths: Vec<String> = Vec::new();
    assert(text_views(paths@) =~= Seq::empty());
    let mut i: usize = 0;
    while i < names.len()
        invariant
            i <= names.len(),
            paths.len() == i,
            given == flag_views(found@),
            all == static_views(names@),
            count == names@.len(),
            count == all.len(),
            paths_required(given, all, i as nat) == Ok::<Seq<Seq<char>>, Fault>(
                text_views(paths@),
            ),
        decreases names.len() - i,
    {
        let ghost n = (i + 1) as nat;
        proof {
            assert(all[n - 1] == names@[i as int]@);
            if paths_required(given, all, n) is Err {
                lemma_paths_fail(given, all, n, count);
            }
        }
        let path: String = require_text(found, names[i], PATH_FORM)?;
        let ghost before = paths@;
        let ghost content = path@;
        paths.push(path);
        assert(text_views(paths@) =~= text_views(before).push(content));
        i += 1;
    }
    let mut inputs: Vec<(&'static str, &str)> = Vec::new();
    let mut j: usize = 0;
    while j < names.len()
        invariant
            j <= names.len(),
            inputs.len() == j,
            paths.len() == names.len(),
            forall|k: int|
                0 <= k < j ==> (#[trigger] inputs@[k]).0@ == names@[k]@ && inputs@[k].1@
                    == paths@[k]@,
        decreases names.len() - j,
    {
        inputs.push((names[j], paths[j].as_str()));
        j += 1;
    }
    assert(input_views(inputs@) =~= named_paths(all, text_views(paths@)));
    validate_single_stdin_input(command, &inputs)?;
    Ok(paths)
}

/// The arguments of `diagnose`.
#[derive(Debug)]
pub struct DiagnoseArgs {
    pub fit_path: String,
    pub out_path: String,
}

/// The mathematical content of [`DiagnoseArgs`].
#[verifier::ext_equal]
pub struct DiagnoseModel {
    pub fit_path: Seq<char>,
    pub out_path: Seq<char>,
}

impl View for DiagnoseArgs {
    type V = DiagnoseModel;

    open spec fn view(&self) -> DiagnoseModel {
        DiagnoseModel {
            fit_path: self.fit_path@,
            out_path: self.out_path@,
        }
    }
}

pub open spec fn diagnose_flags() -> Seq<(Seq<char>, FlagKind)> {
    seq![
        ("--fit"@, FlagKind::Text),
        ("--out"@, FlagKind::Text),
    ]
}

pub open spec fn diagnose_inputs() -> Seq<Seq<char>> {
    seq!["--fit"@]
}

/// What `diagnose` is asked.
pub open spec fn diagnose_parsed(argv: Seq<ArgumentModel>) -> Result<DiagnoseModel, Fault> {
    match flags_read("diagnose"@, ""@, argv, diagnose_flags()) {
        Err(fault) => Err(fault),
        Ok(found) => match inputs_asked("diagnose"@, found, diagnose_inputs()) {
            Err(fault) => Err(fault),
            Ok(paths) => Ok(
                DiagnoseModel {
                    fit_path: paths[0],
                    out_path: text_or_hyphen(found, "--out"@),
                },
            ),
        },
    }
}

/// Reads the arguments of `diagnose`.
pub fn parse_diagnose_args(argv: &Vec<Argument>) -> (r: Result<DiagnoseArgs, Error>)
    ensures
        outcome(r) == diagnose_parsed(list_views(argv@)),
{
    let table: FlagTable = vec![
        ("--fit", FlagKind::Text),
        ("--out", FlagKind::Text),
    ];
    assert(table_view(table@) =~= diagnose_flags());
    let found: Vec<(String, FlagValue)> = read_flags("diagnose", "", argv, &table)?;
    let names: Vec<&'static str> = vec!["--fit"];
    assert(static_views(names@) =~= diagnose_inputs());
    let paths: Vec<String> = require_inputs("diagnose", &found, &names)?;
    Ok(
        DiagnoseArgs {
            fit_path: paths[0].clone(),
            out_path: given_text_or_hyphen(&found, "--out"),
        },
    )
}

/// The arguments of `posterior-predictive`.
#[derive(Debug)]
pub struct PosteriorPredictiveArgs {
    pub model_path: String,
    pub data_path: String,
    pub fit_path: String,
    pub out_path: String,
    pub seed: u64,
}

/// The mathematical content of [`PosteriorPredictiveArgs`].
#[verifier::ext_equal]
pub struct ReplicateModel {
    pub model_path: Seq<char>,
    pub data_path: Seq<char>,
    pub fit_path: Seq<char>,
    pub out_path: Seq<char>,
    pub seed: u64,
}

impl View for PosteriorPredictiveArgs {
    type V = ReplicateModel;

    open spec fn view(&self) -> ReplicateModel {
        ReplicateModel {
            model_path: self.model_path@,
            data_path: self.data_path@,
            fit_path: self.fit_path@,
            out_path: self.out_path@,
            seed: self.seed,
        }
    }
}

pub open spec fn posterior_predictive_flags() -> Seq<(Seq<char>, FlagKind)> {
    seq![
        ("--model"@, FlagKind::Text),
        ("--data"@, FlagKind::Text),
        ("--fit"@, FlagKind::Text),
        ("--out"@, FlagKind::Text),
        ("--seed"@, FlagKind::Seed),
    ]
}

pub open spec fn posterior_predictive_inputs() -> Seq<Seq<char>> {
    seq!["--model"@, "--data"@, "--fit"@]
}

/// What `posterior-predictive` is asked.
pub open spec fn posterior_predictive_parsed(argv: Seq<ArgumentModel>) -> Result<ReplicateModel, Fault> {
    match flags_read("posterior-predictive"@, ""@, argv, posterior_predictive_flags()) {
        Err(fault) => Err(fault),
        Ok(found) => match inputs_asked("posterior-predictive"@, found, posterior_predictive_inputs()) {
            Err(fault) => Err(fault),
            Ok(paths) => Ok(
                ReplicateModel {
                    model_path: paths[0],
                    data_path: paths[1],
                    fit_path: paths[2],
                    out_path: text_or_hyphen(found, "--out"@),
                    seed: count_given(found, "--seed"@, 0),
                },
            ),
        },
    }
}

/// Reads the arguments of `posterior-predictive`.
pub fn parse_posterior_predictive_args(argv: &Vec<Argument>) -> (r: Result<PosteriorPredictiveArgs, Error>)
    ensures
        outcome(r) == posterior_predictive_parsed(list_views(argv@)),
{
    let table: FlagTable = vec![
        ("--model", FlagKind::Text),
        ("--data", FlagKind::Text),
        ("--fit", FlagKind::Text),
        ("--out", FlagKind::Text),
        ("--seed", FlagKind::Seed),
    ];
    assert(table_view(table@) =~= posterior_predictive_flags());
    let found: Vec<(String, FlagValue)> = read_flags("posterior-predictive", "", argv, &table)?;
    let names: Vec<&'static str> = vec!["--model", "--data", "--fit"];
    assert(static_views(names@) =~= posterior_predictive_inputs());
    let paths: Vec<String> = require_inputs("posterior-predictive", &found, &names)?;
    Ok(
        PosteriorPredictiveArgs {
            model_path: paths[0].clone(),
            data_path: paths[1].clone(),
            fit_path: paths[2].clone(),
            out_path: given_text_or_hyphen(&found, "--out"),
            seed: given_count(&found, "--seed", 0),
        },
    )
}

/// The arguments of `simulate`.
#[derive(Debug)]
pub struct SimulateArgs {
    pub model_path: String,
    pub data_path: String,
    pub truth_path: String,
    pub out_path: String,
    pub seed: u64,
}

/// The mathematical content of [`SimulateArgs`].
#[verifier::ext_equal]
pub struct SimulateModel {
    pub model_path: Seq<char>,
    pub data_path: Seq<char>,
    pub truth_path: Seq<char>,
    pub out_path: Seq<char>,
    pub seed: u64,
}

impl View for SimulateArgs {
    type V = SimulateModel;

    open spec fn view(&self) -> SimulateModel {
        SimulateModel {
            model_path: self.model_path@,
            data_path: self.data_path@,
            truth_path: self.truth_path@,
            out_path: self.out_path@,
            seed: self.seed,
        }
    }
}

pub open spec fn simulate_flags() -> Seq<(Seq<char>, FlagKind)> {
    seq![
        ("--model"@, FlagKind::Text),
        ("--data"@, FlagKind::Text),
        ("--truth"@, FlagKind::Text),
        ("--out"@, FlagKind::Text),
        ("--seed"@, FlagKind::Seed),
    ]
}

pub open spec fn simulate_inputs() -> Seq<Seq<char>> {
    seq!["--model"@, "--data"@, "--truth"@]
}

/// What `simulate` is asked.
pub open spec fn simulate_parsed(argv: Seq<ArgumentModel>) -> Result<SimulateModel, Fault> {
    match flags_read("simulate"@, ""@, argv, simulate_flags()) {
        Err(fault) => Err(fault),
        Ok(found) => match inputs_asked("simulate"@, found, simulate_inputs()) {
            Err(fault) => Err(fault),
            Ok(paths) => Ok(
                SimulateModel {
                    model_path: paths[0],
                    data_path: paths[1],
                    truth_path: paths[2],
                    out_path: text_or_hyphen(found, "--out"@),
                    seed: count_given(found, "--seed"@, 0),
                },
            ),
        },
    }
}

/// Reads the arguments of `simulate`.
pub fn parse_simulate_args(argv: &Vec<Argument>) -> (r: Result<SimulateArgs, Error>)
    ensures
        outcome(r) == simulate_parsed(list_views(argv@)),
{
    let table: FlagTable = vec![
        ("--model", FlagKind::Text),
        ("--data", FlagKind::Text),
        ("--truth", FlagKind::Text),
        ("--out", FlagKind::Text),
        ("--seed", FlagKind::Seed),
    ];
    assert(table_view(table@) =~= simulate_flags());
    let found: Vec<(String, FlagValue)> = read_flags("simulate", "", argv, &table)?;
    let names: Vec<&'static str> = vec!["--model", "--data", "--truth"];
    assert(static_views(names@) =~= simulate_inputs());
    let paths: Vec<String> = require_inputs("simulate", &found, &names)?;
    Ok(
        SimulateArgs {
            model_path: paths[0].clone(),
            data_path: paths[1].clone(),
            truth_path: paths[2].clone(),
            out_path: given_text_or_hyphen(&found, "--out"),
            seed: given_count(&found, "--seed", 0),
        },
    )
}

/// The arguments of `recover`.
#[derive(Debug)]
pub struct RecoverArgs {
    pub model_path: String,
    pub scenario_path: String,
    pub out_path: String,
}

/// The mathematical content of [`RecoverArgs`].
#[verifier::ext_equal]
pub struct RecoverModel {
    pub model_path: Seq<char>,
    pub scenario_path: Seq<char>,
    pub out_path: Seq<char>,
}

impl View for RecoverArgs {
    type V = RecoverModel;

    open spec fn view(&self) -> RecoverModel {
        RecoverModel {
            model_path: self.model_path@,
            scenario_path: self.scenario_path@,
            out_path: self.out_path@,
        }
    }
}

pub open spec fn recover_flags() -> Seq<(Seq<char>, FlagKind)> {
    seq![
        ("--model"@, FlagKind::Text),
        ("--scenario"@, FlagKind::Text),
        ("--out"@, FlagKind::Text),
    ]
}

pub open spec fn recover_inputs() -> Seq<Seq<char>> {
    seq!["--model"@, "--scenario"@]
}

/// What `recover` is asked.
pub open spec fn recover_parsed(argv: Seq<ArgumentModel>) -> Result<RecoverModel, Fault> {
    match flags_read("recover"@, ""@, argv, recover_flags()) {
        Err(fault) => Err(fault),
        Ok(found) => match inputs_asked("recover"@, found, recover_inputs()) {
            Err(fault) => Err(fault),
            Ok(paths) => Ok(
                RecoverModel {
                    model_path: paths[0],
                    scenario_path: paths[1],
                    out_path: text_or_hyphen(found, "--out"@),
                },
            ),
        },
    }
}

/// Reads the arguments of `recover`.
pub fn parse_recover_args(argv: &Vec<Argument>) -> (r: Result<RecoverArgs, Error>)
    ensures
        outcome(r) == recover_parsed(list_views(argv@)),
{
    let table: FlagTable = vec![
        ("--model", FlagKind::Text),
        ("--scenario", FlagKind::Text),
        ("--out", FlagKind::Text),
    ];
    assert(table_view(table@) =~= recover_flags());
    let found: Vec<(String, FlagValue)> = read_flags("recover", "", argv, &table)?;
    let names: Vec<&'static str> = vec!["--model", "--scenario"];
    assert(static_views(names@) =~= recover_inputs());
    let paths: Vec<String> = require_inputs("recover", &found, &names)?;
    Ok(
        RecoverArgs {
            model_path: paths[0].clone(),
            scenario_path: paths[1].clone(),
            out_path: given_text_or_hyphen(&found, "--out"),
        },
    )
}

/// The arguments of `prior-predictive`.
#[derive(Debug)]
pub struct PriorPredictiveArgs {
    pub model_path: String,
    pub data_path: String,
    pub out_path: String,
    pub seed: u64,
    pub settings: PriorPredictiveSettings,
}

/// The mathematical content of [`PriorPredictiveArgs`].
#[verifier::ext_equal]
pub struct PriorArgsModel {
    pub model_path: Seq<char>,
    pub data_path: Seq<char>,
    pub out_path: Seq<char>,
    pub seed: u64,
    pub num_draws: usize,
}

impl View for PriorPredictiveArgs {
    type V = PriorArgsModel;

    open spec fn view(&self) -> PriorArgsModel {
        PriorArgsModel {
            model_path: self.model_path@,
            data_path: self.data_path@,
            out_path: self.out_path@,
            seed: self.seed,
            num_draws: self.settings.num_draws,
        }
    }
}

pub open spec fn prior_predictive_flags() -> Seq<(Seq<char>, FlagKind)> {
    seq![
        ("--model"@, FlagKind::Text),
        ("--data"@, FlagKind::Text),
        ("--out"@, FlagKind::Text),
        ("--seed"@, FlagKind::Seed),
        ("--draws"@, FlagKind::Draws),
    ]
}

pub open spec fn prior_predictive_inputs() -> Seq<Seq<char>> {
    seq!["--model"@, "--data"@]
}

/// What is wrong with the draws of `prior-predictive`.
pub open spec fn prior_draws_fault(draws: usize) -> Option<Fault> {
    if draws == 0 {
        Some(settings_fault("--draws must be at least 1"@))
    } else if draws > i64::MAX {
        Some(
            settings_fault(
                "--draws must be in 1..=9223372036854775807 because prior-predictive artifacts report draw counts as JSON integers"@,
            ),
        )
    } else {
        None
    }
}

/// What `prior-predictive` is asked.
pub open spec fn prior_predictive_parsed(argv: Seq<ArgumentModel>) -> Result<PriorArgsModel, Fault> {
    match flags_read(
        "prior-predictive"@,
        "prior-predictive artifacts"@,
        argv,
        prior_predictive_flags(),
    ) {
        Err(fault) => Err(fault),
        Ok(found) => match inputs_asked("prior-predictive"@, found, prior_predictive_inputs()) {
            Err(fault) => Err(fault),
            Ok(paths) => match prior_draws_fault(count_given(found, "--draws"@, 1000) as usize) {
                Some(fault) => Err(fault),
                None => Ok(
                    PriorArgsModel {
                        model_path: paths[0],
                        data_path: paths[1],
                        out_path: text_or_hyphen(found, "--out"@),
                        seed: count_given(found, "--seed"@, 0),
                        num_draws: count_given(found, "--draws"@, 1000) as usize,
                    },
                ),
            },
        },
    }
}

/// Reads the arguments of `prior-predictive`.
pub fn parse_prior_predictive_args(argv: &Vec<Argument>) -> (r: Result<PriorPredictiveArgs, Error>)
    ensures
        outcome(r) == prior_predictive_parsed(list_views(argv@)),
{
    let table: FlagTable = vec![
        ("--model", FlagKind::Text),
        ("--data", FlagKind::Text),
        ("--out", FlagKind::Text),
        ("--seed", FlagKind::Seed),
        ("--draws", FlagKind::Draws),
    ];
    assert(table_view(table@) =~= prior_predictive_flags());
    let found: Vec<(String, FlagValue)> = read_flags(
        "prior-predictive",
        "prior-predictive artifacts",
        argv,
        &table,
    )?;
    let names: Vec<&'static str> = vec!["--model", "--data"];
    assert(static_views(names@) =~= prior_predictive_inputs());
    let paths: Vec<String> = require_inputs("prior-predictive", &found, &names)?;
    let defaults: PriorPredictiveSettings = PriorPredictiveSettings::default();
    let num_draws: usize = given_count(&found, "--draws", defaults.num_draws as u64) as usize;
    if num_draws == 0 {
        return Err(invalid_settings("--draws must be at least 1".to_owned()));
    }
    if num_draws as u64 > i64::MAX as u64 {
        return Err(
            invalid_settings(
                "--draws must be in 1..=9223372036854775807 because prior-predictive artifacts report draw counts as JSON integers".to_owned(),
            ),
        );
    }
    Ok(
        PriorPredictiveArgs {
            model_path: paths[0].clone(),
            data_path: paths[1].clone(),
            out_path: given_text_or_hyphen(&found, "--out"),
            seed: given_count(&found, "--seed", 0),
            settings: PriorPredictiveSettings { num_draws },
        },
    )
}

/// Reads the arguments of `posterior-check`, which are those of `posterior-predictive`.
pub fn parse_posterior_check_args(argv: &Vec<Argument>) -> (r: Result<PosteriorPredictiveArgs, Error>)
    ensures
        outcome(r) == posterior_predictive_parsed(list_views(argv@)),
{
    parse_posterior_predictive_args(argv)
}

/// The arguments of `recover-check`.
#[derive(Debug)]
pub struct RecoverCheckArgs {
    pub fit_path: String,
    pub truth_path: String,
    pub targets_path: Option<String>,
    pub out_path: String,
    pub interval: Number,
}

/// The mathematical content of [`RecoverCheckArgs`].
#[verifier::ext_equal]
pub struct RecoverCheckModel {
    pub fit_path: Seq<char>,
    pub truth_path: Seq<char>,
    pub targets_path: Option<Seq<char>>,
    pub out_path: Seq<char>,
    pub interval: NumberModel,
}

impl View for RecoverCheckArgs {
    type V = RecoverCheckModel;

    open spec fn view(&self) -> RecoverCheckModel {
        RecoverCheckModel {
            fit_path: self.fit_path@,
            truth_path: self.truth_path@,
            targets_path: optional_text(self.targets_path),
            out_path: self.out_path@,
            interval: self.interval@,
        }
    }
}

/// The bit pattern of four fifths.
pub const FOUR_FIFTHS: u64 = 0x3FE9_9999_9999_999A;

pub open spec fn four_fifths() -> NumberModel {
    NumberModel { bits: FOUR_FIFTHS, text: "0.8"@ }
}

/// The interval that reports take where none is given.
pub fn default_interval() -> (r: Number)
    ensures
        r@ == four_fifths(),
{
    Number { bits: FOUR_FIFTHS, text: "0.8".to_owned() }
}

pub open spec fn recover_check_flags() -> Seq<(Seq<char>, FlagKind)> {
    seq![
        ("--fit"@, FlagKind::Text),
        ("--truth"@, FlagKind::Text),
        ("--targets"@, FlagKind::Text),
        ("--out"@, FlagKind::Text),
        ("--interval"@, FlagKind::Rate),
    ]
}

/// The inputs of `recover-check`, with the targets where they are given.
pub open spec fn check_inputs(fit: Seq<char>, truth: Seq<char>, targets: Option<Seq<char>>) -> Seq<
    (Seq<char>, Seq<char>),
> {
    match targets {
        Some(path) => seq![("--fit"@, fit), ("--truth"@, truth), ("--targets"@, path)],
        None => seq![("--fit"@, fit), ("--truth"@, truth)],
    }
}

/// What `recover-check` is asked, by its flags.
pub open spec fn recover_check_asked(found: Seq<(Seq<char>, FlagModel)>) -> Result<
    RecoverCheckModel,
    Fault,
> {
    match text_required(found, "--fit"@, PATH_FORM@) {
        Err(fault) => Err(fault),
        Ok(fit_path) => match text_required(found, "--truth"@, PATH_FORM@) {
            Err(fault) => Err(fault),
            Ok(truth_path) => match stdin_fault(
                "recover-check"@,
                check_inputs(fit_path, truth_path, text_given(found, "--targets"@)),
                None,
                0,
            ) {
                Some(fault) => Err(fault),
                None => match rate_fault(
                    rate_given(found, "--interval"@, four_fifths()).bits,
                    "--interval"@,
                ) {
                    Some(fault) => Err(fault),
                    None => Ok(
                        RecoverCheckModel {
                            fit_path,
                            truth_path,
                            targets_path: text_given(found, "--targets"@),
                            out_path: text_or_hyphen(found, "--out"@),
                            interval: rate_given(found, "--interval"@, four_fifths()),
                        },
                    ),
                },
            },
        },
    }
}

/// What `recover-check` is asked.
pub open spec fn recover_check_parsed(argv: Seq<ArgumentModel>) -> Result<RecoverCheckModel, Fault> {
    match flags_read("recover-check"@, ""@, argv, recover_check_flags()) {
        Err(fault) => Err(fault),
        Ok(found) => recover_check_asked(found),
    }
}

/// Reads the arguments of `recover-check`.
pub fn parse_recover_check_args(argv: &Vec<Argument>) -> (r: Result<RecoverCheckArgs, Error>)
    ensures
        outcome(r) == recover_check_parsed(list_views(argv@)),
{
    let table: FlagTable = vec![
        ("--fit", FlagKind::Text),
        ("--truth", FlagKind::Text),
        ("--targets", FlagKind::Text),
        ("--out", FlagKind::Text),
        ("--interval", FlagKind::Rate),
    ];
    assert(table_view(table@) =~= recover_check_flags());
    let found: Vec<(String, FlagValue)> = read_flags("recover-check", "", argv, &table)?;
    let fit_path: String = require_text(&found, "--fit", PATH_FORM)?;
    let truth_path: String = require_text(&found, "--truth", PATH_FORM)?;
    let targets_path: Option<String> = given_text(&found, "--targets");
    let mut inputs: Vec<(&'static str, &str)> = vec![
        ("--fit", fit_path.as_str()),
        ("--truth", truth_path.as_str()),
    ];
    if let Some(path) = &targets_path {
        inputs.push(("--targets", path.as_str()));
    }
    assert(input_views(inputs@) =~= check_inputs(
        fit_path@,
        truth_path@,
        optional_text(targets_path),
    ));
    validate_single_stdin_input("recover-check", &inputs)?;
    let interval: Number = given_rate(&found, "--interval", &default_interval());
    validate_target_accept(&interval, "--interval")?;
    Ok(
        RecoverCheckArgs {
            fit_path,
            truth_path,
            targets_path,
            out_path: given_text_or_hyphen(&found, "--out"),
            interval,
        },
    )
}

/// The arguments of `sbc`.
#[derive(Debug)]
pub struct SbcArgs {
    pub model_path: String,
    pub scenario_path: String,
    pub out_path: String,
    pub replicates_override: Option<usize>,
}

/// The mathematical content of [`SbcArgs`].
#[verifier::ext_equal]
pub struct SbcModel {
    pub model_path: Seq<char>,
    pub scenario_path: Seq<char>,
    pub out_path: Seq<char>,
    pub replicates_override: Option<usize>,
}

impl View for SbcArgs {
    type V = SbcModel;

    open spec fn view(&self) -> SbcModel {
        SbcModel {
            model_path: self.model_path@,
            scenario_path: self.scenario_path@,
            out_path: self.out_path@,
            replicates_override: self.replicates_override,
        }
    }
}

pub open spec fn sbc_flags() -> Seq<(Seq<char>, FlagKind)> {
    seq![
        ("--model"@, FlagKind::Text),
        ("--scenario"@, FlagKind::Text),
        ("--out"@, FlagKind::Text),
        ("--replicates"@, FlagKind::Replicates),
    ]
}

pub open spec fn sbc_inputs() -> Seq<Seq<char>> {
    seq!["--model"@, "--scenario"@]
}

/// What `sbc` is asked, by its flags.
pub open spec fn sbc_asked(found: Seq<(Seq<char>, FlagModel)>) -> Result<SbcModel, Fault> {
    match inputs_asked("sbc"@, found, sbc_inputs()) {
        Err(fault) => Err(fault),
        Ok(paths) => Ok(
            SbcModel {
                model_path: paths[0],
                scenario_path: paths[1],
                out_path: text_or_hyphen(found, "--out"@),
                replicates_override: match value_of(found, "--replicates"@) {
                    Some(FlagModel::Count(n)) => Some(n as usize),
                    _ => None,
                },
            },
        ),
    }
}

/// What `sbc` is asked.
pub open spec fn sbc_parsed(argv: Seq<ArgumentModel>) -> Result<SbcModel, Fault> {
    match flags_read("sbc"@, ""@, argv, sbc_flags()) {
        Err(fault) => Err(fault),
        Ok(found) => sbc_asked(found),
    }
}

/// Reads the arguments of `sbc`.
pub fn parse_sbc_args(argv: &Vec<Argument>) -> (r: Result<SbcArgs, Error>)
    ensures
        outcome(r) == sbc_parsed(list_views(argv@)),
{
    let table: FlagTable = vec![
        ("--model", FlagKind::Text),
        ("--scenario", FlagKind::Text),
        ("--out", FlagKind::Text),
        ("--replicates", FlagKind::Replicates),
    ];
    assert(table_view(table@) =~= sbc_flags());
    let found: Vec<(String, FlagValue)> = read_flags("sbc", "", argv, &table)?;
    let names: Vec<&'static str> = vec!["--model", "--scenario"];
    assert(static_views(names@) =~= sbc_inputs());
    let paths: Vec<String> = require_inputs("sbc", &found, &names)?;
    let replicates_override: Option<usize> = match find_value(&found, "--replicates") {
        Some(FlagValue::Count(n)) => Some(*n as usize),
        _ => None,
    };
    Ok(
        SbcArgs {
            model_path: paths[0].clone(),
            scenario_path: paths[1].clone(),
            out_path: given_text_or_hyphen(&found, "--out"),
            replicates_override,
        },
    )
}

} // verus!
