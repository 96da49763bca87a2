//! The arguments of every command.

use vstd::prelude::*;

use crate::error::{invalid_settings, Error};
#[allow(unused_imports)]
use crate::error::{outcome, settings_fault, Fault};
#[allow(unused_imports)]
use crate::ir::list_views;
#[allow(unused_imports)]
use crate::model::checked;
use crate::number::Number;
#[allow(unused_imports)]
use crate::number::NumberModel;
use crate::text;
#[allow(unused_imports)]
use crate::text::debug_text;

use super::flags::{
    given_count, given_rate, given_text, given_text_or_hyphen, read_flags, require_text, validate_diagnostic_draws,
    validate_max_treedepth, validate_single_stdin_input, validate_target_accept, Argument, FlagKind, FlagTable, FlagValue,
};
#[allow(unused_imports)]
use super::flags::{
    count_given, diagnostic_fault, flag_views, flags_read, input_views, rate_fault, rate_given, stdin_fault,
    table_view, text_given, text_or_hyphen, text_required, treedepth_fault, ArgumentModel, FlagModel,
};

verus! {

/// How flags ask for a path.
pub const PATH_FORM: &'static str = " (a path or - for stdin)";

/// The settings of a sampler.
#[derive(Debug)]
pub struct Settings {
    pub num_warmup: usize,
    pub num_draws: usize,
    pub max_treedepth: usize,
    pub target_accept: Number,
}

/// The mathematical content of [`Settings`].
#[verifier::ext_equal]
pub struct SettingsModel {
    pub num_warmup: usize,
    pub num_draws: usize,
    pub max_treedepth: usize,
    pub target_accept: NumberModel,
}

impl View for Settings {
    type V = SettingsModel;

    open spec fn view(&self) -> SettingsModel {
        SettingsModel {
            num_warmup: self.num_warmup,
            num_draws: self.num_draws,
            max_treedepth: self.max_treedepth,
            target_accept: self.target_accept@,
        }
    }
}

impl Settings {
    pub fn copy(&self) -> (r: Settings)
        ensures
            r@ == self@,
    {
        Settings {
            num_warmup: self.num_warmup,
            num_draws: self.num_draws,
            max_treedepth: self.max_treedepth,
            target_accept: self.target_accept.copy(),
        }
    }
}

/// The arguments of `sample`.
#[derive(Debug)]
pub struct SampleArgs {
    pub model_path: String,
    pub data_path: String,
    pub out_path: String,
    pub seed: u64,
    pub chains: u64,
    pub settings: Settings,
}

/// The mathematical content of [`SampleArgs`].
#[verifier::ext_equal]
pub struct SampleModel {
    pub model_path: Seq<char>,
    pub data_path: Seq<char>,
    pub out_path: Seq<char>,
    pub seed: u64,
    pub chains: u64,
    pub settings: SettingsModel,
}

impl View for SampleArgs {
    type V = SampleModel;

    open spec fn view(&self) -> SampleModel {
        SampleModel {
            model_path: self.model_path@,
            data_path: self.data_path@,
            out_path: self.out_path@,
            seed: self.seed,
            chains: self.chains,
            settings: self.settings@,
        }
    }
}

pub open spec fn sample_flags() -> Seq<(Seq<char>, FlagKind)> {
    seq![
        ("--model"@, FlagKind::Text),
        ("--data"@, FlagKind::Text),
        ("--out"@, FlagKind::Text),
        ("--seed"@, FlagKind::Seed),
        ("--chains"@, FlagKind::Chains),
        ("--warmup"@, FlagKind::Warmup),
        ("--draws"@, FlagKind::Draws),
        ("--max-treedepth"@, FlagKind::Treedepth),
        ("--target-accept"@, FlagKind::Rate),
    ]
}

/// The settings that the flags of `sample` ask for.
pub open spec fn asked_settings(
    found: Seq<(Seq<char>, FlagModel)>,
    defaults: SettingsModel,
) -> SettingsModel {
    SettingsModel {
        num_warmup: count_given(found, "--warmup"@, defaults.num_warmup as u64) as usize,
        num_draws: count_given(found, "--draws"@, defaults.num_draws as u64) as usize,
        max_treedepth: count_given(
            found,
            "--max-treedepth"@,
            defaults.max_treedepth as u64,
        ) as usize,
        target_accept: rate_given(found, "--target-accept"@, defaults.target_accept),
    }
}

/// What is wrong with the chains and settings of `sample`.
pub open spec fn sample_fault(chains: u64, settings: SettingsModel) -> Option<Fault> {
    if chains == 0 {
        Some(settings_fault("--chains must be at least 1"@))
    } else if chains > i64::MAX {
        Some(
            settings_fault(
                "--chains must be in 1..=9223372036854775807 because sample artifacts report chain counts as JSON integers"@,
            ),
        )
    } else if settings.num_draws == 0 {
        Some(settings_fault("--draws must be at least 1"@))
    } else if settings.num_draws > i64::MAX {
        Some(
            settings_fault(
                "--draws must be in 1..=9223372036854775807 because sample artifacts report draw counts as JSON integers"@,
            ),
        )
    } else if settings.num_warmup > i64::MAX {
        Some(
            settings_fault(
                "--warmup must be in 0..=9223372036854775807 because sample artifacts report warmup counts as JSON integers"@,
            ),
        )
    } else {
        match diagnostic_fault(settings.num_draws, "--draws"@, "sample artifacts"@) {
            Some(fault) => Some(fault),
            None => if settings.max_treedepth == 0 {
                Some(settings_fault("--max-treedepth must be at least 1"@))
            } else {
                match treedepth_fault(settings.max_treedepth, "--max-treedepth"@) {
                    Some(fault) => Some(fault),
                    None => rate_fault(settings.target_accept.bits, "--target-accept"@),
                }
            },
        }
    }
}

/// What `sample` is asked, by its flags.
pub open spec fn sample_asked(
    found: Seq<(Seq<char>, FlagModel)>,
    defaults: SettingsModel,
) -> Result<SampleModel, Fault> {
    match text_required(found, "--model"@, PATH_FORM@) {
        Err(fault) => Err(fault),
        Ok(model_path) => match text_required(found, "--data"@, PATH_FORM@) {
            Err(fault) => Err(fault),
            Ok(data_path) => match stdin_fault(
                "sample"@,
                seq![("--model"@, model_path), ("--data"@, data_path)],
                None,
                0,
            ) {
                Some(fault) => Err(fault),
                None => match sample_fault(
                    count_given(found, "--chains"@, 4),
                    asked_settings(found, defaults),
                ) {
                    Some(fault) => Err(fault),
                    None => Ok(
                        SampleModel {
                            model_path,
                            data_path,
                            out_path: text_or_hyphen(found, "--out"@),
                            seed: count_given(found, "--seed"@, 0),
                            chains: count_given(found, "--chains"@, 4),
                            settings: asked_settings(found, defaults),
                        },
                    ),
                },
            },
        },
    }
}

/// What `sample` is asked.
pub open spec fn sample_parsed(argv: Seq<ArgumentModel>, defaults: SettingsModel) -> Result<
    SampleModel,
    Fault,
> {
    match flags_read("sample"@, "sample artifacts"@, argv, sample_flags()) {
        Err(fault) => Err(fault),
        Ok(found) => sample_asked(found, defaults),
    }
}

fn validate_sample_settings(chains: u64, settings: &Settings) -> (r: Result<(), Error>)
    ensures
        checked(r) == sample_fault(chains, settings@),
{
    if chains == 0 {
        return Err(invalid_settings("--chains must be at least 1".to_owned()));
    }
    if chains > i64::MAX as u64 {
        return Err(
            invalid_settings(
                "--chains must be in 1..=9223372036854775807 because sample artifacts report chain counts as JSON integers".to_owned(),
            ),
        );
    }
    if settings.num_draws == 0 {
        return Err(invalid_settings("--draws must be at least 1".to_owned()));
    }
    if settings.num_draws as u64 > i64::MAX as u64 {
        return Err(
            invalid_settings(
                "--draws must be in 1..=9223372036854775807 because sample artifacts report draw counts as JSON integers".to_owned(),
            ),
        );
    }
    if settings.num_warmup as u64 > i64::MAX as u64 {
        return Err(
            invalid_settings(
                "--warmup must be in 0..=9223372036854775807 because sample artifacts report warmup counts as JSON integers".to_owned(),
            ),
        );
    }
    validate_diagnostic_draws(settings.num_draws, "--draws", "sample artifacts")?;
    if settings.max_treedepth == 0 {
        return Err(invalid_settings("--max-treedepth must be at least 1".to_owned()));
    }
    validate_max_treedepth(settings.max_treedepth, "--max-treedepth")?;
    validate_target_accept(&settings.target_accept, "--target-accept")
}

/// Reads the arguments of `sample`; what is not given is as the sampler has it.
pub fn parse_sample_args(argv: &Vec<Argument>, defaults: &Settings) -> (r: Result<
    SampleArgs,
    Error,
>)
    ensures
        outcome(r) == sample_parsed(list_views(argv@), defaults@),
{
    let table: FlagTable = vec![
        ("--model", FlagKind::Text),
        ("--data", FlagKind::Text),
        ("--out", FlagKind::Text),
        ("--seed", FlagKind::Seed),
        ("--chains", FlagKind::Chains),
        ("--warmup", FlagKind::Warmup),
        ("--draws", FlagKind::Draws),
        ("--max-treedepth", FlagKind::Treedepth),
        ("--target-accept", FlagKind::Rate),
    ];
    assert(table_view(table@) =~= sample_flags());
    let found: Vec<(String, FlagValue)> = read_flags("sample", "sample artifacts", argv, &table)?;
    let model_path: String = require_text(&found, "--model", PATH_FORM)?;
    let data_path: String = require_text(&found, "--data", PATH_FORM)?;
    let inputs: Vec<(&'static str, &str)> = vec![
        ("--model", model_path.as_str()),
        ("--data", data_path.as_str()),
    ];
    assert(input_views(inputs@) =~= seq![("--model"@, model_path@), ("--data"@, data_path@)]);
    validate_single_stdin_input("sample", &inputs)?;
    let chains: u64 = given_count(&found, "--chains", 4);
    let settings: Settings = Settings {
        num_warmup: given_count(&found, "--warmup", defaults.num_warmup as u64) as usize,
        num_draws: given_count(&found, "--draws", defaults.num_draws as u64) as usize,
        max_treedepth: given_count(
            &found,
            "--max-treedepth",
            defaults.max_treedepth as u64,
        ) as usize,
        target_accept: given_rate(&found, "--target-accept", &defaults.target_accept),
    };
    validate_sample_settings(chains, &settings)?;
    Ok(
        SampleArgs {
            model_path,
            data_path,
            out_path: given_text_or_hyphen(&found, "--out"),
            seed: given_count(&found, "--seed", 0),
            chains,
            settings,
        },
    )
}

/// Where `generate` takes its parameters from.
#[derive(Debug)]
pub enum GenerateSourceArgs {
    Fixed { parameters_path: String },
    ModelPrior,
    Posterior { fit_path: String, fit_data_path: String },
}

/// The mathematical content of [`GenerateSourceArgs`].
#[verifier::ext_equal]
pub enum GenerateSourceModel {
    Fixed { parameters_path: Seq<char> },
    ModelPrior,
    Posterior { fit_path: Seq<char>, fit_data_path: Seq<char> },
}

impl View for GenerateSourceArgs {
    type V = GenerateSourceModel;

    open spec fn view(&self) -> GenerateSourceModel {
        match *self {
            GenerateSourceArgs::Fixed { parameters_path } => GenerateSourceModel::Fixed {
                parameters_path: parameters_path@,
            },
            GenerateSourceArgs::ModelPrior => GenerateSourceModel::ModelPrior,
            GenerateSourceArgs::Posterior { fit_path, fit_data_path } => {
                GenerateSourceModel::Posterior {
                    fit_path: fit_path@,
                    fit_data_path: fit_data_path@,
                }
            },
        }
    }
}

/// The arguments of `generate`.
#[derive(Debug)]
pub struct GenerateArgs {
    pub model_path: String,
    pub design_path: String,
    pub source: GenerateSourceArgs,
    pub out_path: String,
    pub count: usize,
    pub seed: u64,
}

/// The mathematical content of [`GenerateArgs`].
#[verifier::ext_equal]
pub struct GenerateModel {
    pub model_path: Seq<char>,
    pub design_path: Seq<char>,
    pub source: GenerateSourceModel,
    pub out_path: Seq<char>,
    pub count: usize,
    pub seed: u64,
}

impl View for GenerateArgs {
    type V = GenerateModel;

    open spec fn view(&self) -> GenerateModel {
        GenerateModel {
            model_path: self.model_path@,
            design_path: self.design_path@,
            source: self.source@,
            out_path: self.out_path@,
            count: self.count,
            seed: self.seed,
        }
    }
}

pub open spec fn generate_flags() -> Seq<(Seq<char>, FlagKind)> {
    seq![
        ("--model"@, FlagKind::Text),
        ("--design"@, FlagKind::Text),
        ("--source"@, FlagKind::Text),
        ("--parameters"@, FlagKind::Text),
        ("--fit"@, FlagKind::Text),
        ("--fit-data"@, FlagKind::Text),
        ("--out"@, FlagKind::Text),
        ("--count"@, FlagKind::Draws),
        ("--seed"@, FlagKind::Seed),
    ]
}

/// The source that the flags of `generate` ask for.
pub open spec fn generate_source(found: Seq<(Seq<char>, FlagModel)>, kind: Seq<char>) -> Result<
    GenerateSourceModel,
    Fault,
> {
    let parameters = text_given(found, "--parameters"@);
    let fit = text_given(found, "--fit"@);
    let fit_data = text_given(found, "--fit-data"@);
    if kind == "fixed"@ {
        if parameters is None {
            Err(settings_fault("--parameters is required when --source fixed"@))
        } else if fit is Some || fit_data is Some {
            Err(
                settings_fault("--fit and --fit-data are only valid when --source posterior"@),
            )
        } else {
            Ok(GenerateSourceModel::Fixed { parameters_path: parameters->0 })
        }
    } else if kind == "model-prior"@ {
        if parameters is Some || fit is Some || fit_data is Some {
            Err(
                settings_fault(
                    "model-prior generation does not accept --parameters, --fit, or --fit-data"@,
                ),
            )
        } else {
            Ok(GenerateSourceModel::ModelPrior)
        }
    } else if kind == "posterior"@ {
        if parameters is Some {
            Err(settings_fault("--parameters is only valid when --source fixed"@))
        } else if fit is None {
            Err(settings_fault("--fit is required when --source posterior"@))
        } else if fit_data is None {
            Err(settings_fault("--fit-data is required when --source posterior"@))
        } else {
            Ok(
                GenerateSourceModel::Posterior { fit_path: fit->0, fit_data_path: fit_data->0 },
            )
        }
    } else {
        Err(
            settings_fault(
                "--source must be fixed, model-prior, or posterior; got "@ + debug_text(kind),
            ),
        )
    }
}

/// The inputs that a source adds.
pub open spec fn source_inputs(source: GenerateSourceModel) -> Seq<(Seq<char>, Seq<char>)> {
    match source {
        GenerateSourceModel::Fixed { parameters_path } => seq![
            ("--parameters"@, parameters_path),
        ],
        GenerateSourceModel::ModelPrior => Seq::empty(),
        GenerateSourceModel::Posterior { fit_path, fit_data_path } => seq![
            ("--fit"@, fit_path),
            ("--fit-data"@, fit_data_path),
        ],
    }
}

/// What is wrong with the count and the seed of `generate`.
pub open spec fn generate_fault(count: usize, seed: u64) -> Option<Fault> {
    if count == 0 || count > 1000 {
        Some(settings_fault("--count must be in 1..=1000"@))
    } else if seed > 9_007_199_254_740_991 {
        Some(
            settings_fault(
                "--seed must be in 0..=9007199254740991 for generation interoperability"@,
            ),
        )
    } else {
        None
    }
}

/// What `generate` is asked, by its flags and its source.
pub open spec fn generate_with(
    found: Seq<(Seq<char>, FlagModel)>,
    model_path: Seq<char>,
    design_path: Seq<char>,
    source: GenerateSourceModel,
) -> Result<GenerateModel, Fault> {
    match stdin_fault(
        "generate"@,
        seq![("--model"@, model_path), ("--design"@, design_path)] + source_inputs(source),
        None,
        0,
    ) {
        Some(fault) => Err(fault),
        None => Ok(
            GenerateModel {
                model_path,
                design_path,
                source,
                out_path: text_or_hyphen(found, "--out"@),
                count: count_given(found, "--count"@, 100) as usize,
                seed: count_given(found, "--seed"@, 0),
            },
        ),
    }
}

/// What `generate` is asked, by its flags.
pub open spec fn generate_asked(found: Seq<(Seq<char>, FlagModel)>) -> Result<GenerateModel, Fault> {
    match text_required(found, "--model"@, PATH_FORM@) {
        Err(fault) => Err(fault),
        Ok(model_path) => match text_required(found, "--design"@, PATH_FORM@) {
            Err(fault) => Err(fault),
            Ok(design_path) => match text_required(
                found,
                "--source"@,
                " (fixed, model-prior, or posterior)"@,
            ) {
                Err(fault) => Err(fault),
                Ok(kind) => match generate_fault(
                    count_given(found, "--count"@, 100) as usize,
                    count_given(found, "--seed"@, 0),
                ) {
                    Some(fault) => Err(fault),
                    None => match generate_source(found, kind) {
                        Err(fault) => Err(fault),
                        Ok(source) => generate_with(found, model_path, design_path, source),
                    },
                },
            },
        },
    }
}

/// What `generate` is asked.
pub open spec fn generate_parsed(argv: Seq<ArgumentModel>) -> Result<GenerateModel, Fault> {
    match flags_read("generate"@, "generated-dataset artifacts"@, argv, generate_flags()) {
        Err(fault) => Err(fault),
        Ok(found) => generate_asked(found),
    }
}

fn read_generate_source(found: &Vec<(String, FlagValue)>, kind: &str) -> (r: Result<
    GenerateSourceArgs,
    Error,
>)
    ensures
        outcome(r) == generate_source(flag_views(found@), kind@),
{
    let parameters: Option<String> = given_text(found, "--parameters");
    let fit: Option<String> = given_text(found, "--fit");
    let fit_data: Option<String> = given_text(found, "--fit-data");
    if text::same(kind, "fixed") {
        return match parameters {
            None => Err(
                invalid_settings("--parameters is required when --source fixed".to_owned()),
            ),
            Some(parameters_path) => if fit.is_some() || fit_data.is_some() {
                Err(
                    invalid_settings(
                        "--fit and --fit-data are only valid when --source posterior".to_owned(),
                    ),
                )
            } else {
                Ok(GenerateSourceArgs::Fixed { parameters_path })
            },
        };
    }
    if text::same(kind, "model-prior") {
        return if parameters.is_some() || fit.is_some() || fit_data.is_some() {
            Err(
                invalid_settings(
                    "model-prior generation does not accept --parameters, --fit, or --fit-data".to_owned(),
                ),
            )
        } else {
            Ok(GenerateSourceArgs::ModelPrior)
        };
    }
    if text::same(kind, "posterior") {
        if parameters.is_some() {
            return Err(
                invalid_settings("--parameters is only valid when --source fixed".to_owned()),
            );
        }
        return match (fit, fit_data) {
            (None, _) => Err(
                invalid_settings("--fit is required when --source posterior".to_owned()),
            ),
            (Some(_), None) => Err(
                invalid_settings("--fit-data is required when --source posterior".to_owned()),
            ),
            (Some(fit_path), Some(fit_data_path)) => Ok(
                GenerateSourceArgs::Posterior { fit_path, fit_data_path },
            ),
        };
    }
    Err(
        invalid_settings(
            text::cat2(
                "--source must be fixed, model-prior, or posterior; got ",
                text::quoted(kind).as_str(),
            ),
        ),
    )
}

/// Reads the arguments of `generate`.
pub fn parse_generate_args(argv: &Vec<Argument>) -> (r: Result<GenerateArgs, Error>)
    ensures
        outcome(r) == generate_parsed(list_views(argv@)),
{
    let table: FlagTable = vec![
        ("--model", FlagKind::Text),
        ("--design", FlagKind::Text),
        ("--source", FlagKind::Text),
        ("--parameters", FlagKind::Text),
        ("--fit", FlagKind::Text),
        ("--fit-data", FlagKind::Text),
        ("--out", FlagKind::Text),
        ("--count", FlagKind::Draws),
        ("--seed", FlagKind::Seed),
    ];
    assert(table_view(table@) =~= generate_flags());
    let found: Vec<(String, FlagValue)> = read_flags(
        "generate",
        "generated-dataset artifacts",
        argv,
        &table,
    )?;
    let model_path: String = require_text(&found, "--model", PATH_FORM)?;
    let design_path: String = require_text(&found, "--design", PATH_FORM)?;
    let kind: String = require_text(&found, "--source", " (fixed, model-prior, or posterior)")?;
    let count: usize = given_count(&found, "--count", 100) as usize;
    let seed: u64 = given_count(&found, "--seed", 0);
    if count == 0 || count > 1000 {
        return Err(invalid_settings("--count must be in 1..=1000".to_owned()));
    }
    if seed > 9_007_199_254_740_991 {
        return Err(
            invalid_settings(
                "--seed must be in 0..=9007199254740991 for generation interoperability".to_owned(),
            ),
        );
    }
    let source: GenerateSourceArgs = read_generate_source(&found, kind.as_str())?;
    let mut inputs: Vec<(&'static str, &str)> = vec![
        ("--model", model_path.as_str()),
        ("--design", design_path.as_str()),
    ];
    match &source {
        GenerateSourceArgs::Fixed { parameters_path } => {
            inputs.push(("--parameters", parameters_path.as_str()));
        },
        GenerateSourceArgs::ModelPrior => {},
        GenerateSourceArgs::Posterior { fit_path, fit_data_path } => {
            inputs.push(("--fit", fit_path.as_str()));
            inputs.push(("--fit-data", fit_data_path.as_str()));
        },
    }
    assert(input_views(inputs@) =~= seq![("--model"@, model_path@), ("--design"@, design_path@)]
        + source_inputs(source@));
    validate_single_stdin_input("generate", &inputs)?;
    Ok(
        GenerateArgs {
            model_path,
            design_path,
            source,
            out_path: given_text_or_hyphen(&found, "--out"),
            count,
            seed,
        },
    )
}

} // verus!
