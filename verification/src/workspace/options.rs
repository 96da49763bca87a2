//! The arguments of the commands on investigations.

use vstd::prelude::*;

use crate::error::{invalid_settings, Error};
#[allow(unused_imports)]
use crate::error::{outcome, settings_fault, Fault};
#[allow(unused_imports)]
use crate::investigation::fields::names_view;
use crate::investigation::fields::lists;
use crate::text;
#[allow(unused_imports)]
use crate::text::{debug_text, decimal_text, text_views};

verus! {

/// How the commands on investigations are called.
pub const USAGE: &'static str = "usage: bayesite investigation init --metadata <metadata.json> --model <model.json> --data <data.json> --out <workspace>\nusage: bayesite investigation inspect <workspace>\nusage: bayesite investigation run <workspace> --recipe <id>\nusage: bayesite investigation snapshot <workspace> --out <bundle>\nusage: bayesite investigation verify <bundle>\nusage: bayesite investigation fork <bundle> --at <decision-id> --out <workspace>\nusage: bayesite investigation replay <bundle> --recipe <id> --out <replay-dir>\nusage: bayesite investigation export <bundle> --viewer --public-data-confirmed --out <directory>";

/// The path that a command takes.
pub open spec fn single_path(argv: Seq<Seq<char>>, command: Seq<char>) -> Result<Seq<char>, Fault> {
    if argv.len() != 1 || "--"@.is_prefix_of(argv[0]) {
        Err(
            settings_fault(
                "investigation "@ + command + " needs exactly one path; "@ + USAGE@,
            ),
        )
    } else {
        Ok(argv[0])
    }
}

/// The view of a text that may be refused.
pub open spec fn text_outcome(r: Result<String, Error>) -> Result<Seq<char>, Fault> {
    match r {
        Ok(s) => Ok(s@),
        Err(error) => Err(error@),
    }
}

/// Reads the single path that a command takes.
pub fn one_positional(argv: &Vec<String>, command: &str) -> (r: Result<String, Error>)
    ensures
        text_outcome(r) == single_path(text_views(argv@), command@),
{
    assert(text_views(argv@).len() == argv@.len());
    if argv.len() != 1 || text::starts_with(argv[0].as_str(), "--") {
        return Err(
            invalid_settings(
                text::cat4("investigation ", command, " needs exactly one path; ", USAGE),
            ),
        );
    }
    Ok(argv[0].clone())
}

/// What the arguments of a command give: paths, and values of flags.
#[verifier::ext_equal]
pub struct GivenModel {
    pub positional: Seq<Seq<char>>,
    pub flags: Seq<(Seq<char>, Seq<char>)>,
}

/// Whether a flag has a value.
pub open spec fn is_given(flags: Seq<(Seq<char>, Seq<char>)>, name: Seq<char>) -> bool {
    exists|k: int| 0 <= k < flags.len() && (#[trigger] flags[k]).0 == name
}

/// What arguments give from one on, over what was given before.
pub open spec fn given_from(
    command: Seq<char>,
    known: Seq<Seq<char>>,
    argv: Seq<Seq<char>>,
    before: GivenModel,
    i: int,
) -> Result<GivenModel, Fault>
    decreases argv.len() - i,
{
    if i < 0 || i >= argv.len() {
        Ok(before)
    } else if !"--"@.is_prefix_of(argv[i]) {
        given_from(
            command,
            known,
            argv,
            GivenModel { positional: before.positional.push(argv[i]), flags: before.flags },
            i + 1,
        )
    } else if !known.contains(argv[i]) {
        Err(
            settings_fault(
                "unknown investigation "@ + command + " flag "@ + argv[i] + "; "@ + USAGE@,
            ),
        )
    } else if is_given(before.flags, argv[i]) {
        Err(
            settings_fault(
                "investigation "@ + command + " has duplicate flag "@ + argv[i]
                    + "; pass it once"@,
            ),
        )
    } else if i + 1 >= argv.len() {
        Err(
            settings_fault(
                "investigation "@ + command + " flag "@ + argv[i] + " needs a value"@,
            ),
        )
    } else if "--"@.is_prefix_of(argv[i + 1]) {
        Err(
            settings_fault(
                "investigation "@ + command + " flag "@ + argv[i] + " needs a value before "@
                    + argv[i + 1],
            ),
        )
    } else {
        given_from(
            command,
            known,
            argv,
            GivenModel {
                positional: before.positional,
                flags: before.flags.push((argv[i], argv[i + 1])),
            },
            i + 2,
        )
    }
}

/// The first known flag, from one on, that has no value.
pub open spec fn missing_flag(
    known: Seq<Seq<char>>,
    flags: Seq<(Seq<char>, Seq<char>)>,
    i: int,
) -> Option<Seq<char>>
    decreases known.len() - i,
{
    if i < 0 || i >= known.len() {
        None
    } else if !is_given(flags, known[i]) {
        Some(known[i])
    } else {
        missing_flag(known, flags, i + 1)
    }
}

/// What the arguments of a command give that takes so many paths and needs every known flag.
pub open spec fn given(
    command: Seq<char>,
    paths: usize,
    known: Seq<Seq<char>>,
    argv: Seq<Seq<char>>,
) -> Result<GivenModel, Fault> {
    match given_from(
        command,
        known,
        argv,
        GivenModel { positional: Seq::empty(), flags: Seq::empty() },
        0,
    ) {
        Err(fault) => Err(fault),
        Ok(found) => if found.positional.len() != paths {
            Err(
                settings_fault(
                    "investigation "@ + command + " needs "@ + decimal_text(paths as nat)
                        + " positional path(s); "@ + USAGE@,
                ),
            )
        } else {
            match missing_flag(known, found.flags, 0) {
                Some(flag) => Err(
                    settings_fault(
                        "investigation "@ + command + " requires "@ + flag + "; "@ + USAGE@,
                    ),
                ),
                None => Ok(found),
            }
        },
    }
}

/// The paths and the flags of a command.
#[derive(Debug)]
pub struct Given {
    pub positional: Vec<String>,
    pub flags: Vec<(String, String)>,
}

/// The content of flags with values.
pub open spec fn pairs(flags: Seq<(String, String)>) -> Seq<(Seq<char>, Seq<char>)> {
    flags.map_values(|entry: (String, String)| (entry.0@, entry.1@))
}

impl View for Given {
    type V = GivenModel;

    open spec fn view(&self) -> GivenModel {
        GivenModel { positional: text_views(self.positional@), flags: pairs(self.flags@) }
    }
}

fn has_flag(flags: &Vec<(String, String)>, name: &str) -> (r: bool)
    ensures
        r == is_given(pairs(flags@), name@),
{
    let ghost all = pairs(flags@);
    let mut k: usize = 0;
    while k < flags.len()
        invariant
            k <= flags.len(),
            all == pairs(flags@),
            forall|j: int| 0 <= j < k ==> (#[trigger] all[j]).0 != name@,
        decreases flags.len() - k,
    {
        assert(all[k as int] == (flags@[k as int].0@, flags@[k as int].1@));
        if text::same(flags[k].0.as_str(), name) {
            return true;
        }
        k += 1;
    }
    false
}

fn scan(argv: &Vec<String>, command: &str, known: &[&str]) -> (r: Result<Given, Error>)
    ensures
        outcome(r) == given_from(
            command@,
            names_view(known@),
            text_views(argv@),
            GivenModel { positional: Seq::empty(), flags: Seq::empty() },
            0,
        ),
{
    let ghost all = text_views(argv@);
    let ghost names = names_view(known@);
    let ghost whole = given_from(
        command@,
        names,
        all,
        GivenModel { positional: Seq::empty(), flags: Seq::empty() },
        0,
    );
    let mut out: Given = Given { positional: Vec::new(), flags: Vec::new() };
    assert(text_views(out.positional@) =~= Seq::empty());
    assert(pairs(out.flags@) =~= Seq::empty());
    let mut i: usize = 0;
    while i < argv.len()
        invariant
            i <= argv.len(),
            all == text_views(argv@),
            names == names_view(known@),
            whole == given_from(
                command@,
                names,
                all,
                GivenModel { positional: Seq::empty(), flags: Seq::empty() },
                0,
            ),
            whole == given_from(command@, names, all, out@, i as int),
        decreases argv.len() - i,
    {
        let value: &str = argv[i].as_str();
        assert(all[i as int] == value@);
        let ghost before = out@;
        if text::starts_with(value, "--") {
            if !lists(known, value) {
                return Err(
                    invalid_settings(
                        text::cat6(
                            "unknown investigation ",
                            command,
                            " flag ",
                            value,
                            "; ",
                            USAGE,
                        ),
                    ),
                );
            }
            if has_flag(&out.flags, value) {
                return Err(
                    invalid_settings(
                        text::cat5(
                            "investigation ",
                            command,
                            " has duplicate flag ",
                            value,
                            "; pass it once",
                        ),
                    ),
                );
            }
            if argv.len() - i < 2 {
                return Err(
                    invalid_settings(
                        text::cat5(
                            "investigation ",
                            command,
                            " flag ",
                            value,
                            " needs a value",
                        ),
                    ),
                );
            }
            let next: &str = argv[i + 1].as_str();
            assert(all[i + 1] == next@);
            if text::starts_with(next, "--") {
                return Err(
                    invalid_settings(
                        text::cat6(
                            "investigation ",
                            command,
                            " flag ",
                            value,
                            " needs a value before ",
                            next,
                        ),
                    ),
                );
            }
            let ghost old_flags = out.flags@;
            out.flags.push((value.to_owned(), next.to_owned()));
            assert(pairs(out.flags@) =~= pairs(old_flags).push((value@, next@)));
            i += 2;
        } else {
            let ghost old_paths = out.positional@;
            out.positional.push(value.to_owned());
            assert(text_views(out.positional@) =~= text_views(old_paths).push(value@));
            i += 1;
        }
    }
    Ok(out)
}

/// Reads the paths and the flags of a command.
pub fn parse_flags(argv: &Vec<String>, command: &str, positional_count: usize, flags: &[&str]) -> (r: Result<
    Given,
    Error,
>)
    ensures
        outcome(r) == given(
            command@,
            positional_count,
            names_view(flags@),
            text_views(argv@),
        ),
{
    let found: Given = scan(argv, command, flags)?;
    let ghost names = names_view(flags@);
    assert(found@.positional.len() == found.positional@.len());
    if found.positional.len() != positional_count {
        return Err(
            invalid_settings(
                text::cat6(
                    "investigation ",
                    command,
                    " needs ",
                    text::decimal(positional_count as u64).as_str(),
                    " positional path(s); ",
                    USAGE,
                ),
            ),
        );
    }
    let mut i: usize = 0;
    while i < flags.len()
        invariant
            i <= flags.len(),
            names == names_view(flags@),
            missing_flag(names, found@.flags, 0) == missing_flag(names, found@.flags, i as int),
            found@.positional.len() == positional_count,
            given_from(
                command@,
                names,
                text_views(argv@),
                GivenModel { positional: Seq::empty(), flags: Seq::empty() },
                0,
            ) == Ok::<GivenModel, Fault>(found@),
        decreases flags.len() - i,
    {
        assert(names[i as int] == flags@[i as int]@);
        if !has_flag(&found.flags, flags[i]) {
            return Err(
                invalid_settings(
                    text::cat6(
                        "investigation ",
                        command,
                        " requires ",
                        flags[i],
                        "; ",
                        USAGE,
                    ),
                ),
            );
        }
        i += 1;
    }
    Ok(found)
}

/// What an export was asked so far.
#[verifier::ext_equal]
pub struct ExportModel {
    pub viewer: bool,
    pub public_data_confirmed: bool,
    pub out: Option<Seq<char>>,
}

/// What an export is asked, from an argument on.
pub open spec fn export_from(argv: Seq<Seq<char>>, before: ExportModel, i: int) -> Result<
    ExportModel,
    Fault,
>
    decreases argv.len() - i,
{
    if i < 0 || i >= argv.len() {
        Ok(before)
    } else if argv[i] == "--viewer"@ && !before.viewer {
        export_from(argv, ExportModel { viewer: true, ..before }, i + 1)
    } else if argv[i] == "--public-data-confirmed"@ && !before.public_data_confirmed {
        export_from(argv, ExportModel { public_data_confirmed: true, ..before }, i + 1)
    } else if argv[i] == "--out"@ && before.out is None {
        if i + 1 >= argv.len() {
            Err(settings_fault("investigation export --out requires a directory"@))
        } else {
            export_from(argv, ExportModel { out: Some(argv[i + 1]), ..before }, i + 2)
        }
    } else {
        Err(
            settings_fault(
                "unknown or duplicate investigation export option "@ + debug_text(argv[i]),
            ),
        )
    }
}

/// Where an export goes from and to.
pub open spec fn export_asked(argv: Seq<Seq<char>>) -> Result<(Seq<char>, Seq<char>), Fault> {
    if argv.len() == 0 {
        Err(settings_fault("export needs a snapshot path; "@ + USAGE@))
    } else {
        match export_from(
            argv,
            ExportModel { viewer: false, public_data_confirmed: false, out: None },
            1,
        ) {
            Err(fault) => Err(fault),
            Ok(found) => if !found.viewer || !found.public_data_confirmed {
                Err(
                    settings_fault(
                        "investigation export requires explicit --viewer and --public-data-confirmed"@,
                    ),
                )
            } else {
                match found.out {
                    None => Err(
                        settings_fault("investigation export needs --out <directory>"@),
                    ),
                    Some(out) => Ok((argv[0], out)),
                }
            },
        }
    }
}

/// The view of where an export goes.
pub open spec fn export_outcome(r: Result<(String, String), Error>) -> Result<
    (Seq<char>, Seq<char>),
    Fault,
> {
    match r {
        Ok(found) => Ok((found.0@, found.1@)),
        Err(error) => Err(error@),
    }
}

/// Reads the arguments of an export: the snapshot and the directory that it goes to. Both the
/// viewer and that the data may be public must be asked for explicitly.
pub fn parse_export_args(argv: &Vec<String>) -> (r: Result<(String, String), Error>)
    ensures
        export_outcome(r) == export_asked(text_views(argv@)),
{
    let ghost all = text_views(argv@);
    if argv.len() == 0 {
        assert(all.len() == 0);
        return Err(invalid_settings(text::cat2("export needs a snapshot path; ", USAGE)));
    }
    let ghost start = ExportModel { viewer: false, public_data_confirmed: false, out: None };
    let mut viewer: bool = false;
    let mut public_data_confirmed: bool = false;
    let mut out_value: Option<&str> = None;
    let mut i: usize = 1;
    while i < argv.len()
        invariant
            1 <= i <= argv.len(),
            all == text_views(argv@),
            start == (ExportModel { viewer: false, public_data_confirmed: false, out: None }),
            export_from(all, start, 1) == export_from(
                all,
                ExportModel {
                    viewer,
                    public_data_confirmed,
                    out: match out_value {
                        Some(path) => Some(path@),
                        None => None,
                    },
                },
                i as int,
            ),
        decreases argv.len() - i,
    {
        let option: &str = argv[i].as_str();
        assert(all[i as int] == option@);
        if text::same(option, "--viewer") && !viewer {
            viewer = true;
        } else if text::same(option, "--public-data-confirmed") && !public_data_confirmed {
            public_data_confirmed = true;
        } else if text::same(option, "--out") && out_value.is_none() {
            if argv.len() - i < 2 {
                return Err(
                    invalid_settings(
                        "investigation export --out requires a directory".to_owned(),
                    ),
                );
            }
            i += 1;
            assert(all[i as int] == argv@[i as int]@);
            out_value = Some(argv[i].as_str());
        } else {
            return Err(
                invalid_settings(
                    text::cat2(
                        "unknown or duplicate investigation export option ",
                        text::quoted(option).as_str(),
                    ),
                ),
            );
        }
        i += 1;
    }
    if !viewer || !public_data_confirmed {
        return Err(
            invalid_settings(
                "investigation export requires explicit --viewer and --public-data-confirmed".to_owned(),
            ),
        );
    }
    match out_value {
        None => Err(
            invalid_settings("investigation export needs --out <directory>".to_owned()),
        ),
        Some(out) => Ok((argv[0].clone(), out.to_owned())),
    }
}

/// The commands on investigations.
#[derive(Debug, Clone, Copy, PartialEq, Eq, Structural)]
pub enum Subcommand {
    Init,
    Inspect,
    Run,
    Snapshot,
    Verify,
    Fork,
    Replay,
    Export,
}

/// The command of that name.
pub open spec fn subcommand_of(name: Seq<char>) -> Option<Subcommand> {
    if name == "init"@ {
        Some(Subcommand::Init)
    } else if name == "inspect"@ {
        Some(Subcommand::Inspect)
    } else if name == "run"@ {
        Some(Subcommand::Run)
    } else if name == "snapshot"@ {
        Some(Subcommand::Snapshot)
    } else if name == "verify"@ {
        Some(Subcommand::Verify)
    } else if name == "fork"@ {
        Some(Subcommand::Fork)
    } else if name == "replay"@ {
        Some(Subcommand::Replay)
    } else if name == "export"@ {
        Some(Subcommand::Export)
    } else {
        None
    }
}

/// The command that arguments name.
pub open spec fn subcommand_asked(argv: Seq<Seq<char>>) -> Result<Subcommand, Fault> {
    if argv.len() == 0 {
        Err(settings_fault("investigation needs a subcommand; "@ + USAGE@))
    } else {
        match subcommand_of(argv[0]) {
            Some(command) => Ok(command),
            None => Err(
                settings_fault(
                    "unknown investigation subcommand "@ + debug_text(argv[0]) + "; "@ + USAGE@,
                ),
            ),
        }
    }
}

/// The view of a command that may be refused.
pub open spec fn subcommand_outcome(r: Result<Subcommand, Error>) -> Result<Subcommand, Fault> {
    match r {
        Ok(command) => Ok(command),
        Err(error) => Err(error@),
    }
}

/// Reads which command on investigations is asked for.
pub fn parse_subcommand(argv: &Vec<String>) -> (r: Result<Subcommand, Error>)
    ensures
        subcommand_outcome(r) == subcommand_asked(text_views(argv@)),
{
    assert(text_views(argv@).len() == argv@.len());
    if argv.len() == 0 {
        return Err(invalid_settings(text::cat2("investigation needs a subcommand; ", USAGE)));
    }
    let name: &str = argv[0].as_str();
    assert(text_views(argv@)[0] == name@);
    if text::same(name, "init") {
        return Ok(Subcommand::Init);
    }
    if text::same(name, "inspect") {
        return Ok(Subcommand::Inspect);
    }
    if text::same(name, "run") {
        return Ok(Subcommand::Run);
    }
    if text::same(name, "snapshot") {
        return Ok(Subcommand::Snapshot);
    }
    if text::same(name, "verify") {
        return Ok(Subcommand::Verify);
    }
    if text::same(name, "fork") {
        return Ok(Subcommand::Fork);
    }
    if text::same(name, "replay") {
        return Ok(Subcommand::Replay);
    }
    if text::same(name, "export") {
        return Ok(Subcommand::Export);
    }
    Err(
        invalid_settings(
            text::cat4(
                "unknown investigation subcommand ",
                text::quoted(name).as_str(),
                "; ",
                USAGE,
            ),
        ),
    )
}

/// No export goes anywhere unless both the viewer and public data were asked for.
pub proof fn law_export_needs_explicit_consent(argv: Seq<Seq<char>>)
    requires
        export_asked(argv) is Ok,
    ensures
        argv.contains("--viewer"@),
        argv.contains("--public-data-confirmed"@),
{
    let start = ExportModel { viewer: false, public_data_confirmed: false, out: None };
    lemma_consent(argv, start, 1);
}

proof fn lemma_consent(argv: Seq<Seq<char>>, before: ExportModel, i: int)
    requires
        i >= 0,
        export_from(argv, before, i) is Ok,
    ensures
        export_from(argv, before, i)->Ok_0.viewer ==> before.viewer || argv.contains("--viewer"@),
        export_from(argv, before, i)->Ok_0.public_data_confirmed ==> before.public_data_confirmed
            || argv.contains("--public-data-confirmed"@),
    decreases argv.len() - i,
{
    if i < argv.len() {
        if argv[i] == "--viewer"@ && !before.viewer {
            lemma_consent(argv, ExportModel { viewer: true, ..before }, i + 1);
        } else if argv[i] == "--public-data-confirmed"@ && !before.public_data_confirmed {
            lemma_consent(argv, ExportModel { public_data_confirmed: true, ..before }, i + 1);
        } else if argv[i] == "--out"@ && before.out is None {
            lemma_consent(argv, ExportModel { out: Some(argv[i + 1]), ..before }, i + 2);
        }
    }
}

} // verus!
