//! Flags and their values.

use vstd::prelude::*;

use crate::error::{invalid_settings, Error};
#[allow(unused_imports)]
use crate::error::{outcome, settings_fault, Fault};
#[allow(unused_imports)]
use crate::investigation::recipe::acceptance_rate;
#[allow(unused_imports)]
use crate::ir::list_views;
#[allow(unused_imports)]
use crate::model::checked;
use crate::number::{less_than, Number, ONE_BITS};
#[allow(unused_imports)]
use crate::number::NumberModel;
#[allow(unused_imports)]
use crate::numerics::optional_number;
use crate::text;

verus! {

/// An argument: its text, and the double that it spells where it spells one.
#[derive(Debug)]
pub struct Argument {
    pub text: String,
    pub number: Option<Number>,
}

/// The mathematical content of an [`Argument`].
#[verifier::ext_equal]
pub struct ArgumentModel {
    pub text: Seq<char>,
    pub number: Option<NumberModel>,
}

impl View for Argument {
    type V = ArgumentModel;

    open spec fn view(&self) -> ArgumentModel {
        ArgumentModel { text: self.text@, number: optional_number(self.number) }
    }
}

/// What the value of a flag is.
#[derive(Debug, Clone, Copy, PartialEq, Eq, Structural)]
pub enum FlagKind {
    Text,
    Seed,
    Draws,
    Warmup,
    Chains,
    Replicates,
    Treedepth,
    Rate,
}

/// The value of a flag.
#[derive(Debug)]
pub enum FlagValue {
    Text(String),
    Count(u64),
    Rate(Number),
}

/// The mathematical content of a [`FlagValue`].
#[verifier::ext_equal]
pub enum FlagModel {
    Text(Seq<char>),
    Count(u64),
    Rate(NumberModel),
}

impl View for FlagValue {
    type V = FlagModel;

    open spec fn view(&self) -> FlagModel {
        match *self {
            FlagValue::Text(s) => FlagModel::Text(s@),
            FlagValue::Count(n) => FlagModel::Count(n),
            FlagValue::Rate(n) => FlagModel::Rate(n@),
        }
    }
}

pub open spec fn is_digit(c: char) -> bool {
    '0' <= c && c <= '9'
}

pub open spec fn all_digits(s: Seq<char>) -> bool {
    forall|i: int| 0 <= i < s.len() ==> is_digit(#[trigger] s[i])
}

/// The number that decimal digits spell.
pub open spec fn digits_value(s: Seq<char>) -> nat
    decreases s.len(),
{
    if s.len() == 0 {
        0
    } else {
        digits_value(s.drop_last()) * 10 + (s.last() as nat - '0' as nat) as nat
    }
}

/// A text without a plus sign in front.
pub open spec fn unsigned(s: Seq<char>) -> Seq<char> {
    if s.len() > 0 && s[0] == '+' {
        s.skip(1)
    } else {
        s
    }
}

/// The unsigned number of at most 128 bits that a text spells.
pub open spec fn unsigned_value(s: Seq<char>) -> Option<nat> {
    if unsigned(s).len() > 0 && all_digits(unsigned(s)) && digits_value(unsigned(s)) <= u128::MAX {
        Some(digits_value(unsigned(s)))
    } else {
        None
    }
}

proof fn lemma_digits_grow(s: Seq<char>, n: int)
    requires
        0 <= n <= s.len(),
    ensures
        digits_value(s.take(n)) <= digits_value(s),
    decreases s.len() - n,
{
    if n < s.len() {
        lemma_digits_grow(s, n + 1);
        let more = s.take(n + 1);
        assert(more.drop_last() =~= s.take(n));
    } else {
        assert(s.take(n) =~= s);
    }
}

fn parse_unsigned(s: &str) -> (r: Option<u128>)
    ensures
        match r {
            Some(n) => unsigned_value(s@) == Some(n as nat),
            None => unsigned_value(s@) is None,
        },
{
    let length: usize = s.unicode_len();
    let start: usize = if length > 0 && s.get_char(0) == '+' {
        1
    } else {
        0
    };
    let ghost digits = unsigned(s@);
    assert(digits =~= s@.skip(start as int));
    if start == length {
        return None;
    }
    let mut value: u128 = 0;
    let mut i: usize = start;
    assert(digits.take(0) =~= Seq::empty());
    while i < length
        invariant
            start <= i <= length,
            start <= 1,
            length == s@.len(),
            digits == s@.skip(start as int),
            digits == unsigned(s@),
            digits.len() == length - start,
            value == digits_value(digits.take(i - start)),
            forall|k: int| 0 <= k < i - start ==> is_digit(#[trigger] digits[k]),
        decreases length - i,
    {
        let c: char = s.get_char(i);
        let ghost k = i - start;
        proof {
            assert(digits[k] == c);
            let more = digits.take(k + 1);
            assert(more.drop_last() =~= digits.take(k));
            assert(more.last() == c);
            lemma_digits_grow(digits, k + 1);
        }
        if c < '0' || c > '9' {
            assert(!is_digit(digits[k]));
            return None;
        }
        let digit: u128 = (c as u32 - '0' as u32) as u128;
        if value > (u128::MAX - digit) / 10 {
            return None;
        }
        value = value * 10 + digit;
        i += 1;
    }
    assert(digits.take(i - start) =~= digits);
    Some(value)
}

/// What a count that must fit a JSON integer can be wrong with.
pub open spec fn counted(text: Seq<char>, unreadable: Seq<char>, beyond: Seq<char>) -> Result<
    FlagModel,
    Fault,
> {
    match unsigned_value(text) {
        None => Err(settings_fault(unreadable)),
        Some(n) => if n > i64::MAX {
            Err(settings_fault(beyond))
        } else {
            Ok(FlagModel::Count(n as u64))
        },
    }
}

fn parse_count(s: &str, unreadable: String, beyond: String) -> (r: Result<FlagValue, Error>)
    ensures
        outcome(r) == counted(s@, unreadable@, beyond@),
{
    match parse_unsigned(s) {
        None => Err(invalid_settings(unreadable)),
        Some(n) => if n > i64::MAX as u128 {
            Err(invalid_settings(beyond))
        } else {
            Ok(FlagValue::Count(n as u64))
        },
    }
}

/// The value that an argument gives a flag.
pub open spec fn flag_value(
    kind: FlagKind,
    name: Seq<char>,
    argument: ArgumentModel,
    artifact: Seq<char>,
) -> Result<FlagModel, Fault> {
    match kind {
        FlagKind::Text => Ok(FlagModel::Text(argument.text)),
        FlagKind::Seed => counted(
            argument.text,
            name + " must be an unsigned integer"@,
            name
                + " must be in 0..=9223372036854775807 because artifacts report seeds as JSON integers"@,
        ),
        FlagKind::Draws => counted(
            argument.text,
            name + " must be a positive integer"@,
            name + " must be in 1..=9223372036854775807 because "@ + artifact
                + " report draw counts as JSON integers"@,
        ),
        FlagKind::Warmup => counted(
            argument.text,
            name + " must be a non-negative integer"@,
            name + " must be in 0..=9223372036854775807 because "@ + artifact
                + " report warmup counts as JSON integers"@,
        ),
        FlagKind::Chains => counted(
            argument.text,
            name + " must be a positive integer"@,
            name + " must be in 1..=9223372036854775807 because "@ + artifact
                + " report chain counts as JSON integers"@,
        ),
        FlagKind::Replicates => match counted(
            argument.text,
            name + " must be a positive integer"@,
            name
                + " must be in 1..=9223372036854775807 because sbc reports replicates as a JSON integer"@,
        ) {
            Err(fault) => Err(fault),
            Ok(value) => if value == FlagModel::Count(0) {
                Err(settings_fault(name + " must be at least 1"@))
            } else {
                Ok(value)
            },
        },
        FlagKind::Treedepth => match unsigned_value(argument.text) {
            None => Err(settings_fault(name + " must be a positive integer"@)),
            Some(n) => if n > usize::MAX {
                Err(settings_fault(name + " must be in 1..=20"@))
            } else {
                Ok(FlagModel::Count(n as u64))
            },
        },
        FlagKind::Rate => match argument.number {
            None => Err(settings_fault(name + " must be a number in (0, 1)"@)),
            Some(n) => Ok(FlagModel::Rate(n)),
        },
    }
}

fn parse_flag_value(kind: FlagKind, name: &str, argument: &Argument, artifact: &str) -> (r: Result<
    FlagValue,
    Error,
>)
    ensures
        outcome(r) == flag_value(kind, name@, argument@, artifact@),
{
    let s: &str = argument.text.as_str();
    match kind {
        FlagKind::Text => Ok(FlagValue::Text(s.to_owned())),
        FlagKind::Seed => parse_count(
            s,
            text::cat2(name, " must be an unsigned integer"),
            text::cat2(
                name,
                " must be in 0..=9223372036854775807 because artifacts report seeds as JSON integers",
            ),
        ),
        FlagKind::Draws => parse_count(
            s,
            text::cat2(name, " must be a positive integer"),
            text::cat4(
                name,
                " must be in 1..=9223372036854775807 because ",
                artifact,
                " report draw counts as JSON integers",
            ),
        ),
        FlagKind::Warmup => parse_count(
            s,
            text::cat2(name, " must be a non-negative integer"),
            text::cat4(
                name,
                " must be in 0..=9223372036854775807 because ",
                artifact,
                " report warmup counts as JSON integers",
            ),
        ),
        FlagKind::Chains => parse_count(
            s,
            text::cat2(name, " must be a positive integer"),
            text::cat4(
                name,
                " must be in 1..=9223372036854775807 because ",
                artifact,
                " report chain counts as JSON integers",
            ),
        ),
        FlagKind::Replicates => match parse_count(
            s,
            text::cat2(name, " must be a positive integer"),
            text::cat2(
                name,
                " must be in 1..=9223372036854775807 because sbc reports replicates as a JSON integer",
            ),
        ) {
            Ok(FlagValue::Count(0)) => Err(
                invalid_settings(text::cat2(name, " must be at least 1")),
            ),
            other => other,
        },
        FlagKind::Treedepth => match parse_unsigned(s) {
            None => Err(invalid_settings(text::cat2(name, " must be a positive integer"))),
            Some(n) => if n > usize::MAX as u128 {
                Err(invalid_settings(text::cat2(name, " must be in 1..=20")))
            } else {
                Ok(FlagValue::Count(n as u64))
            },
        },
        FlagKind::Rate => match &argument.number {
            None => Err(invalid_settings(text::cat2(name, " must be a number in (0, 1)"))),
            Some(n) => Ok(FlagValue::Rate(n.copy())),
        },
    }
}

/// The flags that a command knows.
pub type FlagTable = Vec<(&'static str, FlagKind)>;

/// The content of a table of flags.
pub open spec fn table_view(table: Seq<(&'static str, FlagKind)>) -> Seq<(Seq<char>, FlagKind)> {
    table.map_values(|entry: (&'static str, FlagKind)| (entry.0@, entry.1))
}

/// What a table says of a flag, from an entry on.
pub open spec fn kind_from(table: Seq<(Seq<char>, FlagKind)>, name: Seq<char>, i: int) -> Option<
    FlagKind,
>
    decreases table.len() - i,
{
    if i < 0 || i >= table.len() {
        None
    } else if table[i].0 == name {
        Some(table[i].1)
    } else {
        kind_from(table, name, i + 1)
    }
}

/// What a table says of a flag.
pub open spec fn kind_of(table: Seq<(Seq<char>, FlagKind)>, name: Seq<char>) -> Option<FlagKind> {
    kind_from(table, name, 0)
}

fn find_kind(table: &FlagTable, name: &str) -> (r: Option<FlagKind>)
    ensures
        r == kind_of(table_view(table@), name@),
{
    let ghost all = table_view(table@);
    let mut i: usize = 0;
    while i < table.len()
        invariant
            i <= table.len(),
            all == table_view(table@),
            kind_of(all, name@) == kind_from(all, name@, i as int),
        decreases table.len() - i,
    {
        assert(all[i as int] == (table@[i as int].0@, table@[i as int].1));
        if text::same(table[i].0, name) {
            return Some(table[i].1);
        }
        i += 1;
    }
    None
}

/// How many arguments are left from a position on.
pub open spec fn left(count: nat, i: int) -> int {
    if i < count {
        count - i
    } else {
        0
    }
}

/// What is wrong with repeated flags, from an argument on.
pub open spec fn repeat_fault(
    command: Seq<char>,
    argv: Seq<ArgumentModel>,
    table: Seq<(Seq<char>, FlagKind)>,
    seen: Seq<Seq<char>>,
    i: int,
) -> Option<Fault>
    decreases left(argv.len(), i),
{
    if i < 0 || i >= argv.len() {
        None
    } else if kind_of(table, argv[i].text) is None {
        repeat_fault(command, argv, table, seen, i + 1)
    } else if seen.contains(argv[i].text) {
        Some(
            settings_fault(
                command + " has duplicate flag "@ + argv[i].text + "; pass it once"@,
            ),
        )
    } else {
        repeat_fault(command, argv, table, seen.push(argv[i].text), i + 2)
    }
}

fn was_seen(seen: &Vec<&str>, name: &str) -> (r: bool)
    ensures
        r == crate::investigation::fields::names_view(seen@).contains(name@),
{
    let ghost all = crate::investigation::fields::names_view(seen@);
    let mut i: usize = 0;
    while i < seen.len()
        invariant
            i <= seen.len(),
            all == crate::investigation::fields::names_view(seen@),
            forall|k: int| 0 <= k < i ==> all[k] != name@,
        decreases seen.len() - i,
    {
        assert(all[i as int] == seen@[i as int]@);
        if text::same(seen[i], name) {
            return true;
        }
        i += 1;
    }
    false
}

/// Refuses a flag that is given twice.
pub fn reject_duplicate_flags(command: &str, argv: &Vec<Argument>, table: &FlagTable) -> (r: Result<
    (),
    Error,
>)
    ensures
        checked(r) == repeat_fault(
            command@,
            list_views(argv@),
            table_view(table@),
            Seq::empty(),
            0,
        ),
{
    let ghost all = list_views(argv@);
    let ghost flags = table_view(table@);
    let ghost whole = repeat_fault(command@, all, flags, Seq::empty(), 0);
    let mut seen: Vec<&str> = Vec::new();
    assert(crate::investigation::fields::names_view(seen@) =~= Seq::empty());
    let mut i: usize = 0;
    while i < argv.len()
        invariant
            all == list_views(argv@),
            flags == table_view(table@),
            whole == repeat_fault(command@, all, flags, Seq::empty(), 0),
            whole == repeat_fault(
                command@,
                all,
                flags,
                crate::investigation::fields::names_view(seen@),
                i as int,
            ),
        decreases argv.len() - i,
    {
        let flag: &str = argv[i].text.as_str();
        assert(all[i as int].text == flag@);
        if find_kind(table, flag).is_none() {
            i += 1;
        } else {
            if was_seen(&seen, flag) {
                return Err(
                    invalid_settings(
                        text::cat4(command, " has duplicate flag ", flag, "; pass it once"),
                    ),
                );
            }
            let ghost before = seen@;
            seen.push(flag);
            assert(crate::investigation::fields::names_view(seen@)
                =~= crate::investigation::fields::names_view(before).push(flag@));
            if argv.len() - i < 2 {
                assert(repeat_fault(
                    command@,
                    all,
                    flags,
                    crate::investigation::fields::names_view(seen@),
                    i + 2,
                ) is None);
                return Ok(());
            }
            i += 2;
        }
    }
    Ok(())
}

/// The flags and values of arguments, from one on.
pub open spec fn scanned(
    command: Seq<char>,
    artifact: Seq<char>,
    argv: Seq<ArgumentModel>,
    table: Seq<(Seq<char>, FlagKind)>,
    i: int,
) -> Result<Seq<(Seq<char>, FlagModel)>, Fault>
    decreases argv.len() - i,
{
    if i < 0 || i >= argv.len() {
        Ok(Seq::empty())
    } else {
        match kind_of(table, argv[i].text) {
            None => Err(
                settings_fault(
                    "unknown flag "@ + argv[i].text + "; see `bayesite "@ + command + "` usage"@,
                ),
            ),
            Some(kind) => if i + 1 >= argv.len() {
                Err(settings_fault("flag "@ + argv[i].text + " needs a value"@))
            } else if "--"@.is_prefix_of(argv[i + 1].text) {
                Err(
                    settings_fault(
                        "flag "@ + argv[i].text + " needs a value before "@ + argv[i + 1].text,
                    ),
                )
            } else {
                match flag_value(kind, argv[i].text, argv[i + 1], artifact) {
                    Err(fault) => Err(fault),
                    Ok(value) => match scanned(command, artifact, argv, table, i + 2) {
                        Err(fault) => Err(fault),
                        Ok(rest) => Ok(seq![(argv[i].text, value)] + rest),
                    },
                }
            },
        }
    }
}

/// Flags found so far, with what the rest comes to.
pub open spec fn after(
    done: Seq<(Seq<char>, FlagModel)>,
    rest: Result<Seq<(Seq<char>, FlagModel)>, Fault>,
) -> Result<Seq<(Seq<char>, FlagModel)>, Fault> {
    match rest {
        Err(fault) => Err(fault),
        Ok(more) => Ok(done + more),
    }
}

/// The content of flags and values.
pub open spec fn flag_views(found: Seq<(String, FlagValue)>) -> Seq<(Seq<char>, FlagModel)> {
    found.map_values(|entry: (String, FlagValue)| (entry.0@, entry.1@))
}

/// The result of scanning.
pub open spec fn flags_outcome(r: Result<Vec<(String, FlagValue)>, Error>) -> Result<
    Seq<(Seq<char>, FlagModel)>,
    Fault,
> {
    match r {
        Ok(found) => Ok(flag_views(found@)),
        Err(error) => Err(error@),
    }
}

fn scan(command: &str, artifact: &str, argv: &Vec<Argument>, table: &FlagTable) -> (r: Result<
    Vec<(String, FlagValue)>,
    Error,
>)
    ensures
        flags_outcome(r) == scanned(
            command@,
            artifact@,
            list_views(argv@),
            table_view(table@),
            0,
        ),
{
    let ghost all = list_views(argv@);
    let ghost flags = table_view(table@);
    let ghost whole = scanned(command@, artifact@, all, flags, 0);
    let mut out: Vec<(String, FlagValue)> = Vec::new();
    assert(flag_views(out@) =~= Seq::empty());
    proof {
        if whole is Ok {
            assert(Seq::empty() + whole->Ok_0 =~= whole->Ok_0);
        }
    }
    let mut i: usize = 0;
    while i < argv.len()
        invariant
            i <= argv.len(),
            all == list_views(argv@),
            flags == table_view(table@),
            whole == scanned(command@, artifact@, all, flags, 0),
            whole == after(
                flag_views(out@),
                scanned(command@, artifact@, all, flags, i as int),
            ),
        decreases argv.len() - i,
    {
        let flag: &str = argv[i].text.as_str();
        assert(all[i as int].text == flag@);
        let kind: FlagKind = match find_kind(table, flag) {
            None => {
                return Err(
                    invalid_settings(
                        text::cat5(
                            "unknown flag ",
                            flag,
                            "; see `bayesite ",
                            command,
                            "` usage",
                        ),
                    ),
                );
            },
            Some(kind) => kind,
        };
        if argv.len() - i < 2 {
            return Err(invalid_settings(text::cat3("flag ", flag, " needs a value")));
        }
        let value: &Argument = &argv[i + 1];
        assert(all[i + 1] == value@);
        if text::starts_with(value.text.as_str(), "--") {
            return Err(
                invalid_settings(
                    text::cat4("flag ", flag, " needs a value before ", value.text.as_str()),
                ),
            );
        }
        let parsed: FlagValue = parse_flag_value(kind, flag, value, artifact)?;
        let ghost content = parsed@;
        let ghost before = flag_views(out@);
        let ghost old_out = out@;
        out.push((flag.to_owned(), parsed));
        proof {
            assert(flag_views(out@) =~= before.push((flag@, content)));
            let rest = scanned(command@, artifact@, all, flags, i + 2);
            if rest is Ok {
                assert(before + (seq![(flag@, content)] + rest->Ok_0) =~= before.push(
                    (flag@, content),
                ) + rest->Ok_0);
            }
        }
        i += 2;
    }
    proof {
        assert(flag_views(out@) + Seq::<(Seq<char>, FlagModel)>::empty() =~= flag_views(out@));
    }
    Ok(out)
}

/// The flags of a command with their values.
pub open spec fn flags_read(
    command: Seq<char>,
    artifact: Seq<char>,
    argv: Seq<ArgumentModel>,
    table: Seq<(Seq<char>, FlagKind)>,
) -> Result<Seq<(Seq<char>, FlagModel)>, Fault> {
    match repeat_fault(command, argv, table, Seq::empty(), 0) {
        Some(fault) => Err(fault),
        None => scanned(command, artifact, argv, table, 0),
    }
}

/// Reads the flags of a command.
pub fn read_flags(command: &str, artifact: &str, argv: &Vec<Argument>, table: &FlagTable) -> (r:
    Result<Vec<(String, FlagValue)>, Error>)
    ensures
        flags_outcome(r) == flags_read(
            command@,
            artifact@,
            list_views(argv@),
            table_view(table@),
        ),
{
    reject_duplicate_flags(command, argv, table)?;
    scan(command, artifact, argv, table)
}

/// The value of a flag, from an entry on.
pub open spec fn value_from(found: Seq<(Seq<char>, FlagModel)>, name: Seq<char>, i: int) -> Option<
    FlagModel,
>
    decreases found.len() - i,
{
    if i < 0 || i >= found.len() {
        None
    } else if found[i].0 == name {
        Some(found[i].1)
    } else {
        value_from(found, name, i + 1)
    }
}

/// The value of a flag where it is given.
pub open spec fn value_of(found: Seq<(Seq<char>, FlagModel)>, name: Seq<char>) -> Option<FlagModel> {
    value_from(found, name, 0)
}

/// The content of a borrowed value.
pub open spec fn value_view(value: Option<&FlagValue>) -> Option<FlagModel> {
    match value {
        Some(found) => Some(found@),
        None => None,
    }
}

/// The value of a flag where it is given.
pub fn find_value<'a>(found: &'a Vec<(String, FlagValue)>, name: &str) -> (r: Option<&'a FlagValue>)
    ensures
        value_view(r) == value_of(flag_views(found@), name@),
{
    let ghost all = flag_views(found@);
    let mut i: usize = 0;
    while i < found.len()
        invariant
            i <= found.len(),
            all == flag_views(found@),
            value_of(all, name@) == value_from(all, name@, i as int),
        decreases found.len() - i,
    {
        assert(all[i as int] == (found@[i as int].0@, found@[i as int].1@));
        if text::same(found[i].0.as_str(), name) {
            return Some(&found[i].1);
        }
        i += 1;
    }
    None
}

/// The text that a flag gives.
pub open spec fn text_given(found: Seq<(Seq<char>, FlagModel)>, name: Seq<char>) -> Option<Seq<char>> {
    match value_of(found, name) {
        Some(FlagModel::Text(s)) => Some(s),
        _ => None,
    }
}

/// The content of an optional text.
pub open spec fn optional_text(s: Option<String>) -> Option<Seq<char>> {
    match s {
        Some(found) => Some(found@),
        None => None,
    }
}

pub fn given_text(found: &Vec<(String, FlagValue)>, name: &str) -> (r: Option<String>)
    ensures
        optional_text(r) == text_given(flag_views(found@), name@),
{
    match find_value(found, name) {
        Some(FlagValue::Text(s)) => Some(s.clone()),
        _ => None,
    }
}

/// The text that a flag gives, or else a hyphen.
pub open spec fn text_or_hyphen(found: Seq<(Seq<char>, FlagModel)>, name: Seq<char>) -> Seq<char> {
    match text_given(found, name) {
        Some(s) => s,
        None => "-"@,
    }
}

pub fn given_text_or_hyphen(found: &Vec<(String, FlagValue)>, name: &str) -> (r: String)
    ensures
        r@ == text_or_hyphen(flag_views(found@), name@),
{
    match given_text(found, name) {
        Some(s) => s,
        None => "-".to_owned(),
    }
}

/// The count that a flag gives, or else a default.
pub open spec fn count_given(found: Seq<(Seq<char>, FlagModel)>, name: Seq<char>, default: u64) -> u64 {
    match value_of(found, name) {
        Some(FlagModel::Count(n)) => n,
        _ => default,
    }
}

pub fn given_count(found: &Vec<(String, FlagValue)>, name: &str, default: u64) -> (r: u64)
    ensures
        r == count_given(flag_views(found@), name@, default),
{
    match find_value(found, name) {
        Some(FlagValue::Count(n)) => *n,
        _ => default,
    }
}

/// The rate that a flag gives, or else a default.
pub open spec fn rate_given(
    found: Seq<(Seq<char>, FlagModel)>,
    name: Seq<char>,
    default: NumberModel,
) -> NumberModel {
    match value_of(found, name) {
        Some(FlagModel::Rate(n)) => n,
        _ => default,
    }
}

pub fn given_rate(found: &Vec<(String, FlagValue)>, name: &str, default: &Number) -> (r: Number)
    ensures
        r@ == rate_given(flag_views(found@), name@, default@),
{
    match find_value(found, name) {
        Some(FlagValue::Rate(n)) => n.copy(),
        _ => default.copy(),
    }
}

/// The text that a flag must give.
pub open spec fn text_required(
    found: Seq<(Seq<char>, FlagModel)>,
    name: Seq<char>,
    form: Seq<char>,
) -> Result<Seq<char>, Fault> {
    match text_given(found, name) {
        Some(s) => Ok(s),
        None => Err(settings_fault(name + " is required"@ + form)),
    }
}

/// The result of requiring a text.
pub open spec fn required_outcome(r: Result<String, Error>) -> Result<Seq<char>, Fault> {
    match r {
        Ok(s) => Ok(s@),
        Err(error) => Err(error@),
    }
}

pub fn require_text(found: &Vec<(String, FlagValue)>, name: &str, form: &str) -> (r: Result<
    String,
    Error,
>)
    ensures
        required_outcome(r) == text_required(flag_views(found@), name@, form@),
{
    match given_text(found, name) {
        Some(s) => Ok(s),
        None => Err(invalid_settings(text::cat3(name, " is required", form))),
    }
}

/// What is wrong with inputs of which two are standard input, from one on.
pub open spec fn stdin_fault(
    command: Seq<char>,
    inputs: Seq<(Seq<char>, Seq<char>)>,
    first: Option<Seq<char>>,
    i: int,
) -> Option<Fault>
    decreases inputs.len() - i,
{
    if i < 0 || i >= inputs.len() {
        None
    } else if inputs[i].1 != "-"@ {
        stdin_fault(command, inputs, first, i + 1)
    } else {
        match first {
            Some(name) => Some(
                settings_fault(
                    command + " accepts at most one stdin input; use a path for "@ + inputs[i].0
                        + " when "@ + name + " is -"@,
                ),
            ),
            None => stdin_fault(command, inputs, Some(inputs[i].0), i + 1),
        }
    }
}

/// No two of the inputs from one on are standard input.
pub open spec fn one_standard_input(inputs: Seq<(Seq<char>, Seq<char>)>, from: int) -> bool {
    forall|i: int, j: int|
        from <= i < j < inputs.len() ==> !((#[trigger] inputs[i]).1 == "-"@ && (
        #[trigger] inputs[j]).1 == "-"@)
}

proof fn lemma_standard_inputs(
    command: Seq<char>,
    inputs: Seq<(Seq<char>, Seq<char>)>,
    first: Option<Seq<char>>,
    i: int,
)
    requires
        0 <= i <= inputs.len(),
    ensures
        stdin_fault(command, inputs, first, i) is None <==> one_standard_input(inputs, i) && (first
            is Some ==> forall|k: int| i <= k < inputs.len() ==> (#[trigger] inputs[k]).1 != "-"@),
    decreases inputs.len() - i,
{
    if i < inputs.len() {
        let next = if inputs[i].1 == "-"@ {
            Some(inputs[i].0)
        } else {
            first
        };
        lemma_standard_inputs(command, inputs, next, i + 1);
        if inputs[i].1 == "-"@ && one_standard_input(inputs, i) {
            assert forall|k: int| i + 1 <= k < inputs.len() implies (#[trigger] inputs[k]).1
                != "-"@ by {
                assert(!(inputs[i].1 == "-"@ && inputs[k].1 == "-"@));
            }
        }
    }
}

/// Inputs are accepted exactly when at most one of them is standard input.
pub proof fn law_at_most_one_input_is_standard_input(
    command: Seq<char>,
    inputs: Seq<(Seq<char>, Seq<char>)>,
)
    ensures
        stdin_fault(command, inputs, None, 0) is None <==> one_standard_input(inputs, 0),
{
    lemma_standard_inputs(command, inputs, None, 0);
}

/// The content of named inputs.
pub open spec fn input_views(inputs: Seq<(&'static str, &str)>) -> Seq<(Seq<char>, Seq<char>)> {
    inputs.map_values(|entry: (&'static str, &str)| (entry.0@, entry.1@))
}

/// Refuses a second input from standard input.
pub fn validate_single_stdin_input(command: &str, inputs: &Vec<(&'static str, &str)>) -> (r: Result<
    (),
    Error,
>)
    ensures
        checked(r) == stdin_fault(command@, input_views(inputs@), None, 0),
{
    let ghost all = input_views(inputs@);
    let ghost whole = stdin_fault(command@, all, None, 0);
    let mut first: Option<&'static str> = None;
    let mut i: usize = 0;
    while i < inputs.len()
        invariant
            i <= inputs.len(),
            all == input_views(inputs@),
            whole == stdin_fault(command@, all, None, 0),
            whole == stdin_fault(
                command@,
                all,
                match first {
                    Some(name) => Some(name@),
                    None => None,
                },
                i as int,
            ),
        decreases inputs.len() - i,
    {
        assert(all[i as int] == (inputs@[i as int].0@, inputs@[i as int].1@));
        if text::same(inputs[i].1, "-") {
            match first {
                Some(name) => {
                    return Err(
                        invalid_settings(
                            text::cat6(
                                command,
                                " accepts at most one stdin input; use a path for ",
                                inputs[i].0,
                                " when ",
                                name,
                                " is -",
                            ),
                        ),
                    );
                },
                None => {
                    first = Some(inputs[i].0);
                },
            }
        }
        i += 1;
    }
    Ok(())
}

/// What is wrong with a rate.
pub open spec fn rate_fault(bits: u64, name: Seq<char>) -> Option<Fault> {
    if acceptance_rate(bits) {
        None
    } else {
        Some(settings_fault(name + " must be in (0, 1)"@))
    }
}

pub fn validate_target_accept(value: &Number, name: &str) -> (r: Result<(), Error>)
    ensures
        checked(r) == rate_fault(value.bits, name@),
{
    if less_than(value.bits, 0) || !less_than(value.bits, ONE_BITS) {
        Err(invalid_settings(text::cat2(name, " must be in (0, 1)")))
    } else {
        Ok(())
    }
}

/// What is wrong with a tree depth.
pub open spec fn treedepth_fault(value: usize, name: Seq<char>) -> Option<Fault> {
    if 1 <= value <= 20 {
        None
    } else {
        Some(settings_fault(name + " must be in 1..=20"@))
    }
}

pub fn validate_max_treedepth(value: usize, name: &str) -> (r: Result<(), Error>)
    ensures
        checked(r) == treedepth_fault(value, name@),
{
    if 1 <= value && value <= 20 {
        Ok(())
    } else {
        Err(invalid_settings(text::cat2(name, " must be in 1..=20")))
    }
}

/// What is wrong with a number of draws that diagnostics need.
pub open spec fn diagnostic_fault(value: usize, name: Seq<char>, artifact: Seq<char>) -> Option<Fault> {
    if value >= 4 {
        None
    } else {
        Some(
            settings_fault(
                name + " must be at least 4 because "@ + artifact + " include diagnostics"@,
            ),
        )
    }
}

pub fn validate_diagnostic_draws(value: usize, name: &str, artifact: &str) -> (r: Result<(), Error>)
    ensures
        checked(r) == diagnostic_fault(value, name@, artifact@),
{
    if value >= 4 {
        Ok(())
    } else {
        Err(
            invalid_settings(
                text::cat4(name, " must be at least 4 because ", artifact, " include diagnostics"),
            ),
        )
    }
}

} // verus!
