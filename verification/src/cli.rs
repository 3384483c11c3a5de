//! The command line.

use vstd::prelude::*;
use vstd::slice::slice_subrange;
use vstd::utf8::{decode_utf8, encode_utf8, valid_utf8};

use crate::bytes::{byte_lists, copy, optional_bytes, optional_slice, same};
use crate::encoding::{decode, lemma_decoded};
use crate::error::{failure, outcome, AppError, Outcome, Result};
use crate::number::{number_value, parse_number};
use crate::pieces::{contains_class, trim, trim_start, trimmed, without_start};
use crate::scripts::{parse_script_policy, policy_of, ScriptPolicy};
use crate::text::{chars, has_prefix, is, starts_with, string, strip_prefix, CharClass};

verus! {

/// The version of the program.
pub const VERSION: &'static str = "0.2.0";

/// The byte `-`.
pub const DASH: u8 = 0x2d;

/// The packager that is named when the user names none.
pub const DEFAULT_PACKAGER: &'static str = "debtap-rs local conversion";

/// The help text.
pub const HELP: &'static str = "debtap-rs - fast Debian-to-Arch package converter\n\
\n\
Usage:\n\
  debtap-rs [options] package.deb\n\
  debtap-rs install [--yes] package.deb\n\
  debtap-rs register-handler\n\
  debtap-rs --update\n\
\n\
Compatible options:\n\
  -o, --output DIR          Write output to DIR\n\
  -q, --quiet               Show only warnings and the result\n\
  -Q, --Quiet               Alias for --quiet\n\
  -w, --wipeout             Remove Debian version limits\n\
  -s, --pseudo              Mark an i686 package for x86_64 compatibility\n\
  -p, --pkgbuild            Also generate a PKGBUILD\n\
  -P, --Pkgbuild            Generate a PKGBUILD only\n\
  -u, --update              Check the local mapping and package catalog\n\
  -v, --version             Show the version\n\
  -h, --help                Show this help\n\
\n\
Additional options:\n\
      --compression-level N Use Zstandard level 1 through 19 (default: 3)\n\
      --scripts POLICY      Use safe, none, or raw maintainer scripts\n\
      --packager TEXT       Set the Arch packager field\n\
      --source-date-epoch N Set a deterministic build time\n\
      --no-mtree            Do not add .MTREE\n\
      --keep-work           Keep the private work directory\n\
      --force               Replace an existing output package\n\
\n\
Install commands:\n\
  install FILE              Convert, review, authorize, and install FILE\n\
  install --yes FILE        Skip the text confirmation (authorization remains)\n\
  register-handler          Make Debforge the default .deb file handler\n";

// ---------------------------------------------------------------------------
// Actions
// ---------------------------------------------------------------------------
/// Whether a PKGBUILD is written.
#[derive(Debug, Clone, Copy, PartialEq, Eq, Structural)]
pub enum PkgbuildMode {
    Skip,
    Also,
    Only,
}

/// The options of a conversion.  Paths are byte strings.
#[derive(Debug, Clone, PartialEq, Eq)]
pub struct ConvertOptions {
    pub input: Vec<u8>,
    pub output_dir: Option<Vec<u8>>,
    pub compression_level: u8,
    pub quiet: bool,
    pub force: bool,
    pub keep_work: bool,
    pub generate_mtree: bool,
    pub wipe_versions: bool,
    pub pseudo_64: bool,
    pub pkgbuild: PkgbuildMode,
    pub script_policy: ScriptPolicy,
    pub packager: String,
    pub source_date_epoch: Option<u64>,
}

/// The options of an installation.
#[derive(Debug, Clone, PartialEq, Eq)]
pub struct InstallOptions {
    pub input: Vec<u8>,
    pub assume_yes: bool,
}

/// What the user asks for.
#[derive(Debug, Clone, PartialEq, Eq)]
pub enum Action {
    Convert(ConvertOptions),
    Install(InstallOptions),
    RegisterHandler,
    Help,
    Version,
    Update,
}

/// The environment variables that the command line depends on, as far as they
/// are set to valid text.
#[derive(Debug, Clone, PartialEq, Eq)]
pub struct Environment {
    pub packager: Option<String>,
    pub source_date_epoch: Option<String>,
}

/// The mathematical value of [`ConvertOptions`].
pub struct ConvertModel {
    pub input: Seq<u8>,
    pub output_dir: Option<Seq<u8>>,
    pub compression_level: u8,
    pub quiet: bool,
    pub force: bool,
    pub keep_work: bool,
    pub generate_mtree: bool,
    pub wipe_versions: bool,
    pub pseudo_64: bool,
    pub pkgbuild: PkgbuildMode,
    pub script_policy: ScriptPolicy,
    pub packager: Seq<char>,
    pub source_date_epoch: Option<u64>,
}

/// The mathematical value of an [`Action`].
pub enum ActionModel {
    Convert(ConvertModel),
    Install { input: Seq<u8>, assume_yes: bool },
    RegisterHandler,
    Help,
    Version,
    Update,
}

impl DeepView for ConvertOptions {
    type V = ConvertModel;

    open spec fn deep_view(&self) -> ConvertModel {
        ConvertModel {
            input: self.input@,
            output_dir: optional_bytes(self.output_dir),
            compression_level: self.compression_level,
            quiet: self.quiet,
            force: self.force,
            keep_work: self.keep_work,
            generate_mtree: self.generate_mtree,
            wipe_versions: self.wipe_versions,
            pseudo_64: self.pseudo_64,
            pkgbuild: self.pkgbuild,
            script_policy: self.script_policy,
            packager: self.packager@,
            source_date_epoch: self.source_date_epoch,
        }
    }
}

impl DeepView for Action {
    type V = ActionModel;

    open spec fn deep_view(&self) -> ActionModel {
        match self {
            Action::Convert(options) => ActionModel::Convert(options.deep_view()),
            Action::Install(options) => ActionModel::Install {
                input: options.input@,
                assume_yes: options.assume_yes,
            },
            Action::RegisterHandler => ActionModel::RegisterHandler,
            Action::Help => ActionModel::Help,
            Action::Version => ActionModel::Version,
            Action::Update => ActionModel::Update,
        }
    }
}

// ---------------------------------------------------------------------------
// Values
// ---------------------------------------------------------------------------
/// The text of a value that must not be blank and must stand on one line.
pub open spec fn line_value(option: Seq<char>, value: Seq<char>) -> Outcome<Seq<char>> {
    if trim(value).len() == 0 {
        Err(option + " needs text."@)
    } else if value.contains('\n') || value.contains('\r') {
        Err(option + " cannot contain a new line."@)
    } else {
        Ok(trim(value))
    }
}

/// A compression level.
pub open spec fn level_value(value: Seq<char>) -> Outcome<u8> {
    match number_value(value, u8::MAX as int) {
        Err(fault) => Err(
            "Invalid Zstandard compression level '"@ + value + "': "@ + fault.description(),
        ),
        Ok(level) => if 1 <= level <= 19 {
            Ok(level as u8)
        } else {
            Err("The Zstandard compression level must be from 1 through 19."@)
        },
    }
}

/// A number of seconds.
pub open spec fn seconds_value(name: Seq<char>, value: Seq<char>) -> Outcome<u64> {
    match number_value(value, u64::MAX as int) {
        Err(fault) => Err(
            "Invalid "@ + name + " value '"@ + value + "': "@ + fault.description(),
        ),
        Ok(seconds) => Ok(seconds as u64),
    }
}

fn has_character(text: &[char], character: char) -> (result: bool)
    ensures
        result == text@.contains(character),
{
    let class = CharClass::Exactly(character);
    let result = contains_class(text, class);
    proof {
        if result {
            let at = choose|at: int| 0 <= at < text@.len() && class.has(#[trigger] text@[at]);
            assert(text@[at] == character);
        } else if text@.contains(character) {
            let at = choose|at: int| 0 <= at < text@.len() && text@[at] == character;
            assert(class.has(text@[at]));
        }
    }
    result
}

fn nonempty_text(option: &[char], value: &[char]) -> (result: Result<String>)
    ensures
        match result {
            Ok(text) => line_value(option@, value@) == Ok::<Seq<char>, Seq<char>>(text@),
            Err(error) => line_value(option@, value@) == Err::<Seq<char>, Seq<char>>(error@),
        },
{
    let useful = trimmed(value);
    if useful.len() == 0 {
        return Err(AppError::new(string(option).concat(" needs text.")));
    }
    if has_character(value, '\n') || has_character(value, '\r') {
        return Err(AppError::new(string(option).concat(" cannot contain a new line.")));
    }
    Ok(string(useful))
}

fn parse_compression_level(value: &[char]) -> (result: Result<u8>)
    ensures
        match result {
            Ok(level) => level_value(value@) == Ok::<u8, Seq<char>>(level),
            Err(error) => level_value(value@) == Err::<u8, Seq<char>>(error@),
        },
{
    match parse_number(value, u8::MAX as u64) {
        Err(fault) => Err(
            AppError::new(
                String::from_str("Invalid Zstandard compression level '").concat(
                    string(value).as_str(),
                ).concat("': ").concat(fault.describe()),
            ),
        ),
        Ok(level) => if 1 <= level && level <= 19 {
            Ok(level as u8)
        } else {
            Err(failure("The Zstandard compression level must be from 1 through 19."))
        },
    }
}

fn parse_u64(name: &[char], value: &[char]) -> (result: Result<u64>)
    ensures
        match result {
            Ok(seconds) => seconds_value(name@, value@) == Ok::<u64, Seq<char>>(seconds),
            Err(error) => seconds_value(name@, value@) == Err::<u64, Seq<char>>(error@),
        },
{
    match parse_number(value, u64::MAX) {
        Err(fault) => Err(
            AppError::new(
                String::from_str("Invalid ").concat(string(name).as_str()).concat(" value '").concat(
                    string(value).as_str(),
                ).concat("': ").concat(fault.describe()),
            ),
        ),
        Ok(seconds) => Ok(seconds),
    }
}

// ---------------------------------------------------------------------------
// Options
// ---------------------------------------------------------------------------
/// An action that needs no package.
#[derive(Debug, Clone, Copy, PartialEq, Eq, Structural)]
pub enum Request {
    Help,
    Version,
    Update,
}

/// An option without a value.
#[derive(Debug, Clone, Copy, PartialEq, Eq, Structural)]
pub enum Flag {
    Request(Request),
    Quiet,
    WipeVersions,
    Pseudo,
    Pkgbuild(PkgbuildMode),
    Force,
    KeepWork,
    NoMtree,
}

/// An option with a value.
#[derive(Debug, Clone, Copy, PartialEq, Eq, Structural)]
pub enum Setting {
    Output,
    CompressionLevel,
    Scripts,
    Packager,
    SourceDateEpoch,
}

/// What the arguments said so far.
pub struct CommandModel {
    pub input: Option<Seq<u8>>,
    pub output_dir: Option<Seq<u8>>,
    pub compression_level: u8,
    pub quiet: bool,
    pub force: bool,
    pub keep_work: bool,
    pub generate_mtree: bool,
    pub wipe_versions: bool,
    pub pseudo_64: bool,
    pub pkgbuild: PkgbuildMode,
    pub script_policy: ScriptPolicy,
    pub packager: Seq<char>,
    pub source_date_epoch: Option<u64>,
    pub positional_only: bool,
    pub requested: Option<Request>,
}

/// The option without a value that a text names.
pub open spec fn flag_of(text: Seq<char>) -> Option<Flag> {
    if text == "-h"@ || text == "--help"@ {
        Some(Flag::Request(Request::Help))
    } else if text == "-v"@ || text == "--version"@ {
        Some(Flag::Request(Request::Version))
    } else if text == "-u"@ || text == "--update"@ {
        Some(Flag::Request(Request::Update))
    } else if text == "-q"@ || text == "-Q"@ || text == "--quiet"@ || text == "--Quiet"@ {
        Some(Flag::Quiet)
    } else if text == "-w"@ || text == "--wipeout"@ {
        Some(Flag::WipeVersions)
    } else if text == "-s"@ || text == "--pseudo"@ {
        Some(Flag::Pseudo)
    } else if text == "-p"@ || text == "--pkgbuild"@ {
        Some(Flag::Pkgbuild(PkgbuildMode::Also))
    } else if text == "-P"@ || text == "--Pkgbuild"@ {
        Some(Flag::Pkgbuild(PkgbuildMode::Only))
    } else if text == "--force"@ {
        Some(Flag::Force)
    } else if text == "--keep-work"@ {
        Some(Flag::KeepWork)
    } else if text == "--no-mtree"@ {
        Some(Flag::NoMtree)
    } else {
        None
    }
}

fn find_flag(text: &[char]) -> (result: Option<Flag>)
    ensures
        result == flag_of(text@),
{
    if is(text, "-h") || is(text, "--help") {
        Some(Flag::Request(Request::Help))
    } else if is(text, "-v") || is(text, "--version") {
        Some(Flag::Request(Request::Version))
    } else if is(text, "-u") || is(text, "--update") {
        Some(Flag::Request(Request::Update))
    } else if is(text, "-q") || is(text, "-Q") || is(text, "--quiet") || is(text, "--Quiet") {
        Some(Flag::Quiet)
    } else if is(text, "-w") || is(text, "--wipeout") {
        Some(Flag::WipeVersions)
    } else if is(text, "-s") || is(text, "--pseudo") {
        Some(Flag::Pseudo)
    } else if is(text, "-p") || is(text, "--pkgbuild") {
        Some(Flag::Pkgbuild(PkgbuildMode::Also))
    } else if is(text, "-P") || is(text, "--Pkgbuild") {
        Some(Flag::Pkgbuild(PkgbuildMode::Only))
    } else if is(text, "--force") {
        Some(Flag::Force)
    } else if is(text, "--keep-work") {
        Some(Flag::KeepWork)
    } else if is(text, "--no-mtree") {
        Some(Flag::NoMtree)
    } else {
        None
    }
}

/// The option that a text names and whose value is the next argument.
pub open spec fn setting_of(text: Seq<char>) -> Option<Setting> {
    if text == "-o"@ || text == "--output"@ {
        Some(Setting::Output)
    } else if text == "--compression-level"@ {
        Some(Setting::CompressionLevel)
    } else if text == "--scripts"@ {
        Some(Setting::Scripts)
    } else if text == "--packager"@ {
        Some(Setting::Packager)
    } else if text == "--source-date-epoch"@ {
        Some(Setting::SourceDateEpoch)
    } else {
        None
    }
}

fn find_setting(text: &[char]) -> (result: Option<Setting>)
    ensures
        result == setting_of(text@),
{
    if is(text, "-o") || is(text, "--output") {
        Some(Setting::Output)
    } else if is(text, "--compression-level") {
        Some(Setting::CompressionLevel)
    } else if is(text, "--scripts") {
        Some(Setting::Scripts)
    } else if is(text, "--packager") {
        Some(Setting::Packager)
    } else if is(text, "--source-date-epoch") {
        Some(Setting::SourceDateEpoch)
    } else {
        None
    }
}

/// The option, its name and its value in a text with an equals sign.
pub open spec fn assignment_of(text: Seq<char>) -> Option<(Setting, Seq<char>, Seq<char>)> {
    if has_prefix(text, "--output="@) {
        Some((Setting::Output, "--output"@, text.skip("--output="@.len() as int)))
    } else if has_prefix(text, "--compression-level="@) {
        Some(
            (
                Setting::CompressionLevel,
                "--compression-level"@,
                text.skip("--compression-level="@.len() as int),
            ),
        )
    } else if has_prefix(text, "--scripts="@) {
        Some((Setting::Scripts, "--scripts"@, text.skip("--scripts="@.len() as int)))
    } else if has_prefix(text, "--packager="@) {
        Some((Setting::Packager, "--packager"@, text.skip("--packager="@.len() as int)))
    } else if has_prefix(text, "--source-date-epoch="@) {
        Some(
            (
                Setting::SourceDateEpoch,
                "--source-date-epoch"@,
                text.skip("--source-date-epoch="@.len() as int),
            ),
        )
    } else {
        None
    }
}

fn find_assignment<'a>(text: &'a [char]) -> (result: Option<(Setting, &'static str, &'a [char])>)
    ensures
        match result {
            Some((setting, name, value)) => assignment_of(text@) == Some((setting, name@, value@)),
            None => assignment_of(text@) is None,
        },
{
    if let Some(value) = strip_prefix(text, "--output=") {
        return Some((Setting::Output, "--output", value));
    }
    if let Some(value) = strip_prefix(text, "--compression-level=") {
        return Some((Setting::CompressionLevel, "--compression-level", value));
    }
    if let Some(value) = strip_prefix(text, "--scripts=") {
        return Some((Setting::Scripts, "--scripts", value));
    }
    if let Some(value) = strip_prefix(text, "--packager=") {
        return Some((Setting::Packager, "--packager", value));
    }
    if let Some(value) = strip_prefix(text, "--source-date-epoch=") {
        return Some((Setting::SourceDateEpoch, "--source-date-epoch", value));
    }
    None
}

/// The flag behind a letter of a group of short options.
pub open spec fn letter_flag(letter: char) -> Option<Flag> {
    match letter {
        'q' => Some(Flag::Quiet),
        'Q' => Some(Flag::Quiet),
        'w' => Some(Flag::WipeVersions),
        's' => Some(Flag::Pseudo),
        'p' => Some(Flag::Pkgbuild(PkgbuildMode::Also)),
        'P' => Some(Flag::Pkgbuild(PkgbuildMode::Only)),
        _ => None,
    }
}

fn find_letter(letter: char) -> (result: Option<Flag>)
    ensures
        result == letter_flag(letter),
{
    match letter {
        'q' => Some(Flag::Quiet),
        'Q' => Some(Flag::Quiet),
        'w' => Some(Flag::WipeVersions),
        's' => Some(Flag::Pseudo),
        'p' => Some(Flag::Pkgbuild(PkgbuildMode::Also)),
        'P' => Some(Flag::Pkgbuild(PkgbuildMode::Only)),
        _ => None,
    }
}

/// The command with a flag.
pub open spec fn with_flag(command: CommandModel, flag: Flag) -> CommandModel {
    match flag {
        Flag::Request(request) => CommandModel { requested: Some(request), ..command },
        Flag::Quiet => CommandModel { quiet: true, ..command },
        Flag::WipeVersions => CommandModel { wipe_versions: true, ..command },
        Flag::Pseudo => CommandModel { pseudo_64: true, ..command },
        Flag::Pkgbuild(mode) => CommandModel { pkgbuild: mode, ..command },
        Flag::Force => CommandModel { force: true, ..command },
        Flag::KeepWork => CommandModel { keep_work: true, ..command },
        Flag::NoMtree => CommandModel { generate_mtree: false, ..command },
    }
}

/// The command with the flags of a group of short options.
pub open spec fn with_letters(command: CommandModel, letters: Seq<char>, text: Seq<char>) -> Outcome<
    CommandModel,
>
    decreases letters.len(),
{
    if letters.len() == 0 {
        Ok(command)
    } else {
        match with_letters(command, letters.drop_last(), text) {
            Err(message) => Err(message),
            Ok(before) => match letter_flag(letters.last()) {
                Some(flag) => Ok(with_flag(before, flag)),
                None => Err(
                    "Unknown short option '-"@ + seq![letters.last()] + "' in '"@ + text + "'."@,
                ),
            },
        }
    }
}

/// The command with the value of an option.
pub open spec fn with_setting(
    command: CommandModel,
    setting: Setting,
    option: Seq<char>,
    value: Seq<char>,
) -> Outcome<CommandModel> {
    match setting {
        Setting::Output => if value.len() == 0 {
            Err(option + " needs a path."@)
        } else {
            Ok(CommandModel { output_dir: Some(encode_utf8(value)), ..command })
        },
        Setting::CompressionLevel => match level_value(value) {
            Err(message) => Err(message),
            Ok(level) => Ok(CommandModel { compression_level: level, ..command }),
        },
        Setting::Scripts => match policy_of(value) {
            Err(message) => Err(message),
            Ok(policy) => Ok(CommandModel { script_policy: policy, ..command }),
        },
        Setting::Packager => match line_value(option, value) {
            Err(message) => Err(message),
            Ok(packager) => Ok(CommandModel { packager, ..command }),
        },
        Setting::SourceDateEpoch => match seconds_value(option, value) {
            Err(message) => Err(message),
            Ok(seconds) => Ok(CommandModel { source_date_epoch: Some(seconds), ..command }),
        },
    }
}

/// The command with an option whose value is the next argument, if there is
/// one.
pub open spec fn with_next(
    command: CommandModel,
    setting: Setting,
    option: Seq<char>,
    next: Option<Seq<u8>>,
) -> Outcome<CommandModel> {
    match next {
        Some(value) if value.len() > 0 => if setting == Setting::Output {
            Ok(CommandModel { output_dir: Some(value), ..command })
        } else if valid_utf8(value) {
            with_setting(command, setting, option, decode_utf8(value))
        } else {
            Err(option + " needs a value."@)
        },
        _ => if setting == Setting::Output {
            Err(option + " needs a path."@)
        } else {
            Err(option + " needs a value."@)
        },
    }
}

/// The command with an input.
pub open spec fn with_input(input: Option<Seq<u8>>, value: Seq<u8>) -> Outcome<Option<Seq<u8>>> {
    if input is Some {
        Err("Only one Debian package can be converted at a time."@)
    } else {
        Ok(Some(value))
    }
}

/// The argument starts with a dash.
pub open spec fn is_dashed(argument: Seq<u8>) -> bool {
    argument.len() > 0 && argument[0] == DASH
}

/// The command after one option, and whether it took the next argument too.
pub open spec fn after_option(command: CommandModel, text: Seq<char>, next: Option<Seq<u8>>) -> Outcome<
    (CommandModel, bool),
> {
    match assignment_of(text) {
        Some((setting, option, value)) => match with_setting(command, setting, option, value) {
            Err(message) => Err(message),
            Ok(more) => Ok((more, false)),
        },
        None => match flag_of(text) {
            Some(flag) => Ok((with_flag(command, flag), false)),
            None => match setting_of(text) {
                Some(setting) => match with_next(command, setting, text, next) {
                    Err(message) => Err(message),
                    Ok(more) => Ok((more, true)),
                },
                None => if has_prefix(text, "-"@) && !has_prefix(text, "--"@) {
                    match with_letters(command, trim_start(text, CharClass::Exactly('-')), text) {
                        Err(message) => Err(message),
                        Ok(more) => Ok((more, false)),
                    }
                } else {
                    Err("Unknown option: "@ + text)
                },
            },
        },
    }
}

/// The command after the next argument, and whether it took the one behind it
/// too.
pub open spec fn after_argument(
    command: CommandModel,
    argument: Seq<u8>,
    next: Option<Seq<u8>>,
) -> Outcome<(CommandModel, bool)> {
    if command.positional_only || !is_dashed(argument) {
        match with_input(command.input, argument) {
            Err(message) => Err(message),
            Ok(input) => Ok((CommandModel { input, ..command }, false)),
        }
    } else if argument == encode_utf8("--"@) {
        Ok((CommandModel { positional_only: true, ..command }, false))
    } else if !valid_utf8(argument) {
        Err("An option contains text that is not valid UTF-8."@)
    } else {
        after_option(command, decode_utf8(argument), next)
    }
}

/// The argument at an index.
pub open spec fn argument_at(arguments: Seq<Seq<u8>>, index: int) -> Option<Seq<u8>> {
    if 0 <= index < arguments.len() {
        Some(arguments[index])
    } else {
        None
    }
}

/// The command after the arguments from an index on.
pub open spec fn after_arguments(
    command: CommandModel,
    arguments: Seq<Seq<u8>>,
    index: int,
) -> Outcome<CommandModel>
    decreases arguments.len() - index,
{
    if !(0 <= index < arguments.len()) {
        Ok(command)
    } else {
        match after_argument(command, arguments[index], argument_at(arguments, index + 1)) {
            Err(message) => Err(message),
            Ok((more, took_next)) => after_arguments(
                more,
                arguments,
                index + if took_next {
                    2int
                } else {
                    1
                },
            ),
        }
    }
}

/// The command before the first argument.
pub open spec fn new_command(packager: Option<Seq<char>>, epoch: Option<Seq<char>>) -> Outcome<
    CommandModel,
> {
    let command = CommandModel {
        input: None,
        output_dir: None,
        compression_level: 3,
        quiet: false,
        force: false,
        keep_work: false,
        generate_mtree: true,
        wipe_versions: false,
        pseudo_64: false,
        pkgbuild: PkgbuildMode::Skip,
        script_policy: ScriptPolicy::Safe,
        packager: match packager {
            Some(name) if trim(name).len() > 0 => name,
            _ => DEFAULT_PACKAGER@,
        },
        source_date_epoch: None,
        positional_only: false,
        requested: None,
    };
    match epoch {
        None => Ok(command),
        Some(value) => match seconds_value("SOURCE_DATE_EPOCH"@, value) {
            Err(message) => Err(message),
            Ok(seconds) => Ok(CommandModel { source_date_epoch: Some(seconds), ..command }),
        },
    }
}

/// The action that a complete command stands for.
pub open spec fn command_action(command: CommandModel) -> Outcome<ActionModel> {
    match command.requested {
        Some(Request::Help) => Ok(ActionModel::Help),
        Some(Request::Version) => Ok(ActionModel::Version),
        Some(Request::Update) => Ok(ActionModel::Update),
        None => match command.input {
            None => Err(
                "No Debian package was given. Use debtap-rs [options] package.deb."@,
            ),
            Some(input) => Ok(
                ActionModel::Convert(
                    ConvertModel {
                        input,
                        output_dir: command.output_dir,
                        compression_level: command.compression_level,
                        quiet: command.quiet,
                        force: command.force,
                        keep_work: command.keep_work,
                        generate_mtree: command.generate_mtree,
                        wipe_versions: command.wipe_versions,
                        pseudo_64: command.pseudo_64,
                        pkgbuild: command.pkgbuild,
                        script_policy: command.script_policy,
                        packager: command.packager,
                        source_date_epoch: command.source_date_epoch,
                    },
                ),
            ),
        },
    }
}

/// The action that arguments and the environment stand for.
pub open spec fn action_of(
    arguments: Seq<Seq<u8>>,
    packager: Option<Seq<char>>,
    epoch: Option<Seq<char>>,
) -> Outcome<ActionModel> {
    if arguments.len() > 0 && arguments[0] == encode_utf8("install"@) {
        install_action(arguments.skip(1))
    } else if arguments.len() > 0 && arguments[0] == encode_utf8("register-handler"@) {
        if arguments.len() != 1 {
            Err("register-handler does not accept additional arguments."@)
        } else {
            Ok(ActionModel::RegisterHandler)
        }
    } else {
        match new_command(packager, epoch) {
            Err(message) => Err(message),
            Ok(start) => match after_arguments(start, arguments, 0) {
                Err(message) => Err(message),
                Ok(command) => command_action(command),
            },
        }
    }
}

// ---------------------------------------------------------------------------
// Installation
// ---------------------------------------------------------------------------
/// What the arguments of an installation said so far.
pub struct InstallModel {
    pub input: Option<Seq<u8>>,
    pub assume_yes: bool,
    pub positional_only: bool,
    /// The user asked for the help text.
    pub help: bool,
}

/// The installation after one more argument.
pub open spec fn after_install_argument(install: InstallModel, argument: Seq<u8>) -> Outcome<
    InstallModel,
> {
    if install.help {
        Ok(install)
    } else if install.positional_only || !is_dashed(argument) {
        match with_input(install.input, argument) {
            Err(message) => Err(message),
            Ok(input) => Ok(InstallModel { input, ..install }),
        }
    } else if argument == encode_utf8("--"@) {
        Ok(InstallModel { positional_only: true, ..install })
    } else if !valid_utf8(argument) {
        Err("An install option is not valid UTF-8."@)
    } else {
        let text = decode_utf8(argument);
        if text == "-y"@ || text == "--yes"@ {
            Ok(InstallModel { assume_yes: true, ..install })
        } else if text == "-h"@ || text == "--help"@ {
            Ok(InstallModel { help: true, ..install })
        } else {
            Err("Unknown install option: "@ + text)
        }
    }
}

/// The installation after a list of arguments.
pub open spec fn after_install_arguments(arguments: Seq<Seq<u8>>) -> Outcome<InstallModel>
    decreases arguments.len(),
{
    if arguments.len() == 0 {
        Ok(InstallModel { input: None, assume_yes: false, positional_only: false, help: false })
    } else {
        match after_install_arguments(arguments.drop_last()) {
            Err(message) => Err(message),
            Ok(install) => after_install_argument(install, arguments.last()),
        }
    }
}

/// The action that the arguments of an installation stand for.
pub open spec fn install_action(arguments: Seq<Seq<u8>>) -> Outcome<ActionModel> {
    match after_install_arguments(arguments) {
        Err(message) => Err(message),
        Ok(install) => if install.help {
            Ok(ActionModel::Help)
        } else {
            match install.input {
                None => Err("No Debian package was given. Use debtap-rs install package.deb."@),
                Some(input) => Ok(
                    ActionModel::Install { input, assume_yes: install.assume_yes },
                ),
            }
        },
    }
}

// ---------------------------------------------------------------------------
// Parser
// ---------------------------------------------------------------------------
struct CommandState {
    input: Option<Vec<u8>>,
    output_dir: Option<Vec<u8>>,
    compression_level: u8,
    quiet: bool,
    force: bool,
    keep_work: bool,
    generate_mtree: bool,
    wipe_versions: bool,
    pseudo_64: bool,
    pkgbuild: PkgbuildMode,
    script_policy: ScriptPolicy,
    packager: String,
    source_date_epoch: Option<u64>,
    positional_only: bool,
    requested: Option<Request>,
}

impl DeepView for CommandState {
    type V = CommandModel;

    closed spec fn deep_view(&self) -> CommandModel {
        CommandModel {
            input: optional_bytes(self.input),
            output_dir: optional_bytes(self.output_dir),
            compression_level: self.compression_level,
            quiet: self.quiet,
            force: self.force,
            keep_work: self.keep_work,
            generate_mtree: self.generate_mtree,
            wipe_versions: self.wipe_versions,
            pseudo_64: self.pseudo_64,
            pkgbuild: self.pkgbuild,
            script_policy: self.script_policy,
            packager: self.packager@,
            source_date_epoch: self.source_date_epoch,
            positional_only: self.positional_only,
            requested: self.requested,
        }
    }
}

fn is_option(argument: &[u8]) -> (result: bool)
    ensures
        result == is_dashed(argument@),
{
    argument.len() > 0 && argument[0] == DASH
}

fn set_input(input: &mut Option<Vec<u8>>, value: &[u8]) -> (result: Result<()>)
    ensures
        match result {
            Ok(_) => with_input(optional_bytes(*old(input)), value@) == Ok::<
                Option<Seq<u8>>,
                Seq<char>,
            >(optional_bytes(*final(input))),
            Err(error) => with_input(optional_bytes(*old(input)), value@) == Err::<
                Option<Seq<u8>>,
                Seq<char>,
            >(error@),
        },
{
    if input.is_some() {
        return Err(failure("Only one Debian package can be converted at a time."));
    }
    *input = Some(copy(value));
    Ok(())
}

/// The text of an argument, if it is UTF-8.
fn argument_text(argument: &[u8]) -> (result: Option<Vec<char>>)
    ensures
        match result {
            Some(text) => valid_utf8(argument@) && text@ == decode_utf8(argument@),
            None => !valid_utf8(argument@),
        },
{
    match decode(argument) {
        Ok(text) => {
            proof {
                lemma_decoded(text@, argument@);
            }
            Some(chars(text.as_str()))
        },
        Err(_) => None,
    }
}

impl CommandState {
    fn set_flag(&mut self, flag: Flag)
        ensures
            final(self).deep_view() == with_flag(old(self).deep_view(), flag),
    {
        match flag {
            Flag::Request(request) => self.requested = Some(request),
            Flag::Quiet => self.quiet = true,
            Flag::WipeVersions => self.wipe_versions = true,
            Flag::Pseudo => self.pseudo_64 = true,
            Flag::Pkgbuild(mode) => self.pkgbuild = mode,
            Flag::Force => self.force = true,
            Flag::KeepWork => self.keep_work = true,
            Flag::NoMtree => self.generate_mtree = false,
        }
    }

    fn parse_short_group(&mut self, text: &[char]) -> (result: Result<()>)
        ensures
            match result {
                Ok(_) => with_letters(
                    old(self).deep_view(),
                    trim_start(text@, CharClass::Exactly('-')),
                    text@,
                ) == Ok::<CommandModel, Seq<char>>(final(self).deep_view()),
                Err(error) => with_letters(
                    old(self).deep_view(),
                    trim_start(text@, CharClass::Exactly('-')),
                    text@,
                ) == Err::<CommandModel, Seq<char>>(error@),
            },
    {
        let letters = without_start(text, CharClass::Exactly('-'));
        let ghost start = self.deep_view();
        for index in 0..letters.len()
            invariant
                with_letters(start, letters@.take(index as int), text@) == Ok::<
                    CommandModel,
                    Seq<char>,
                >(self.deep_view()),
                start == old(self).deep_view(),
                letters@ == trim_start(text@, CharClass::Exactly('-')),
        {
            let letter = letters[index];
            proof {
                assert(letters@.take(index + 1).drop_last() == letters@.take(index as int));
                assert(letters@.take(index + 1).last() == letter);
            }
            match find_letter(letter) {
                Some(flag) => self.set_flag(flag),
                None => {
                    proof {
                        lemma_letters_prefix(start, letters@, text@, index + 1);
                    }
                    let mut message = String::from_str("Unknown short option '-");
                    let ghost before = message@;
                    message.push(letter);
                    assert(message@ =~= before + seq![letter]);
                    return Err(
                        AppError::new(
                            message.concat("' in '").concat(string(text).as_str()).concat("'."),
                        ),
                    );
                },
            }
        }
        assert(letters@.take(letters@.len() as int) == letters@);
        Ok(())
    }

    fn set_value(&mut self, setting: Setting, option: &[char], value: &[char]) -> (result: Result<
        (),
    >)
        ensures
            match result {
                Ok(_) => with_setting(old(self).deep_view(), setting, option@, value@) == Ok::<
                    CommandModel,
                    Seq<char>,
                >(final(self).deep_view()),
                Err(error) => with_setting(old(self).deep_view(), setting, option@, value@) == Err::<
                    CommandModel,
                    Seq<char>,
                >(error@),
            },
    {
        match setting {
            Setting::Output => {
                if value.len() == 0 {
                    return Err(AppError::new(string(option).concat(" needs a path.")));
                }
                let text = string(value);
                self.output_dir = Some(copy(text.as_str().as_bytes()));
            },
            Setting::CompressionLevel => {
                self.compression_level = parse_compression_level(value)?;
            },
            Setting::Scripts => {
                self.script_policy = parse_script_policy(value)?;
            },
            Setting::Packager => {
                self.packager = nonempty_text(option, value)?;
            },
            Setting::SourceDateEpoch => {
                self.source_date_epoch = Some(parse_u64(option, value)?);
            },
        }
        Ok(())
    }

    fn set_next(&mut self, setting: Setting, option: &[char], next: Option<&[u8]>) -> (result:
        Result<()>)
        ensures
            match result {
                Ok(_) => with_next(
                    old(self).deep_view(),
                    setting,
                    option@,
                    optional_slice(next),
                ) == Ok::<CommandModel, Seq<char>>(final(self).deep_view()),
                Err(error) => with_next(
                    old(self).deep_view(),
                    setting,
                    option@,
                    optional_slice(next),
                ) == Err::<CommandModel, Seq<char>>(error@),
            },
    {
        if setting == Setting::Output {
            if let Some(value) = next {
                if value.len() > 0 {
                    self.output_dir = Some(copy(value));
                    return Ok(());
                }
            }
            return Err(AppError::new(string(option).concat(" needs a path.")));
        }
        if let Some(value) = next {
            if value.len() > 0 {
                if let Some(text) = argument_text(value) {
                    return self.set_value(setting, option, text.as_slice());
                }
            }
        }
        Err(AppError::new(string(option).concat(" needs a value.")))
    }

    fn read_option(&mut self, text: &[char], next: Option<&[u8]>) -> (result: Result<bool>)
        ensures
            match result {
                Ok(took_next) => after_option(
                    old(self).deep_view(),
                    text@,
                    optional_slice(next),
                ) == Ok::<(CommandModel, bool), Seq<char>>((final(self).deep_view(), took_next)),
                Err(error) => after_option(old(self).deep_view(), text@, optional_slice(next))
                    == Err::<(CommandModel, bool), Seq<char>>(error@),
            },
    {
        if let Some((setting, name, value)) = find_assignment(text) {
            let option = chars(name);
            self.set_value(setting, option.as_slice(), value)?;
            return Ok(false);
        }
        if let Some(flag) = find_flag(text) {
            self.set_flag(flag);
            return Ok(false);
        }
        if let Some(setting) = find_setting(text) {
            self.set_next(setting, text, next)?;
            return Ok(true);
        }
        if starts_with(text, "-") && !starts_with(text, "--") {
            self.parse_short_group(text)?;
            return Ok(false);
        }
        Err(AppError::new(String::from_str("Unknown option: ").concat(string(text).as_str())))
    }

    fn read_argument(&mut self, argument: &[u8], next: Option<&[u8]>) -> (result: Result<bool>)
        ensures
            match result {
                Ok(took_next) => after_argument(
                    old(self).deep_view(),
                    argument@,
                    optional_slice(next),
                ) == Ok::<(CommandModel, bool), Seq<char>>((final(self).deep_view(), took_next)),
                Err(error) => after_argument(
                    old(self).deep_view(),
                    argument@,
                    optional_slice(next),
                ) == Err::<(CommandModel, bool), Seq<char>>(error@),
            },
    {
        if self.positional_only || !is_option(argument) {
            set_input(&mut self.input, argument)?;
            return Ok(false);
        }
        if same(argument, "--".as_bytes()) {
            self.positional_only = true;
            return Ok(false);
        }
        match argument_text(argument) {
            Some(text) => self.read_option(text.as_slice(), next),
            None => Err(failure("An option contains text that is not valid UTF-8.")),
        }
    }
}

proof fn lemma_letters_prefix(
    command: CommandModel,
    letters: Seq<char>,
    text: Seq<char>,
    length: int,
)
    requires
        0 <= length <= letters.len(),
        with_letters(command, letters.take(length), text) is Err,
    ensures
        with_letters(command, letters, text) == with_letters(command, letters.take(length), text),
    decreases letters.len(),
{
    if length < letters.len() {
        assert(letters.drop_last().take(length) == letters.take(length));
        lemma_letters_prefix(command, letters.drop_last(), text, length);
    } else {
        assert(letters.take(length) == letters);
    }
}

fn start_command(environment: &Environment) -> (result: Result<CommandState>)
    ensures
        match result {
            Ok(command) => new_command(
                environment.packager.deep_view(),
                environment.source_date_epoch.deep_view(),
            ) == Ok::<CommandModel, Seq<char>>(command.deep_view()),
            Err(error) => new_command(
                environment.packager.deep_view(),
                environment.source_date_epoch.deep_view(),
            ) == Err::<CommandModel, Seq<char>>(error@),
        },
{
    let mut packager = String::from_str(DEFAULT_PACKAGER);
    if let Some(name) = &environment.packager {
        let characters = chars(name.as_str());
        if trimmed(characters.as_slice()).len() > 0 {
            packager = name.clone();
        }
    }
    let source_date_epoch = match &environment.source_date_epoch {
        None => None,
        Some(value) => {
            let name = chars("SOURCE_DATE_EPOCH");
            let characters = chars(value.as_str());
            Some(parse_u64(name.as_slice(), characters.as_slice())?)
        },
    };
    Ok(
        CommandState {
            input: None,
            output_dir: None,
            compression_level: 3,
            quiet: false,
            force: false,
            keep_work: false,
            generate_mtree: true,
            wipe_versions: false,
            pseudo_64: false,
            pkgbuild: PkgbuildMode::Skip,
            script_policy: ScriptPolicy::Safe,
            packager,
            source_date_epoch,
            positional_only: false,
            requested: None,
        },
    )
}

fn finish_command(command: CommandState) -> (result: Result<Action>)
    ensures
        outcome(result) == command_action(command.deep_view()),
{
    match command.requested {
        Some(Request::Help) => return Ok(Action::Help),
        Some(Request::Version) => return Ok(Action::Version),
        Some(Request::Update) => return Ok(Action::Update),
        None => {},
    }
    match command.input {
        None => Err(failure("No Debian package was given. Use debtap-rs [options] package.deb.")),
        Some(input) => Ok(
            Action::Convert(
                ConvertOptions {
                    input,
                    output_dir: command.output_dir,
                    compression_level: command.compression_level,
                    quiet: command.quiet,
                    force: command.force,
                    keep_work: command.keep_work,
                    generate_mtree: command.generate_mtree,
                    wipe_versions: command.wipe_versions,
                    pseudo_64: command.pseudo_64,
                    pkgbuild: command.pkgbuild,
                    script_policy: command.script_policy,
                    packager: command.packager,
                    source_date_epoch: command.source_date_epoch,
                },
            ),
        ),
    }
}

fn parse_install(arguments: &[Vec<u8>]) -> (result: Result<Action>)
    ensures
        outcome(result) == install_action(byte_lists(arguments@)),
{
    let ghost all = byte_lists(arguments@);
    let mut input: Option<Vec<u8>> = None;
    let mut assume_yes = false;
    let mut positional_only = false;
    for index in 0..arguments.len()
        invariant
            all == byte_lists(arguments@),
            after_install_arguments(all.take(index as int)) == Ok::<InstallModel, Seq<char>>(
                InstallModel {
                    input: optional_bytes(input),
                    assume_yes,
                    positional_only,
                    help: false,
                },
            ),
    {
        let argument = arguments[index].as_slice();
        proof {
            assert(all.take(index + 1).drop_last() == all.take(index as int));
            assert(all.take(index + 1).last() == argument@);
            lemma_install_prefix(all, index + 1);
        }
        if positional_only || !is_option(argument) {
            set_input(&mut input, argument)?;
        } else if same(argument, "--".as_bytes()) {
            positional_only = true;
        } else {
            match argument_text(argument) {
                None => return Err(failure("An install option is not valid UTF-8.")),
                Some(text) => {
                    let text = text.as_slice();
                    if is(text, "-y") || is(text, "--yes") {
                        assume_yes = true;
                    } else if is(text, "-h") || is(text, "--help") {
                        return Ok(Action::Help);
                    } else {
                        return Err(
                            AppError::new(
                                String::from_str("Unknown install option: ").concat(
                                    string(text).as_str(),
                                ),
                            ),
                        );
                    }
                },
            }
        }
    }
    assert(all.take(all.len() as int) == all);
    match input {
        None => Err(failure("No Debian package was given. Use debtap-rs install package.deb.")),
        Some(input) => Ok(Action::Install(InstallOptions { input, assume_yes })),
    }
}

proof fn lemma_install_prefix(arguments: Seq<Seq<u8>>, length: int)
    requires
        0 <= length <= arguments.len(),
    ensures
        after_install_arguments(arguments.take(length)) is Err ==> after_install_arguments(
            arguments,
        ) == after_install_arguments(arguments.take(length)),
        after_install_arguments(arguments.take(length)) matches Ok(install) && install.help
            ==> after_install_arguments(arguments) == after_install_arguments(
            arguments.take(length),
        ),
    decreases arguments.len(),
{
    if length < arguments.len() {
        assert(arguments.drop_last().take(length) == arguments.take(length));
        lemma_install_prefix(arguments.drop_last(), length);
    } else {
        assert(arguments.take(length) == arguments);
    }
}

/// Find out what the user asks for.
pub fn parse_from(arguments: &[Vec<u8>], environment: &Environment) -> (result: Result<Action>)
    ensures
        outcome(result) == action_of(
            byte_lists(arguments@),
            environment.packager.deep_view(),
            environment.source_date_epoch.deep_view(),
        ),
{
    let ghost all = byte_lists(arguments@);
    if arguments.len() > 0 {
        assert(all[0] == arguments@[0]@);
        if same(arguments[0].as_slice(), "install".as_bytes()) {
            let rest = slice_subrange(arguments, 1, arguments.len());
            assert(byte_lists(rest@) =~= all.skip(1));
            return parse_install(rest);
        }
        if same(arguments[0].as_slice(), "register-handler".as_bytes()) {
            if arguments.len() != 1 {
                return Err(failure("register-handler does not accept additional arguments."));
            }
            return Ok(Action::RegisterHandler);
        }
    }
    let mut command = start_command(environment)?;
    let ghost start = command.deep_view();
    let mut index: usize = 0;
    while index < arguments.len()
        invariant
            all == byte_lists(arguments@),
            after_arguments(start, all, 0) == after_arguments(
                command.deep_view(),
                all,
                index as int,
            ),
            !(all.len() > 0 && all[0] == encode_utf8("install"@)),
            !(all.len() > 0 && all[0] == encode_utf8("register-handler"@)),
            new_command(
                environment.packager.deep_view(),
                environment.source_date_epoch.deep_view(),
            ) == Ok::<CommandModel, Seq<char>>(start),
        decreases arguments@.len() - index,
    {
        let next: Option<&[u8]> = if index < arguments.len() - 1 {
            Some(arguments[index + 1].as_slice())
        } else {
            None
        };
        assert(optional_slice(next) == argument_at(all, index + 1));
        let took_next = command.read_argument(arguments[index].as_slice(), next)?;
        if took_next && index < arguments.len() - 1 {
            index += 2;
        } else {
            assert(took_next ==> after_arguments(command.deep_view(), all, index + 2)
                == after_arguments(command.deep_view(), all, index + 1));
            index += 1;
        }
    }
    finish_command(command)
}

/// Get the help text.
pub fn help() -> (result: &'static str)
    ensures
        result@ == HELP@,
{
    HELP
}

// ---------------------------------------------------------------------------
// Laws
// ---------------------------------------------------------------------------
proof fn lemma_letters_keep_level(command: CommandModel, letters: Seq<char>, text: Seq<char>)
    ensures
        with_letters(command, letters, text) matches Ok(more) ==> more.compression_level
            == command.compression_level,
    decreases letters.len(),
{
    if letters.len() > 0 {
        lemma_letters_keep_level(command, letters.drop_last(), text);
    }
}

proof fn lemma_level_in_range(command: CommandModel, arguments: Seq<Seq<u8>>, index: int)
    requires
        1 <= command.compression_level <= 19,
    ensures
        after_arguments(command, arguments, index) matches Ok(more) ==> 1 <= more.compression_level
            <= 19,
    decreases arguments.len() - index,
{
    if 0 <= index < arguments.len() {
        let argument = arguments[index];
        let next = argument_at(arguments, index + 1);
        let text = decode_utf8(argument);
        lemma_letters_keep_level(command, trim_start(text, CharClass::Exactly('-')), text);
        if let Ok((more, took_next)) = after_argument(command, argument, next) {
            lemma_level_in_range(
                more,
                arguments,
                index + if took_next {
                    2int
                } else {
                    1
                },
            );
        }
    }
}

/// A conversion always uses a compression level from 1 through 19.
pub proof fn compression_levels_are_in_range(
    arguments: Seq<Seq<u8>>,
    packager: Option<Seq<char>>,
    epoch: Option<Seq<char>>,
)
    ensures
        action_of(arguments, packager, epoch) matches Ok(ActionModel::Convert(options)) ==> 1
            <= options.compression_level <= 19,
{
    if let Ok(start) = new_command(packager, epoch) {
        lemma_level_in_range(start, arguments, 0);
    }
}

/// Behind a lone `--` no argument is an option: nothing but the input can
/// change.
pub proof fn no_option_stands_behind_two_dashes(
    command: CommandModel,
    arguments: Seq<Seq<u8>>,
    index: int,
)
    requires
        command.positional_only,
    ensures
        after_arguments(command, arguments, index) matches Ok(more) ==> more == (CommandModel {
            input: more.input,
            ..command
        }),
    decreases arguments.len() - index,
{
    if 0 <= index < arguments.len() {
        if let Ok((more, took_next)) = after_argument(
            command,
            arguments[index],
            argument_at(arguments, index + 1),
        ) {
            no_option_stands_behind_two_dashes(more, arguments, index + 1);
        }
    }
}

/// The command keeps the first input, and a second one is refused.
pub proof fn one_input_is_accepted(
    command: CommandModel,
    arguments: Seq<Seq<u8>>,
    index: int,
    first: Seq<u8>,
)
    requires
        command.input == Some(first),
    ensures
        after_arguments(command, arguments, index) matches Ok(more) ==> more.input == Some(first),
    decreases arguments.len() - index,
{
    if 0 <= index < arguments.len() {
        let argument = arguments[index];
        let text = decode_utf8(argument);
        lemma_letters_keep_input(command, trim_start(text, CharClass::Exactly('-')), text);
        if let Ok((more, took_next)) = after_argument(
            command,
            argument,
            argument_at(arguments, index + 1),
        ) {
            one_input_is_accepted(
                more,
                arguments,
                index + if took_next {
                    2int
                } else {
                    1
                },
                first,
            );
        }
    }
}

proof fn lemma_letters_keep_input(command: CommandModel, letters: Seq<char>, text: Seq<char>)
    ensures
        with_letters(command, letters, text) matches Ok(more) ==> more.input == command.input,
    decreases letters.len(),
{
    if letters.len() > 0 {
        lemma_letters_keep_input(command, letters.drop_last(), text);
    }
}

} // verus!
