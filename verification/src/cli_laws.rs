//! What the options of a command line promise.

use vstd::prelude::*;
use vstd::utf8::{decode_utf8, encode_utf8};

use crate::cli::{
    after_argument, after_install_argument, after_option, assignment_of, command_action, flag_of,
    letter_flag, level_value, line_value, new_command, seconds_value, setting_of, with_flag, with_letters, with_next,
    with_setting, ActionModel, CommandModel, Flag, InstallModel, PkgbuildMode, Request, Setting,
};
use crate::number::{decimal, decimal_round_trip};
use crate::pieces::{trim, trim_start};
use crate::scripts::ScriptPolicy;
use crate::text::{has_prefix, CharClass};

verus! {

// ---------------------------------------------------------------------------
// Flags
// ---------------------------------------------------------------------------
/// Each flag changes what it is meant for, and nothing else of a command.
pub proof fn flags_change_one_thing(command: CommandModel, mode: PkgbuildMode, request: Request)
    ensures
        ({
            let quiet = with_flag(command, Flag::Quiet);
            &&& quiet.quiet
            &&& quiet == (CommandModel { quiet: quiet.quiet, ..command })
        }),
        ({
            let wiping = with_flag(command, Flag::WipeVersions);
            &&& wiping.wipe_versions
            &&& wiping == (CommandModel { wipe_versions: wiping.wipe_versions, ..command })
        }),
        ({
            let pseudo = with_flag(command, Flag::Pseudo);
            &&& pseudo.pseudo_64
            &&& pseudo == (CommandModel { pseudo_64: pseudo.pseudo_64, ..command })
        }),
        ({
            let forced = with_flag(command, Flag::Force);
            &&& forced.force
            &&& forced == (CommandModel { force: forced.force, ..command })
        }),
        ({
            let keeping = with_flag(command, Flag::KeepWork);
            &&& keeping.keep_work
            &&& keeping == (CommandModel { keep_work: keeping.keep_work, ..command })
        }),
        ({
            let bare = with_flag(command, Flag::NoMtree);
            &&& !bare.generate_mtree
            &&& bare == (CommandModel { generate_mtree: bare.generate_mtree, ..command })
        }),
        ({
            let built = with_flag(command, Flag::Pkgbuild(mode));
            &&& built.pkgbuild == mode
            &&& built == (CommandModel { pkgbuild: built.pkgbuild, ..command })
        }),
        ({
            let asked = with_flag(command, Flag::Request(request));
            &&& asked.requested == Some(request)
            &&& asked == (CommandModel { requested: asked.requested, ..command })
        }),
{
}

/// A short option means the same as its long form, alone and in a group.
pub proof fn short_options_equal_long_ones()
    ensures
        flag_of("-h"@) == flag_of("--help"@),
        flag_of("-v"@) == flag_of("--version"@),
        flag_of("-u"@) == flag_of("--update"@),
        flag_of("-q"@) == flag_of("--quiet"@),
        flag_of("-Q"@) == flag_of("--Quiet"@),
        flag_of("-w"@) == flag_of("--wipeout"@),
        flag_of("-s"@) == flag_of("--pseudo"@),
        flag_of("-p"@) == flag_of("--pkgbuild"@),
        flag_of("-P"@) == flag_of("--Pkgbuild"@),
        letter_flag('q') == flag_of("--quiet"@),
        letter_flag('Q') == flag_of("--Quiet"@),
        letter_flag('w') == flag_of("--wipeout"@),
        letter_flag('s') == flag_of("--pseudo"@),
        letter_flag('p') == flag_of("--pkgbuild"@),
        letter_flag('P') == flag_of("--Pkgbuild"@),
        flag_of("--help"@) == Some(Flag::Request(Request::Help)),
        flag_of("--version"@) == Some(Flag::Request(Request::Version)),
        flag_of("--update"@) == Some(Flag::Request(Request::Update)),
        flag_of("--quiet"@) == Some(Flag::Quiet),
        flag_of("--Quiet"@) == Some(Flag::Quiet),
        flag_of("--wipeout"@) == Some(Flag::WipeVersions),
        flag_of("--pseudo"@) == Some(Flag::Pseudo),
        flag_of("--pkgbuild"@) == Some(Flag::Pkgbuild(PkgbuildMode::Also)),
        flag_of("--Pkgbuild"@) == Some(Flag::Pkgbuild(PkgbuildMode::Only)),
        flag_of("--force"@) == Some(Flag::Force),
        flag_of("--keep-work"@) == Some(Flag::KeepWork),
        flag_of("--no-mtree"@) == Some(Flag::NoMtree),
        setting_of("-o"@) == setting_of("--output"@),
{
    reveal_strlit("-h");
    reveal_strlit("--help");
    reveal_strlit("-v");
    reveal_strlit("--version");
    reveal_strlit("-u");
    reveal_strlit("--update");
    reveal_strlit("-q");
    reveal_strlit("--quiet");
    reveal_strlit("-Q");
    reveal_strlit("--Quiet");
    reveal_strlit("-w");
    reveal_strlit("--wipeout");
    reveal_strlit("-s");
    reveal_strlit("--pseudo");
    reveal_strlit("-p");
    reveal_strlit("--pkgbuild");
    reveal_strlit("-P");
    reveal_strlit("--Pkgbuild");
    reveal_strlit("--force");
    reveal_strlit("--keep-work");
    reveal_strlit("--no-mtree");
    reveal_strlit("-o");
    reveal_strlit("--output");
    assert("-h"@.len() != "--help"@.len());
    assert("-h"@[1] != "-v"@[1]);
    assert("-h"@.len() != "--version"@.len());
    assert("-h"@[1] != "-u"@[1]);
    assert("-h"@.len() != "--update"@.len());
    assert("-h"@[1] != "-q"@[1]);
    assert("-h"@.len() != "--quiet"@.len());
    assert("-h"@[1] != "-Q"@[1]);
    assert("-h"@.len() != "--Quiet"@.len());
    assert("-h"@[1] != "-w"@[1]);
    assert("-h"@.len() != "--wipeout"@.len());
    assert("-h"@[1] != "-s"@[1]);
    assert("-h"@.len() != "--pseudo"@.len());
    assert("-h"@[1] != "-p"@[1]);
    assert("-h"@.len() != "--pkgbuild"@.len());
    assert("-h"@[1] != "-P"@[1]);
    assert("-h"@.len() != "--Pkgbuild"@.len());
    assert("-h"@.len() != "--force"@.len());
    assert("-h"@.len() != "--keep-work"@.len());
    assert("-h"@.len() != "--no-mtree"@.len());
    assert("--help"@.len() != "-v"@.len());
    assert("--help"@.len() != "--version"@.len());
    assert("--help"@.len() != "-u"@.len());
    assert("--help"@.len() != "--update"@.len());
    assert("--help"@.len() != "-q"@.len());
    assert("--help"@.len() != "--quiet"@.len());
    assert("--help"@.len() != "-Q"@.len());
    assert("--help"@.len() != "--Quiet"@.len());
    assert("--help"@.len() != "-w"@.len());
    assert("--help"@.len() != "--wipeout"@.len());
    assert("--help"@.len() != "-s"@.len());
    assert("--help"@.len() != "--pseudo"@.len());
    assert("--help"@.len() != "-p"@.len());
    assert("--help"@.len() != "--pkgbuild"@.len());
    assert("--help"@.len() != "-P"@.len());
    assert("--help"@.len() != "--Pkgbuild"@.len());
    assert("--help"@.len() != "--force"@.len());
    assert("--help"@.len() != "--keep-work"@.len());
    assert("--help"@.len() != "--no-mtree"@.len());
    assert("-v"@.len() != "--version"@.len());
    assert("-v"@[1] != "-u"@[1]);
    assert("-v"@.len() != "--update"@.len());
    assert("-v"@[1] != "-q"@[1]);
    assert("-v"@.len() != "--quiet"@.len());
    assert("-v"@[1] != "-Q"@[1]);
    assert("-v"@.len() != "--Quiet"@.len());
    assert("-v"@[1] != "-w"@[1]);
    assert("-v"@.len() != "--wipeout"@.len());
    assert("-v"@[1] != "-s"@[1]);
    assert("-v"@.len() != "--pseudo"@.len());
    assert("-v"@[1] != "-p"@[1]);
    assert("-v"@.len() != "--pkgbuild"@.len());
    assert("-v"@[1] != "-P"@[1]);
    assert("-v"@.len() != "--Pkgbuild"@.len());
    assert("-v"@.len() != "--force"@.len());
    assert("-v"@.len() != "--keep-work"@.len());
    assert("-v"@.len() != "--no-mtree"@.len());
    assert("--version"@.len() != "-u"@.len());
    assert("--version"@.len() != "--update"@.len());
    assert("--version"@.len() != "-q"@.len());
    assert("--version"@.len() != "--quiet"@.len());
    assert("--version"@.len() != "-Q"@.len());
    assert("--version"@.len() != "--Quiet"@.len());
    assert("--version"@.len() != "-w"@.len());
    assert("--version"@[2] != "--wipeout"@[2]);
    assert("--version"@.len() != "-s"@.len());
    assert("--version"@.len() != "--pseudo"@.len());
    assert("--version"@.len() != "-p"@.len());
    assert("--version"@.len() != "--pkgbuild"@.len());
    assert("--version"@.len() != "-P"@.len());
    assert("--version"@.len() != "--Pkgbuild"@.len());
    assert("--version"@.len() != "--force"@.len());
    assert("--version"@.len() != "--keep-work"@.len());
    assert("--version"@.len() != "--no-mtree"@.len());
    assert("-u"@.len() != "--update"@.len());
    assert("-u"@[1] != "-q"@[1]);
    assert("-u"@.len() != "--quiet"@.len());
    assert("-u"@[1] != "-Q"@[1]);
    assert("-u"@.len() != "--Quiet"@.len());
    assert("-u"@[1] != "-w"@[1]);
    assert("-u"@.len() != "--wipeout"@.len());
    assert("-u"@[1] != "-s"@[1]);
    assert("-u"@.len() != "--pseudo"@.len());
    assert("-u"@[1] != "-p"@[1]);
    assert("-u"@.len() != "--pkgbuild"@.len());
    assert("-u"@[1] != "-P"@[1]);
    assert("-u"@.len() != "--Pkgbuild"@.len());
    assert("-u"@.len() != "--force"@.len());
    assert("-u"@.len() != "--keep-work"@.len());
    assert("-u"@.len() != "--no-mtree"@.len());
    assert("--update"@.len() != "-q"@.len());
    assert("--update"@.len() != "--quiet"@.len());
    assert("--update"@.len() != "-Q"@.len());
    assert("--update"@.len() != "--Quiet"@.len());
    assert("--update"@.len() != "-w"@.len());
    assert("--update"@.len() != "--wipeout"@.len());
    assert("--update"@.len() != "-s"@.len());
    assert("--update"@[2] != "--pseudo"@[2]);
    assert("--update"@.len() != "-p"@.len());
    assert("--update"@.len() != "--pkgbuild"@.len());
    assert("--update"@.len() != "-P"@.len());
    assert("--update"@.len() != "--Pkgbuild"@.len());
    assert("--update"@.len() != "--force"@.len());
    assert("--update"@.len() != "--keep-work"@.len());
    assert("--update"@.len() != "--no-mtree"@.len());
    assert("-q"@.len() != "--quiet"@.len());
    assert("-q"@[1] != "-Q"@[1]);
    assert("-q"@.len() != "--Quiet"@.len());
    assert("-q"@[1] != "-w"@[1]);
    assert("-q"@.len() != "--wipeout"@.len());
    assert("-q"@[1] != "-s"@[1]);
    assert("-q"@.len() != "--pseudo"@.len());
    assert("-q"@[1] != "-p"@[1]);
    assert("-q"@.len() != "--pkgbuild"@.len());
    assert("-q"@[1] != "-P"@[1]);
    assert("-q"@.len() != "--Pkgbuild"@.len());
    assert("-q"@.len() != "--force"@.len());
    assert("-q"@.len() != "--keep-work"@.len());
    assert("-q"@.len() != "--no-mtree"@.len());
    assert("--quiet"@.len() != "-Q"@.len());
    assert("--quiet"@[2] != "--Quiet"@[2]);
    assert("--quiet"@.len() != "-w"@.len());
    assert("--quiet"@.len() != "--wipeout"@.len());
    assert("--quiet"@.len() != "-s"@.len());
    assert("--quiet"@.len() != "--pseudo"@.len());
    assert("--quiet"@.len() != "-p"@.len());
    assert("--quiet"@.len() != "--pkgbuild"@.len());
    assert("--quiet"@.len() != "-P"@.len());
    assert("--quiet"@.len() != "--Pkgbuild"@.len());
    assert("--quiet"@[2] != "--force"@[2]);
    assert("--quiet"@.len() != "--keep-work"@.len());
    assert("--quiet"@.len() != "--no-mtree"@.len());
    assert("-Q"@.len() != "--Quiet"@.len());
    assert("-Q"@[1] != "-w"@[1]);
    assert("-Q"@.len() != "--wipeout"@.len());
    assert("-Q"@[1] != "-s"@[1]);
    assert("-Q"@.len() != "--pseudo"@.len());
    assert("-Q"@[1] != "-p"@[1]);
    assert("-Q"@.len() != "--pkgbuild"@.len());
    assert("-Q"@[1] != "-P"@[1]);
    assert("-Q"@.len() != "--Pkgbuild"@.len());
    assert("-Q"@.len() != "--force"@.len());
    assert("-Q"@.len() != "--keep-work"@.len());
    assert("-Q"@.len() != "--no-mtree"@.len());
    assert("--Quiet"@.len() != "-w"@.len());
    assert("--Quiet"@.len() != "--wipeout"@.len());
    assert("--Quiet"@.len() != "-s"@.len());
    assert("--Quiet"@.len() != "--pseudo"@.len());
    assert("--Quiet"@.len() != "-p"@.len());
    assert("--Quiet"@.len() != "--pkgbuild"@.len());
    assert("--Quiet"@.len() != "-P"@.len());
    assert("--Quiet"@.len() != "--Pkgbuild"@.len());
    assert("--Quiet"@[2] != "--force"@[2]);
    assert("--Quiet"@.len() != "--keep-work"@.len());
    assert("--Quiet"@.len() != "--no-mtree"@.len());
    assert("-w"@.len() != "--wipeout"@.len());
    assert("-w"@[1] != "-s"@[1]);
    assert("-w"@.len() != "--pseudo"@.len());
    assert("-w"@[1] != "-p"@[1]);
    assert("-w"@.len() != "--pkgbuild"@.len());
    assert("-w"@[1] != "-P"@[1]);
    assert("-w"@.len() != "--Pkgbuild"@.len());
    assert("-w"@.len() != "--force"@.len());
    assert("-w"@.len() != "--keep-work"@.len());
    assert("-w"@.len() != "--no-mtree"@.len());
    assert("--wipeout"@.len() != "-s"@.len());
    assert("--wipeout"@.len() != "--pseudo"@.len());
    assert("--wipeout"@.len() != "-p"@.len());
    assert("--wipeout"@.len() != "--pkgbuild"@.len());
    assert("--wipeout"@.len() != "-P"@.len());
    assert("--wipeout"@.len() != "--Pkgbuild"@.len());
    assert("--wipeout"@.len() != "--force"@.len());
    assert("--wipeout"@.len() != "--keep-work"@.len());
    assert("--wipeout"@.len() != "--no-mtree"@.len());
    assert("-s"@.len() != "--pseudo"@.len());
    assert("-s"@[1] != "-p"@[1]);
    assert("-s"@.len() != "--pkgbuild"@.len());
    assert("-s"@[1] != "-P"@[1]);
    assert("-s"@.len() != "--Pkgbuild"@.len());
    assert("-s"@.len() != "--force"@.len());
    assert("-s"@.len() != "--keep-work"@.len());
    assert("-s"@.len() != "--no-mtree"@.len());
    assert("--pseudo"@.len() != "-p"@.len());
    assert("--pseudo"@.len() != "--pkgbuild"@.len());
    assert("--pseudo"@.len() != "-P"@.len());
    assert("--pseudo"@.len() != "--Pkgbuild"@.len());
    assert("--pseudo"@.len() != "--force"@.len());
    assert("--pseudo"@.len() != "--keep-work"@.len());
    assert("--pseudo"@.len() != "--no-mtree"@.len());
    assert("-p"@.len() != "--pkgbuild"@.len());
    assert("-p"@[1] != "-P"@[1]);
    assert("-p"@.len() != "--Pkgbuild"@.len());
    assert("-p"@.len() != "--force"@.len());
    assert("-p"@.len() != "--keep-work"@.len());
    assert("-p"@.len() != "--no-mtree"@.len());
    assert("--pkgbuild"@.len() != "-P"@.len());
    assert("--pkgbuild"@[2] != "--Pkgbuild"@[2]);
    assert("--pkgbuild"@.len() != "--force"@.len());
    assert("--pkgbuild"@.len() != "--keep-work"@.len());
    assert("--pkgbuild"@[2] != "--no-mtree"@[2]);
    assert("-P"@.len() != "--Pkgbuild"@.len());
    assert("-P"@.len() != "--force"@.len());
    assert("-P"@.len() != "--keep-work"@.len());
    assert("-P"@.len() != "--no-mtree"@.len());
    assert("--Pkgbuild"@.len() != "--force"@.len());
    assert("--Pkgbuild"@.len() != "--keep-work"@.len());
    assert("--Pkgbuild"@[2] != "--no-mtree"@[2]);
    assert("--force"@.len() != "--keep-work"@.len());
    assert("--force"@.len() != "--no-mtree"@.len());
    assert("--keep-work"@.len() != "--no-mtree"@.len());
}

/// A group of letters means the same as its parts, one behind the other.
pub proof fn groups_mean_their_parts(
    command: CommandModel,
    first: Seq<char>,
    second: Seq<char>,
    text: Seq<char>,
)
    ensures
        with_letters(command, first + second, text) == match with_letters(command, first, text) {
            Err(message) => Err(message),
            Ok(middle) => with_letters(middle, second, text),
        },
        forall|letter: char|
            letter_flag(letter) matches Some(flag) ==> #[trigger] with_letters(
                command,
                seq![letter],
                text,
            ) == Ok::<CommandModel, Seq<char>>(with_flag(command, flag)),
    decreases second.len(),
{
    if second.len() == 0 {
        assert(first + second =~= first);
    } else {
        groups_mean_their_parts(command, first, second.drop_last(), text);
        assert((first + second).drop_last() =~= first + second.drop_last());
        assert((first + second).last() == second.last());
    }
    assert forall|letter: char|
        letter_flag(letter) matches Some(flag) implies #[trigger] with_letters(
        command,
        seq![letter],
        text,
    ) == Ok::<CommandModel, Seq<char>>(with_flag(command, letter_flag(letter)->0)) by {
        reveal_with_fuel(with_letters, 2);
        assert(seq![letter].drop_last() =~= seq![]);
    }
}

// ---------------------------------------------------------------------------
// Settings
// ---------------------------------------------------------------------------
/// A setting changes what it is meant for, and nothing else of a command.
pub proof fn settings_change_one_thing(
    command: CommandModel,
    setting: Setting,
    option: Seq<char>,
    value: Seq<char>,
)
    ensures
        with_setting(command, setting, option, value) matches Ok(more) ==> match setting {
            Setting::Output => more.output_dir == Some(encode_utf8(value)) && more
                == (CommandModel { output_dir: more.output_dir, ..command }),
            Setting::CompressionLevel => 1 <= more.compression_level <= 19 && more
                == (CommandModel { compression_level: more.compression_level, ..command }),
            Setting::Scripts => more == (CommandModel {
                script_policy: more.script_policy,
                ..command
            }),
            Setting::Packager => more.packager == trim(value) && more == (CommandModel {
                packager: more.packager,
                ..command
            }),
            Setting::SourceDateEpoch => more.source_date_epoch is Some && more == (CommandModel {
                source_date_epoch: more.source_date_epoch,
                ..command
            }),
        },
        forall|level: u8|
            1 <= level <= 19 ==> #[trigger] with_setting(
                command,
                Setting::CompressionLevel,
                option,
                decimal(level as nat),
            ) == Ok::<CommandModel, Seq<char>>(
                (CommandModel { compression_level: level, ..command }),
            ),
        forall|seconds: u64|
            #[trigger] with_setting(
                command,
                Setting::SourceDateEpoch,
                option,
                decimal(seconds as nat),
            ) == Ok::<CommandModel, Seq<char>>(
                (CommandModel { source_date_epoch: Some(seconds), ..command }),
            ),
{
    assert forall|level: u8| 1 <= level <= 19 implies #[trigger] with_setting(
        command,
        Setting::CompressionLevel,
        option,
        decimal(level as nat),
    ) == Ok::<CommandModel, Seq<char>>((CommandModel { compression_level: level, ..command })) by {
        decimal_round_trip(level as nat, u8::MAX as int);
    }
    assert forall|seconds: u64| #[trigger] with_setting(
        command,
        Setting::SourceDateEpoch,
        option,
        decimal(seconds as nat),
    ) == Ok::<CommandModel, Seq<char>>(
        (CommandModel { source_date_epoch: Some(seconds), ..command }),
    ) by {
        decimal_round_trip(seconds as nat, u64::MAX as int);
    }
}

proof fn lemma_separate_value(
    command: CommandModel,
    setting: Setting,
    option: Seq<char>,
    value: Seq<char>,
)
    requires
        value.len() > 0,
    ensures
        with_next(command, setting, option, Some(encode_utf8(value))) == with_setting(
            command,
            setting,
            option,
            value,
        ),
{
    vstd::utf8::encode_utf8_valid_utf8(value);
    vstd::utf8::encode_utf8_decode_utf8(value);
    if encode_utf8(value).len() == 0 {
        vstd::utf8::encode_utf8_decode_utf8(seq![]);
        assert(encode_utf8(value) =~= encode_utf8(seq![]));
    }
}

/// A value behind an equals sign means the same as one in the next argument.
pub proof fn values_can_stand_behind_equals_signs(
    command: CommandModel,
    index: int,
    value: Seq<char>,
    next: Option<Seq<u8>>,
)
    requires
        0 <= index < 5,
        value.len() > 0,
    ensures
        ({
            let name = setting_names()[index];
            let joined = after_option(command, name + "="@ + value, next);
            let separate = after_option(command, name, Some(encode_utf8(value)));
            match (joined, separate) {
                (Ok((one, took_one)), Ok((two, took_two))) => one == two && !took_one && took_two,
                (Err(one), Err(two)) => one == two,
                _ => false,
            }
        }),
{
    let name = setting_names()[index];
    lemma_setting_names(index, value);
    lemma_separate_value(command, setting_of(name)->0, name, value);
}

/// The names of the settings.
pub open spec fn setting_names() -> Seq<Seq<char>> {
    seq![
        "--output"@,
        "--compression-level"@,
        "--scripts"@,
        "--packager"@,
        "--source-date-epoch"@,
    ]
}

/// The settings in the order of their names.
spec fn setting_at(index: int) -> Setting {
    if index == 0 {
        Setting::Output
    } else if index == 1 {
        Setting::CompressionLevel
    } else if index == 2 {
        Setting::Scripts
    } else if index == 3 {
        Setting::Packager
    } else {
        Setting::SourceDateEpoch
    }
}

proof fn lemma_no_start(text: Seq<char>, start: Seq<char>, index: int)
    requires
        0 <= index < text.len(),
        index < start.len(),
        text[index] != start[index],
    ensures
        !has_prefix(text, start),
{
    if has_prefix(text, start) {
        assert(text.take(start.len() as int)[index] == text[index]);
    }
}

#[verifier::spinoff_prover]
proof fn lemma_setting_names(index: int, value: Seq<char>)
    requires
        0 <= index < 5,
    ensures
        ({
            let name = setting_names()[index];
            &&& assignment_of(name + "="@ + value) == Some((setting_at(index), name, value))
            &&& assignment_of(name) is None
            &&& flag_of(name) is None
            &&& setting_of(name) == Some(setting_at(index))
        }),
{
    let name = setting_names()[index];
    let text = name + "="@ + value;
    reveal_strlit("--output");
    reveal_strlit("--compression-level");
    reveal_strlit("--scripts");
    reveal_strlit("--packager");
    reveal_strlit("--source-date-epoch");
    reveal_strlit("-h");
    reveal_strlit("--help");
    reveal_strlit("-v");
    reveal_strlit("--version");
    reveal_strlit("-u");
    reveal_strlit("--update");
    reveal_strlit("-q");
    reveal_strlit("--quiet");
    reveal_strlit("-Q");
    reveal_strlit("--Quiet");
    reveal_strlit("-w");
    reveal_strlit("--wipeout");
    reveal_strlit("-s");
    reveal_strlit("--pseudo");
    reveal_strlit("-p");
    reveal_strlit("--pkgbuild");
    reveal_strlit("-P");
    reveal_strlit("--Pkgbuild");
    reveal_strlit("--force");
    reveal_strlit("--keep-work");
    reveal_strlit("--no-mtree");
    reveal_strlit("-o");
    reveal_strlit("--output=");
    reveal_strlit("--compression-level=");
    reveal_strlit("--scripts=");
    reveal_strlit("--packager=");
    reveal_strlit("--source-date-epoch=");
    reveal_strlit("=");
    assert("--output="@ =~= "--output"@ + "="@);
    assert("--compression-level="@ =~= "--compression-level"@ + "="@);
    assert("--scripts="@ =~= "--scripts"@ + "="@);
    assert("--packager="@ =~= "--packager"@ + "="@);
    assert("--source-date-epoch="@ =~= "--source-date-epoch"@ + "="@);
    if index == 0 {
        assert(text.take("--output="@.len() as int) =~= "--output="@);
        assert(text.skip("--output="@.len() as int) =~= value);
        assert(name.len() < "--output="@.len());
        assert(text[2] == "--output"@[2]);
        lemma_no_start(text, "--compression-level="@, 2);
        lemma_no_start(name, "--compression-level="@, 2);
        assert(text[2] == "--output"@[2]);
        lemma_no_start(text, "--scripts="@, 2);
        lemma_no_start(name, "--scripts="@, 2);
        assert(text[2] == "--output"@[2]);
        lemma_no_start(text, "--packager="@, 2);
        lemma_no_start(name, "--packager="@, 2);
        assert(text[2] == "--output"@[2]);
        lemma_no_start(text, "--source-date-epoch="@, 2);
        lemma_no_start(name, "--source-date-epoch="@, 2);
        assert("--output"@.len() != "-h"@.len());
        assert("--output"@.len() != "--help"@.len());
        assert("--output"@.len() != "-v"@.len());
        assert("--output"@.len() != "--version"@.len());
        assert("--output"@.len() != "-u"@.len());
        assert("--output"@[2] != "--update"@[2]);
        assert("--output"@.len() != "-q"@.len());
        assert("--output"@.len() != "--quiet"@.len());
        assert("--output"@.len() != "-Q"@.len());
        assert("--output"@.len() != "--Quiet"@.len());
        assert("--output"@.len() != "-w"@.len());
        assert("--output"@.len() != "--wipeout"@.len());
        assert("--output"@.len() != "-s"@.len());
        assert("--output"@[2] != "--pseudo"@[2]);
        assert("--output"@.len() != "-p"@.len());
        assert("--output"@.len() != "--pkgbuild"@.len());
        assert("--output"@.len() != "-P"@.len());
        assert("--output"@.len() != "--Pkgbuild"@.len());
        assert("--output"@.len() != "--force"@.len());
        assert("--output"@.len() != "--keep-work"@.len());
        assert("--output"@.len() != "--no-mtree"@.len());
        assert("--output"@.len() != "-o"@.len());
        assert("--output"@.len() != "--compression-level"@.len());
        assert("--output"@.len() != "--scripts"@.len());
        assert("--output"@.len() != "--packager"@.len());
        assert("--output"@.len() != "--source-date-epoch"@.len());
    }
    if index == 1 {
        assert(text.take("--compression-level="@.len() as int) =~= "--compression-level="@);
        assert(text.skip("--compression-level="@.len() as int) =~= value);
        assert(text[2] == "--compression-level"@[2]);
        lemma_no_start(text, "--output="@, 2);
        lemma_no_start(name, "--output="@, 2);
        assert(name.len() < "--compression-level="@.len());
        assert(text[2] == "--compression-level"@[2]);
        lemma_no_start(text, "--scripts="@, 2);
        lemma_no_start(name, "--scripts="@, 2);
        assert(text[2] == "--compression-level"@[2]);
        lemma_no_start(text, "--packager="@, 2);
        lemma_no_start(name, "--packager="@, 2);
        assert(text[2] == "--compression-level"@[2]);
        lemma_no_start(text, "--source-date-epoch="@, 2);
        lemma_no_start(name, "--source-date-epoch="@, 2);
        assert("--compression-level"@.len() != "-h"@.len());
        assert("--compression-level"@.len() != "--help"@.len());
        assert("--compression-level"@.len() != "-v"@.len());
        assert("--compression-level"@.len() != "--version"@.len());
        assert("--compression-level"@.len() != "-u"@.len());
        assert("--compression-level"@.len() != "--update"@.len());
        assert("--compression-level"@.len() != "-q"@.len());
        assert("--compression-level"@.len() != "--quiet"@.len());
        assert("--compression-level"@.len() != "-Q"@.len());
        assert("--compression-level"@.len() != "--Quiet"@.len());
        assert("--compression-level"@.len() != "-w"@.len());
        assert("--compression-level"@.len() != "--wipeout"@.len());
        assert("--compression-level"@.len() != "-s"@.len());
        assert("--compression-level"@.len() != "--pseudo"@.len());
        assert("--compression-level"@.len() != "-p"@.len());
        assert("--compression-level"@.len() != "--pkgbuild"@.len());
        assert("--compression-level"@.len() != "-P"@.len());
        assert("--compression-level"@.len() != "--Pkgbuild"@.len());
        assert("--compression-level"@.len() != "--force"@.len());
        assert("--compression-level"@.len() != "--keep-work"@.len());
        assert("--compression-level"@.len() != "--no-mtree"@.len());
        assert("--compression-level"@.len() != "-o"@.len());
        assert("--compression-level"@.len() != "--output"@.len());
        assert("--compression-level"@.len() != "--scripts"@.len());
        assert("--compression-level"@.len() != "--packager"@.len());
        assert("--compression-level"@[2] != "--source-date-epoch"@[2]);
    }
    if index == 2 {
        assert(text.take("--scripts="@.len() as int) =~= "--scripts="@);
        assert(text.skip("--scripts="@.len() as int) =~= value);
        assert(text[2] == "--scripts"@[2]);
        lemma_no_start(text, "--output="@, 2);
        lemma_no_start(name, "--output="@, 2);
        assert(text[2] == "--scripts"@[2]);
        lemma_no_start(text, "--compression-level="@, 2);
        lemma_no_start(name, "--compression-level="@, 2);
        assert(name.len() < "--scripts="@.len());
        assert(text[2] == "--scripts"@[2]);
        lemma_no_start(text, "--packager="@, 2);
        lemma_no_start(name, "--packager="@, 2);
        assert(text[3] == "--scripts"@[3]);
        lemma_no_start(text, "--source-date-epoch="@, 3);
        lemma_no_start(name, "--source-date-epoch="@, 3);
        assert("--scripts"@.len() != "-h"@.len());
        assert("--scripts"@.len() != "--help"@.len());
        assert("--scripts"@.len() != "-v"@.len());
        assert("--scripts"@[2] != "--version"@[2]);
        assert("--scripts"@.len() != "-u"@.len());
        assert("--scripts"@.len() != "--update"@.len());
        assert("--scripts"@.len() != "-q"@.len());
        assert("--scripts"@.len() != "--quiet"@.len());
        assert("--scripts"@.len() != "-Q"@.len());
        assert("--scripts"@.len() != "--Quiet"@.len());
        assert("--scripts"@.len() != "-w"@.len());
        assert("--scripts"@[2] != "--wipeout"@[2]);
        assert("--scripts"@.len() != "-s"@.len());
        assert("--scripts"@.len() != "--pseudo"@.len());
        assert("--scripts"@.len() != "-p"@.len());
        assert("--scripts"@.len() != "--pkgbuild"@.len());
        assert("--scripts"@.len() != "-P"@.len());
        assert("--scripts"@.len() != "--Pkgbuild"@.len());
        assert("--scripts"@.len() != "--force"@.len());
        assert("--scripts"@.len() != "--keep-work"@.len());
        assert("--scripts"@.len() != "--no-mtree"@.len());
        assert("--scripts"@.len() != "-o"@.len());
        assert("--scripts"@.len() != "--output"@.len());
        assert("--scripts"@.len() != "--compression-level"@.len());
        assert("--scripts"@.len() != "--packager"@.len());
        assert("--scripts"@.len() != "--source-date-epoch"@.len());
    }
    if index == 3 {
        assert(text.take("--packager="@.len() as int) =~= "--packager="@);
        assert(text.skip("--packager="@.len() as int) =~= value);
        assert(text[2] == "--packager"@[2]);
        lemma_no_start(text, "--output="@, 2);
        lemma_no_start(name, "--output="@, 2);
        assert(text[2] == "--packager"@[2]);
        lemma_no_start(text, "--compression-level="@, 2);
        lemma_no_start(name, "--compression-level="@, 2);
        assert(text[2] == "--packager"@[2]);
        lemma_no_start(text, "--scripts="@, 2);
        lemma_no_start(name, "--scripts="@, 2);
        assert(name.len() < "--packager="@.len());
        assert(text[2] == "--packager"@[2]);
        lemma_no_start(text, "--source-date-epoch="@, 2);
        lemma_no_start(name, "--source-date-epoch="@, 2);
        assert("--packager"@.len() != "-h"@.len());
        assert("--packager"@.len() != "--help"@.len());
        assert("--packager"@.len() != "-v"@.len());
        assert("--packager"@.len() != "--version"@.len());
        assert("--packager"@.len() != "-u"@.len());
        assert("--packager"@.len() != "--update"@.len());
        assert("--packager"@.len() != "-q"@.len());
        assert("--packager"@.len() != "--quiet"@.len());
        assert("--packager"@.len() != "-Q"@.len());
        assert("--packager"@.len() != "--Quiet"@.len());
        assert("--packager"@.len() != "-w"@.len());
        assert("--packager"@.len() != "--wipeout"@.len());
        assert("--packager"@.len() != "-s"@.len());
        assert("--packager"@.len() != "--pseudo"@.len());
        assert("--packager"@.len() != "-p"@.len());
        assert("--packager"@[3] != "--pkgbuild"@[3]);
        assert("--packager"@.len() != "-P"@.len());
        assert("--packager"@[2] != "--Pkgbuild"@[2]);
        assert("--packager"@.len() != "--force"@.len());
        assert("--packager"@.len() != "--keep-work"@.len());
        assert("--packager"@[2] != "--no-mtree"@[2]);
        assert("--packager"@.len() != "-o"@.len());
        assert("--packager"@.len() != "--output"@.len());
        assert("--packager"@.len() != "--compression-level"@.len());
        assert("--packager"@.len() != "--scripts"@.len());
        assert("--packager"@.len() != "--source-date-epoch"@.len());
    }
    if index == 4 {
        assert(text.take("--source-date-epoch="@.len() as int) =~= "--source-date-epoch="@);
        assert(text.skip("--source-date-epoch="@.len() as int) =~= value);
        assert(text[2] == "--source-date-epoch"@[2]);
        lemma_no_start(text, "--output="@, 2);
        lemma_no_start(name, "--output="@, 2);
        assert(text[2] == "--source-date-epoch"@[2]);
        lemma_no_start(text, "--compression-level="@, 2);
        lemma_no_start(name, "--compression-level="@, 2);
        assert(text[3] == "--source-date-epoch"@[3]);
        lemma_no_start(text, "--scripts="@, 3);
        lemma_no_start(name, "--scripts="@, 3);
        assert(text[2] == "--source-date-epoch"@[2]);
        lemma_no_start(text, "--packager="@, 2);
        lemma_no_start(name, "--packager="@, 2);
        assert(name.len() < "--source-date-epoch="@.len());
        assert("--source-date-epoch"@.len() != "-h"@.len());
        assert("--source-date-epoch"@.len() != "--help"@.len());
        assert("--source-date-epoch"@.len() != "-v"@.len());
        assert("--source-date-epoch"@.len() != "--version"@.len());
        assert("--source-date-epoch"@.len() != "-u"@.len());
        assert("--source-date-epoch"@.len() != "--update"@.len());
        assert("--source-date-epoch"@.len() != "-q"@.len());
        assert("--source-date-epoch"@.len() != "--quiet"@.len());
        assert("--source-date-epoch"@.len() != "-Q"@.len());
        assert("--source-date-epoch"@.len() != "--Quiet"@.len());
        assert("--source-date-epoch"@.len() != "-w"@.len());
        assert("--source-date-epoch"@.len() != "--wipeout"@.len());
        assert("--source-date-epoch"@.len() != "-s"@.len());
        assert("--source-date-epoch"@.len() != "--pseudo"@.len());
        assert("--source-date-epoch"@.len() != "-p"@.len());
        assert("--source-date-epoch"@.len() != "--pkgbuild"@.len());
        assert("--source-date-epoch"@.len() != "-P"@.len());
        assert("--source-date-epoch"@.len() != "--Pkgbuild"@.len());
        assert("--source-date-epoch"@.len() != "--force"@.len());
        assert("--source-date-epoch"@.len() != "--keep-work"@.len());
        assert("--source-date-epoch"@.len() != "--no-mtree"@.len());
        assert("--source-date-epoch"@.len() != "-o"@.len());
        assert("--source-date-epoch"@.len() != "--output"@.len());
        assert("--source-date-epoch"@[2] != "--compression-level"@[2]);
        assert("--source-date-epoch"@.len() != "--scripts"@.len());
        assert("--source-date-epoch"@.len() != "--packager"@.len());
    }
}

// ---------------------------------------------------------------------------
// Actions
// ---------------------------------------------------------------------------
/// A complete command becomes a conversion with each of its options, unless it
/// asks for something else.
pub proof fn options_reach_the_conversion(command: CommandModel)
    ensures
        command.requested == Some(Request::Help) ==> command_action(command) == Ok::<
            ActionModel,
            Seq<char>,
        >(ActionModel::Help),
        command.requested == Some(Request::Version) ==> command_action(command) == Ok::<
            ActionModel,
            Seq<char>,
        >(ActionModel::Version),
        command.requested == Some(Request::Update) ==> command_action(command) == Ok::<
            ActionModel,
            Seq<char>,
        >(ActionModel::Update),
        command.requested is None && command.input is None ==> command_action(command) is Err,
        command.requested is None ==> (command.input matches Some(input) ==> (command_action(
            command,
        ) matches Ok(action) && (action matches ActionModel::Convert(options) && {
            &&& options.input == input
            &&& options.output_dir == command.output_dir
            &&& options.compression_level == command.compression_level
            &&& options.quiet == command.quiet
            &&& options.force == command.force
            &&& options.keep_work == command.keep_work
            &&& options.generate_mtree == command.generate_mtree
            &&& options.wipe_versions == command.wipe_versions
            &&& options.pseudo_64 == command.pseudo_64
            &&& options.pkgbuild == command.pkgbuild
            &&& options.script_policy == command.script_policy
            &&& options.packager == command.packager
            &&& options.source_date_epoch == command.source_date_epoch
        }))),
{
}

/// An installation takes one package, and its questions are answered only if
/// that is asked for.
pub proof fn installations_ask_unless_told(install: InstallModel, argument: Seq<u8>)
    requires
        !install.help,
    ensures
        after_install_argument(install, argument) matches Ok(more) ==> {
            &&& more.assume_yes && !install.assume_yes ==> (argument == encode_utf8("-y"@)
                || argument == encode_utf8("--yes"@)) && !install.positional_only
            &&& install.assume_yes ==> more.assume_yes
            &&& install.input is Some ==> more.input == install.input
            &&& install.input is None && more.input is Some ==> more.input == Some(argument)
        },
{
    if vstd::utf8::valid_utf8(argument) {
        vstd::utf8::decode_utf8_encode_utf8(argument);
    }
}

/// A compression level is a number from 1 through 19, and a time is any number of
/// seconds.
pub proof fn numbers_are_taken_by_value(name: Seq<char>, level: u8, seconds: u64)
    ensures
        level_value(decimal(level as nat)) is Ok <==> 1 <= level <= 19,
        level_value(decimal(level as nat)) matches Ok(value) ==> value == level,
        seconds_value(name, decimal(seconds as nat)) == Ok::<u64, Seq<char>>(seconds),
{
    decimal_round_trip(level as nat, u8::MAX as int);
    decimal_round_trip(seconds as nat, u64::MAX as int);
}

/// A text option takes one line that is not blank, without the white space around
/// it.
pub proof fn texts_are_single_lines(option: Seq<char>, value: Seq<char>)
    ensures
        line_value(option, value) is Ok <==> trim(value).len() > 0 && !value.contains('\n')
            && !value.contains('\r'),
        line_value(option, value) matches Ok(text) ==> text == trim(value),
{
}

// ---------------------------------------------------------------------------
// Defaults
// ---------------------------------------------------------------------------
/// Without options a conversion has compression level 3, writes an index and no
/// build file, omits scripts, and is neither quiet nor forced.  The environment
/// gives the packager, unless it is blank, and the time.
pub proof fn conversions_have_their_defaults(packager: Seq<char>, seconds: u64)
    ensures
        new_command(None, None) matches Ok(command) && {
            &&& command.compression_level == 3 && command.generate_mtree
            &&& command.pkgbuild == PkgbuildMode::Skip
            &&& command.script_policy == ScriptPolicy::Safe
            &&& !command.quiet && !command.force && !command.keep_work
            &&& !command.wipe_versions && !command.pseudo_64 && !command.positional_only
            &&& command.input is None && command.output_dir is None && command.requested is None
            &&& command.source_date_epoch is None
            &&& new_command(Some(packager), None) == Ok::<CommandModel, Seq<char>>(
                CommandModel {
                    packager: if trim(packager).len() == 0 {
                        command.packager
                    } else {
                        packager
                    },
                    ..command
                },
            )
            &&& new_command(None, Some(decimal(seconds as nat))) == Ok::<CommandModel, Seq<char>>(
                CommandModel { source_date_epoch: Some(seconds), ..command },
            )
        },
{
    decimal_round_trip(seconds as nat, u64::MAX as int);
}

/// An argument that does not start with a dash is the package to convert, and so is
/// every argument behind `--`.  Another argument with a dash at its start is none.
pub proof fn arguments_without_dashes_are_packages(
    command: CommandModel,
    argument: Seq<u8>,
    next: Option<Seq<u8>>,
)
    requires
        command.input is None,
    ensures
        command.positional_only || argument.len() == 0 || argument[0] != 0x2d ==> after_argument(
            command,
            argument,
            next,
        ) == Ok::<(CommandModel, bool), Seq<char>>(
            (CommandModel { input: Some(argument), ..command }, false),
        ),
        !command.positional_only && argument == encode_utf8("--"@) ==> after_argument(
            command,
            argument,
            next,
        ) == Ok::<(CommandModel, bool), Seq<char>>(
            (CommandModel { positional_only: true, ..command }, false),
        ),
        !command.positional_only && argument == seq![0x2du8] ==> (after_argument(
            command,
            argument,
            next,
        ) matches Ok((after, _)) ==> after.input is None),
{
    reveal_strlit("--");
    vstd::utf8::is_ascii_chars_encode_utf8("--"@);
    if !command.positional_only && argument == seq![0x2du8] {
        lemma_options_take_no_input(command, decode_utf8(argument), next);
    }
}

proof fn lemma_options_take_no_input(
    command: CommandModel,
    text: Seq<char>,
    next: Option<Seq<u8>>,
)
    ensures
        after_option(command, text, next) matches Ok((after, _)) ==> after.input == command.input,
{
    lemma_letters_take_no_input(command, trim_start(text, CharClass::Exactly('-')), text);
}

proof fn lemma_letters_take_no_input(command: CommandModel, letters: Seq<char>, text: Seq<char>)
    ensures
        with_letters(command, letters, text) matches Ok(after) ==> after.input == command.input,
    decreases letters.len(),
{
    if letters.len() > 0 {
        lemma_letters_take_no_input(command, letters.drop_last(), text);
    }
}

} // verus!
