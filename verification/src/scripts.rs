//! The treatment of Debian maintainer scripts.

use vstd::prelude::*;

use crate::error::{AppError, Outcome, Result};
use crate::pieces::{
    contains_text, lemma_part_is_shorter, lemma_split_join, lemma_split_whole, occurs_in, split,
    split_at_class, texts,
};
use crate::text::{chars, is, string, CharClass};

verus! {

/// What happens to the maintainer scripts of a package.
#[derive(Debug, Clone, Copy, PartialEq, Eq, Structural)]
pub enum ScriptPolicy {
    Safe,
    Skip,
    Raw,
}

/// The policy with a name.
pub open spec fn policy_of(name: Seq<char>) -> Outcome<ScriptPolicy> {
    if name == "safe"@ {
        Ok(ScriptPolicy::Safe)
    } else if name == "none"@ {
        Ok(ScriptPolicy::Skip)
    } else if name == "raw"@ {
        Ok(ScriptPolicy::Raw)
    } else {
        Err("Unknown script policy '"@ + name + "'. Use safe, none, or raw."@)
    }
}

/// Get the policy with a name.
pub fn parse_script_policy(name: &[char]) -> (result: Result<ScriptPolicy>)
    ensures
        match result {
            Ok(policy) => policy_of(name@) == Ok::<ScriptPolicy, Seq<char>>(policy),
            Err(error) => policy_of(name@) == Err::<ScriptPolicy, Seq<char>>(error@),
        },
{
    if is(name, "safe") {
        Ok(ScriptPolicy::Safe)
    } else if is(name, "none") {
        Ok(ScriptPolicy::Skip)
    } else if is(name, "raw") {
        Ok(ScriptPolicy::Raw)
    } else {
        Err(
            AppError::new(
                String::from_str("Unknown script policy '").concat(string(name).as_str()).concat(
                    "'. Use safe, none, or raw.",
                ),
            ),
        )
    }
}

// ---------------------------------------------------------------------------
// Install scripts
// ---------------------------------------------------------------------------
/// The texts of the maintainer scripts of a Debian package.
#[derive(Debug, Clone, PartialEq, Eq)]
pub struct MaintainerScripts {
    pub preinst: Option<String>,
    pub postinst: Option<String>,
    pub prerm: Option<String>,
    pub postrm: Option<String>,
}

/// The mathematical value of [`MaintainerScripts`].
pub struct ScriptsModel {
    pub preinst: Option<Seq<char>>,
    pub postinst: Option<Seq<char>>,
    pub prerm: Option<Seq<char>>,
    pub postrm: Option<Seq<char>>,
}

impl DeepView for MaintainerScripts {
    type V = ScriptsModel;

    open spec fn deep_view(&self) -> ScriptsModel {
        ScriptsModel {
            preinst: self.preinst.deep_view(),
            postinst: self.postinst.deep_view(),
            prerm: self.prerm.deep_view(),
            postrm: self.postrm.deep_view(),
        }
    }
}

/// The install script of an Arch package, and what was left out of it.
#[derive(Debug, Clone, PartialEq, Eq)]
pub struct ScriptOutput {
    pub install: Option<String>,
    pub warnings: Vec<String>,
}

/// The mathematical value of a [`ScriptOutput`].
pub struct OutputModel {
    pub install: Option<Seq<char>>,
    pub warnings: Seq<Seq<char>>,
}

impl DeepView for ScriptOutput {
    type V = OutputModel;

    open spec fn deep_view(&self) -> OutputModel {
        OutputModel {
            install: self.install.deep_view(),
            warnings: self.warnings.deep_view(),
        }
    }
}

/// The package has a maintainer script.
pub open spec fn has_scripts(scripts: ScriptsModel) -> bool {
    scripts.preinst is Some || scripts.postinst is Some || scripts.prerm is Some
        || scripts.postrm is Some
}

/// The script calls a tool of the Debian package manager.
pub open spec fn calls_package_manager(script: Option<Seq<char>>) -> bool {
    script matches Some(text) && (occurs_in("apt"@, text) || occurs_in("dpkg"@, text) || occurs_in(
        "update-alternatives"@,
        text,
    ))
}

/// The lines of a script, as a shell reads a here-document.
pub open spec fn script_lines(text: Seq<char>) -> Seq<Seq<char>> {
    split(text, CharClass::Exactly('\n'))
}

/// The first delimiter of a here-document, from a candidate on, that is no line
/// of the script.  The next candidate is longer by an underscore, and one that
/// is longer than the script is no line of it.
pub open spec fn delimiter_from(text: Seq<char>, candidate: Seq<char>) -> Seq<char>
    decreases text.len() + 1 - candidate.len(),
{
    if candidate.len() <= text.len() && script_lines(text).contains(candidate) {
        delimiter_from(text, candidate.push('_'))
    } else {
        candidate
    }
}

/// The delimiter of the here-document that holds a script.
pub open spec fn delimiter_of(text: Seq<char>) -> Seq<char> {
    delimiter_from(text, "DEBIAN_SCRIPT"@)
}

/// A script as a function of an install script.
pub open spec fn script_function(
    name: Seq<char>,
    argument: Seq<char>,
    script: Option<Seq<char>>,
) -> Seq<char> {
    match script {
        Some(text) => name + "() {\n  sh -s "@ + argument + " <<'"@ + delimiter_of(text) + "'\n"@
            + text + "\n"@ + delimiter_of(text) + "\n}\n"@,
        None => seq![],
    }
}

/// The install script with all maintainer scripts.
pub open spec fn raw_script(scripts: ScriptsModel) -> Seq<char> {
    script_function("pre_install"@, "install"@, scripts.preinst) + script_function(
        "post_install"@,
        "configure"@,
        scripts.postinst,
    ) + script_function("pre_remove"@, "remove"@, scripts.prerm) + script_function(
        "post_remove"@,
        "remove"@,
        scripts.postrm,
    )
}

/// The install script that a policy gives.
pub open spec fn script_output(policy: ScriptPolicy, scripts: ScriptsModel) -> OutputModel {
    if !has_scripts(scripts) {
        OutputModel { install: None, warnings: seq![] }
    } else {
        match policy {
            ScriptPolicy::Skip => OutputModel {
                install: None,
                warnings: seq!["Debian maintainer scripts were not copied."@],
            },
            ScriptPolicy::Safe => OutputModel {
                install: None,
                warnings: seq!["Safe mode omitted foreign Debian maintainer code."@] + if (
                calls_package_manager(scripts.preinst) || calls_package_manager(scripts.postinst)
                    || calls_package_manager(scripts.prerm) || calls_package_manager(
                    scripts.postrm,
                )) {
                    seq!["Debian package-manager commands were not copied."@]
                } else {
                    seq![]
                },
            },
            ScriptPolicy::Raw => OutputModel {
                install: Some(raw_script(scripts)),
                warnings: seq![
                    "Raw mode copied Debian maintainer scripts. They can call Debian-only commands or change repository settings."@,
                ],
            },
        }
    }
}

fn uses_package_manager(script: &Option<String>) -> (result: bool)
    ensures
        result == calls_package_manager(script.deep_view()),
{
    match script {
        None => false,
        Some(text) => {
            let characters = chars(text.as_str());
            contains_text(characters.as_slice(), "apt") || contains_text(
                characters.as_slice(),
                "dpkg",
            ) || contains_text(characters.as_slice(), "update-alternatives")
        },
    }
}

fn is_line(lines: &Vec<&[char]>, candidate: &str) -> (result: bool)
    ensures
        result == texts(lines@).contains(candidate@),
{
    let ghost all = texts(lines@);
    for index in 0..lines.len()
        invariant
            all == texts(lines@),
            forall|at: int| 0 <= at < index ==> #[trigger] all[at] != candidate@,
    {
        assert(all[index as int] == lines@[index as int]@);
        if is(lines[index], candidate) {
            return true;
        }
    }
    false
}

/// Choose the delimiter of the here-document that holds a script.
fn choose_delimiter(text: &str) -> (result: String)
    ensures
        result@ == delimiter_of(text@),
{
    let characters = chars(text);
    let lines = split_at_class(characters.as_slice(), CharClass::Exactly('\n'));
    let mut candidate = String::from_str("DEBIAN_SCRIPT");
    while candidate.as_str().unicode_len() <= characters.len() && is_line(
        &lines,
        candidate.as_str(),
    )
        invariant
            characters@ == text@,
            texts(lines@) == script_lines(text@),
            delimiter_from(text@, candidate@) == delimiter_of(text@),
        decreases text@.len() + 1 - candidate@.len(),
    {
        candidate.push('_');
    }
    candidate
}

fn with_function(text: String, name: &str, argument: &str, script: &Option<String>) -> (result:
    String)
    ensures
        result@ == text@ + script_function(name@, argument@, script.deep_view()),
{
    match script {
        None => {
            assert(text@ + Seq::<char>::empty() =~= text@);
            text
        },
        Some(body) => {
            let delimiter = choose_delimiter(body.as_str());
            let function = String::from_str(name).concat("() {\n  sh -s ").concat(argument).concat(
                " <<'",
            ).concat(delimiter.as_str()).concat("'\n").concat(body.as_str()).concat("\n").concat(
                delimiter.as_str(),
            ).concat("\n}\n");
            text.concat(function.as_str())
        },
    }
}

fn write_raw_script(scripts: &MaintainerScripts) -> (result: String)
    ensures
        result@ == raw_script(scripts.deep_view()),
{
    let nothing = String::from_str("");
    assert(nothing@ =~= seq![]) by {
        reveal_strlit("");
    }
    let text = with_function(nothing, "pre_install", "install", &scripts.preinst);
    let text = with_function(text, "post_install", "configure", &scripts.postinst);
    let text = with_function(text, "pre_remove", "remove", &scripts.prerm);
    let text = with_function(text, "post_remove", "remove", &scripts.postrm);
    assert(text@ =~= raw_script(scripts.deep_view()));
    text
}

/// Make the install script that a policy gives.
pub fn generate_install_script(policy: ScriptPolicy, scripts: &MaintainerScripts) -> (result:
    ScriptOutput)
    ensures
        result.deep_view() == script_output(policy, scripts.deep_view()),
{
    let ghost expected = script_output(policy, scripts.deep_view()).warnings;
    let mut warnings: Vec<String> = Vec::new();
    if scripts.preinst.is_none() && scripts.postinst.is_none() && scripts.prerm.is_none()
        && scripts.postrm.is_none() {
        assert(warnings.deep_view() =~= expected);
        return ScriptOutput { install: None, warnings };
    }
    match policy {
        ScriptPolicy::Skip => {
            warnings.push(String::from_str("Debian maintainer scripts were not copied."));
            assert(warnings.deep_view() =~= expected);
            ScriptOutput { install: None, warnings }
        },
        ScriptPolicy::Safe => {
            warnings.push(String::from_str("Safe mode omitted foreign Debian maintainer code."));
            if uses_package_manager(&scripts.preinst) || uses_package_manager(&scripts.postinst)
                || uses_package_manager(&scripts.prerm) || uses_package_manager(&scripts.postrm) {
                warnings.push(String::from_str("Debian package-manager commands were not copied."));
            }
            assert(warnings.deep_view() =~= expected);
            ScriptOutput { install: None, warnings }
        },
        ScriptPolicy::Raw => {
            warnings.push(
                String::from_str(
                    "Raw mode copied Debian maintainer scripts. They can call Debian-only commands or change repository settings.",
                ),
            );
            assert(warnings.deep_view() =~= expected);
            ScriptOutput { install: Some(write_raw_script(scripts)), warnings }
        },
    }
}

// ---------------------------------------------------------------------------
// Triggers
// ---------------------------------------------------------------------------
/// The warning about triggers, which no policy copies.
pub const TRIGGER_WARNING: &'static str = "Debian triggers were not copied.";

/// The output with a warning about the triggers of a package, if it has any.
pub open spec fn with_trigger_warning(output: OutputModel, has_triggers: bool) -> OutputModel {
    if has_triggers {
        OutputModel { warnings: output.warnings.push(TRIGGER_WARNING@), ..output }
    } else {
        output
    }
}

/// Record the triggers of a package, which its control directory lists in the
/// file `triggers`, as a warning.
pub fn record_triggers(output: ScriptOutput, has_triggers: bool) -> (result: ScriptOutput)
    ensures
        result.deep_view() == with_trigger_warning(output.deep_view(), has_triggers),
{
    let mut output = output;
    if has_triggers {
        let ghost before = output.warnings.deep_view();
        output.warnings.push(String::from_str(TRIGGER_WARNING));
        assert(output.warnings.deep_view() =~= before.push(TRIGGER_WARNING@));
    }
    output
}

// ---------------------------------------------------------------------------
// Laws
// ---------------------------------------------------------------------------
/// Triggers are recorded as a warning under every policy, and change nothing
/// else; without triggers nothing is recorded.
pub proof fn triggers_are_recorded(policy: ScriptPolicy, scripts: ScriptsModel)
    ensures
        ({
            let plain = script_output(policy, scripts);
            let noted = with_trigger_warning(plain, true);
            &&& noted.warnings.last() == TRIGGER_WARNING@
            &&& noted.warnings.drop_last() == plain.warnings
            &&& noted.install == plain.install
            &&& with_trigger_warning(plain, false) == plain
        }),
{
    let plain = script_output(policy, scripts);
    assert(with_trigger_warning(plain, true).warnings.drop_last() =~= plain.warnings);
}

/// The delimiter of the here-document that holds a script is no line of it.
pub proof fn delimiters_are_no_lines(text: Seq<char>, candidate: Seq<char>)
    ensures
        !script_lines(text).contains(delimiter_from(text, candidate)),
    decreases text.len() + 1 - candidate.len(),
{
    if candidate.len() <= text.len() && script_lines(text).contains(candidate) {
        delimiters_are_no_lines(text, candidate.push('_'));
    } else if script_lines(text).contains(candidate) {
        let at = choose|at: int|
            0 <= at < script_lines(text).len() && script_lines(text)[at] == candidate;
        lemma_part_is_shorter(text, CharClass::Exactly('\n'), at);
    }
}

proof fn lemma_no_line_break(text: Seq<char>, candidate: Seq<char>)
    requires
        !candidate.contains('\n'),
    ensures
        !delimiter_from(text, candidate).contains('\n'),
    decreases text.len() + 1 - candidate.len(),
{
    if candidate.len() <= text.len() && script_lines(text).contains(candidate) {
        let longer = candidate.push('_');
        assert forall|at: int| 0 <= at < longer.len() implies longer[at] != '\n' by {
            if at < candidate.len() {
                assert(candidate.contains(candidate[at]));
            }
        }
        lemma_no_line_break(text, longer);
    }
}

/// A shell reads a script back whole: the lines of the here-document are those
/// of the script, and the first line that equals the delimiter is the one behind
/// them.
pub proof fn scripts_are_wrapped_whole(text: Seq<char>, after: Seq<char>)
    ensures
        ({
            let delimiter = delimiter_of(text);
            let document = text + "\n"@ + delimiter + "\n"@ + after;
            let read = script_lines(document);
            let count = script_lines(text).len() as int;
            &&& count < read.len()
            &&& read.take(count) == script_lines(text)
            &&& read[count] == delimiter
            &&& !read.take(count).contains(delimiter)
        }),
{
    let class = CharClass::Exactly('\n');
    let delimiter = delimiter_of(text);
    let document = text + "\n"@ + delimiter + "\n"@ + after;
    let read = script_lines(document);
    let lines = script_lines(text);
    reveal_strlit("\n");
    reveal_strlit("DEBIAN_SCRIPT");
    delimiters_are_no_lines(text, "DEBIAN_SCRIPT"@);
    lemma_no_line_break(text, "DEBIAN_SCRIPT"@);
    assert forall|at: int| 0 <= at < delimiter.len() implies !class.has(
        #[trigger] delimiter[at],
    ) by {
        assert(delimiter.contains(delimiter[at]));
    }
    lemma_split_whole(delimiter, class);
    let end = delimiter.push('\n') + after;
    assert(document =~= text.push('\n') + end);
    lemma_split_join(text, '\n', end, class);
    lemma_split_join(delimiter, '\n', after, class);
    assert(read =~= lines + (seq![delimiter] + split(after, class)));
    assert(read.take(lines.len() as int) =~= lines);
}

/// Maintainer code gets into a package only under the raw policy, and a warning
/// says what became of it.
pub proof fn only_the_raw_policy_copies_scripts(policy: ScriptPolicy, scripts: ScriptsModel)
    ensures
        policy != ScriptPolicy::Raw ==> script_output(policy, scripts).install is None,
        has_scripts(scripts) ==> script_output(policy, scripts).warnings.len() > 0,
{
}

/// The install script runs a maintainer script in a function with a name, with
/// an argument, and with the whole text of the script.
pub open spec fn runs_script(
    install: Seq<char>,
    name: Seq<char>,
    argument: Seq<char>,
    script: Seq<char>,
) -> bool {
    exists|delimiter: Seq<char>|
        occurs_in(
            #[trigger] (name + "() {\n  sh -s "@ + argument + " <<'"@ + delimiter + "'\n"@ + script
                + "\n"@ + delimiter + "\n}\n"@),
            install,
        )
}

proof fn lemma_piece_runs(
    before: Seq<char>,
    after: Seq<char>,
    name: Seq<char>,
    argument: Seq<char>,
    script: Seq<char>,
)
    ensures
        runs_script(
            before + script_function(name, argument, Some(script)) + after,
            name,
            argument,
            script,
        ),
{
    let piece = script_function(name, argument, Some(script));
    let whole = before + piece + after;
    let at = before.len() as int;
    assert(whole.subrange(at, at + piece.len()) =~= piece);
    let delimiter = delimiter_of(script);
    assert(piece == name + "() {\n  sh -s "@ + argument + " <<'"@ + delimiter + "'\n"@ + script
        + "\n"@ + delimiter + "\n}\n"@);
}

/// With the raw policy each maintainer script runs at the place that is meant
/// for it: before and after the installation, and before and after the removal.
pub proof fn raw_scripts_run_in_their_places(scripts: ScriptsModel)
    ensures
        has_scripts(scripts) ==> (script_output(ScriptPolicy::Raw, scripts).install matches Some(
            install,
        ) && {
            &&& scripts.preinst matches Some(script) ==> runs_script(
                install,
                "pre_install"@,
                "install"@,
                script,
            )
            &&& scripts.postinst matches Some(script) ==> runs_script(
                install,
                "post_install"@,
                "configure"@,
                script,
            )
            &&& scripts.prerm matches Some(script) ==> runs_script(
                install,
                "pre_remove"@,
                "remove"@,
                script,
            )
            &&& scripts.postrm matches Some(script) ==> runs_script(
                install,
                "post_remove"@,
                "remove"@,
                script,
            )
        }),
{
    let one = script_function("pre_install"@, "install"@, scripts.preinst);
    let two = script_function("post_install"@, "configure"@, scripts.postinst);
    let three = script_function("pre_remove"@, "remove"@, scripts.prerm);
    let four = script_function("post_remove"@, "remove"@, scripts.postrm);
    let install = raw_script(scripts);
    let none = Seq::<char>::empty();
    if let Some(script) = scripts.preinst {
        lemma_piece_runs(none, two + three + four, "pre_install"@, "install"@, script);
        assert(none + one + (two + three + four) =~= install);
    }
    if let Some(script) = scripts.postinst {
        lemma_piece_runs(one, three + four, "post_install"@, "configure"@, script);
        assert(one + two + (three + four) =~= install);
    }
    if let Some(script) = scripts.prerm {
        lemma_piece_runs(one + two, four, "pre_remove"@, "remove"@, script);
        assert(one + two + three + four =~= install);
    }
    if let Some(script) = scripts.postrm {
        lemma_piece_runs(one + two + three, none, "post_remove"@, "remove"@, script);
        assert(one + two + three + four + none =~= install);
    }
}

/// The text calls a tool of the Debian package manager.
pub open spec fn names_package_manager(text: Seq<char>) -> bool {
    occurs_in("apt"@, text) || occurs_in("dpkg"@, text) || occurs_in("update-alternatives"@, text)
}

/// The safe policy warns of the omitted scripts, and of calls of the Debian
/// package manager exactly if one of the four scripts makes one.
pub proof fn package_manager_calls_are_noted(scripts: ScriptsModel)
    ensures
        has_scripts(scripts) <==> scripts.preinst is Some || scripts.postinst is Some
            || scripts.prerm is Some || scripts.postrm is Some,
        has_scripts(scripts) ==> {
            let noted = (scripts.preinst is Some && names_package_manager(scripts.preinst->0)) || (
            scripts.postinst is Some && names_package_manager(scripts.postinst->0)) || (
            scripts.prerm is Some && names_package_manager(scripts.prerm->0)) || (
            scripts.postrm is Some && names_package_manager(scripts.postrm->0));
            &&& script_output(ScriptPolicy::Safe, scripts).warnings.len() == if noted {
                2nat
            } else {
                1nat
            }
            &&& script_output(ScriptPolicy::Skip, scripts).warnings.len() == 1
            &&& script_output(ScriptPolicy::Raw, scripts).warnings.len() == 1
        },
        !has_scripts(scripts) ==> forall|policy: ScriptPolicy|
            (#[trigger] script_output(policy, scripts)).warnings.len() == 0 && script_output(
                policy,
                scripts,
            ).install is None,
{
}

} // verus!
