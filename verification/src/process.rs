//! Decisions about child processes and the messages about them.

use vstd::prelude::*;
use vstd::utf8::{decode_utf8, encode_utf8, valid_utf8};

use crate::bytes::{byte_lists, byte_texts, copy, extend, split_at_byte, split_bytes};
use crate::encoding::{decode, decode_lossy, lemma_decoded, lossy_text, utf8_fault};
use crate::error::{outcome, AppError, Outcome, Result};
use crate::lists::str_views;
use crate::number::{signed_decimal, signed_text};
use crate::paths::{components, is_absolute, is_absolute_path, join_path, joined_path, path_components};
use crate::pieces::{join, joined, split, split_at_class, trim, trimmed};
use crate::text::{alphanumeric, chars, is_alphanumeric, CharClass};

verus! {

/// The most bytes of diagnostic output that are kept of one process.
pub const MAX_PIPELINE_DIAGNOSTIC_BYTES: usize = 1_048_576;

/// The note behind diagnostic output that was cut.
pub const TRUNCATION_NOTE: &'static str = "\n[diagnostic output was truncated]";

// ---------------------------------------------------------------------------
// Tools
// ---------------------------------------------------------------------------
/// The places where a tool is looked for.  A name with a separator is a path
/// and is not searched for.
pub open spec fn tool_places(name: Seq<u8>, search_path: Option<Seq<u8>>) -> Seq<Seq<u8>> {
    if name.len() == 0 {
        seq![]
    } else if path_components(name).len() > 1 || is_absolute_path(name) {
        seq![name]
    } else {
        match search_path {
            None => seq![],
            Some(directories) => split_bytes(directories, 0x3a).map_values(
                |directory: Seq<u8>| joined_path(directory, name),
            ),
        }
    }
}

/// List the places where a tool is looked for, in the order of the search.
pub fn tool_candidates(name: &[u8], search_path: Option<&[u8]>) -> (result: Vec<Vec<u8>>)
    ensures
        byte_lists(result@) == tool_places(name@, crate::bytes::optional_slice(search_path)),
{
    let mut places: Vec<Vec<u8>> = Vec::new();
    if name.len() == 0 {
        assert(byte_lists(places@) =~= seq![]);
        return places;
    }
    let parts = components(name);
    assert(parts.deep_view().len() == parts@.len());
    if parts.len() > 1 || is_absolute(name) {
        places.push(copy(name));
        assert(byte_lists(places@) =~= seq![name@]);
        return places;
    }
    if let Some(directories) = search_path {
        let all = split_at_byte(directories, 0x3a);
        let ghost names = byte_texts(all@);
        for index in 0..all.len()
            invariant
                names == byte_texts(all@),
                places@.len() == index,
                forall|at: int|
                    0 <= at < index ==> (#[trigger] places@[at])@ == joined_path(names[at], name@),
        {
            let place = join_path(all[index], name);
            assert(names[index as int] == all@[index as int]@);
            places.push(place);
        }
        assert(byte_lists(places@) =~= names.map_values(
            |directory: Seq<u8>| joined_path(directory, name@),
        ));
    } else {
        assert(byte_lists(places@) =~= seq![]);
    }
    places
}

/// A regular file that someone may execute.
pub fn is_executable_file(is_file: bool, mode: u32) -> (result: bool)
    ensures
        result == (is_file && mode & 0o111 != 0),
{
    is_file && mode & 0o111 != 0
}

/// The first place that holds an executable file.
pub open spec fn first_executable(places: Seq<Seq<u8>>, executable: Seq<bool>) -> Option<Seq<u8>>
    decreases places.len(),
{
    if places.len() == 0 {
        None
    } else if executable[0] {
        Some(places[0])
    } else {
        first_executable(places.drop_first(), executable.drop_first())
    }
}

/// Find a tool among its candidates.
pub fn find_tool(candidates: &Vec<Vec<u8>>, executable: &Vec<bool>) -> (result: Option<Vec<u8>>)
    requires
        candidates@.len() == executable@.len(),
    ensures
        crate::bytes::optional_bytes(result) == first_executable(
            byte_lists(candidates@),
            executable@,
        ),
{
    let ghost all = byte_lists(candidates@);
    assert(all.skip(0) == all);
    assert(executable@.skip(0) == executable@);
    for index in 0..candidates.len()
        invariant
            all == byte_lists(candidates@),
            candidates@.len() == executable@.len(),
            first_executable(all, executable@) == first_executable(
                all.skip(index as int),
                executable@.skip(index as int),
            ),
    {
        assert(all.skip(index as int)[0] == candidates@[index as int]@);
        if executable[index] {
            return Some(copy(candidates[index].as_slice()));
        }
        assert(all.skip(index as int).drop_first() == all.skip(index + 1));
        assert(executable@.skip(index as int).drop_first() == executable@.skip(index + 1));
    }
    None
}

/// Whether a tool was found.
pub fn command_exists(candidates: &Vec<Vec<u8>>, executable: &Vec<bool>) -> (result: bool)
    requires
        candidates@.len() == executable@.len(),
    ensures
        result == (first_executable(byte_lists(candidates@), executable@) is Some),
{
    find_tool(candidates, executable).is_some()
}

/// An alias for [`command_exists`] that reads well at call sites.
pub fn tool_exists(candidates: &Vec<Vec<u8>>, executable: &Vec<bool>) -> (result: bool)
    requires
        candidates@.len() == executable@.len(),
    ensures
        result == (first_executable(byte_lists(candidates@), executable@) is Some),
{
    command_exists(candidates, executable)
}

/// The message about a tool that is not there.
pub open spec fn missing_tool(name: Seq<u8>) -> Seq<char> {
    "required command '"@ + lossy_text(name) + "' was not found in PATH"@
}

/// Require that a tool was found.
pub fn require_tool(name: &[u8], found: Option<Vec<u8>>) -> (result: Result<Vec<u8>>)
    ensures
        match result {
            Ok(path) => found == Some(path),
            Err(error) => found is None && error@ == missing_tool(name@),
        },
{
    match found {
        Some(path) => Ok(path),
        None => Err(
            AppError::new(
                String::from_str("required command '").concat(decode_lossy(name).as_str()).concat(
                    "' was not found in PATH",
                ),
            ),
        ),
    }
}

/// The places of optional byte strings.
pub open spec fn optional_lists(found: Seq<Option<Vec<u8>>>) -> Seq<Option<Seq<u8>>> {
    found.map_values(|place: Option<Vec<u8>>| crate::bytes::optional_bytes(place))
}

/// The places of all tools, or the message about the first one that is not
/// there.
pub open spec fn tools_of(names: Seq<Seq<char>>, found: Seq<Option<Seq<u8>>>) -> Outcome<Seq<Seq<u8>>>
    decreases found.len(),
{
    if found.len() == 0 {
        Ok(seq![])
    } else {
        match tools_of(names, found.drop_last()) {
            Err(message) => Err(message),
            Ok(places) => match found.last() {
                Some(place) => Ok(places.push(place)),
                None => Err(missing_tool(encode_utf8(names[found.len() - 1]))),
            },
        }
    }
}

proof fn lemma_tools_prefix(names: Seq<Seq<char>>, found: Seq<Option<Seq<u8>>>, length: int)
    requires
        0 <= length <= found.len(),
        tools_of(names, found.take(length)) is Err,
    ensures
        tools_of(names, found) == tools_of(names, found.take(length)),
    decreases found.len(),
{
    if length < found.len() {
        assert(found.drop_last().take(length) == found.take(length));
        lemma_tools_prefix(names, found.drop_last(), length);
    } else {
        assert(found.take(length) == found);
    }
}

/// Require that all tools were found.
pub fn require_tools(names: &[&str], found: &Vec<Option<Vec<u8>>>) -> (result: Result<Vec<Vec<u8>>>)
    requires
        names@.len() == found@.len(),
    ensures
        match result {
            Ok(paths) => tools_of(str_views(names@), optional_lists(found@)) == Ok::<
                Seq<Seq<u8>>,
                Seq<char>,
            >(byte_lists(paths@)),
            Err(error) => tools_of(str_views(names@), optional_lists(found@)) == Err::<
                Seq<Seq<u8>>,
                Seq<char>,
            >(error@),
        },
{
    let ghost all = optional_lists(found@);
    let ghost words = str_views(names@);
    let mut paths: Vec<Vec<u8>> = Vec::new();
    assert(byte_lists(paths@) =~= Seq::<Seq<u8>>::empty());
    for index in 0..found.len()
        invariant
            names@.len() == found@.len(),
            all == optional_lists(found@),
            words == str_views(names@),
            tools_of(words, all.take(index as int)) == Ok::<Seq<Seq<u8>>, Seq<char>>(
                byte_lists(paths@),
            ),
    {
        let ghost before = byte_lists(paths@);
        proof {
            assert(all.take(index + 1).drop_last() == all.take(index as int));
            assert(all.take(index + 1).last() == crate::bytes::optional_bytes(found@[index as int]));
            if tools_of(words, all.take(index + 1)) is Err {
                lemma_tools_prefix(words, all, index + 1);
            }
        }
        match &found[index] {
            Some(path) => {
                let one = copy(path.as_slice());
                paths.push(one);
                assert(byte_lists(paths@) =~= before.push(path@));
            },
            None => {
                assert(words[index as int] == names@[index as int]@);
                return Err(
                    AppError::new(
                        String::from_str("required command '").concat(
                            decode_lossy(names[index].as_bytes()).as_str(),
                        ).concat("' was not found in PATH"),
                    ),
                );
            },
        }
    }
    assert(all.take(all.len() as int) == all);
    Ok(paths)
}

// ---------------------------------------------------------------------------
// Commands
// ---------------------------------------------------------------------------
/// The text that the `Debug` form of a string shows.
pub uninterp spec fn debug_text(text: Seq<char>) -> Seq<char>;

/// `format!` of the standard library with the `Debug` form of a string: the
/// text in quotes, with escapes.  What it gives goes by the name `debug_text`.
#[verifier::external_body]
fn quoted(text: &str) -> (result: String)
    ensures
        result@ == debug_text(text@),
{
    format!("{text:?}")
}

/// A character that needs no quotes in a command line.
pub open spec fn is_plain_character(character: char) -> bool {
    ||| is_alphanumeric(character)
    ||| character == '.'
    ||| character == '_'
    ||| character == '/'
    ||| character == '+'
    ||| character == ','
    ||| character == ':'
    ||| character == '='
    ||| character == '@'
    ||| character == '%'
    ||| character == '-'
}

/// Every character needs no quotes.
pub open spec fn is_plain_text(text: Seq<char>) -> bool {
    forall|index: int| 0 <= index < text.len() ==> is_plain_character(#[trigger] text[index])
}

/// An argument of a command as it is shown.
pub open spec fn shown_argument(argument: Seq<u8>) -> Seq<char> {
    let text = lossy_text(argument);
    if is_plain_text(text) {
        text
    } else {
        debug_text(text)
    }
}

/// A command as it is shown.
pub open spec fn shown_command(program: Seq<u8>, arguments: Seq<Seq<u8>>) -> Seq<char>
    decreases arguments.len(),
{
    if arguments.len() == 0 {
        shown_argument(program)
    } else {
        shown_command(program, arguments.drop_last()) + " "@ + shown_argument(arguments.last())
    }
}

fn plain_text(text: &[char]) -> (result: bool)
    ensures
        result == is_plain_text(text@),
{
    for index in 0..text.len()
        invariant
            forall|at: int| 0 <= at < index ==> is_plain_character(#[trigger] text@[at]),
    {
        let character = text[index];
        if !(alphanumeric(character) || character == '.' || character == '_' || character == '/'
            || character == '+' || character == ',' || character == ':' || character == '='
            || character == '@' || character == '%' || character == '-') {
            assert(!is_plain_character(text@[index as int]));
            return false;
        }
    }
    true
}

/// Show an argument as it is, or quote it when it holds unusual characters.
pub fn quote_argument(argument: &[u8]) -> (result: String)
    ensures
        result@ == shown_argument(argument@),
{
    let text = decode_lossy(argument);
    let characters = chars(text.as_str());
    if plain_text(characters.as_slice()) {
        text
    } else {
        quoted(text.as_str())
    }
}

/// Show a command.
pub fn describe_command(program: &[u8], arguments: &Vec<Vec<u8>>) -> (result: String)
    ensures
        result@ == shown_command(program@, byte_lists(arguments@)),
{
    let ghost all = byte_lists(arguments@);
    let mut description = quote_argument(program);
    for index in 0..arguments.len()
        invariant
            all == byte_lists(arguments@),
            description@ == shown_command(program@, all.take(index as int)),
    {
        proof {
            assert(all.take(index + 1).drop_last() == all.take(index as int));
            assert(all.take(index + 1).last() == arguments@[index as int]@);
        }
        description = description.concat(" ").concat(
            quote_argument(arguments[index].as_slice()).as_str(),
        );
    }
    assert(all.take(all.len() as int) == all);
    description
}

// ---------------------------------------------------------------------------
// Results
// ---------------------------------------------------------------------------
/// What a finished process left behind.
#[derive(Clone, Debug, PartialEq, Eq)]
pub struct CommandOutput {
    /// The exit status, or nothing after a signal.
    pub status: Option<i32>,
    pub stdout: Vec<u8>,
    pub stderr: Vec<u8>,
}

/// Diagnostic output on one line.
pub open spec fn diagnostic_of(bytes: Seq<u8>) -> Seq<char> {
    join(split(trim(lossy_text(bytes)), CharClass::Exactly('\n')), "; "@)
}

/// The end of a message with a detail, if there is one.
pub open spec fn with_detail(detail: Seq<char>) -> Seq<char> {
    if detail.len() == 0 {
        seq![]
    } else {
        ": "@ + detail
    }
}

/// An exit status in words.
pub open spec fn status_words(status: Option<i32>) -> Seq<char> {
    match status {
        Some(code) => "exit status "@ + signed_decimal(code as int),
        None => "termination by signal"@,
    }
}

/// The message about a command that failed.
pub open spec fn failure_message(description: Seq<char>, output: CommandOutput) -> Seq<char> {
    let stderr = diagnostic_of(output.stderr@);
    let detail = if stderr.len() == 0 {
        diagnostic_of(output.stdout@)
    } else {
        stderr
    };
    description + " failed with "@ + status_words(output.status) + with_detail(detail)
}

/// Put diagnostic output on one line.
pub fn diagnostic_text(bytes: &[u8]) -> (result: String)
    ensures
        result@ == diagnostic_of(bytes@),
{
    let text = decode_lossy(bytes);
    let characters = chars(text.as_str());
    let parts = split_at_class(trimmed(characters.as_slice()), CharClass::Exactly('\n'));
    joined(&parts, "; ")
}

/// Put a colon before a detail, if there is one.
pub fn suffix_detail(detail: &str) -> (result: String)
    ensures
        result@ == with_detail(detail@),
{
    if detail.unicode_len() == 0 {
        let nothing = String::from_str("");
        assert(nothing@ =~= seq![]) by {
            reveal_strlit("");
        }
        nothing
    } else {
        String::from_str(": ").concat(detail)
    }
}

/// Put an exit status in words.
pub fn status_description(status: Option<i32>) -> (result: String)
    ensures
        result@ == status_words(status),
{
    match status {
        Some(code) => String::from_str("exit status ").concat(signed_text(code as i64).as_str()),
        None => String::from_str("termination by signal"),
    }
}

fn command_failure(description: &str, output: &CommandOutput) -> (result: AppError)
    ensures
        result@ == failure_message(description@, *output),
{
    let stderr = diagnostic_text(output.stderr.as_slice());
    let stdout = diagnostic_text(output.stdout.as_slice());
    let detail = if stderr.as_str().unicode_len() == 0 {
        stdout
    } else {
        stderr
    };
    AppError::new(
        String::from_str(description).concat(" failed with ").concat(
            status_description(output.status).as_str(),
        ).concat(suffix_detail(detail.as_str()).as_str()),
    )
}

/// Require that a command succeeded.
pub fn run_checked_output(description: &str, output: CommandOutput) -> (result: Result<
    CommandOutput,
>)
    ensures
        match result {
            Ok(same) => same == output && output.status == Some(0i32),
            Err(error) => output.status != Some(0i32) && error@ == failure_message(
                description@,
                output,
            ),
        },
{
    let succeeded = match output.status {
        Some(code) => code == 0,
        None => false,
    };
    if succeeded {
        Ok(output)
    } else {
        Err(command_failure(description, &output))
    }
}

/// Require that a command succeeded and forget its output.
pub fn run_checked(description: &str, output: CommandOutput) -> (result: Result<()>)
    ensures
        outcome(result) == if output.status == Some(0i32) {
            Ok::<(), Seq<char>>(())
        } else {
            Err(failure_message(description@, output))
        },
{
    run_checked_output(description, output)?;
    Ok(())
}

/// Require that a command succeeded and give its standard output.
pub fn capture_stdout(description: &str, output: CommandOutput) -> (result: Result<Vec<u8>>)
    ensures
        match result {
            Ok(bytes) => output.status == Some(0i32) && bytes@ == output.stdout@,
            Err(error) => output.status != Some(0i32) && error@ == failure_message(
                description@,
                output,
            ),
        },
{
    let output = run_checked_output(description, output)?;
    Ok(output.stdout)
}

/// The standard output of a command as text.
pub open spec fn output_text(description: Seq<char>, output: CommandOutput) -> Outcome<Seq<char>> {
    if output.status != Some(0i32) {
        Err(failure_message(description, output))
    } else if valid_utf8(output.stdout@) {
        Ok(decode_utf8(output.stdout@))
    } else {
        Err(
            description + " wrote non-UTF-8 data to standard output"@ + ": "@ + utf8_fault(
                output.stdout@,
            ),
        )
    }
}

/// Require that a command succeeded and wrote UTF-8.
pub fn capture_text(description: &str, output: CommandOutput) -> (result: Result<String>)
    ensures
        outcome(result) == output_text(description@, output),
{
    let output = run_checked_output(description, output)?;
    match decode(output.stdout.as_slice()) {
        Ok(text) => {
            proof {
                lemma_decoded(text@, output.stdout@);
            }
            Ok(text)
        },
        Err(fault) => Err(
            AppError::new(
                String::from_str(description).concat(
                    " wrote non-UTF-8 data to standard output",
                ).concat(": ").concat(fault.as_str()),
            ),
        ),
    }
}

// ---------------------------------------------------------------------------
// Compression
// ---------------------------------------------------------------------------
/// The fault of a compression level that `zstd` does not have.
pub open spec fn level_fault(level: i32) -> Option<Seq<char>> {
    if 1 <= level <= 22 {
        None
    } else {
        Some(
            "invalid zstd compression level "@ + signed_decimal(level as int)
                + "; expected a value from 1 through 22"@,
        )
    }
}

/// Refuse a compression level that `zstd` does not have.
pub fn validate_zstd_level(level: i32) -> (result: Result<()>)
    ensures
        outcome(result) == match level_fault(level) {
            Some(message) => Err::<(), Seq<char>>(message),
            None => Ok(()),
        },
{
    if 1 <= level && level <= 22 {
        Ok(())
    } else {
        Err(
            AppError::new(
                String::from_str("invalid zstd compression level ").concat(
                    signed_text(level as i64).as_str(),
                ).concat("; expected a value from 1 through 22"),
            ),
        )
    }
}

/// The arguments of `zstd` for a compression level.
pub open spec fn zstd_words(level: i32) -> Seq<Seq<char>> {
    let ultra = if level > 19 {
        seq!["--ultra"@]
    } else {
        seq![]
    };
    ultra + seq![
        "-"@ + signed_decimal(level as int),
        "--threads=0"@,
        "--quiet"@,
        "--stdout"@,
        "--"@,
    ]
}

/// The arguments of `zstd` for a valid compression level.
pub fn zstd_arguments(level: i32) -> (result: Result<Vec<String>>)
    ensures
        match result {
            Ok(arguments) => level_fault(level) is None && arguments.deep_view() == zstd_words(
                level,
            ),
            Err(error) => level_fault(level) == Some(error@),
        },
{
    validate_zstd_level(level)?;
    let mut arguments: Vec<String> = Vec::new();
    if level > 19 {
        arguments.push(String::from_str("--ultra"));
    }
    arguments.push(String::from_str("-").concat(signed_text(level as i64).as_str()));
    arguments.push(String::from_str("--threads=0"));
    arguments.push(String::from_str("--quiet"));
    arguments.push(String::from_str("--stdout"));
    arguments.push(String::from_str("--"));
    assert(arguments.deep_view() =~= zstd_words(level));
    Ok(arguments)
}

/// A part of a message about one process, if it wrote something.
pub open spec fn named_detail(name: Seq<char>, detail: Seq<char>) -> Seq<char> {
    if detail.len() == 0 {
        seq![]
    } else {
        name + detail
    }
}

/// The message about a pipeline that failed.
pub open spec fn pipeline_message(
    bsdtar_status: Option<i32>,
    zstd_status: Option<i32>,
    bsdtar_error: Seq<u8>,
    zstd_error: Seq<u8>,
) -> Seq<char> {
    "archive pipeline failed (bsdtar: "@ + status_words(bsdtar_status) + "; zstd: "@
        + status_words(zstd_status) + ")"@ + named_detail(
        "; bsdtar: "@,
        diagnostic_of(bsdtar_error),
    ) + named_detail("; zstd: "@, diagnostic_of(zstd_error))
}

fn detail_after(name: &str, bytes: &[u8]) -> (result: String)
    ensures
        result@ == named_detail(name@, diagnostic_of(bytes@)),
{
    let detail = diagnostic_text(bytes);
    if detail.as_str().unicode_len() == 0 {
        let nothing = String::from_str("");
        assert(nothing@ =~= seq![]) by {
            reveal_strlit("");
        }
        nothing
    } else {
        String::from_str(name).concat(detail.as_str())
    }
}

/// Require that both processes of the archive pipeline succeeded.
pub fn pipe_bsdtar_to_zstd(
    bsdtar_status: Option<i32>,
    zstd_status: Option<i32>,
    bsdtar_error: &[u8],
    zstd_error: &[u8],
) -> (result: Result<()>)
    ensures
        outcome(result) == if bsdtar_status == Some(0i32) && zstd_status == Some(0i32) {
            Ok::<(), Seq<char>>(())
        } else {
            Err(pipeline_message(bsdtar_status, zstd_status, bsdtar_error@, zstd_error@))
        },
{
    let bsdtar_succeeded = match bsdtar_status {
        Some(code) => code == 0,
        None => false,
    };
    let zstd_succeeded = match zstd_status {
        Some(code) => code == 0,
        None => false,
    };
    if bsdtar_succeeded && zstd_succeeded {
        return Ok(());
    }
    Err(
        AppError::new(
            String::from_str("archive pipeline failed (bsdtar: ").concat(
                status_description(bsdtar_status).as_str(),
            ).concat("; zstd: ").concat(status_description(zstd_status).as_str()).concat(")").concat(
                detail_after("; bsdtar: ", bsdtar_error).as_str(),
            ).concat(detail_after("; zstd: ", zstd_error).as_str()),
        ),
    )
}

/// The error of a `zstd` that could not be started.
pub fn zstd_start_failure(error: &str, bsdtar_error: &[u8]) -> (result: AppError)
    ensures
        result@ == "failed to start zstd: "@ + error@ + with_detail(diagnostic_of(bsdtar_error@)),
{
    let detail = diagnostic_text(bsdtar_error);
    AppError::new(
        String::from_str("failed to start zstd: ").concat(error).concat(
            suffix_detail(detail.as_str()).as_str(),
        ),
    )
}

// ---------------------------------------------------------------------------
// Limits
// ---------------------------------------------------------------------------
/// The start of a byte string up to a limit, with a note when something is cut.
pub open spec fn limited(bytes: Seq<u8>, limit: int) -> Seq<u8> {
    if bytes.len() <= limit {
        bytes
    } else {
        bytes.take(limit) + encode_utf8(TRUNCATION_NOTE@)
    }
}

/// Diagnostic output that is read piece by piece and kept up to a limit.
pub struct LimitedOutput {
    limit: usize,
    captured: Vec<u8>,
    truncated: bool,
    all: Ghost<Seq<u8>>,
}

impl LimitedOutput {
    /// The limit.
    pub closed spec fn maximum(self) -> int {
        self.limit as int
    }

    /// Everything that was read.
    pub closed spec fn everything(self) -> Seq<u8> {
        self.all@
    }

    #[verifier::type_invariant]
    spec fn keeps_the_start(self) -> bool {
        &&& self.truncated == (self.all@.len() > self.limit)
        &&& self.captured@ == if self.truncated {
            self.all@.take(self.limit as int)
        } else {
            self.all@
        }
    }

    /// Start with nothing.
    pub fn new(limit: usize) -> (result: Self)
        ensures
            result.maximum() == limit,
            result.everything() == Seq::<u8>::empty(),
    {
        LimitedOutput {
            limit,
            captured: Vec::new(),
            truncated: false,
            all: Ghost(Seq::empty()),
        }
    }

    /// Take the next piece.
    pub fn read_limited(self, piece: &[u8]) -> (result: Self)
        ensures
            result.maximum() == self.maximum(),
            result.everything() == self.everything() + piece@,
    {
        proof {
            use_type_invariant(&self);
        }
        let LimitedOutput { limit, mut captured, truncated, all } = self;
        let ghost before = all@;
        let remaining: usize = limit - captured.len();
        let taken: usize = if piece.len() < remaining {
            piece.len()
        } else {
            remaining
        };
        let part = vstd::slice::slice_subrange(piece, 0, taken);
        extend(&mut captured, part);
        let truncated = truncated || piece.len() > remaining;
        proof {
            let whole = before + piece@;
            if truncated {
                assert(captured@ =~= whole.take(limit as int));
            } else {
                assert(captured@ =~= whole);
            }
        }
        LimitedOutput { limit, captured, truncated, all: Ghost(before + piece@) }
    }

    /// Finish with what was kept.
    pub fn finish(self) -> (result: Vec<u8>)
        ensures
            result@ == limited(self.everything(), self.maximum()),
    {
        proof {
            use_type_invariant(&self);
        }
        let LimitedOutput { limit: _, mut captured, truncated, all: _ } = self;
        if truncated {
            extend(&mut captured, TRUNCATION_NOTE.as_bytes());
        }
        captured
    }
}

// ---------------------------------------------------------------------------
// Laws
// ---------------------------------------------------------------------------
/// A tool is found at the first place that holds an executable file, and nowhere
/// exactly if no place does.
pub proof fn tools_are_found_at_the_first_place(places: Seq<Seq<u8>>, executable: Seq<bool>)
    requires
        places.len() <= executable.len(),
    ensures
        match first_executable(places, executable) {
            Some(place) => exists|index: int|
                {
                    &&& 0 <= index < places.len()
                    &&& #[trigger] places[index] == place
                    &&& executable[index]
                    &&& forall|earlier: int| 0 <= earlier < index ==> !#[trigger] executable[earlier]
                },
            None => forall|index: int| 0 <= index < places.len() ==> !#[trigger] executable[index],
        },
    decreases places.len(),
{
    if places.len() > 0 && !executable[0] {
        let rest = places.drop_first();
        let tests = executable.drop_first();
        tools_are_found_at_the_first_place(rest, tests);
        match first_executable(rest, tests) {
            Some(place) => {
                let index = choose|index: int|
                    {
                        &&& 0 <= index < rest.len()
                        &&& #[trigger] rest[index] == place
                        &&& tests[index]
                        &&& forall|earlier: int|
                            0 <= earlier < index ==> !#[trigger] tests[earlier]
                    };
                assert(places[index + 1] == place);
                assert forall|earlier: int| 0 <= earlier < index + 1 implies
                    !#[trigger] executable[earlier] by {
                    if earlier > 0 {
                        assert(!tests[earlier - 1]);
                    }
                }
            },
            None => {
                assert forall|index: int| 0 <= index < places.len() implies
                    !#[trigger] executable[index] by {
                    if index > 0 {
                        assert(!tests[index - 1]);
                    }
                }
            },
        }
    } else if places.len() > 0 {
        assert(places[0] == places[0]);
    }
}

/// Every directory of the search path is a place for a tool that is named
/// without one, in the order of the path.
pub proof fn every_directory_is_searched(name: Seq<u8>, directories: Seq<u8>, index: int)
    requires
        name.len() > 0,
        path_components(name).len() <= 1,
        !is_absolute_path(name),
        0 <= index < split_bytes(directories, 0x3a).len(),
    ensures
        tool_places(name, Some(directories)).len() == split_bytes(directories, 0x3a).len(),
        tool_places(name, Some(directories))[index] == joined_path(
            split_bytes(directories, 0x3a)[index],
            name,
        ),
        tool_places(name, None).len() == 0,
{
}

/// The tools stand in the order of their names, and the first one that is missing
/// is named.
pub proof fn all_tools_are_needed(names: Seq<Seq<char>>, found: Seq<Option<Seq<u8>>>)
    ensures
        tools_of(names, found) is Ok <==> forall|index: int|
            0 <= index < found.len() ==> #[trigger] found[index] is Some,
        tools_of(names, found) matches Ok(places) ==> {
            &&& places.len() == found.len()
            &&& forall|index: int|
                0 <= index < found.len() ==> #[trigger] found[index] == Some(places[index])
        },
        tools_of(names, found) matches Err(message) ==> exists|index: int|
            {
                &&& 0 <= index < found.len()
                &&& #[trigger] found[index] is None
                &&& message == missing_tool(encode_utf8(names[index]))
                &&& forall|earlier: int|
                    0 <= earlier < index ==> (#[trigger] found[earlier]) is Some
            },
    decreases found.len(),
{
    if found.len() > 0 {
        let fewer = found.drop_last();
        let last = found.len() - 1;
        all_tools_are_needed(names, fewer);
        assert(found[last] == found.last());
        match tools_of(names, fewer) {
            Ok(places) => {
                assert forall|index: int| 0 <= index < last implies #[trigger] found[index]
                    == Some(places[index]) by {
                    assert(fewer[index] == found[index]);
                }
                if found.last() is None {
                    assert forall|earlier: int| 0 <= earlier < last implies (
                    #[trigger] found[earlier]) is Some by {
                        assert(fewer[earlier] == found[earlier]);
                    }
                }
            },
            Err(message) => {
                let index = choose|index: int|
                    {
                        &&& 0 <= index < fewer.len()
                        &&& #[trigger] fewer[index] is None
                        &&& message == missing_tool(encode_utf8(names[index]))
                        &&& forall|earlier: int|
                            0 <= earlier < index ==> (#[trigger] fewer[earlier]) is Some
                    };
                assert(found[index] == fewer[index]);
                assert forall|earlier: int| 0 <= earlier < index implies (
                #[trigger] found[earlier]) is Some by {
                    assert(fewer[earlier] == found[earlier]);
                }
            },
        }
    }
}

/// Output up to the limit is kept whole, and longer output keeps its start and
/// says that something was cut.
pub proof fn long_output_keeps_its_start(bytes: Seq<u8>, limit: int)
    requires
        0 <= limit,
    ensures
        bytes.len() <= limit ==> limited(bytes, limit) == bytes,
        bytes.len() > limit ==> limited(bytes, limit).take(limit) == bytes.take(limit) && limited(
            bytes,
            limit,
        ).skip(limit) == encode_utf8(TRUNCATION_NOTE@),
{
    if bytes.len() > limit {
        assert(limited(bytes, limit).take(limit) =~= bytes.take(limit));
        assert(limited(bytes, limit).skip(limit) =~= encode_utf8(TRUNCATION_NOTE@));
    }
}

/// A command succeeded exactly if its status is zero: its text is given only
/// then, and whole.
pub proof fn only_successful_output_is_read(description: Seq<char>, output: CommandOutput)
    ensures
        output_text(description, output) matches Ok(text) ==> output.status == Some(0i32)
            && encode_utf8(text) == output.stdout@,
        output_text(description, output) is Ok <==> output.status == Some(0i32) && valid_utf8(
            output.stdout@,
        ),
{
    if valid_utf8(output.stdout@) {
        vstd::utf8::decode_utf8_encode_utf8(output.stdout@);
    }
}

/// The compression levels from 1 through 22 can be used.
pub proof fn compression_levels_have_their_range(level: i32)
    ensures
        level_fault(level) is None <==> 0 < level < 23,
{
}

} // verus!
