//! Private conversion workspaces.

use vstd::prelude::*;
use vstd::utf8::{decode_utf8, encode_utf8, valid_utf8};

use crate::attempts::{after_attempt, next_attempt, CreationReply, NextAttempt};
use crate::bytes::{byte_lists, copy};
use crate::encoding::{decode, lemma_decoded, lossy_text};
use crate::error::{failure, outcome, AppError, Outcome, Result};
use crate::number::{
    decimal, decimal_has_only_digits, decimal_round_trip, decimal_text, hex_digits,
    hex_has_only_hex_digits, hex_text, number_value, parse_number,
};
use crate::paths::{
    display, is_absolute, is_absolute_path, join_path, joined_names_lie_directly_below,
    joined_path, path_components, words_are_plain_names, ComponentModel,
};
use crate::pieces::{lemma_split_join, lemma_split_whole, split, split_at_class, texts};
use crate::text::{chars, hex_digit, is, is_digit, is_hex_digit, CharClass};

verus! {

/// The directory below the cache root that holds the workspaces.
pub const CACHE_DIRECTORY_NAME: &'static str = "debtap-rs";

/// The age in nanoseconds from which on a workspace is stale: seven days.
pub const DEFAULT_STALE_AGE: u128 = 604_800_000_000_000;

/// The mode of the directories of a workspace: no one but the user gets in.
pub const DIRECTORY_MODE: u32 = 0o700;

/// The number of names that are tried for a workspace.
pub const MAX_ATTEMPTS: u32 = 128;

/// The message when all of them are taken.
pub const NO_FREE_WORKSPACE: &'static str =
    "could not allocate a unique debtap-rs workspace after 128 attempts";

// ---------------------------------------------------------------------------
// Names
// ---------------------------------------------------------------------------
/// What makes the name of a workspace unique.
#[derive(Clone, Copy, Debug, PartialEq, Eq)]
pub struct WorkspaceIdentity {
    /// The process that owns the workspace.
    pub process: u32,
    /// The time of its creation in nanoseconds.
    pub nanoseconds: u128,
    /// The number of workspaces that the process made before.
    pub counter: u64,
}

/// The name of a workspace.
pub open spec fn name_text(identity: WorkspaceIdentity) -> Seq<char> {
    "work-"@ + decimal(identity.process as nat) + "-"@ + hex_digits(
        identity.nanoseconds as nat,
        32,
    ) + "-"@ + hex_digits(identity.counter as nat, 16)
}

/// Write the name of a workspace.
pub fn workspace_name(identity: &WorkspaceIdentity) -> (result: String)
    ensures
        result@ == name_text(*identity),
{
    String::from_str("work-").concat(decimal_text(identity.process as u64).as_str()).concat(
        "-",
    ).concat(hex_text(identity.nanoseconds, 32).as_str()).concat("-").concat(
        hex_text(identity.counter as u128, 16).as_str(),
    )
}

/// The text has a length and holds nothing but hexadecimal digits.
pub open spec fn is_hex_of_length(text: Seq<char>, length: nat) -> bool {
    text.len() == length && forall|index: int|
        0 <= index < text.len() ==> is_hex_digit(#[trigger] text[index])
}

/// The process that a workspace name belongs to.
pub open spec fn process_of_parts(parts: Seq<Seq<char>>) -> Option<u32> {
    if parts.len() == 4 && parts[0] == "work"@ && parts[1].len() > 0 && is_hex_of_length(
        parts[2],
        32,
    ) && is_hex_of_length(parts[3], 16) {
        match number_value(parts[1], u32::MAX as int) {
            Ok(process) => Some(process as u32),
            Err(_) => None,
        }
    } else {
        None
    }
}

/// The process that a workspace name belongs to, `None` for other names.
pub open spec fn process_of_name(name: Seq<u8>) -> Option<u32> {
    if valid_utf8(name) {
        process_of_parts(split(decode_utf8(name), CharClass::Exactly('-')))
    } else {
        None
    }
}

fn hex_of_length(text: &[char], length: usize) -> (result: bool)
    ensures
        result == is_hex_of_length(text@, length as nat),
{
    if text.len() != length {
        return false;
    }
    for index in 0..text.len()
        invariant
            forall|at: int| 0 <= at < index ==> is_hex_digit(#[trigger] text@[at]),
    {
        if !hex_digit(text[index]) {
            assert(!is_hex_digit(text@[index as int]));
            return false;
        }
    }
    true
}

/// Find the process that a workspace name belongs to.
pub fn workspace_pid(name: &[u8]) -> (result: Option<u32>)
    ensures
        result == process_of_name(name@),
{
    let text = match decode(name) {
        Ok(text) => text,
        Err(_) => return None,
    };
    proof {
        lemma_decoded(text@, name@);
    }
    let characters = chars(text.as_str());
    let parts = split_at_class(characters.as_slice(), CharClass::Exactly('-'));
    let ghost all = texts(parts@);
    assert(all.len() == parts@.len());
    if parts.len() != 4 {
        return None;
    }
    assert(all[0] == parts@[0]@);
    assert(all[1] == parts@[1]@);
    assert(all[2] == parts@[2]@);
    assert(all[3] == parts@[3]@);
    let is_work = is(parts[0], "work");
    if !is_work || parts[1].len() == 0 || !hex_of_length(parts[2], 32)
        || !hex_of_length(parts[3], 16) {
        return None;
    }
    match parse_number(parts[1], u32::MAX as u64) {
        Ok(process) => Some(process as u32),
        Err(_) => None,
    }
}

/// The name of a workspace tells the process that owns it.
pub proof fn workspace_names_tell_their_process(identity: WorkspaceIdentity)
    ensures
        process_of_name(encode_utf8(name_text(identity))) == Some(identity.process),
{
    let class = CharClass::Exactly('-');
    let process = decimal(identity.process as nat);
    let time = hex_digits(identity.nanoseconds as nat, 32);
    let counter = hex_digits(identity.counter as nat, 16);
    let text = name_text(identity);
    reveal_strlit("work-");
    reveal_strlit("work");
    reveal_strlit("-");
    lemma_decoded(text, encode_utf8(text));
    decimal_has_only_digits(identity.process as nat);
    decimal_round_trip(identity.process as nat, u32::MAX as int);
    hex_has_only_hex_digits(identity.nanoseconds as nat, 32);
    hex_has_only_hex_digits(identity.counter as nat, 16);
    let first = "work"@;
    let second = first.push('-') + process;
    let third = second.push('-') + time;
    assert("work-"@ =~= first.push('-'));
    assert(text =~= third.push('-') + counter);
    lemma_split_join(third, '-', counter, class);
    lemma_split_join(second, '-', time, class);
    lemma_split_join(first, '-', process, class);
    assert forall|at: int| 0 <= at < process.len() implies !class.has(#[trigger] process[at]) by {
        assert(is_digit(process[at]));
    }
    assert forall|at: int| 0 <= at < time.len() implies !class.has(#[trigger] time[at]) by {
        assert(is_hex_digit(time[at]));
    }
    assert forall|at: int| 0 <= at < counter.len() implies !class.has(#[trigger] counter[at]) by {
        assert(is_hex_digit(counter[at]));
    }
    lemma_split_whole(first, class);
    lemma_split_whole(process, class);
    lemma_split_whole(time, class);
    lemma_split_whole(counter, class);
    assert(split(text, class) =~= seq![first, process, time, counter]);
}

// ---------------------------------------------------------------------------
// Places
// ---------------------------------------------------------------------------
/// The cache root of a user.
pub open spec fn cache_root_of(cache: Option<Seq<u8>>, home: Option<Seq<u8>>) -> Outcome<Seq<u8>> {
    match cache {
        Some(path) if is_absolute_path(path) => Ok(path),
        _ => match home {
            Some(path) if is_absolute_path(path) => Ok(joined_path(path, encode_utf8(".cache"@))),
            _ => Err("could not find an absolute XDG_CACHE_HOME or HOME directory"@),
        },
    }
}

/// Resolve the cache root from `XDG_CACHE_HOME`, or from `HOME/.cache`.
pub fn cache_home(cache: Option<&[u8]>, home: Option<&[u8]>) -> (result: Result<Vec<u8>>)
    ensures
        match result {
            Ok(path) => cache_root_of(
                crate::bytes::optional_slice(cache),
                crate::bytes::optional_slice(home),
            ) == Ok::<Seq<u8>, Seq<char>>(path@),
            Err(error) => cache_root_of(
                crate::bytes::optional_slice(cache),
                crate::bytes::optional_slice(home),
            ) == Err::<Seq<u8>, Seq<char>>(error@),
        },
{
    if let Some(path) = cache {
        if is_absolute(path) {
            return Ok(copy(path));
        }
    }
    if let Some(path) = home {
        if is_absolute(path) {
            return Ok(join_path(path, ".cache".as_bytes()));
        }
    }
    Err(failure("could not find an absolute XDG_CACHE_HOME or HOME directory"))
}

/// The directory that holds the workspaces below a cache root.
pub fn application_root(cache_root: &[u8]) -> (result: Vec<u8>)
    ensures
        result@ == joined_path(cache_root@, encode_utf8(CACHE_DIRECTORY_NAME@)),
{
    join_path(cache_root, CACHE_DIRECTORY_NAME.as_bytes())
}

/// Find the directory of the user's normal cache whose old workspaces are
/// removed.
pub fn cleanup_default_stale_workspaces(cache: Option<&[u8]>, home: Option<&[u8]>) -> (result:
    Result<Vec<u8>>)
    ensures
        match result {
            Ok(path) => cache_root_of(
                crate::bytes::optional_slice(cache),
                crate::bytes::optional_slice(home),
            ) matches Ok(root) && path@ == joined_path(root, encode_utf8(CACHE_DIRECTORY_NAME@)),
            Err(error) => cache_root_of(
                crate::bytes::optional_slice(cache),
                crate::bytes::optional_slice(home),
            ) == Err::<Seq<u8>, Seq<char>>(error@),
        },
{
    let root = cache_home(cache, home)?;
    Ok(application_root(root.as_slice()))
}

/// The fault of the directory that holds the workspaces.
pub open spec fn application_root_fault(
    path: Seq<u8>,
    is_link: bool,
    is_directory: bool,
    owner: u32,
    user: u32,
) -> Option<Seq<char>> {
    if is_link || !is_directory {
        Some("cache path is not a real directory: "@ + lossy_text(path))
    } else if owner != user {
        Some(
            "cache directory "@ + lossy_text(path) + " is not owned by the current user"@,
        )
    } else {
        None
    }
}

/// Require a real directory that the user owns.
pub fn validate_application_root(
    path: &[u8],
    is_link: bool,
    is_directory: bool,
    owner: u32,
    user: u32,
) -> (result: Result<()>)
    ensures
        outcome(result) == match application_root_fault(path@, is_link, is_directory, owner, user) {
            Some(message) => Err::<(), Seq<char>>(message),
            None => Ok(()),
        },
{
    if is_link || !is_directory {
        return Err(
            AppError::new(
                String::from_str("cache path is not a real directory: ").concat(
                    display(path).as_str(),
                ),
            ),
        );
    }
    if owner != user {
        return Err(
            AppError::new(
                String::from_str("cache directory ").concat(display(path).as_str()).concat(
                    " is not owned by the current user",
                ),
            ),
        );
    }
    Ok(())
}

/// A private conversion workspace.
///
/// The directory is removed at the end of a conversion unless it was created
/// with `keep` or was preserved later with [`Workspace::preserve`].
#[derive(Debug)]
pub struct Workspace {
    path: Vec<u8>,
    members: Vec<u8>,
    control: Vec<u8>,
    payload: Vec<u8>,
    output: Vec<u8>,
    keep: bool,
}

/// The mathematical value of a [`Workspace`].
pub struct WorkspaceModel {
    pub path: Seq<u8>,
    pub keep: bool,
}

impl View for Workspace {
    type V = WorkspaceModel;

    closed spec fn view(&self) -> WorkspaceModel {
        WorkspaceModel { path: self.path@, keep: self.keep }
    }
}

impl Workspace {
    #[verifier::type_invariant]
    spec fn has_its_directories(self) -> bool {
        &&& self.members@ == joined_path(self.path@, encode_utf8("members"@))
        &&& self.control@ == joined_path(self.path@, encode_utf8("control"@))
        &&& self.payload@ == joined_path(self.path@, encode_utf8("root"@))
        &&& self.output@ == joined_path(self.path@, encode_utf8("output"@))
    }

    /// Name a workspace in the user's normal cache directory.
    pub fn create(
        cache: Option<&[u8]>,
        home: Option<&[u8]>,
        identity: &WorkspaceIdentity,
        keep: bool,
    ) -> (result: Result<Self>)
        ensures
            match result {
                Ok(workspace) => cache_root_of(
                    crate::bytes::optional_slice(cache),
                    crate::bytes::optional_slice(home),
                ) matches Ok(root) && workspace@ == (WorkspaceModel {
                    path: workspace_path(root, *identity),
                    keep,
                }),
                Err(error) => cache_root_of(
                    crate::bytes::optional_slice(cache),
                    crate::bytes::optional_slice(home),
                ) == Err::<Seq<u8>, Seq<char>>(error@),
            },
    {
        let root = cache_home(cache, home)?;
        Ok(Workspace::create_in(root.as_slice(), identity, keep))
    }

    /// An alias for [`Workspace::create`].
    pub fn new(
        cache: Option<&[u8]>,
        home: Option<&[u8]>,
        identity: &WorkspaceIdentity,
        keep: bool,
    ) -> (result: Result<Self>)
        ensures
            match result {
                Ok(workspace) => cache_root_of(
                    crate::bytes::optional_slice(cache),
                    crate::bytes::optional_slice(home),
                ) matches Ok(root) && workspace@ == (WorkspaceModel {
                    path: workspace_path(root, *identity),
                    keep,
                }),
                Err(error) => cache_root_of(
                    crate::bytes::optional_slice(cache),
                    crate::bytes::optional_slice(home),
                ) == Err::<Seq<u8>, Seq<char>>(error@),
            },
    {
        Workspace::create(cache, home, identity, keep)
    }

    /// Name a workspace below a specified cache root:
    /// `<cache_root>/debtap-rs/work-*`.
    pub fn create_in(cache_root: &[u8], identity: &WorkspaceIdentity, keep: bool) -> (result: Self)
        ensures
            result@ == (WorkspaceModel { path: workspace_path(cache_root@, *identity), keep }),
    {
        let root = application_root(cache_root);
        let name = workspace_name(identity);
        let path = join_path(root.as_slice(), name.as_str().as_bytes());
        Workspace {
            members: join_path(path.as_slice(), "members".as_bytes()),
            control: join_path(path.as_slice(), "control".as_bytes()),
            payload: join_path(path.as_slice(), "root".as_bytes()),
            output: join_path(path.as_slice(), "output".as_bytes()),
            path,
            keep,
        }
    }

    /// Return the workspace base directory.
    pub fn root(&self) -> (result: &[u8])
        ensures
            result@ == self@.path,
    {
        self.path.as_slice()
    }

    /// Return the workspace base directory.
    pub fn path(&self) -> (result: &[u8])
        ensures
            result@ == self@.path,
    {
        self.root()
    }

    /// Return the directory for members extracted from the outer `ar` file.
    pub fn members_dir(&self) -> (result: &[u8])
        ensures
            result@ == joined_path(self@.path, encode_utf8("members"@)),
    {
        proof {
            use_type_invariant(self);
        }
        self.members.as_slice()
    }

    /// Return the extracted Debian control directory.
    pub fn control_dir(&self) -> (result: &[u8])
        ensures
            result@ == joined_path(self@.path, encode_utf8("control"@)),
    {
        proof {
            use_type_invariant(self);
        }
        self.control.as_slice()
    }

    /// Return the extracted package filesystem root.
    pub fn payload_dir(&self) -> (result: &[u8])
        ensures
            result@ == joined_path(self@.path, encode_utf8("root"@)),
    {
        proof {
            use_type_invariant(self);
        }
        self.payload.as_slice()
    }

    /// An alias for [`Workspace::payload_dir`].
    pub fn root_dir(&self) -> (result: &[u8])
        ensures
            result@ == joined_path(self@.path, encode_utf8("root"@)),
    {
        self.payload_dir()
    }

    /// Return the directory for temporary and final output files.
    pub fn output_dir(&self) -> (result: &[u8])
        ensures
            result@ == joined_path(self@.path, encode_utf8("output"@)),
    {
        proof {
            use_type_invariant(self);
        }
        self.output.as_slice()
    }

    /// List the directories that a new workspace consists of: its base directory
    /// and the four directories in it.
    pub fn directories(&self) -> (result: Vec<Vec<u8>>)
        ensures
            byte_lists(result@) == seq![self@.path] + inner_directories(self@.path),
    {
        let mut directories: Vec<Vec<u8>> = Vec::new();
        directories.push(copy(self.root()));
        directories.push(copy(self.members_dir()));
        directories.push(copy(self.control_dir()));
        directories.push(copy(self.payload_dir()));
        directories.push(copy(self.output_dir()));
        assert(byte_lists(directories@) =~= seq![self@.path] + inner_directories(self@.path));
        directories
    }

    /// The directory that is removed with everything in it when the conversion
    /// ends: the base directory, unless the workspace is kept.
    pub fn directory_to_remove(&self) -> (result: Option<&[u8]>)
        ensures
            match result {
                Some(path) => !self@.keep && path@ == self@.path,
                None => self@.keep,
            },
    {
        if self.keep {
            None
        } else {
            Some(self.root())
        }
    }

    /// Return true when the workspace will remain after the conversion.
    pub fn is_kept(&self) -> (result: bool)
        ensures
            result == self@.keep,
    {
        self.keep
    }

    /// Change whether the workspace will remain after the conversion.
    pub fn set_keep(&mut self, keep: bool)
        ensures
            final(self)@ == (WorkspaceModel { keep, ..old(self)@ }),
    {
        proof {
            use_type_invariant(&*self);
        }
        self.keep = keep;
    }

    /// Keep the workspace and return its path.
    pub fn preserve(&mut self) -> (result: Vec<u8>)
        ensures
            final(self)@ == (WorkspaceModel { keep: true, ..old(self)@ }),
            result@ == old(self)@.path,
    {
        self.set_keep(true);
        copy(self.root())
    }
}

/// The directories in a workspace.
pub open spec fn inner_directories(path: Seq<u8>) -> Seq<Seq<u8>> {
    seq![
        joined_path(path, encode_utf8("members"@)),
        joined_path(path, encode_utf8("control"@)),
        joined_path(path, encode_utf8("root"@)),
        joined_path(path, encode_utf8("output"@)),
    ]
}

/// The four directories in a workspace are different, and each of them lies
/// directly below its base directory.
pub proof fn workspace_directories_are_separate(path: Seq<u8>)
    ensures
        inner_directories(path).no_duplicates(),
        forall|index: int|
            0 <= index < inner_directories(path).len() ==> lies_directly_below(
                #[trigger] inner_directories(path)[index],
                path,
            ),
{
    let words: Seq<Seq<char>> = seq!["members"@, "control"@, "root"@, "output"@];
    let all = inner_directories(path);
    reveal_strlit("members");
    reveal_strlit("control");
    reveal_strlit("root");
    reveal_strlit("output");
    assert(words[0][0] == 'm' && words[1][0] == 'c' && words[2][0] == 'r' && words[3][0] == 'o');
    assert forall|index: int| 0 <= index < 4 implies path_components(#[trigger] all[index])
        == path_components(path).push(ComponentModel::Name(encode_utf8(words[index])))
        && lies_directly_below(all[index], path) by {
        words_are_plain_names(words[index]);
        joined_names_lie_directly_below(path, encode_utf8(words[index]));
        assert(path_components(all[index]).drop_last() =~= path_components(path));
    }
    assert forall|left: int, right: int| 0 <= left < right < 4 implies all[left] != all[right] by {
        assert(words[left][0] != words[right][0]);
        vstd::utf8::encode_utf8_decode_utf8(words[left]);
        vstd::utf8::encode_utf8_decode_utf8(words[right]);
        assert(path_components(all[left]).last() == ComponentModel::Name(
            encode_utf8(words[left]),
        ));
        assert(path_components(all[right]).last() == ComponentModel::Name(
            encode_utf8(words[right]),
        ));
    }
}

/// The path has the components of a directory and one name behind them.
pub open spec fn lies_directly_below(path: Seq<u8>, directory: Seq<u8>) -> bool {
    let all = path_components(path);
    all.len() > 0 && all.drop_last() == path_components(directory) && all.last() is Name
}

/// The path of a workspace below a cache root.
pub open spec fn workspace_path(cache_root: Seq<u8>, identity: WorkspaceIdentity) -> Seq<u8> {
    joined_path(
        joined_path(cache_root, encode_utf8(CACHE_DIRECTORY_NAME@)),
        encode_utf8(name_text(identity)),
    )
}

/// Decide what follows an attempt to create the base directory of a workspace.
pub fn next_workspace_attempt(made: u32, reply: CreationReply) -> (result: Result<NextAttempt>)
    ensures
        match result {
            Ok(next) => after_attempt(made, MAX_ATTEMPTS, reply, NO_FREE_WORKSPACE@) == Ok::<
                NextAttempt,
                Seq<char>,
            >(next),
            Err(error) => after_attempt(made, MAX_ATTEMPTS, reply, NO_FREE_WORKSPACE@) == Err::<
                NextAttempt,
                Seq<char>,
            >(error@),
        },
{
    next_attempt(made, MAX_ATTEMPTS, reply, NO_FREE_WORKSPACE)
}

// ---------------------------------------------------------------------------
// Cleanup
// ---------------------------------------------------------------------------
/// What is known of an entry beside the workspaces.
#[derive(Clone, Copy, Debug, PartialEq, Eq)]
pub struct EntryFacts {
    pub is_link: bool,
    pub is_directory: bool,
    pub owner: u32,
    /// The time since its last change in nanoseconds.
    pub age: u128,
}

/// The process of an old workspace of the user.
pub open spec fn stale_process(name: Seq<u8>, facts: EntryFacts, user: u32, older_than: u128) -> Option<
    u32,
> {
    if facts.is_link || !facts.is_directory || facts.owner != user || facts.age < older_than {
        None
    } else {
        process_of_name(name)
    }
}

/// Decide whether an entry is an old workspace of the user, and find the
/// process that must have ended before it is removed.
///
/// Only directories with the exact workspace name pattern and the user's ID
/// are eligible. Symbolic links are ignored.
pub fn stale_workspace(name: &[u8], facts: &EntryFacts, user: u32, older_than: u128) -> (result:
    Option<u32>)
    ensures
        result == stale_process(name@, *facts, user, older_than),
{
    if facts.is_link || !facts.is_directory || facts.owner != user || facts.age < older_than {
        return None;
    }
    workspace_pid(name)
}

/// A process runs when it is this one or the system lists it.
pub fn process_is_running(process: u32, own_process: u32, is_listed: bool) -> (result: bool)
    ensures
        result == (process == own_process || is_listed),
{
    process == own_process || is_listed
}

/// Decide whether a cleanup removes an entry: it must be an old workspace of the
/// user whose process has ended.
pub fn removes_entry(
    name: &[u8],
    facts: &EntryFacts,
    user: u32,
    older_than: u128,
    own_process: u32,
    is_listed: bool,
) -> (result: bool)
    ensures
        result == (stale_process(name@, *facts, user, older_than) matches Some(process) && process
            != own_process && !is_listed),
{
    match stale_workspace(name, facts, user, older_than) {
        Some(process) => !process_is_running(process, own_process, is_listed),
        None => false,
    }
}

/// What became of an entry in a cleanup.
#[derive(Clone, Debug, PartialEq, Eq)]
pub enum CleanupOutcome {
    Kept,
    Removed,
    Failed(String),
}

/// The number of removed entries.
pub open spec fn removed_count(outcomes: Seq<CleanupOutcome>) -> nat
    decreases outcomes.len(),
{
    if outcomes.len() == 0 {
        0
    } else {
        removed_count(outcomes.drop_last()) + if outcomes.last() is Removed {
            1nat
        } else {
            0
        }
    }
}

/// The first failure of a cleanup.
pub open spec fn first_failure(outcomes: Seq<CleanupOutcome>) -> Option<Seq<char>>
    decreases outcomes.len(),
{
    if outcomes.len() == 0 {
        None
    } else {
        match first_failure(outcomes.drop_last()) {
            Some(message) => Some(message),
            None => match outcomes.last() {
                CleanupOutcome::Failed(message) => Some(message@),
                _ => None,
            },
        }
    }
}

/// Count the removed workspaces, or report the first failure.
pub fn cleanup_stale_workspaces(outcomes: &Vec<CleanupOutcome>) -> (result: Result<usize>)
    ensures
        match result {
            Ok(count) => first_failure(outcomes@) is None && count == removed_count(outcomes@),
            Err(error) => first_failure(outcomes@) == Some(error@),
        },
{
    let mut removed: usize = 0;
    let mut first: Option<String> = None;
    for index in 0..outcomes.len()
        invariant
            removed == removed_count(outcomes@.take(index as int)),
            removed <= index,
            first.deep_view() == first_failure(outcomes@.take(index as int)),
    {
        proof {
            assert(outcomes@.take(index + 1).drop_last() == outcomes@.take(index as int));
            assert(outcomes@.take(index + 1).last() == outcomes@[index as int]);
        }
        match &outcomes[index] {
            CleanupOutcome::Kept => {},
            CleanupOutcome::Removed => removed += 1,
            CleanupOutcome::Failed(message) => {
                if first.is_none() {
                    first = Some(message.clone());
                }
            },
        }
    }
    assert(outcomes@.take(outcomes@.len() as int) == outcomes@);
    match first {
        Some(message) => Err(AppError::new(message)),
        None => Ok(removed),
    }
}

/// Compatibility alias for [`cleanup_stale_workspaces`].
pub fn cleanup_stale_owned_work(outcomes: &Vec<CleanupOutcome>) -> (result: Result<usize>)
    ensures
        match result {
            Ok(count) => first_failure(outcomes@) is None && count == removed_count(outcomes@),
            Err(error) => first_failure(outcomes@) == Some(error@),
        },
{
    cleanup_stale_workspaces(outcomes)
}

/// A cleanup counts each entry that it removed, and reports the first failure
/// that it met.
pub proof fn cleanups_count_what_they_removed(outcomes: Seq<CleanupOutcome>)
    ensures
        removed_count(outcomes) == outcomes.filter(
            |outcome: CleanupOutcome| outcome is Removed,
        ).len(),
        match first_failure(outcomes) {
            Some(message) => exists|index: int|
                {
                    &&& 0 <= index < outcomes.len()
                    &&& (#[trigger] outcomes[index] matches CleanupOutcome::Failed(text) && text@
                        == message)
                    &&& forall|earlier: int|
                        0 <= earlier < index ==> !((#[trigger] outcomes[earlier]) is Failed)
                },
            None => forall|index: int|
                0 <= index < outcomes.len() ==> !((#[trigger] outcomes[index]) is Failed),
        },
    decreases outcomes.len(),
{
    reveal(Seq::filter);
    if outcomes.len() > 0 {
        let fewer = outcomes.drop_last();
        let last = outcomes.len() - 1;
        cleanups_count_what_they_removed(fewer);
        assert(outcomes[last] == outcomes.last());
        match first_failure(fewer) {
            Some(message) => {
                let index = choose|index: int|
                    {
                        &&& 0 <= index < fewer.len()
                        &&& (#[trigger] fewer[index] matches CleanupOutcome::Failed(text) && text@
                            == message)
                        &&& forall|earlier: int|
                            0 <= earlier < index ==> !((#[trigger] fewer[earlier]) is Failed)
                    };
                assert(outcomes[index] == fewer[index]);
                assert forall|earlier: int| 0 <= earlier < index implies !((
                #[trigger] outcomes[earlier]) is Failed) by {
                    assert(fewer[earlier] == outcomes[earlier]);
                }
            },
            None => {
                assert forall|index: int| 0 <= index < last implies !((
                #[trigger] outcomes[index]) is Failed) by {
                    assert(fewer[index] == outcomes[index]);
                }
            },
        }
    }
}

/// Only an old directory of the user that is named like a workspace is taken for
/// one that was left behind.
pub proof fn only_own_old_directories_are_stale(
    name: Seq<u8>,
    facts: EntryFacts,
    user: u32,
    older_than: u128,
)
    ensures
        stale_process(name, facts, user, older_than) is Some <==> {
            &&& facts.is_directory
            &&& !facts.is_link
            &&& facts.owner == user
            &&& facts.age >= older_than
            &&& process_of_name(name) is Some
        },
        stale_process(name, facts, user, older_than) is Some ==> stale_process(
            name,
            facts,
            user,
            older_than,
        ) == process_of_name(name),
{
}

/// The cache directory of the user counts only if it is absolute, the home
/// directory stands in for it, and what is found is absolute.
pub proof fn absolute_cache_directories_count(
    cache: Option<Seq<u8>>,
    home: Option<Seq<u8>>,
    path: Seq<u8>,
)
    ensures
        is_absolute_path(path) ==> cache_root_of(Some(path), home) == Ok::<Seq<u8>, Seq<char>>(
            path,
        ),
        !is_absolute_path(path) ==> cache_root_of(Some(path), home) == cache_root_of(None, home),
        is_absolute_path(path) ==> (cache_root_of(None, Some(path)) matches Ok(root)
            && path_components(root) == path_components(path).push(
            ComponentModel::Name(encode_utf8(".cache"@)),
        )),
        cache_root_of(None, None) is Err,
        cache_root_of(cache, home) matches Ok(root) ==> is_absolute_path(root),
{
    reveal_strlit(".cache");
    words_are_plain_names(".cache"@);
    joined_names_lie_directly_below(path, encode_utf8(".cache"@));
}

/// The directory of the program is used exactly if it is a real directory of the
/// user.
pub proof fn only_own_directories_are_used(
    path: Seq<u8>,
    is_link: bool,
    is_directory: bool,
    owner: u32,
    user: u32,
)
    ensures
        application_root_fault(path, is_link, is_directory, owner, user) is None <==> !is_link
            && is_directory && owner == user,
{
}

} // verus!
