//! The move of Debian directories to the places that Arch uses.

use vstd::prelude::*;
use vstd::utf8::encode_utf8;

use crate::bytes::{byte_lists, byte_sorted, copy, sort};
use crate::encoding::lossy_text;
use crate::error::{AppError, Outcome, Result};
use crate::paths::{display, join_path, joined_path};
use crate::text::equal;

verus! {

// ---------------------------------------------------------------------------
// Moves
// ---------------------------------------------------------------------------
/// The Debian names for the library directories of an architecture.
pub open spec fn triplets_of(architecture: Seq<char>) -> Seq<Seq<char>> {
    if architecture == "x86_64"@ {
        seq!["x86_64-linux-gnu"@]
    } else if architecture == "i686"@ {
        seq!["i386-linux-gnu"@, "i686-linux-gnu"@]
    } else if architecture == "aarch64"@ {
        seq!["aarch64-linux-gnu"@]
    } else if architecture == "armv7h"@ {
        seq!["arm-linux-gnueabihf"@]
    } else if architecture == "arm"@ {
        seq!["arm-linux-gnueabi"@]
    } else if architecture == "ppc64le"@ {
        seq!["powerpc64le-linux-gnu"@]
    } else if architecture == "ppc64"@ {
        seq!["powerpc64-linux-gnu"@]
    } else if architecture == "riscv64"@ {
        seq!["riscv64-linux-gnu"@]
    } else if architecture == "s390x"@ {
        seq!["s390x-linux-gnu"@]
    } else {
        seq![]
    }
}

/// The place of the 32-bit libraries of an architecture.
pub open spec fn lib32_place(architecture: Seq<char>) -> Seq<char> {
    if architecture == "x86_64"@ {
        "usr/lib32"@
    } else {
        "usr/lib"@
    }
}

/// The moves that do not depend on the architecture.
pub open spec fn common_moves() -> Seq<(Seq<char>, Seq<char>)> {
    seq![
        ("bin"@, "usr/bin"@),
        ("sbin"@, "usr/bin"@),
        ("usr/sbin"@, "usr/bin"@),
        ("usr/games"@, "usr/bin"@),
        ("lib"@, "usr/lib"@),
        ("lib64"@, "usr/lib"@),
        ("usr/lib64"@, "usr/lib"@),
    ]
}

/// A move between two places below a root.
pub open spec fn move_below(root: Seq<u8>, source: Seq<char>, destination: Seq<char>) -> MergeModel {
    MergeModel::Inspect(
        joined_path(root, encode_utf8(source)),
        joined_path(root, encode_utf8(destination)),
    )
}

/// The move of the libraries of a triplet.
pub open spec fn triplet_move(root: Seq<u8>, triplet: Seq<char>) -> MergeModel {
    let libraries = joined_path(root, encode_utf8("usr/lib"@));
    MergeModel::Inspect(joined_path(libraries, encode_utf8(triplet)), libraries)
}

/// All moves below a root, in the order in which they are made.
pub open spec fn layout_moves(root: Seq<u8>, architecture: Seq<char>) -> Seq<MergeModel> {
    common_moves().map_values(
        |pair: (Seq<char>, Seq<char>)| move_below(root, pair.0, pair.1),
    ).push(move_below(root, "lib32"@, lib32_place(architecture))) + triplets_of(
        architecture,
    ).map_values(|triplet: Seq<char>| triplet_move(root, triplet))
}

// ---------------------------------------------------------------------------
// Steps
// ---------------------------------------------------------------------------
/// What stands at a path.
#[derive(Clone, Copy, Debug, PartialEq, Eq, Structural)]
pub enum EntryKind {
    Directory,
    File,
    Link,
    Special,
}

/// A step of a merge that is still to be made.
pub enum MergeModel {
    /// Find out what stands at the source and at the destination.
    Inspect(Seq<u8>, Seq<u8>),
    /// Move the source to the free destination.
    Move(Seq<u8>, Seq<u8>),
    /// List the names in the source directory.
    List(Seq<u8>, Seq<u8>),
    /// Compare the contents of two files.
    CompareFiles(Seq<u8>, Seq<u8>),
    /// Compare the targets of two links.
    CompareLinks(Seq<u8>, Seq<u8>),
    /// Remove the source, which is a copy of the destination.
    RemoveFile(Seq<u8>),
    /// Remove the source directory, which is empty.
    RemoveDirectory(Seq<u8>),
}

/// A step of a merge that is still to be made.
#[derive(Clone, Debug, PartialEq, Eq)]
pub enum MergeStep {
    /// Find out what stands at the source and at the destination.
    Inspect { source: Vec<u8>, destination: Vec<u8> },
    /// Move the source to the free destination.
    Move { source: Vec<u8>, destination: Vec<u8> },
    /// List the names in the source directory.
    List { source: Vec<u8>, destination: Vec<u8> },
    /// Compare the contents of two files.
    CompareFiles { source: Vec<u8>, destination: Vec<u8> },
    /// Compare the targets of two links.
    CompareLinks { source: Vec<u8>, destination: Vec<u8> },
    /// Remove the source, which is a copy of the destination.
    RemoveFile { source: Vec<u8> },
    /// Remove the source directory, which is empty.
    RemoveDirectory { source: Vec<u8> },
}

impl DeepView for MergeStep {
    type V = MergeModel;

    open spec fn deep_view(&self) -> MergeModel {
        match self {
            MergeStep::Inspect { source, destination } => MergeModel::Inspect(
                source@,
                destination@,
            ),
            MergeStep::Move { source, destination } => MergeModel::Move(source@, destination@),
            MergeStep::List { source, destination } => MergeModel::List(source@, destination@),
            MergeStep::CompareFiles { source, destination } => MergeModel::CompareFiles(
                source@,
                destination@,
            ),
            MergeStep::CompareLinks { source, destination } => MergeModel::CompareLinks(
                source@,
                destination@,
            ),
            MergeStep::RemoveFile { source } => MergeModel::RemoveFile(source@),
            MergeStep::RemoveDirectory { source } => MergeModel::RemoveDirectory(source@),
        }
    }
}

/// What a step found.
pub enum ReplyModel {
    Done,
    Found(Option<EntryKind>, Option<EntryKind>),
    Names(Seq<Seq<u8>>),
    Equal(bool),
}

/// What a step found.
#[derive(Clone, Debug, PartialEq, Eq)]
pub enum MergeReply {
    /// The step was made.
    Done,
    /// What stands at the source and at the destination.
    Found { source: Option<EntryKind>, destination: Option<EntryKind> },
    /// The names in a directory, in any order.
    Names(Vec<Vec<u8>>),
    /// Whether the two are equal.
    Equal(bool),
}

impl DeepView for MergeReply {
    type V = ReplyModel;

    open spec fn deep_view(&self) -> ReplyModel {
        match self {
            MergeReply::Done => ReplyModel::Done,
            MergeReply::Found { source, destination } => ReplyModel::Found(*source, *destination),
            MergeReply::Names(names) => ReplyModel::Names(byte_lists(names@)),
            MergeReply::Equal(equal) => ReplyModel::Equal(*equal),
        }
    }
}

/// The reply answers the step.
pub open spec fn answers(step: MergeModel, reply: ReplyModel) -> bool {
    match step {
        MergeModel::Inspect(_, _) => reply is Found,
        MergeModel::List(_, _) => reply is Names,
        MergeModel::CompareFiles(_, _) => reply is Equal,
        MergeModel::CompareLinks(_, _) => reply is Equal,
        _ => reply is Done,
    }
}

/// The message about two entries that cannot be one.
pub open spec fn collision(source: Seq<u8>, destination: Seq<u8>) -> Seq<char> {
    "Path rewrite collision between "@ + lossy_text(source) + " and "@ + lossy_text(destination)
}

/// The steps that merge the entries of a directory, the first one last.
pub open spec fn entry_steps(
    source: Seq<u8>,
    destination: Seq<u8>,
    names: Seq<Seq<u8>>,
) -> Seq<MergeModel> {
    names.reverse().map_values(
        |name: Seq<u8>|
            MergeModel::Inspect(joined_path(source, name), joined_path(destination, name)),
    )
}

/// The steps that a reply to a step leads to, the next one last.
pub open spec fn following_steps(step: MergeModel, reply: ReplyModel) -> Outcome<Seq<MergeModel>> {
    match (step, reply) {
        (MergeModel::Inspect(source, destination), ReplyModel::Found(one, two)) => match (
            one,
            two,
        ) {
            (None, _) => Ok(seq![]),
            (Some(_), None) => Ok(seq![MergeModel::Move(source, destination)]),
            (Some(EntryKind::Directory), Some(EntryKind::Directory)) => Ok(
                seq![MergeModel::List(source, destination)],
            ),
            (Some(EntryKind::File), Some(EntryKind::File)) => Ok(
                seq![MergeModel::CompareFiles(source, destination)],
            ),
            (Some(EntryKind::Link), Some(EntryKind::Link)) => Ok(
                seq![MergeModel::CompareLinks(source, destination)],
            ),
            _ => Err(collision(source, destination)),
        },
        (MergeModel::List(source, destination), ReplyModel::Names(names)) => Ok(
            seq![MergeModel::RemoveDirectory(source)] + entry_steps(
                source,
                destination,
                byte_sorted(names),
            ),
        ),
        (MergeModel::CompareFiles(source, destination), ReplyModel::Equal(equal)) => if equal {
            Ok(seq![MergeModel::RemoveFile(source)])
        } else {
            Err(collision(source, destination))
        },
        (MergeModel::CompareLinks(source, destination), ReplyModel::Equal(equal)) => if equal {
            Ok(seq![MergeModel::RemoveFile(source)])
        } else {
            Err(collision(source, destination))
        },
        _ => Ok(seq![]),
    }
}

/// The steps that are left after a reply to the next one.
pub open spec fn steps_after(steps: Seq<MergeModel>, reply: ReplyModel) -> Outcome<Seq<MergeModel>> {
    match following_steps(steps.last(), reply) {
        Err(message) => Err(message),
        Ok(more) => Ok(steps.drop_last() + more),
    }
}

// ---------------------------------------------------------------------------
// Machine
// ---------------------------------------------------------------------------
/// The merge of directories, one step at a time.
pub struct LayoutMerge {
    steps: Vec<MergeStep>,
}

impl View for LayoutMerge {
    type V = Seq<MergeModel>;

    closed spec fn view(&self) -> Seq<MergeModel> {
        self.steps.deep_view()
    }
}

fn multiarch_triplets(architecture: &str) -> (result: Vec<&'static str>)
    ensures
        result.deep_view() == triplets_of(architecture@),
{
    let mut result: Vec<&'static str> = Vec::new();
    if equal(architecture, "x86_64") {
        result.push("x86_64-linux-gnu");
    } else if equal(architecture, "i686") {
        result.push("i386-linux-gnu");
        result.push("i686-linux-gnu");
    } else if equal(architecture, "aarch64") {
        result.push("aarch64-linux-gnu");
    } else if equal(architecture, "armv7h") {
        result.push("arm-linux-gnueabihf");
    } else if equal(architecture, "arm") {
        result.push("arm-linux-gnueabi");
    } else if equal(architecture, "ppc64le") {
        result.push("powerpc64le-linux-gnu");
    } else if equal(architecture, "ppc64") {
        result.push("powerpc64-linux-gnu");
    } else if equal(architecture, "riscv64") {
        result.push("riscv64-linux-gnu");
    } else if equal(architecture, "s390x") {
        result.push("s390x-linux-gnu");
    }
    assert(result.deep_view() =~= triplets_of(architecture@));
    result
}

fn push_move(steps: &mut Vec<MergeStep>, root: &[u8], source: &str, destination: &str)
    ensures
        final(steps).deep_view() == old(steps).deep_view().push(
            move_below(root@, source@, destination@),
        ),
{
    let ghost before = steps.deep_view();
    let step = MergeStep::Inspect {
        source: join_path(root, source.as_bytes()),
        destination: join_path(root, destination.as_bytes()),
    };
    steps.push(step);
    assert(steps.deep_view() =~= before.push(step.deep_view()));
}

fn collision_error(source: &[u8], destination: &[u8]) -> (result: AppError)
    ensures
        result@ == collision(source@, destination@),
{
    AppError::new(
        String::from_str("Path rewrite collision between ").concat(
            display(source).as_str(),
        ).concat(" and ").concat(display(destination).as_str()),
    )
}

fn push_step(steps: &mut Vec<MergeStep>, step: MergeStep)
    ensures
        final(steps).deep_view() == old(steps).deep_view() + seq![step.deep_view()],
{
    let ghost before = steps.deep_view();
    steps.push(step);
    assert(steps.deep_view() =~= before + seq![step.deep_view()]);
}

fn push_entries(steps: &mut Vec<MergeStep>, source: &[u8], destination: &[u8], names: &Vec<Vec<u8>>)
    ensures
        final(steps).deep_view() == old(steps).deep_view() + entry_steps(
            source@,
            destination@,
            byte_lists(names@),
        ),
{
    let ghost start = steps.deep_view();
    let ghost all = entry_steps(source@, destination@, byte_lists(names@));
    assert(steps.deep_view() =~= start + all.take(0));
    for index in 0..names.len()
        invariant
            all == entry_steps(source@, destination@, byte_lists(names@)),
            steps.deep_view() == start + all.take(index as int),
    {
        let name = names[names.len() - 1 - index].as_slice();
        let step = MergeStep::Inspect {
            source: join_path(source, name),
            destination: join_path(destination, name),
        };
        let ghost before = steps.deep_view();
        steps.push(step);
        proof {
            assert(byte_lists(names@).reverse()[index as int] == name@);
            assert(all[index as int] == step.deep_view());
            assert(steps.deep_view() =~= before.push(step.deep_view()));
            assert(all.take(index + 1) =~= all.take(index as int).push(step.deep_view()));
        }
    }
    assert(all.take(all.len() as int) == all);
}

impl LayoutMerge {
    /// The next step, if there is one.
    pub fn next_step(&self) -> (result: Option<&MergeStep>)
        ensures
            match result {
                Some(step) => self@.len() > 0 && step.deep_view() == self@.last(),
                None => self@.len() == 0,
            },
    {
        if self.steps.len() == 0 {
            None
        } else {
            Some(&self.steps[self.steps.len() - 1])
        }
    }

    /// Go on after the next step was made.
    pub fn advance(self, reply: MergeReply) -> (result: Result<Self>)
        requires
            self@.len() > 0,
            answers(self@.last(), reply.deep_view()),
        ensures
            match result {
                Ok(merge) => steps_after(self@, reply.deep_view()) == Ok::<
                    Seq<MergeModel>,
                    Seq<char>,
                >(merge@),
                Err(error) => steps_after(self@, reply.deep_view()) == Err::<
                    Seq<MergeModel>,
                    Seq<char>,
                >(error@),
            },
    {
        let LayoutMerge { mut steps } = self;
        let ghost all = steps.deep_view();
        let step = steps.pop().unwrap();
        let ghost rest = steps.deep_view();
        assert(rest =~= all.drop_last());
        assert(step.deep_view() == all.last());
        assert(rest + Seq::<MergeModel>::empty() =~= rest);
        match (step, reply) {
            (
                MergeStep::Inspect { source, destination },
                MergeReply::Found { source: one, destination: two },
            ) => match (one, two) {
                (None, _) => {},
                (Some(_), None) => push_step(&mut steps, MergeStep::Move { source, destination }),
                (Some(EntryKind::Directory), Some(EntryKind::Directory)) => push_step(
                    &mut steps,
                    MergeStep::List { source, destination },
                ),
                (Some(EntryKind::File), Some(EntryKind::File)) => push_step(
                    &mut steps,
                    MergeStep::CompareFiles { source, destination },
                ),
                (Some(EntryKind::Link), Some(EntryKind::Link)) => push_step(
                    &mut steps,
                    MergeStep::CompareLinks { source, destination },
                ),
                _ => return Err(collision_error(source.as_slice(), destination.as_slice())),
            },
            (MergeStep::List { source, destination }, MergeReply::Names(names)) => {
                let sorted = sort(names);
                push_step(
                    &mut steps,
                    MergeStep::RemoveDirectory { source: copy(source.as_slice()) },
                );
                push_entries(&mut steps, source.as_slice(), destination.as_slice(), &sorted);
                assert(steps.deep_view() =~= rest + (seq![MergeModel::RemoveDirectory(source@)]
                    + entry_steps(source@, destination@, byte_lists(sorted@))));
            },
            (MergeStep::CompareFiles { source, destination }, MergeReply::Equal(equal)) => {
                if !equal {
                    return Err(collision_error(source.as_slice(), destination.as_slice()));
                }
                push_step(&mut steps, MergeStep::RemoveFile { source });
            },
            (MergeStep::CompareLinks { source, destination }, MergeReply::Equal(equal)) => {
                if !equal {
                    return Err(collision_error(source.as_slice(), destination.as_slice()));
                }
                push_step(&mut steps, MergeStep::RemoveFile { source });
            },
            _ => {},
        }
        Ok(LayoutMerge { steps })
    }
}

/// Merge one path into another.
pub fn merge_path(source: &[u8], destination: &[u8]) -> (result: LayoutMerge)
    ensures
        result@ == seq![MergeModel::Inspect(source@, destination@)],
{
    let mut steps: Vec<MergeStep> = Vec::new();
    steps.push(
        MergeStep::Inspect { source: copy(source), destination: copy(destination) },
    );
    let result = LayoutMerge { steps };
    assert(result@ =~= seq![MergeModel::Inspect(source@, destination@)]);
    result
}

/// Start the change of the layout below a root.
pub fn normalize_layout(root: &[u8], architecture: &str) -> (result: LayoutMerge)
    ensures
        result@ == layout_moves(root@, architecture@).reverse(),
{
    let mut steps: Vec<MergeStep> = Vec::new();
    push_move(&mut steps, root, "bin", "usr/bin");
    push_move(&mut steps, root, "sbin", "usr/bin");
    push_move(&mut steps, root, "usr/sbin", "usr/bin");
    push_move(&mut steps, root, "usr/games", "usr/bin");
    push_move(&mut steps, root, "lib", "usr/lib");
    push_move(&mut steps, root, "lib64", "usr/lib");
    push_move(&mut steps, root, "usr/lib64", "usr/lib");
    let lib32 = if equal(architecture, "x86_64") {
        "usr/lib32"
    } else {
        "usr/lib"
    };
    push_move(&mut steps, root, "lib32", lib32);
    let ghost fixed = steps.deep_view();
    let triplets = multiarch_triplets(architecture);
    let ghost names = triplets.deep_view();
    let ghost moves = names.map_values(|triplet: Seq<char>| triplet_move(root@, triplet));
    let libraries = join_path(root, "usr/lib".as_bytes());
    assert(steps.deep_view() =~= fixed + moves.take(0));
    for index in 0..triplets.len()
        invariant
            names == triplets.deep_view(),
            moves == names.map_values(|triplet: Seq<char>| triplet_move(root@, triplet)),
            libraries@ == joined_path(root@, encode_utf8("usr/lib"@)),
            steps.deep_view() == fixed + moves.take(index as int),
    {
        let step = MergeStep::Inspect {
            source: join_path(libraries.as_slice(), triplets[index].as_bytes()),
            destination: copy(libraries.as_slice()),
        };
        let ghost before = steps.deep_view();
        steps.push(step);
        proof {
            assert(names[index as int] == triplets@[index as int]@);
            assert(moves[index as int] == step.deep_view());
            assert(steps.deep_view() =~= before.push(step.deep_view()));
            assert(moves.take(index + 1) =~= moves.take(index as int).push(step.deep_view()));
        }
    }
    assert(moves.take(moves.len() as int) == moves);
    assert(fixed =~= common_moves().map_values(
        |pair: (Seq<char>, Seq<char>)| move_below(root@, pair.0, pair.1),
    ).push(move_below(root@, "lib32"@, lib32_place(architecture@))));
    assert(steps.deep_view() == layout_moves(root@, architecture@));
    LayoutMerge { steps: from_the_end(steps) }
}

fn from_the_end(steps: Vec<MergeStep>) -> (result: Vec<MergeStep>)
    ensures
        result.deep_view() == steps.deep_view().reverse(),
{
    let ghost all = steps.deep_view();
    let mut steps = steps;
    let mut result: Vec<MergeStep> = Vec::new();
    assert(all.take(all.len() as int) == all);
    while steps.len() > 0
        invariant
            steps.deep_view() == all.take(steps@.len() as int),
            steps@.len() + result@.len() == all.len(),
            forall|at: int|
                0 <= at < result@.len() ==> (#[trigger] result@[at]).deep_view() == all[all.len()
                    - 1 - at],
        decreases steps@.len(),
    {
        let ghost before = steps.deep_view();
        let step = steps.pop().unwrap();
        assert(before.last() == step.deep_view());
        assert(steps.deep_view() =~= before.drop_last());
        result.push(step);
    }
    assert(result.deep_view() =~= all.reverse());
    result
}

// ---------------------------------------------------------------------------
// Laws
// ---------------------------------------------------------------------------
/// A source is removed only after it was found equal to the destination, and
/// moved only to a place where nothing stands, so no file gets lost.
pub proof fn a_merge_loses_nothing(step: MergeModel, reply: ReplyModel, index: int)
    requires
        following_steps(step, reply) matches Ok(more) && 0 <= index < more.len(),
    ensures
        match following_steps(step, reply)->Ok_0[index] {
            MergeModel::RemoveFile(source) => reply == ReplyModel::Equal(true) && match step {
                MergeModel::CompareFiles(compared, _) => compared == source,
                MergeModel::CompareLinks(compared, _) => compared == source,
                _ => false,
            },
            MergeModel::Move(source, destination) => step == MergeModel::Inspect(
                source,
                destination,
            ) && (reply matches ReplyModel::Found(Some(_), None)),
            _ => true,
        },
{
}

/// A directory is removed only after the steps for each of its entries: they
/// stand on top of its removal.
pub proof fn directories_are_emptied_first(source: Seq<u8>, destination: Seq<u8>, names: Seq<Seq<u8>>)
    ensures
        ({
            let more = following_steps(
                MergeModel::List(source, destination),
                ReplyModel::Names(names),
            )->Ok_0;
            &&& more[0] == MergeModel::RemoveDirectory(source)
            &&& more.len() == names.len() + 1
            &&& forall|index: int|
                1 <= index < more.len() ==> (#[trigger] more[index]) == MergeModel::Inspect(
                    joined_path(source, byte_sorted(names)[more.len() - 1 - index]),
                    joined_path(destination, byte_sorted(names)[more.len() - 1 - index]),
                )
        }),
{
    crate::bytes::lemma_byte_sorted(names);
}

/// Entries of different sorts, and files or links that differ, stop the merge
/// with a message that names both paths.  Nothing else stops it.
pub proof fn collisions_name_both_paths(step: MergeModel, reply: ReplyModel)
    ensures
        match (step, reply) {
            (
                MergeModel::Inspect(source, destination),
                ReplyModel::Found(Some(one), Some(two)),
            ) => if one != two || one == EntryKind::Special {
                following_steps(step, reply) == Err::<Seq<MergeModel>, Seq<char>>(
                    collision(source, destination),
                )
            } else {
                following_steps(step, reply) is Ok
            },
            (MergeModel::CompareFiles(source, destination), ReplyModel::Equal(false)) =>
            following_steps(step, reply) == Err::<Seq<MergeModel>, Seq<char>>(
                collision(source, destination),
            ),
            (MergeModel::CompareLinks(source, destination), ReplyModel::Equal(false)) =>
            following_steps(step, reply) == Err::<Seq<MergeModel>, Seq<char>>(
                collision(source, destination),
            ),
            _ => following_steps(step, reply) is Ok,
        },
{
}

} // verus!
