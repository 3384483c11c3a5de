//! Unix paths as byte strings.

use vstd::prelude::*;
use vstd::utf8::encode_utf8;

use crate::bytes::{
    byte_position, byte_texts, copy, extend, lemma_byte_position, lemma_byte_position_is, same,
    split_at_byte, split_bytes,
};
use crate::encoding::{decode_lossy, lossy_text};
use crate::error::{AppError, Outcome, Result};

verus! {

/// The byte `/`.
pub const SEPARATOR: u8 = 0x2f;

// ---------------------------------------------------------------------------
// Components
// ---------------------------------------------------------------------------
/// One component of a path.
pub enum ComponentModel {
    Root,
    Current,
    Parent,
    Name(Seq<u8>),
}

/// One component of a path.
#[derive(Clone, Copy, Debug)]
pub enum Component<'a> {
    /// The `/` at the start of an absolute path.
    Root,
    /// A `.` at the start of a relative path.
    Current,
    /// A `..`.
    Parent,
    /// A file name.
    Name(&'a [u8]),
}

impl<'a> DeepView for Component<'a> {
    type V = ComponentModel;

    open spec fn deep_view(&self) -> ComponentModel {
        match self {
            Component::Root => ComponentModel::Root,
            Component::Current => ComponentModel::Current,
            Component::Parent => ComponentModel::Parent,
            Component::Name(name) => ComponentModel::Name(name@),
        }
    }
}

/// The component that a part between separators stands for.  An empty part
/// stands for none, and neither does a `.` that is not at the start.
pub open spec fn part_component(part: Seq<u8>, first: bool) -> Option<ComponentModel> {
    if part.len() == 0 {
        None
    } else if part == encode_utf8("."@) {
        if first {
            Some(ComponentModel::Current)
        } else {
            None
        }
    } else if part == encode_utf8(".."@) {
        Some(ComponentModel::Parent)
    } else {
        Some(ComponentModel::Name(part))
    }
}

/// The components that the parts between separators stand for.
pub open spec fn part_components(parts: Seq<Seq<u8>>) -> Seq<ComponentModel>
    decreases parts.len(),
{
    if parts.len() == 0 {
        seq![]
    } else {
        let before = part_components(parts.drop_last());
        match part_component(parts.last(), parts.len() == 1) {
            Some(component) => before.push(component),
            None => before,
        }
    }
}

/// The path starts at the root.
pub open spec fn is_absolute_path(path: Seq<u8>) -> bool {
    path.len() > 0 && path[0] == SEPARATOR
}

/// The components of a path.
pub open spec fn path_components(path: Seq<u8>) -> Seq<ComponentModel> {
    if is_absolute_path(path) {
        seq![ComponentModel::Root] + part_components(split_bytes(path, SEPARATOR))
    } else {
        part_components(split_bytes(path, SEPARATOR))
    }
}

/// Test whether a path starts at the root.
pub fn is_absolute(path: &[u8]) -> (result: bool)
    ensures
        result == is_absolute_path(path@),
{
    path.len() > 0 && path[0] == SEPARATOR
}

/// List the components of a path.
pub fn components<'a>(path: &'a [u8]) -> (result: Vec<Component<'a>>)
    ensures
        result.deep_view() == path_components(path@),
{
    let mut result: Vec<Component<'a>> = Vec::new();
    let ghost mut start: Seq<ComponentModel> = seq![];
    if is_absolute(path) {
        result.push(Component::Root);
        proof {
            start = seq![ComponentModel::Root];
        }
    }
    let parts = split_at_byte(path, SEPARATOR);
    let ghost all = byte_texts(parts@);
    assert(result.deep_view() =~= start);
    assert(all.take(0) =~= seq![]);
    for index in 0..parts.len()
        invariant
            all == byte_texts(parts@),
            result.deep_view() == start + part_components(all.take(index as int)),
    {
        let part = parts[index];
        let ghost before = result.deep_view();
        proof {
            assert(all.take(index + 1).drop_last() == all.take(index as int));
            assert(all.take(index + 1).last() == part@);
        }
        if part.len() == 0 {
        } else if same(part, ".".as_bytes()) {
            if index == 0 {
                result.push(Component::Current);
                assert(result.deep_view() =~= before.push(ComponentModel::Current));
            }
        } else if same(part, "..".as_bytes()) {
            result.push(Component::Parent);
            assert(result.deep_view() =~= before.push(ComponentModel::Parent));
        } else {
            result.push(Component::Name(part));
            assert(result.deep_view() =~= before.push(ComponentModel::Name(part@)));
        }
        assert(result.deep_view() =~= start + part_components(all.take(index + 1)));
    }
    assert(all.take(all.len() as int) == all);
    result
}

fn same_component(left: &Component<'_>, right: &Component<'_>) -> (result: bool)
    ensures
        result == (left.deep_view() == right.deep_view()),
{
    match (left, right) {
        (Component::Root, Component::Root) => true,
        (Component::Current, Component::Current) => true,
        (Component::Parent, Component::Parent) => true,
        (Component::Name(one), Component::Name(two)) => same(one, two),
        _ => false,
    }
}

/// The first components of a path are those of another path.
pub open spec fn is_under(path: Seq<u8>, directory: Seq<u8>) -> bool {
    let prefix = path_components(directory);
    let whole = path_components(path);
    prefix.len() <= whole.len() && whole.take(prefix.len() as int) == prefix
}

/// Test whether the first components of a path are those of another path.
pub fn starts_with_path(path: &[u8], directory: &[u8]) -> (result: bool)
    ensures
        result == is_under(path@, directory@),
{
    let prefix = components(directory);
    let whole = components(path);
    if prefix.len() > whole.len() {
        return false;
    }
    let ghost start = whole.deep_view().take(prefix@.len() as int);
    for index in 0..prefix.len()
        invariant
            prefix@.len() <= whole@.len(),
            prefix.deep_view() == path_components(directory@),
            whole.deep_view() == path_components(path@),
            start == whole.deep_view().take(prefix@.len() as int),
            forall|at: int| 0 <= at < index ==> start[at] == prefix.deep_view()[at],
    {
        if !same_component(&whole[index], &prefix[index]) {
            assert(start[index as int] == whole@[index as int].deep_view());
            assert(prefix.deep_view()[index as int] == prefix@[index as int].deep_view());
            return false;
        }
    }
    assert(start =~= prefix.deep_view());
    true
}

/// Test whether two paths have the same components.
pub fn same_path(left: &[u8], right: &[u8]) -> (result: bool)
    ensures
        result == (path_components(left@) == path_components(right@)),
{
    let one = components(left);
    let two = components(right);
    if one.len() != two.len() {
        assert(one.deep_view().len() != two.deep_view().len());
        return false;
    }
    for index in 0..one.len()
        invariant
            one@.len() == two@.len(),
            one.deep_view() == path_components(left@),
            two.deep_view() == path_components(right@),
            forall|at: int| 0 <= at < index ==> one.deep_view()[at] == two.deep_view()[at],
    {
        if !same_component(&one[index], &two[index]) {
            assert(one.deep_view()[index as int] == one@[index as int].deep_view());
            assert(two.deep_view()[index as int] == two@[index as int].deep_view());
            return false;
        }
    }
    assert(one.deep_view() =~= two.deep_view());
    true
}

/// The file name of a path.
pub open spec fn name_of(path: Seq<u8>) -> Option<Seq<u8>> {
    let all = path_components(path);
    if all.len() == 0 {
        None
    } else {
        match all.last() {
            ComponentModel::Name(name) => Some(name),
            _ => None,
        }
    }
}

/// Get the file name of a path.
pub fn file_name<'a>(path: &'a [u8]) -> (result: Option<&'a [u8]>)
    ensures
        match result {
            Some(name) => name_of(path@) == Some(name@),
            None => name_of(path@) is None,
        },
{
    let all = components(path);
    if all.len() == 0 {
        return None;
    }
    assert(all.deep_view().last() == all@.last().deep_view());
    match all[all.len() - 1] {
        Component::Name(name) => Some(name),
        _ => None,
    }
}

// ---------------------------------------------------------------------------
// Joining
// ---------------------------------------------------------------------------
/// A path below a directory.  An absolute path stands for itself.
pub open spec fn joined_path(directory: Seq<u8>, path: Seq<u8>) -> Seq<u8> {
    if is_absolute_path(path) {
        path
    } else if directory.len() == 0 || directory.last() == SEPARATOR {
        directory + path
    } else {
        directory.push(SEPARATOR) + path
    }
}

/// Join a directory and a path.
pub fn join_path(directory: &[u8], path: &[u8]) -> (result: Vec<u8>)
    ensures
        result@ == joined_path(directory@, path@),
{
    if is_absolute(path) {
        return copy(path);
    }
    let mut result = copy(directory);
    if directory.len() > 0 && directory[directory.len() - 1] != SEPARATOR {
        result.push(SEPARATOR);
    }
    extend(&mut result, path);
    result
}

/// Show a path to the user.
pub fn display(path: &[u8]) -> (result: String)
    ensures
        result@ == lossy_text(path@),
{
    decode_lossy(path)
}

// ---------------------------------------------------------------------------
// Normalization
// ---------------------------------------------------------------------------
/// The names that are left of a relative path when each `..` takes one away.
pub open spec fn resolved(steps: Seq<ComponentModel>) -> Option<Seq<Seq<u8>>>
    decreases steps.len(),
{
    if steps.len() == 0 {
        Some(seq![])
    } else {
        match resolved(steps.drop_last()) {
            None => None,
            Some(names) => match steps.last() {
                ComponentModel::Current => Some(names),
                ComponentModel::Name(name) => Some(names.push(name)),
                ComponentModel::Parent => if names.len() == 0 {
                    None
                } else {
                    Some(names.drop_last())
                },
                ComponentModel::Root => None,
            },
        }
    }
}

/// Names with separators between them.
pub open spec fn names_path(names: Seq<Seq<u8>>) -> Seq<u8>
    decreases names.len(),
{
    if names.len() == 0 {
        seq![]
    } else {
        joined_path(names_path(names.drop_last()), names.last())
    }
}

/// A relative path without `.` and `..`, or the message that there is none.
pub open spec fn normalized_path(path: Seq<u8>) -> Outcome<Seq<u8>> {
    if is_absolute_path(path) {
        Err("Path is not relative: "@ + lossy_text(path))
    } else {
        match resolved(path_components(path)) {
            Some(names) => Ok(names_path(names)),
            None => Err("Path escapes the package root: "@ + lossy_text(path)),
        }
    }
}

/// Remove `.` and `..` from a relative path that stays below its start.
pub fn normalize_relative(path: &[u8]) -> (result: Result<Vec<u8>>)
    ensures
        match result {
            Ok(normalized) => normalized_path(path@) == Ok::<Seq<u8>, Seq<char>>(normalized@),
            Err(error) => normalized_path(path@) == Err::<Seq<u8>, Seq<char>>(error@),
        },
{
    if is_absolute(path) {
        return Err(
            AppError::new(String::from_str("Path is not relative: ").concat(display(path).as_str())),
        );
    }
    let all = components(path);
    let ghost steps = all.deep_view();
    let mut names: Vec<&[u8]> = Vec::new();
    assert(byte_texts(names@) =~= seq![]);
    assert(steps.take(0) =~= seq![]);
    proof {
        lemma_no_root(split_bytes(path@, SEPARATOR));
    }
    for index in 0..all.len()
        invariant
            steps == all.deep_view(),
            steps == path_components(path@),
            !is_absolute_path(path@),
            forall|at: int| 0 <= at < steps.len() ==> !(#[trigger] steps[at] is Root),
            resolved(steps.take(index as int)) == Some(byte_texts(names@)),
    {
        let ghost before = byte_texts(names@);
        proof {
            assert(steps.take(index + 1).drop_last() == steps.take(index as int));
            assert(steps.take(index + 1).last() == all@[index as int].deep_view());
            assert(!(steps[index as int] is Root));
        }
        match all[index] {
            Component::Current => {},
            Component::Name(name) => {
                names.push(name);
                assert(byte_texts(names@) =~= before.push(name@));
            },
            Component::Parent => {
                if names.len() == 0 {
                    proof {
                        lemma_resolved_prefix(steps, index + 1);
                    }
                    return Err(
                        AppError::new(
                            String::from_str("Path escapes the package root: ").concat(
                                display(path).as_str(),
                            ),
                        ),
                    );
                }
                names.pop();
                assert(byte_texts(names@) =~= before.drop_last());
            },
            Component::Root => {},
        }
    }
    assert(steps.take(steps.len() as int) == steps);
    Ok(write_names(&names))
}

fn write_names(names: &Vec<&[u8]>) -> (result: Vec<u8>)
    ensures
        result@ == names_path(byte_texts(names@)),
{
    let ghost all = byte_texts(names@);
    let mut result: Vec<u8> = Vec::new();
    assert(result@ =~= seq![]);
    for index in 0..names.len()
        invariant
            all == byte_texts(names@),
            result@ == names_path(all.take(index as int)),
    {
        proof {
            assert(all.take(index + 1).drop_last() == all.take(index as int));
            assert(all.take(index + 1).last() == names@[index as int]@);
        }
        result = join_path(result.as_slice(), names[index]);
    }
    assert(all.take(all.len() as int) == all);
    result
}

proof fn lemma_no_root(parts: Seq<Seq<u8>>)
    ensures
        forall|at: int|
            0 <= at < part_components(parts).len() ==> !(#[trigger] part_components(parts)[at]
                is Root),
    decreases parts.len(),
{
    if parts.len() > 0 {
        lemma_no_root(parts.drop_last());
    }
}

proof fn lemma_resolved_prefix(steps: Seq<ComponentModel>, length: int)
    requires
        0 <= length <= steps.len(),
        resolved(steps.take(length)) is None,
    ensures
        resolved(steps) is None,
    decreases steps.len(),
{
    if length < steps.len() {
        assert(steps.drop_last().take(length) == steps.take(length));
        lemma_resolved_prefix(steps.drop_last(), length);
    } else {
        assert(steps.take(length) == steps);
    }
}

// ---------------------------------------------------------------------------
// Laws
// ---------------------------------------------------------------------------
/// A name that can stand between separators.
pub open spec fn is_plain_name(name: Seq<u8>) -> bool {
    &&& name.len() > 0
    &&& !name.contains(SEPARATOR)
    &&& name != encode_utf8("."@)
    &&& name != encode_utf8(".."@)
}

/// Every name of a list can stand between separators.
pub open spec fn are_plain_names(names: Seq<Seq<u8>>) -> bool {
    forall|index: int| 0 <= index < names.len() ==> is_plain_name(#[trigger] names[index])
}

/// The parts between the occurrences of a byte do not hold it.
pub proof fn byte_parts_lack_the_separator(bytes: Seq<u8>, byte: u8)
    ensures
        forall|index: int|
            0 <= index < split_bytes(bytes, byte).len() ==> !(#[trigger] split_bytes(
                bytes,
                byte,
            )[index]).contains(byte),
    decreases bytes.len(),
{
    let at = byte_position(bytes, byte) as int;
    let parts = split_bytes(bytes, byte);
    lemma_byte_position(bytes, byte);
    if at < bytes.len() {
        byte_parts_lack_the_separator(bytes.skip(at + 1), byte);
        assert forall|index: int| 0 <= index < parts.len() implies !(
        #[trigger] parts[index]).contains(byte) by {
            if index > 0 {
                assert(parts[index] == split_bytes(bytes.skip(at + 1), byte)[index - 1]);
            } else {
                assert forall|place: int| 0 <= place < at implies parts[0][place] != byte by {
                    assert(bytes[place] != byte);
                }
            }
        }
    }
}

/// Splitting undoes joining with a separator.
pub proof fn split_undoes_join(left: Seq<u8>, right: Seq<u8>, byte: u8)
    ensures
        split_bytes(left.push(byte) + right, byte) == split_bytes(left, byte) + split_bytes(
            right,
            byte,
        ),
    decreases left.len(),
{
    let whole = left.push(byte) + right;
    let at = byte_position(left, byte) as int;
    lemma_byte_position(left, byte);
    assert forall|index: int| 0 <= index < at implies #[trigger] whole[index] != byte by {
        assert(left[index] != byte);
    }
    lemma_byte_position_is(whole, byte, at);
    assert(whole.take(at) =~= left.take(at));
    if at < left.len() {
        assert(whole.skip(at + 1) =~= left.skip(at + 1).push(byte) + right);
        split_undoes_join(left.skip(at + 1), right, byte);
        assert(split_bytes(whole, byte) =~= split_bytes(left, byte) + split_bytes(right, byte));
    } else {
        assert(left.take(at) =~= left);
        assert(whole.skip(at + 1) =~= right);
        assert(split_bytes(whole, byte) =~= split_bytes(left, byte) + split_bytes(right, byte));
    }
}

proof fn lemma_single_part(name: Seq<u8>, byte: u8)
    requires
        !name.contains(byte),
    ensures
        split_bytes(name, byte) == seq![name],
{
    lemma_byte_position(name, byte);
    if byte_position(name, byte) < name.len() {
        assert(name.contains(name[byte_position(name, byte) as int]));
    }
}

proof fn lemma_names_path_split(names: Seq<Seq<u8>>)
    requires
        are_plain_names(names),
        names.len() > 0,
    ensures
        split_bytes(names_path(names), SEPARATOR) == names,
        names_path(names).len() > 0,
        names_path(names).last() != SEPARATOR,
        !is_absolute_path(names_path(names)),
    decreases names.len(),
{
    let last = names.last();
    let path = names_path(names);
    assert(is_plain_name(names[names.len() - 1]));
    lemma_single_part(last, SEPARATOR);
    assert(last[0] != SEPARATOR) by {
        assert(last.contains(last[0]));
    }
    assert(last.last() != SEPARATOR) by {
        assert(last.contains(last[last.len() - 1]));
    }
    if names.len() == 1 {
        assert(names_path(names.drop_last()) =~= seq![]);
        assert(path =~= last);
        assert(names =~= seq![last]);
    } else {
        let before = names_path(names.drop_last());
        assert(are_plain_names(names.drop_last())) by {
            assert forall|index: int| 0 <= index < names.len() - 1 implies is_plain_name(
                #[trigger] names.drop_last()[index],
            ) by {
                assert(is_plain_name(names[index]));
            }
        }
        lemma_names_path_split(names.drop_last());
        assert(path == before.push(SEPARATOR) + last);
        split_undoes_join(before, last, SEPARATOR);
        assert(names =~= names.drop_last() + seq![last]);
        assert(path.last() == last.last());
        assert(path[0] == before[0]);
    }
}

proof fn lemma_plain_components(names: Seq<Seq<u8>>)
    requires
        are_plain_names(names),
    ensures
        part_components(names) == names.map_values(|name: Seq<u8>| ComponentModel::Name(name)),
    decreases names.len(),
{
    let expected = names.map_values(|name: Seq<u8>| ComponentModel::Name(name));
    if names.len() == 0 {
        assert(part_components(names) =~= expected);
    } else {
        assert(are_plain_names(names.drop_last())) by {
            assert forall|index: int| 0 <= index < names.len() - 1 implies is_plain_name(
                #[trigger] names.drop_last()[index],
            ) by {
                assert(is_plain_name(names[index]));
            }
        }
        lemma_plain_components(names.drop_last());
        assert(is_plain_name(names[names.len() - 1]));
        assert(part_components(names) =~= expected);
    }
}

proof fn lemma_parts_are_plain(parts: Seq<Seq<u8>>, index: int)
    requires
        forall|at: int| 0 <= at < parts.len() ==> !(#[trigger] parts[at]).contains(SEPARATOR),
        0 <= index < part_components(parts).len(),
    ensures
        part_components(parts)[index] matches ComponentModel::Name(name) ==> is_plain_name(name),
    decreases parts.len(),
{
    if parts.len() > 0 {
        let before = part_components(parts.drop_last());
        assert(!parts[parts.len() - 1].contains(SEPARATOR));
        if index < before.len() {
            assert forall|at: int| 0 <= at < parts.len() - 1 implies !(
            #[trigger] parts.drop_last()[at]).contains(SEPARATOR) by {
                assert(!parts[at].contains(SEPARATOR));
            }
            lemma_parts_are_plain(parts.drop_last(), index);
        }
    }
}

proof fn lemma_resolved_names_are_plain(steps: Seq<ComponentModel>)
    requires
        forall|at: int|
            0 <= at < steps.len() ==> ((#[trigger] steps[at]) matches ComponentModel::Name(name)
                ==> is_plain_name(name)),
    ensures
        resolved(steps) matches Some(names) ==> are_plain_names(names),
    decreases steps.len(),
{
    if steps.len() > 0 {
        assert forall|at: int| 0 <= at < steps.len() - 1 implies ((
        #[trigger] steps.drop_last()[at]) matches ComponentModel::Name(name) ==> is_plain_name(
            name,
        )) by {
            assert(steps[at] == steps.drop_last()[at]);
        }
        lemma_resolved_names_are_plain(steps.drop_last());
        assert(steps[steps.len() - 1] == steps.last());
    }
}

proof fn lemma_resolve_names(names: Seq<Seq<u8>>)
    ensures
        resolved(names.map_values(|name: Seq<u8>| ComponentModel::Name(name))) == Some(names),
    decreases names.len(),
{
    let steps = names.map_values(|name: Seq<u8>| ComponentModel::Name(name));
    if names.len() == 0 {
        assert(names =~= seq![]);
    } else {
        lemma_resolve_names(names.drop_last());
        assert(steps.drop_last() =~= names.drop_last().map_values(
            |name: Seq<u8>| ComponentModel::Name(name),
        ));
        assert(names =~= names.drop_last().push(names.last()));
    }
}

/// A normalized path is relative and consists of file names alone, so it
/// cannot leave the directory that it is joined to.  Normalizing it again
/// changes nothing.
pub proof fn normalized_paths_stay_below(path: Seq<u8>)
    requires
        normalized_path(path) is Ok,
    ensures
        ({
            let normal = normalized_path(path)->Ok_0;
            &&& !is_absolute_path(normal)
            &&& forall|at: int|
                0 <= at < path_components(normal).len() ==> (#[trigger] path_components(normal)[at])
                    is Name
            &&& normalized_path(normal) == Ok::<Seq<u8>, Seq<char>>(normal)
        }),
{
    let parts = split_bytes(path, SEPARATOR);
    let steps = path_components(path);
    byte_parts_lack_the_separator(path, SEPARATOR);
    assert forall|at: int| 0 <= at < steps.len() implies ((#[trigger] steps[at]) matches
        ComponentModel::Name(name) ==> is_plain_name(name)) by {
        lemma_parts_are_plain(parts, at);
    }
    lemma_resolved_names_are_plain(steps);
    let names = resolved(steps)->0;
    let normal = names_path(names);
    lemma_resolve_names(names);
    if names.len() == 0 {
        assert(normal =~= seq![]);
        lemma_single_part(normal, SEPARATOR);
        assert(split_bytes(normal, SEPARATOR).drop_last() =~= seq![]);
        assert(split_bytes(normal, SEPARATOR).last() == normal);
        assert(part_components(split_bytes(normal, SEPARATOR).drop_last()) =~= seq![]);
        assert(part_component(normal, true) is None);
        assert(path_components(normal) =~= seq![]);
        assert(names.map_values(|name: Seq<u8>| ComponentModel::Name(name)) =~= seq![]);
    } else {
        lemma_names_path_split(names);
        lemma_plain_components(names);
    }
}

/// A name that is joined to a directory becomes the component behind those of
/// the directory, so the path lies directly below it.
pub proof fn joined_names_lie_directly_below(directory: Seq<u8>, name: Seq<u8>)
    requires
        is_plain_name(name),
    ensures
        path_components(joined_path(directory, name)) == path_components(directory).push(
            ComponentModel::Name(name),
        ),
{
    let path = joined_path(directory, name);
    assert(name[0] != SEPARATOR) by {
        assert(name.contains(name[0]));
    }
    lemma_single_part(name, SEPARATOR);
    if directory.len() == 0 {
        assert(path =~= name);
        lemma_single_part(directory, SEPARATOR);
        lemma_components_grow(seq![], directory);
        lemma_components_grow(seq![], name);
        assert(seq![directory] =~= Seq::<Seq<u8>>::empty().push(directory));
        assert(seq![name] =~= Seq::<Seq<u8>>::empty().push(name));
        assert(path_components(path) =~= path_components(directory).push(
            ComponentModel::Name(name),
        ));
    } else if directory.last() == SEPARATOR {
        let start = directory.drop_last();
        let nothing = Seq::<u8>::empty();
        let parts = split_bytes(start, SEPARATOR);
        assert(directory =~= start.push(SEPARATOR) + nothing);
        assert(path =~= start.push(SEPARATOR) + name);
        split_undoes_join(start, nothing, SEPARATOR);
        split_undoes_join(start, name, SEPARATOR);
        lemma_single_part(nothing, SEPARATOR);
        assert(parts + seq![nothing] =~= parts.push(nothing));
        assert(parts + seq![name] =~= parts.push(name));
        lemma_components_grow(parts, nothing);
        lemma_components_grow(parts, name);
        assert(path_components(path) =~= path_components(directory).push(
            ComponentModel::Name(name),
        ));
    } else {
        let parts = split_bytes(directory, SEPARATOR);
        split_undoes_join(directory, name, SEPARATOR);
        assert(parts + seq![name] =~= parts.push(name));
        lemma_components_grow(parts, name);
        assert(path_components(path) =~= path_components(directory).push(
            ComponentModel::Name(name),
        ));
    }
}

proof fn lemma_components_grow(parts: Seq<Seq<u8>>, part: Seq<u8>)
    ensures
        is_plain_name(part) ==> part_components(parts.push(part)) == part_components(parts).push(
            ComponentModel::Name(part),
        ),
        part.len() == 0 ==> part_components(parts.push(part)) == part_components(parts),
{
    assert(parts.push(part).drop_last() =~= parts);
    assert(parts.push(part).last() == part);
}

/// A word of more than two ASCII characters without a separator is a name that
/// can stand between separators.
pub proof fn words_are_plain_names(word: Seq<char>)
    requires
        vstd::utf8::is_ascii_chars(word),
        word.len() > 2,
        !word.contains('/'),
    ensures
        is_plain_name(encode_utf8(word)),
{
    let name = encode_utf8(word);
    vstd::utf8::is_ascii_chars_encode_utf8(word);
    reveal_strlit(".");
    reveal_strlit("..");
    vstd::utf8::is_ascii_chars_encode_utf8("."@);
    vstd::utf8::is_ascii_chars_encode_utf8(".."@);
    if name.contains(SEPARATOR) {
        let at = choose|at: int| 0 <= at < name.len() && name[at] == SEPARATOR;
        assert(word[at] as u8 == SEPARATOR);
        assert(word[at] == '/');
        assert(word.contains('/'));
    }
}

proof fn lemma_dots()
    ensures
        encode_utf8("."@) == seq![0x2eu8],
        encode_utf8(".."@) == seq![0x2eu8, 0x2eu8],
{
    reveal_strlit(".");
    reveal_strlit("..");
    vstd::utf8::is_ascii_chars_encode_utf8("."@);
    vstd::utf8::is_ascii_chars_encode_utf8(".."@);
    assert(encode_utf8("."@) =~= seq![0x2eu8]);
    assert(encode_utf8(".."@) =~= seq![0x2eu8, 0x2eu8]);
}

proof fn lemma_joined_part(directory: Seq<u8>, part: Seq<u8>)
    requires
        directory.len() > 0,
        !is_absolute_path(directory),
        part.len() > 0,
        !part.contains(SEPARATOR),
    ensures
        joined_path(directory, part).len() > 0,
        !is_absolute_path(joined_path(directory, part)),
        path_components(joined_path(directory, part)) == match part_component(part, false) {
            Some(component) => path_components(directory).push(component),
            None => path_components(directory),
        },
{
    let path = joined_path(directory, part);
    assert(part[0] != SEPARATOR) by {
        assert(part.contains(part[0]));
    }
    lemma_single_part(part, SEPARATOR);
    assert(path[0] == directory[0]);
    if directory.last() == SEPARATOR {
        let start = directory.drop_last();
        let nothing = Seq::<u8>::empty();
        let parts = split_bytes(start, SEPARATOR);
        assert(directory =~= start.push(SEPARATOR) + nothing);
        assert(path =~= start.push(SEPARATOR) + part);
        split_undoes_join(start, nothing, SEPARATOR);
        split_undoes_join(start, part, SEPARATOR);
        lemma_single_part(nothing, SEPARATOR);
        assert(parts + seq![nothing] =~= parts.push(nothing));
        assert(parts + seq![part] =~= parts.push(part));
        lemma_components_grow(parts, nothing);
        assert(parts.push(part).drop_last() =~= parts);
        assert(parts.push(part).last() == part);
    } else {
        let parts = split_bytes(directory, SEPARATOR);
        split_undoes_join(directory, part, SEPARATOR);
        assert(parts + seq![part] =~= parts.push(part));
        assert(parts.push(part).drop_last() =~= parts);
        assert(parts.push(part).last() == part);
    }
}

/// A path that ends in `.` is the path without it, a name and `..` behind a path
/// take each other away, and a name that is added to a path is added to what it
/// stands for.  No path leads above the directory that it starts in.
pub proof fn parents_take_names_away(path: Seq<u8>, name: Seq<u8>)
    requires
        path.len() > 0,
        !is_absolute_path(path),
        is_plain_name(name),
    ensures
        normalized_path(path) matches Ok(normal) ==> {
            &&& normalized_path(joined_path(path, encode_utf8("."@))) == Ok::<Seq<u8>, Seq<char>>(
                normal,
            )
            &&& normalized_path(joined_path(path, name)) == Ok::<Seq<u8>, Seq<char>>(
                joined_path(normal, name),
            )
            &&& normalized_path(joined_path(joined_path(path, name), encode_utf8(".."@))) == Ok::<
                Seq<u8>,
                Seq<char>,
            >(normal)
            &&& normal.len() == 0 ==> normalized_path(joined_path(path, encode_utf8(".."@))) is Err
        },
        normalized_path(path) is Err ==> {
            &&& normalized_path(joined_path(path, name)) is Err
            &&& normalized_path(joined_path(path, encode_utf8(".."@))) is Err
        },
{
    lemma_dots();
    let longer = joined_path(path, name);
    lemma_joined_part(path, encode_utf8("."@));
    lemma_joined_part(path, encode_utf8(".."@));
    lemma_joined_part(path, name);
    lemma_joined_part(longer, encode_utf8(".."@));
    let steps = path_components(path);
    let parent = ComponentModel::Parent;
    let added = ComponentModel::Name(name);
    assert(steps.push(parent).drop_last() =~= steps);
    assert(steps.push(added).drop_last() =~= steps);
    assert(steps.push(added).push(parent).drop_last() =~= steps.push(added));
    if let Some(names) = resolved(steps) {
        assert(names.push(name).drop_last() =~= names);
        assert(resolved(steps.push(added)) == Some(names.push(name)));
        assert(resolved(steps.push(added).push(parent)) == Some(names));
        if names.len() > 0 {
            let parts = split_bytes(path, SEPARATOR);
            byte_parts_lack_the_separator(path, SEPARATOR);
            assert forall|at: int| 0 <= at < steps.len() implies ((#[trigger] steps[at]) matches
                ComponentModel::Name(name) ==> is_plain_name(name)) by {
                lemma_parts_are_plain(parts, at);
            }
            lemma_resolved_names_are_plain(steps);
            lemma_names_path_split(names);
        }
    }
}

/// A path that is made of names alone is already normal: it neither starts nor
/// ends in a separator or a `.` component.
pub proof fn plain_paths_are_normal(names: Seq<Seq<u8>>)
    requires
        are_plain_names(names),
        names.len() > 0,
    ensures
        normalized_path(names_path(names)) == Ok::<Seq<u8>, Seq<char>>(names_path(names)),
        ({
            let path = names_path(names);
            &&& path.len() > 0
            &&& path[0] != SEPARATOR
            &&& path[0] == 0x2e ==> path.len() > 1 && path[1] != SEPARATOR
            &&& path.last() != SEPARATOR
            &&& path.last() == 0x2e ==> path.len() > 1 && path[path.len() - 2] != SEPARATOR
        }),
    decreases names.len(),
{
    let path = names_path(names);
    let last = names.last();
    lemma_names_path_split(names);
    lemma_plain_components(names);
    lemma_resolve_names(names);
    lemma_dots();
    assert(is_plain_name(names[names.len() - 1]));
    assert(last =~= seq![0x2eu8] || last.len() > 1 || last[0] != 0x2e);
    assert(last[0] != SEPARATOR) by {
        assert(last.contains(last[0]));
    }
    if last.len() > 1 {
        assert(last.contains(last[1]));
        assert(last.contains(last[last.len() - 2]));
    }
    if names.len() == 1 {
        assert(names_path(names.drop_last()) =~= seq![]);
        assert(path =~= last);
    } else {
        let before = names_path(names.drop_last());
        assert(are_plain_names(names.drop_last())) by {
            assert forall|index: int| 0 <= index < names.len() - 1 implies is_plain_name(
                #[trigger] names.drop_last()[index],
            ) by {
                assert(is_plain_name(names[index]));
            }
        }
        plain_paths_are_normal(names.drop_last());
        assert(path =~= before.push(SEPARATOR) + last);
    }
}

} // verus!
