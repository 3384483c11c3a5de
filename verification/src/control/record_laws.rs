//! What the metadata of a control record promises.

use vstd::prelude::*;

use crate::compatibility::inspection::expected_for;
use crate::control::arch_version::{
    arch_version_text_of, epoch_of, escaped, only_version_characters,
    version_body, version_fault,
};
use crate::control::description::{description_of, long_of};
use crate::control::metadata::{
    arch_architecture, listed_text, metadata_keeps_every_relation, metadata_of, MetadataModel,
    RelationField,
};
use crate::control::paragraph::{
    control_of, field_value, is_field_name, paragraph_of, unfold, unfolded_value, Fields,
};
use crate::dependency::resolver::debian_architecture_of;
use crate::number::{decimal, decimal_round_trip};
use crate::pieces::{
    join, lemma_position_is, lemma_split_join, lemma_split_whole, lines, lowercase, nonempty,
    position, split, trim, trim_class, trim_each, trim_end,
};
use crate::text::{is_alphanumeric, is_digit, CharClass};
use crate::transform::layout::triplets_of;

verus! {

// ---------------------------------------------------------------------------
// Lines
// ---------------------------------------------------------------------------
proof fn lemma_colon(name: Seq<char>, rest: Seq<char>)
    requires
        is_field_name(name),
    ensures
        ({
            let line = name + seq![':'] + rest;
            &&& position(line, CharClass::Exactly(':')) == name.len()
            &&& line.take(name.len() as int) == name
            &&& line.skip(name.len() as int + 1) == rest
            &&& line.len() > 0
            &&& line[0] == name[0]
            &&& !CharClass::Blank.has(line[0])
        }),
{
    let line = name + seq![':'] + rest;
    let class = CharClass::Exactly(':');
    assert forall|index: int| 0 <= index < name.len() implies !class.has(#[trigger] line[index]) by {
        assert(line[index] == name[index]);
        assert(crate::control::paragraph::is_field_name_character(name[index]));
    }
    lemma_position_is(line, class, name.len() as int);
    assert(line.take(name.len() as int) =~= name);
    assert(line.skip(name.len() as int + 1) =~= rest);
}

/// A line with a new name, a colon and a text adds that field to a record and
/// leaves all others; a line that starts with a blank adds a line to the field
/// in front of it and to no other; an empty line changes nothing.
pub proof fn lines_add_to_the_record(
    all_lines: Seq<Seq<char>>,
    name: Seq<char>,
    rest: Seq<char>,
    blank: char,
)
    requires
        paragraph_of(all_lines) matches Ok(paragraph) && !paragraph.finished,
        is_field_name(name),
        blank == ' ' || blank == '\t',
    ensures
        ({
            let before = paragraph_of(all_lines)->Ok_0;
            let key = lowercase(name);
            let field = paragraph_of(all_lines.push(name + seq![':'] + rest));
            let more = paragraph_of(all_lines.push(seq![blank] + rest));
            let empty = paragraph_of(all_lines.push(seq![]));
            &&& !before.fields.contains_key(key) ==> field is Ok && {
                &&& field->Ok_0.fields.dom() == before.fields.dom().insert(key)
                &&& field->Ok_0.fields[key] == trim_class(rest, CharClass::Blank)
                &&& field->Ok_0.open_field == Some(key)
                &&& forall|other: Seq<char>|
                    before.fields.contains_key(other) && other != key ==> #[trigger] field->Ok_0.fields[other]
                        == before.fields[other]
            }
            &&& before.fields.contains_key(key) ==> field is Err
            &&& before.open_field is None ==> more is Err
            &&& before.open_field matches Some(open) ==> before.fields.contains_key(open) ==> more is Ok && {
                &&& more->Ok_0.fields.dom() == before.fields.dom()
                &&& more->Ok_0.fields[open] == before.fields[open] + seq!['\n'] + trim_end(
                    rest,
                    CharClass::Blank,
                )
                &&& more->Ok_0.open_field == before.open_field
                &&& forall|other: Seq<char>|
                    before.fields.contains_key(other) && other != open ==> #[trigger] more->Ok_0.fields[other]
                        == before.fields[other]
            }
            &&& empty is Ok && empty->Ok_0.fields == before.fields
        }),
{
    let before = paragraph_of(all_lines)->Ok_0;
    let key = lowercase(name);
    let line = name + seq![':'] + rest;
    let folded = seq![blank] + rest;
    lemma_colon(name, rest);
    assert(all_lines.push(line).drop_last() =~= all_lines);
    assert(all_lines.push(folded).drop_last() =~= all_lines);
    assert(all_lines.push(seq![]).drop_last() =~= all_lines);
    assert(folded[0] == blank);
    assert(CharClass::Blank.has(blank));
    assert(folded.skip(1) =~= rest);
    if !before.fields.contains_key(key) {
        let after = paragraph_of(all_lines.push(line))->Ok_0;
        assert(after.fields.dom() =~= before.fields.dom().insert(key));
    }
    if let Some(open) = before.open_field {
        if before.fields.contains_key(open) {
            let after = paragraph_of(all_lines.push(folded))->Ok_0;
            assert(after.fields.dom() =~= before.fields.dom());
        }
    }
}

// ---------------------------------------------------------------------------
// Folded values
// ---------------------------------------------------------------------------
proof fn lemma_nonempty_concat(left: Seq<Seq<char>>, right: Seq<Seq<char>>)
    ensures
        nonempty(left + right) == nonempty(left) + nonempty(right),
{
    Seq::filter_distributes_over_add(left, right, |part: Seq<char>| part.len() > 0);
}

proof fn lemma_join_concat(left: Seq<Seq<char>>, right: Seq<Seq<char>>, separator: Seq<char>)
    ensures
        left.len() == 0 ==> join(left + right, separator) == join(right, separator),
        right.len() == 0 ==> join(left + right, separator) == join(left, separator),
        left.len() > 0 && right.len() > 0 ==> join(left + right, separator) == join(left, separator)
            + separator + join(right, separator),
    decreases right.len(),
{
    let all = left + right;
    if left.len() == 0 {
        assert(all =~= right);
    } else if right.len() == 0 {
        assert(all =~= left);
    } else {
        let fewer = right.drop_last();
        assert(all.drop_last() =~= left + fewer);
        assert(all.last() == right.last());
        lemma_join_concat(left, fewer, separator);
        if right.len() == 1 {
            assert(fewer =~= seq![]);
            assert(right[0] == right.last());
        } else {
            assert(join(all, separator) =~= join(left, separator) + separator + join(
                right,
                separator,
            ));
        }
    }
}

/// Two parts of a folded value unfold to their texts with a space between them,
/// and a blank part unfolds to nothing.
pub proof fn folded_lines_are_joined_by_spaces(left: Seq<char>, right: Seq<char>)
    ensures
        ({
            let whole = unfold(left.push('\n') + right);
            &&& trim(left).len() == 0 && !left.contains('\n') ==> whole == unfold(right)
            &&& trim(right).len() == 0 && !right.contains('\n') ==> whole == unfold(left)
            &&& !left.contains('\n') && !right.contains('\n') && trim(left).len() > 0 && trim(
                right,
            ).len() > 0 ==> whole == trim(left) + " "@ + trim(right)
            &&& nonempty(trim_each(split(left, CharClass::Exactly('\n')))).len() > 0 && nonempty(
                trim_each(split(right, CharClass::Exactly('\n'))),
            ).len() > 0 ==> whole == unfold(left) + " "@ + unfold(right)
        }),
        !left.contains('\n') ==> unfold(left) == trim(left),
{
    let class = CharClass::Exactly('\n');
    lemma_split_join(left, '\n', right, class);
    let one = split(left, class);
    let two = split(right, class);
    assert(trim_each(one + two) =~= trim_each(one) + trim_each(two));
    lemma_nonempty_concat(trim_each(one), trim_each(two));
    lemma_join_concat(nonempty(trim_each(one)), nonempty(trim_each(two)), " "@);
    lemma_one_line(left);
    lemma_one_line(right);
}

proof fn lemma_one_line(text: Seq<char>)
    ensures
        !text.contains('\n') ==> {
            let parts = nonempty(trim_each(split(text, CharClass::Exactly('\n'))));
            &&& unfold(text) == trim(text)
            &&& trim(text).len() > 0 ==> parts == seq![trim(text)]
            &&& trim(text).len() == 0 ==> parts.len() == 0
        },
{
    if !text.contains('\n') {
        let class = CharClass::Exactly('\n');
        assert forall|index: int| 0 <= index < text.len() implies !class.has(
            #[trigger] text[index],
        ) by {
            assert(text.contains(text[index]));
        }
        lemma_split_whole(text, class);
        let parts = trim_each(seq![text]);
        assert(parts =~= seq![trim(text)]);
        reveal(Seq::filter);
        assert(parts.drop_last() =~= seq![]);
        let pred = |part: Seq<char>| part.len() > 0;
        assert(parts.drop_last().filter(pred) =~= seq![]);
        if trim(text).len() > 0 {
            assert(nonempty(parts) =~= seq![trim(text)]);
        } else {
            assert(nonempty(parts) =~= seq![]);
            assert(trim(text) =~= seq![]);
        }
    }
}

/// The summary of a description is its first line, and the rest is its long
/// part; neither depends on the other.
pub proof fn descriptions_start_with_their_summary(first: Seq<char>, rest: Seq<char>)
    requires
        !first.contains('\n'),
    ensures
        description_of(Some(first)).long is None,
        description_of(Some(first.push('\n') + rest)).summary == description_of(
            Some(first),
        ).summary,
        description_of(Some(first.push('\n') + rest)).long == long_of(
            split(rest, CharClass::Exactly('\n')),
        ),
        trim(first).len() > 0 && trim(first) != seq!['.'] ==> description_of(Some(first)).summary
            == Some(trim(first)),
        trim(first).len() == 0 || trim(first) == seq!['.'] ==> description_of(
            Some(first),
        ).summary is None,
        description_of(None).summary is None && description_of(None).long is None,
{
    let class = CharClass::Exactly('\n');
    reveal_strlit(".");
    reveal_strlit("\n");
    assert("."@ =~= seq!['.']);
    assert forall|index: int| 0 <= index < first.len() implies !class.has(
        #[trigger] first[index],
    ) by {
        assert(first.contains(first[index]));
    }
    lemma_split_whole(first, class);
    lemma_split_join(first, '\n', rest, class);
    let all = split(first.push('\n') + rest, class);
    assert(all[0] == first);
    assert(all.skip(1) =~= split(rest, class));
    let none = seq![first].skip(1);
    assert(none =~= seq![]);
    assert(none.map_values(|line: Seq<char>| crate::control::description::long_line(line))
        =~= seq![]);
}

// ---------------------------------------------------------------------------
// Metadata
// ---------------------------------------------------------------------------
/// The value of a field that counts: one that is there and not blank.
pub open spec fn tells(fields: Fields, name: Seq<char>, value: Seq<char>) -> bool {
    unfolded_value(fields, name) == Some(value) && trim(value).len() > 0
}

/// Each part of the metadata comes from the control field that is meant for it.
pub proof fn metadata_comes_of_its_fields(fields: Fields, value: Seq<char>, number: u64)
    ensures
        metadata_of(fields) matches Ok(metadata) ==> {
            &&& tells(fields, "Package"@, metadata.name)
            &&& tells(fields, "Version"@, metadata.debian_version)
            &&& tells(fields, "Architecture"@, metadata.debian_architecture)
            &&& arch_architecture(metadata.debian_architecture) == Some(metadata.architecture)
            &&& arch_version_text_of(metadata.debian_version) == Ok::<Seq<char>, Seq<char>>(
                metadata.full_version,
            )
            &&& metadata.url == Some(value) <==> tells(fields, "Homepage"@, value)
            &&& metadata.license == Some(value) <==> tells(fields, "License"@, value)
            &&& metadata.maintainer == Some(value) <==> tells(fields, "Maintainer"@, value)
            &&& metadata.description == description_of(
                field_value(fields, "Description"@),
            ).summary
            &&& metadata.long_description == description_of(
                field_value(fields, "Description"@),
            ).long
            &&& unfolded_value(fields, "Source"@) is None ==> metadata.source == metadata.name
            &&& unfolded_value(fields, "Source"@) == Some(value) && trim(value).len() > 0
                && !trim(value).contains('(') ==> metadata.source == trim(value)
            &&& tells(fields, "Installed-Size"@, decimal(number as nat))
                ==> metadata.installed_size == Some(number)
            &&& unfolded_value(fields, "Installed-Size"@) is None ==> metadata.installed_size is None
        },
{
    decimal_round_trip(number as nat, u64::MAX as int);
    if let Ok(metadata) = metadata_of(fields) {
        if unfolded_value(fields, "Source"@) == Some(value) && trim(value).len() > 0 && !trim(
            value,
        ).contains('(') {
            lemma_no_parenthesis(trim(value), trim(value).len() as int);
        }
    }
}

proof fn lemma_no_parenthesis(text: Seq<char>, limit: int)
    requires
        !text.contains('('),
    ensures
        crate::pieces::last_occurrence(text, " ("@, limit) is None,
    decreases limit + 1,
{
    if limit >= 0 {
        reveal_strlit(" (");
        lemma_no_parenthesis(text, limit - 1);
        if limit + 2 <= text.len() && text.subrange(limit, limit + 2) == " ("@ {
            assert(text.subrange(limit, limit + 2)[1] == text[limit + 1]);
            assert(text.contains(text[limit + 1]));
        }
    }
}

// ---------------------------------------------------------------------------
// Versions
// ---------------------------------------------------------------------------
/// The character stands in an Arch version as it stands in a Debian one.
pub open spec fn stays_as_it_is(character: char) -> bool {
    is_alphanumeric(character) || character == '.' || character == '+' || character == '~'
}

proof fn lemma_escaped_stays(text: Seq<char>)
    requires
        forall|index: int| 0 <= index < text.len() ==> stays_as_it_is(#[trigger] text[index]),
    ensures
        escaped(text) == text,
    decreases text.len(),
{
    if text.len() > 0 {
        assert(stays_as_it_is(text[0]));
        assert forall|index: int| 0 <= index < text.drop_first().len() implies stays_as_it_is(
            #[trigger] text.drop_first()[index],
        ) by {
            assert(text.drop_first()[index] == text[index + 1]);
        }
        lemma_escaped_stays(text.drop_first());
        assert(escaped(text) =~= text);
    } else {
        assert(escaped(text) =~= text);
    }
}

/// A version of plain characters keeps its text, with a release number behind it;
/// an epoch stands in front of it, unless it is zero.
pub proof fn versions_keep_their_text(version: Seq<char>, epoch: u64)
    requires
        version.len() > 0,
        is_digit(version[0]),
        forall|index: int| 0 <= index < version.len() ==> stays_as_it_is(#[trigger] version[index]),
    ensures
        arch_version_text_of(version) == Ok::<Seq<char>, Seq<char>>(version + "-1"@),
        arch_version_text_of(decimal(epoch as nat) + ":"@ + version) == Ok::<Seq<char>, Seq<char>>(
            if epoch == 0 {
                version + "-1"@
            } else {
                decimal(epoch as nat) + ":"@ + version + "-1"@
            },
        ),
{
    reveal_strlit(":");
    reveal_strlit("-");
    reveal_strlit("-1");
    let class = CharClass::Exactly(':');
    let start = decimal(epoch as nat);
    let long = start + ":"@ + version;
    assert(decimal(1) =~= seq!['1']) by {
        reveal_with_fuel(decimal, 2);
    }
    assert("-"@ + decimal(1) =~= "-1"@);
    lemma_escaped_stays(version);
    lemma_plain_version(version);
    crate::number::decimal_has_only_digits(epoch as nat);
    assert forall|index: int| 0 <= index < start.len() implies !class.has(#[trigger] long[index]) by {
        assert(long[index] == start[index]);
        assert(is_digit(start[index]));
    }
    lemma_position_is(long, class, start.len() as int);
    assert(long.skip(start.len() as int + 1) =~= version);
    assert(long.take(start.len() as int) =~= start);
    decimal_round_trip(epoch as nat, u64::MAX as int);
    assert forall|index: int| 0 <= index < long.len() implies
        !crate::control::arch_version::is_unprintable(#[trigger] long[index]) by {
        if index < start.len() {
            assert(long[index] == start[index]);
            assert(is_digit(start[index]));
        } else if index > start.len() {
            assert(long[index] == version[index - start.len() - 1]);
            assert(stays_as_it_is(version[index - start.len() - 1]));
        }
    }
    assert(version + ("-"@ + decimal(1)) =~= version + "-"@ + decimal(1));
    assert(start + ":"@ + (version + "-"@ + decimal(1)) =~= start + ":"@ + version + "-1"@);
    assert(version + "-"@ + decimal(1) =~= version + "-1"@);
}

proof fn lemma_plain_version(version: Seq<char>)
    requires
        version.len() > 0,
        is_digit(version[0]),
        forall|index: int| 0 <= index < version.len() ==> stays_as_it_is(#[trigger] version[index]),
    ensures
        version_fault(version) is None,
        version_body(version) == version,
        epoch_of(version) == Ok::<Option<u64>, Seq<char>>(None),
        only_version_characters(version),
{
    let class = CharClass::Exactly(':');
    assert forall|index: int| 0 <= index < version.len() implies !class.has(
        #[trigger] version[index],
    ) by {
        assert(stays_as_it_is(version[index]));
    }
    lemma_position_is(version, class, version.len() as int);
    assert forall|index: int| 0 <= index < version.len() implies
        !crate::control::arch_version::is_unprintable(#[trigger] version[index]) by {
        assert(stays_as_it_is(version[index]));
    }
    assert forall|index: int| 0 <= index < version.len() implies
        crate::control::arch_version::is_version_character(#[trigger] version[index]) by {
        assert(stays_as_it_is(version[index]));
    }
}

// ---------------------------------------------------------------------------
// Architectures
// ---------------------------------------------------------------------------
proof fn lemma_names_differ()
    ensures
        "aarch64"@ != "all"@,
        "aarch64"@ != "amd64"@,
        "aarch64"@ != "any"@,
        "aarch64"@ != "arm"@,
        "aarch64"@ != "arm64"@,
        "aarch64"@ != "armel"@,
        "aarch64"@ != "armhf"@,
        "aarch64"@ != "armv7h"@,
        "aarch64"@ != "i386"@,
        "aarch64"@ != "i686"@,
        "aarch64"@ != "powerpc64"@,
        "aarch64"@ != "ppc64"@,
        "aarch64"@ != "ppc64el"@,
        "aarch64"@ != "ppc64le"@,
        "aarch64"@ != "riscv64"@,
        "aarch64"@ != "s390x"@,
        "aarch64"@ != "x86"@,
        "aarch64"@ != "x86_64"@,
        "all"@ != "amd64"@,
        "all"@ != "any"@,
        "all"@ != "arm"@,
        "all"@ != "arm64"@,
        "all"@ != "armel"@,
        "all"@ != "armhf"@,
        "all"@ != "armv7h"@,
        "all"@ != "i386"@,
        "all"@ != "i686"@,
        "all"@ != "powerpc64"@,
        "all"@ != "ppc64"@,
        "all"@ != "ppc64el"@,
        "all"@ != "ppc64le"@,
        "all"@ != "riscv64"@,
        "all"@ != "s390x"@,
        "all"@ != "x86"@,
        "all"@ != "x86_64"@,
        "amd64"@ != "any"@,
        "amd64"@ != "arm"@,
        "amd64"@ != "arm64"@,
        "amd64"@ != "armel"@,
        "amd64"@ != "armhf"@,
        "amd64"@ != "armv7h"@,
        "amd64"@ != "i386"@,
        "amd64"@ != "i686"@,
        "amd64"@ != "powerpc64"@,
        "amd64"@ != "ppc64"@,
        "amd64"@ != "ppc64el"@,
        "amd64"@ != "ppc64le"@,
        "amd64"@ != "riscv64"@,
        "amd64"@ != "s390x"@,
        "amd64"@ != "x86"@,
        "amd64"@ != "x86_64"@,
        "any"@ != "arm"@,
        "any"@ != "arm64"@,
        "any"@ != "armel"@,
        "any"@ != "armhf"@,
        "any"@ != "armv7h"@,
        "any"@ != "i386"@,
        "any"@ != "i686"@,
        "any"@ != "powerpc64"@,
        "any"@ != "ppc64"@,
        "any"@ != "ppc64el"@,
        "any"@ != "ppc64le"@,
        "any"@ != "riscv64"@,
        "any"@ != "s390x"@,
        "any"@ != "x86"@,
        "any"@ != "x86_64"@,
        "arm"@ != "arm64"@,
        "arm"@ != "armel"@,
        "arm"@ != "armhf"@,
        "arm"@ != "armv7h"@,
        "arm"@ != "i386"@,
        "arm"@ != "i686"@,
        "arm"@ != "powerpc64"@,
        "arm"@ != "ppc64"@,
        "arm"@ != "ppc64el"@,
        "arm"@ != "ppc64le"@,
        "arm"@ != "riscv64"@,
        "arm"@ != "s390x"@,
        "arm"@ != "x86"@,
        "arm"@ != "x86_64"@,
        "arm64"@ != "armel"@,
        "arm64"@ != "armhf"@,
        "arm64"@ != "armv7h"@,
        "arm64"@ != "i386"@,
        "arm64"@ != "i686"@,
        "arm64"@ != "powerpc64"@,
        "arm64"@ != "ppc64"@,
        "arm64"@ != "ppc64el"@,
        "arm64"@ != "ppc64le"@,
        "arm64"@ != "riscv64"@,
        "arm64"@ != "s390x"@,
        "arm64"@ != "x86"@,
        "arm64"@ != "x86_64"@,
        "armel"@ != "armhf"@,
        "armel"@ != "armv7h"@,
        "armel"@ != "i386"@,
        "armel"@ != "i686"@,
        "armel"@ != "powerpc64"@,
        "armel"@ != "ppc64"@,
        "armel"@ != "ppc64el"@,
        "armel"@ != "ppc64le"@,
        "armel"@ != "riscv64"@,
        "armel"@ != "s390x"@,
        "armel"@ != "x86"@,
        "armel"@ != "x86_64"@,
        "armhf"@ != "armv7h"@,
        "armhf"@ != "i386"@,
        "armhf"@ != "i686"@,
        "armhf"@ != "powerpc64"@,
        "armhf"@ != "ppc64"@,
        "armhf"@ != "ppc64el"@,
        "armhf"@ != "ppc64le"@,
        "armhf"@ != "riscv64"@,
        "armhf"@ != "s390x"@,
        "armhf"@ != "x86"@,
        "armhf"@ != "x86_64"@,
        "armv7h"@ != "i386"@,
        "armv7h"@ != "i686"@,
        "armv7h"@ != "powerpc64"@,
        "armv7h"@ != "ppc64"@,
        "armv7h"@ != "ppc64el"@,
        "armv7h"@ != "ppc64le"@,
        "armv7h"@ != "riscv64"@,
        "armv7h"@ != "s390x"@,
        "armv7h"@ != "x86"@,
        "armv7h"@ != "x86_64"@,
        "i386"@ != "i686"@,
        "i386"@ != "powerpc64"@,
        "i386"@ != "ppc64"@,
        "i386"@ != "ppc64el"@,
        "i386"@ != "ppc64le"@,
        "i386"@ != "riscv64"@,
        "i386"@ != "s390x"@,
        "i386"@ != "x86"@,
        "i386"@ != "x86_64"@,
        "i686"@ != "powerpc64"@,
        "i686"@ != "ppc64"@,
        "i686"@ != "ppc64el"@,
        "i686"@ != "ppc64le"@,
        "i686"@ != "riscv64"@,
        "i686"@ != "s390x"@,
        "i686"@ != "x86"@,
        "i686"@ != "x86_64"@,
        "powerpc64"@ != "ppc64"@,
        "powerpc64"@ != "ppc64el"@,
        "powerpc64"@ != "ppc64le"@,
        "powerpc64"@ != "riscv64"@,
        "powerpc64"@ != "s390x"@,
        "powerpc64"@ != "x86"@,
        "powerpc64"@ != "x86_64"@,
        "ppc64"@ != "ppc64el"@,
        "ppc64"@ != "ppc64le"@,
        "ppc64"@ != "riscv64"@,
        "ppc64"@ != "s390x"@,
        "ppc64"@ != "x86"@,
        "ppc64"@ != "x86_64"@,
        "ppc64el"@ != "ppc64le"@,
        "ppc64el"@ != "riscv64"@,
        "ppc64el"@ != "s390x"@,
        "ppc64el"@ != "x86"@,
        "ppc64el"@ != "x86_64"@,
        "ppc64le"@ != "riscv64"@,
        "ppc64le"@ != "s390x"@,
        "ppc64le"@ != "x86"@,
        "ppc64le"@ != "x86_64"@,
        "riscv64"@ != "s390x"@,
        "riscv64"@ != "x86"@,
        "riscv64"@ != "x86_64"@,
        "s390x"@ != "x86"@,
        "s390x"@ != "x86_64"@,
        "x86"@ != "x86_64"@,
{
    reveal_strlit("aarch64");
    reveal_strlit("all");
    reveal_strlit("amd64");
    reveal_strlit("any");
    reveal_strlit("arm");
    reveal_strlit("arm64");
    reveal_strlit("armel");
    reveal_strlit("armhf");
    reveal_strlit("armv7h");
    reveal_strlit("i386");
    reveal_strlit("i686");
    reveal_strlit("powerpc64");
    reveal_strlit("ppc64");
    reveal_strlit("ppc64el");
    reveal_strlit("ppc64le");
    reveal_strlit("riscv64");
    reveal_strlit("s390x");
    reveal_strlit("x86");
    reveal_strlit("x86_64");
    assert("aarch64"@.len() != "all"@.len());
    assert("aarch64"@.len() != "amd64"@.len());
    assert("aarch64"@.len() != "any"@.len());
    assert("aarch64"@.len() != "arm"@.len());
    assert("aarch64"@.len() != "arm64"@.len());
    assert("aarch64"@.len() != "armel"@.len());
    assert("aarch64"@.len() != "armhf"@.len());
    assert("aarch64"@.len() != "armv7h"@.len());
    assert("aarch64"@.len() != "i386"@.len());
    assert("aarch64"@.len() != "i686"@.len());
    assert("aarch64"@.len() != "powerpc64"@.len());
    assert("aarch64"@.len() != "ppc64"@.len());
    assert("aarch64"@[0] != "ppc64el"@[0]);
    assert("aarch64"@[0] != "ppc64le"@[0]);
    assert("aarch64"@[0] != "riscv64"@[0]);
    assert("aarch64"@.len() != "s390x"@.len());
    assert("aarch64"@.len() != "x86"@.len());
    assert("aarch64"@.len() != "x86_64"@.len());
    assert("all"@.len() != "amd64"@.len());
    assert("all"@[1] != "any"@[1]);
    assert("all"@[1] != "arm"@[1]);
    assert("all"@.len() != "arm64"@.len());
    assert("all"@.len() != "armel"@.len());
    assert("all"@.len() != "armhf"@.len());
    assert("all"@.len() != "armv7h"@.len());
    assert("all"@.len() != "i386"@.len());
    assert("all"@.len() != "i686"@.len());
    assert("all"@.len() != "powerpc64"@.len());
    assert("all"@.len() != "ppc64"@.len());
    assert("all"@.len() != "ppc64el"@.len());
    assert("all"@.len() != "ppc64le"@.len());
    assert("all"@.len() != "riscv64"@.len());
    assert("all"@.len() != "s390x"@.len());
    assert("all"@[0] != "x86"@[0]);
    assert("all"@.len() != "x86_64"@.len());
    assert("amd64"@.len() != "any"@.len());
    assert("amd64"@.len() != "arm"@.len());
    assert("amd64"@[1] != "arm64"@[1]);
    assert("amd64"@[1] != "armel"@[1]);
    assert("amd64"@[1] != "armhf"@[1]);
    assert("amd64"@.len() != "armv7h"@.len());
    assert("amd64"@.len() != "i386"@.len());
    assert("amd64"@.len() != "i686"@.len());
    assert("amd64"@.len() != "powerpc64"@.len());
    assert("amd64"@[0] != "ppc64"@[0]);
    assert("amd64"@.len() != "ppc64el"@.len());
    assert("amd64"@.len() != "ppc64le"@.len());
    assert("amd64"@.len() != "riscv64"@.len());
    assert("amd64"@[0] != "s390x"@[0]);
    assert("amd64"@.len() != "x86"@.len());
    assert("amd64"@.len() != "x86_64"@.len());
    assert("any"@[1] != "arm"@[1]);
    assert("any"@.len() != "arm64"@.len());
    assert("any"@.len() != "armel"@.len());
    assert("any"@.len() != "armhf"@.len());
    assert("any"@.len() != "armv7h"@.len());
    assert("any"@.len() != "i386"@.len());
    assert("any"@.len() != "i686"@.len());
    assert("any"@.len() != "powerpc64"@.len());
    assert("any"@.len() != "ppc64"@.len());
    assert("any"@.len() != "ppc64el"@.len());
    assert("any"@.len() != "ppc64le"@.len());
    assert("any"@.len() != "riscv64"@.len());
    assert("any"@.len() != "s390x"@.len());
    assert("any"@[0] != "x86"@[0]);
    assert("any"@.len() != "x86_64"@.len());
    assert("arm"@.len() != "arm64"@.len());
    assert("arm"@.len() != "armel"@.len());
    assert("arm"@.len() != "armhf"@.len());
    assert("arm"@.len() != "armv7h"@.len());
    assert("arm"@.len() != "i386"@.len());
    assert("arm"@.len() != "i686"@.len());
    assert("arm"@.len() != "powerpc64"@.len());
    assert("arm"@.len() != "ppc64"@.len());
    assert("arm"@.len() != "ppc64el"@.len());
    assert("arm"@.len() != "ppc64le"@.len());
    assert("arm"@.len() != "riscv64"@.len());
    assert("arm"@.len() != "s390x"@.len());
    assert("arm"@[0] != "x86"@[0]);
    assert("arm"@.len() != "x86_64"@.len());
    assert("arm64"@[3] != "armel"@[3]);
    assert("arm64"@[3] != "armhf"@[3]);
    assert("arm64"@.len() != "armv7h"@.len());
    assert("arm64"@.len() != "i386"@.len());
    assert("arm64"@.len() != "i686"@.len());
    assert("arm64"@.len() != "powerpc64"@.len());
    assert("arm64"@[0] != "ppc64"@[0]);
    assert("arm64"@.len() != "ppc64el"@.len());
    assert("arm64"@.len() != "ppc64le"@.len());
    assert("arm64"@.len() != "riscv64"@.len());
    assert("arm64"@[0] != "s390x"@[0]);
    assert("arm64"@.len() != "x86"@.len());
    assert("arm64"@.len() != "x86_64"@.len());
    assert("armel"@[3] != "armhf"@[3]);
    assert("armel"@.len() != "armv7h"@.len());
    assert("armel"@.len() != "i386"@.len());
    assert("armel"@.len() != "i686"@.len());
    assert("armel"@.len() != "powerpc64"@.len());
    assert("armel"@[0] != "ppc64"@[0]);
    assert("armel"@.len() != "ppc64el"@.len());
    assert("armel"@.len() != "ppc64le"@.len());
    assert("armel"@.len() != "riscv64"@.len());
    assert("armel"@[0] != "s390x"@[0]);
    assert("armel"@.len() != "x86"@.len());
    assert("armel"@.len() != "x86_64"@.len());
    assert("armhf"@.len() != "armv7h"@.len());
    assert("armhf"@.len() != "i386"@.len());
    assert("armhf"@.len() != "i686"@.len());
    assert("armhf"@.len() != "powerpc64"@.len());
    assert("armhf"@[0] != "ppc64"@[0]);
    assert("armhf"@.len() != "ppc64el"@.len());
    assert("armhf"@.len() != "ppc64le"@.len());
    assert("armhf"@.len() != "riscv64"@.len());
    assert("armhf"@[0] != "s390x"@[0]);
    assert("armhf"@.len() != "x86"@.len());
    assert("armhf"@.len() != "x86_64"@.len());
    assert("armv7h"@.len() != "i386"@.len());
    assert("armv7h"@.len() != "i686"@.len());
    assert("armv7h"@.len() != "powerpc64"@.len());
    assert("armv7h"@.len() != "ppc64"@.len());
    assert("armv7h"@.len() != "ppc64el"@.len());
    assert("armv7h"@.len() != "ppc64le"@.len());
    assert("armv7h"@.len() != "riscv64"@.len());
    assert("armv7h"@.len() != "s390x"@.len());
    assert("armv7h"@.len() != "x86"@.len());
    assert("armv7h"@[0] != "x86_64"@[0]);
    assert("i386"@[1] != "i686"@[1]);
    assert("i386"@.len() != "powerpc64"@.len());
    assert("i386"@.len() != "ppc64"@.len());
    assert("i386"@.len() != "ppc64el"@.len());
    assert("i386"@.len() != "ppc64le"@.len());
    assert("i386"@.len() != "riscv64"@.len());
    assert("i386"@.len() != "s390x"@.len());
    assert("i386"@.len() != "x86"@.len());
    assert("i386"@.len() != "x86_64"@.len());
    assert("i686"@.len() != "powerpc64"@.len());
    assert("i686"@.len() != "ppc64"@.len());
    assert("i686"@.len() != "ppc64el"@.len());
    assert("i686"@.len() != "ppc64le"@.len());
    assert("i686"@.len() != "riscv64"@.len());
    assert("i686"@.len() != "s390x"@.len());
    assert("i686"@.len() != "x86"@.len());
    assert("i686"@.len() != "x86_64"@.len());
    assert("powerpc64"@.len() != "ppc64"@.len());
    assert("powerpc64"@.len() != "ppc64el"@.len());
    assert("powerpc64"@.len() != "ppc64le"@.len());
    assert("powerpc64"@.len() != "riscv64"@.len());
    assert("powerpc64"@.len() != "s390x"@.len());
    assert("powerpc64"@.len() != "x86"@.len());
    assert("powerpc64"@.len() != "x86_64"@.len());
    assert("ppc64"@.len() != "ppc64el"@.len());
    assert("ppc64"@.len() != "ppc64le"@.len());
    assert("ppc64"@.len() != "riscv64"@.len());
    assert("ppc64"@[0] != "s390x"@[0]);
    assert("ppc64"@.len() != "x86"@.len());
    assert("ppc64"@.len() != "x86_64"@.len());
    assert("ppc64el"@[5] != "ppc64le"@[5]);
    assert("ppc64el"@[0] != "riscv64"@[0]);
    assert("ppc64el"@.len() != "s390x"@.len());
    assert("ppc64el"@.len() != "x86"@.len());
    assert("ppc64el"@.len() != "x86_64"@.len());
    assert("ppc64le"@[0] != "riscv64"@[0]);
    assert("ppc64le"@.len() != "s390x"@.len());
    assert("ppc64le"@.len() != "x86"@.len());
    assert("ppc64le"@.len() != "x86_64"@.len());
    assert("riscv64"@.len() != "s390x"@.len());
    assert("riscv64"@.len() != "x86"@.len());
    assert("riscv64"@.len() != "x86_64"@.len());
    assert("s390x"@.len() != "x86"@.len());
    assert("s390x"@.len() != "x86_64"@.len());
    assert("x86"@.len() != "x86_64"@.len());
}

/// Every architecture that a Debian package can have is known in all its parts:
/// its ELF files and its library directories; and different ones stay different.
pub proof fn architectures_are_known_in_all_parts(debian: Seq<char>, other: Seq<char>)
    ensures
        arch_architecture(debian) matches Some(architecture) ==> {
            &&& architecture == "any"@ <==> debian == "all"@
            &&& architecture != "any"@ ==> expected_for(architecture) is Some && triplets_of(
                architecture,
            ).len() > 0
            &&& arch_architecture(other) == Some(architecture) ==> other == debian
        },
{
    lemma_names_differ();
}

/// The Debian architecture of a machine is the one of the Arch packages for it.
pub proof fn machines_have_their_architecture(machine: Seq<char>)
    ensures
        machine == "x86_64"@ || machine == "aarch64"@ || machine == "riscv64"@ || machine
            == "s390x"@ ==> arch_architecture(debian_architecture_of(machine)) == Some(machine),
        machine == "x86"@ ==> arch_architecture(debian_architecture_of(machine)) == Some("i686"@),
        machine == "arm"@ ==> arch_architecture(debian_architecture_of(machine)) == Some("armv7h"@),
        machine == "powerpc64"@ ==> arch_architecture(debian_architecture_of(machine)) == Some(
            "ppc64"@,
        ),
        arch_architecture(debian_architecture_of(machine)) is Some,
{
    lemma_names_differ();
}

// ---------------------------------------------------------------------------
// Relations
// ---------------------------------------------------------------------------
/// The metadata holds the text of the control field with a name for a relation.
pub open spec fn holds_relation(
    metadata: MetadataModel,
    fields: Fields,
    field: RelationField,
    name: Seq<char>,
) -> bool {
    match unfolded_value(fields, name) {
        Some(value) => if value.len() > 0 {
            listed_text(metadata.relations, field) == Some(value)
        } else {
            listed_text(metadata.relations, field) is None
        },
        None => listed_text(metadata.relations, field) is None,
    }
}

/// Each relation comes from the control field of its name.
pub proof fn relations_come_of_their_fields(fields: Fields)
    ensures
        metadata_of(fields) matches Ok(metadata) ==> {
            &&& holds_relation(metadata, fields, RelationField::PreDepends, "Pre-Depends"@)
            &&& holds_relation(metadata, fields, RelationField::Depends, "Depends"@)
            &&& holds_relation(metadata, fields, RelationField::Recommends, "Recommends"@)
            &&& holds_relation(metadata, fields, RelationField::Suggests, "Suggests"@)
            &&& holds_relation(metadata, fields, RelationField::Enhances, "Enhances"@)
            &&& holds_relation(metadata, fields, RelationField::Provides, "Provides"@)
            &&& holds_relation(metadata, fields, RelationField::Conflicts, "Conflicts"@)
            &&& holds_relation(metadata, fields, RelationField::Breaks, "Breaks"@)
            &&& holds_relation(metadata, fields, RelationField::Replaces, "Replaces"@)
        },
{
    if metadata_of(fields) is Ok {
        metadata_keeps_every_relation(fields, RelationField::PreDepends);
        metadata_keeps_every_relation(fields, RelationField::Depends);
        metadata_keeps_every_relation(fields, RelationField::Recommends);
        metadata_keeps_every_relation(fields, RelationField::Suggests);
        metadata_keeps_every_relation(fields, RelationField::Enhances);
        metadata_keeps_every_relation(fields, RelationField::Provides);
        metadata_keeps_every_relation(fields, RelationField::Conflicts);
        metadata_keeps_every_relation(fields, RelationField::Breaks);
        metadata_keeps_every_relation(fields, RelationField::Replaces);
    }
}

// ---------------------------------------------------------------------------
// Paragraphs
// ---------------------------------------------------------------------------
/// An empty line ends a record that has fields: it keeps them, further empty lines
/// change nothing, and any other line behind it is refused.
pub proof fn records_have_one_paragraph(all_lines: Seq<Seq<char>>, line: Seq<char>)
    requires
        paragraph_of(all_lines) matches Ok(paragraph) && paragraph.fields != Fields::empty(),
        line.len() > 0,
    ensures
        ({
            let nothing = Seq::<char>::empty();
            let ended = paragraph_of(all_lines.push(nothing));
            &&& ended is Ok && ended->Ok_0.fields == paragraph_of(all_lines)->Ok_0.fields
            &&& paragraph_of(all_lines.push(nothing).push(nothing)) == ended
            &&& paragraph_of(all_lines.push(nothing).push(line)) is Err
        }),
{
    let nothing = Seq::<char>::empty();
    let ended = all_lines.push(nothing);
    assert(ended.drop_last() =~= all_lines);
    assert(ended.push(nothing).drop_last() =~= ended);
    assert(ended.push(line).drop_last() =~= ended);
}

/// A record that is accepted has a field, and holds no NUL character.
pub proof fn empty_records_are_refused(input: Seq<char>)
    ensures
        control_of(input) matches Ok(fields) ==> fields != Fields::empty() && !input.contains('\0'),
        lines(input).len() == 0 ==> control_of(input) is Err,
{
}

} // verus!
