//! What holds of every control record.

use vstd::prelude::*;

use crate::control::paragraph::{
    control_of, field_value, is_field_name, is_field_name_character, paragraph_of, unfold, Fields,
};
use crate::pieces::{
    join, lemma_position, lines, lower_char, lowercase, nonempty, position, split, trim_each,
    trim_end, trim_start,
};
use crate::text::{is_alphanumeric, CharClass};

verus! {

/// No part of a list holds the character.
pub open spec fn free_of(parts: Seq<Seq<char>>, character: char) -> bool {
    forall|index: int| 0 <= index < parts.len() ==> !(#[trigger] parts[index]).contains(character)
}

/// The parts between the places where a character stands do not hold it.
pub proof fn split_parts_lack_the_separator(text: Seq<char>, separator: char)
    ensures
        free_of(split(text, CharClass::Exactly(separator)), separator),
    decreases text.len(),
{
    let class = CharClass::Exactly(separator);
    let at = position(text, class) as int;
    lemma_position(text, class);
    let parts = split(text, class);
    if at < text.len() {
        split_parts_lack_the_separator(text.skip(at + 1), separator);
        assert forall|index: int| 0 <= index < parts.len() implies !(
        #[trigger] parts[index]).contains(separator) by {
            if index > 0 {
                assert(parts[index] == split(text.skip(at + 1), class)[index - 1]);
            } else {
                assert forall|place: int| 0 <= place < at implies parts[0][place]
                    != separator by {
                    assert(!class.has(text[place]));
                }
            }
        }
    } else {
        assert forall|place: int| 0 <= place < text.len() implies text[place] != separator by {
            assert(!class.has(text[place]));
        }
    }
}

proof fn lemma_trim_start_lacks(text: Seq<char>, class: CharClass, character: char)
    requires
        !text.contains(character),
    ensures
        !trim_start(text, class).contains(character),
    decreases text.len(),
{
    if text.len() > 0 && class.has(text[0]) {
        assert(!text.drop_first().contains(character)) by {
            assert forall|at: int| 0 <= at < text.len() - 1 implies text.drop_first()[at]
                != character by {
                assert(text[at + 1] != character);
            }
        }
        lemma_trim_start_lacks(text.drop_first(), class, character);
    }
}

proof fn lemma_trim_end_lacks(text: Seq<char>, class: CharClass, character: char)
    requires
        !text.contains(character),
    ensures
        !trim_end(text, class).contains(character),
    decreases text.len(),
{
    if text.len() > 0 && class.has(text.last()) {
        assert(!text.drop_last().contains(character)) by {
            assert forall|at: int| 0 <= at < text.len() - 1 implies text.drop_last()[at]
                != character by {
                assert(text[at] != character);
            }
        }
        lemma_trim_end_lacks(text.drop_last(), class, character);
    }
}

proof fn lemma_trim_each_lacks(parts: Seq<Seq<char>>, character: char)
    requires
        free_of(parts, character),
    ensures
        free_of(trim_each(parts), character),
{
    assert forall|index: int| 0 <= index < parts.len() implies !(#[trigger] trim_each(
        parts,
    )[index]).contains(character) by {
        assert(!parts[index].contains(character));
        lemma_trim_start_lacks(parts[index], CharClass::WhiteSpace, character);
        lemma_trim_end_lacks(
            trim_start(parts[index], CharClass::WhiteSpace),
            CharClass::WhiteSpace,
            character,
        );
    }
}

proof fn lemma_nonempty_lacks(parts: Seq<Seq<char>>, character: char)
    requires
        free_of(parts, character),
    ensures
        free_of(nonempty(parts), character),
    decreases parts.len(),
{
    reveal(Seq::filter);
    if parts.len() > 0 {
        assert(free_of(parts.drop_last(), character)) by {
            assert forall|index: int| 0 <= index < parts.len() - 1 implies !(
            #[trigger] parts.drop_last()[index]).contains(character) by {
                assert(!parts[index].contains(character));
            }
        }
        lemma_nonempty_lacks(parts.drop_last(), character);
        assert(!parts.last().contains(character));
    }
}

proof fn lemma_concat_lacks(left: Seq<char>, right: Seq<char>, character: char)
    requires
        !left.contains(character),
        !right.contains(character),
    ensures
        !(left + right).contains(character),
{
    assert forall|at: int| 0 <= at < (left + right).len() implies (left + right)[at]
        != character by {
        if at < left.len() {
            assert(left[at] != character);
        } else {
            assert(right[at - left.len()] != character);
        }
    }
}

proof fn lemma_join_lacks(parts: Seq<Seq<char>>, separator: Seq<char>, character: char)
    requires
        free_of(parts, character),
        !separator.contains(character),
    ensures
        !join(parts, separator).contains(character),
    decreases parts.len(),
{
    if parts.len() == 1 {
        assert(!parts[0].contains(character));
    } else if parts.len() > 1 {
        assert(free_of(parts.drop_last(), character)) by {
            assert forall|index: int| 0 <= index < parts.len() - 1 implies !(
            #[trigger] parts.drop_last()[index]).contains(character) by {
                assert(!parts[index].contains(character));
            }
        }
        lemma_join_lacks(parts.drop_last(), separator, character);
        assert(!parts.last().contains(character));
        let start = join(parts.drop_last(), separator);
        lemma_concat_lacks(start, separator, character);
        lemma_concat_lacks(start + separator, parts.last(), character);
    }
}

/// An unfolded value stands on one line.
pub proof fn unfolded_values_have_one_line(value: Seq<char>)
    ensures
        !unfold(value).contains('\n'),
{
    reveal_strlit(" ");
    let parts = split(value, CharClass::Exactly('\n'));
    split_parts_lack_the_separator(value, '\n');
    lemma_trim_each_lacks(parts, '\n');
    lemma_nonempty_lacks(trim_each(parts), '\n');
    lemma_join_lacks(nonempty(trim_each(parts)), " "@, '\n');
}

proof fn lemma_lowercase_name(name: Seq<char>)
    requires
        is_field_name(name),
    ensures
        is_field_name(lowercase(name)),
        lowercase(lowercase(name)) == lowercase(name),
{
    let lower = lowercase(name);
    assert forall|at: int| 0 <= at < name.len() implies is_field_name_character(
        #[trigger] lower[at],
    ) && lower_char(lower[at]) == lower[at] && (is_alphanumeric(name[at]) ==> is_alphanumeric(
        lower[at],
    )) by {
        vstd::utf8::char_u32_cast(name[at], (name[at] as u32));
        assert(is_field_name_character(name[at]));
    }
    assert(lowercase(lower) =~= lower);
}

/// The field names of a record are valid names in lower case.
pub proof fn field_names_are_normal(input: Seq<char>, name: Seq<char>)
    requires
        control_of(input) matches Ok(fields) && fields.contains_key(name),
    ensures
        is_field_name(name),
        lowercase(name) == name,
{
    lemma_names_are_normal(lines(input), name);
}

proof fn lemma_names_are_normal(all_lines: Seq<Seq<char>>, name: Seq<char>)
    requires
        paragraph_of(all_lines) matches Ok(paragraph) && (paragraph.fields.contains_key(name)
            || paragraph.open_field == Some(name)),
    ensures
        is_field_name(name),
        lowercase(name) == name,
    decreases all_lines.len(),
{
    if all_lines.len() > 0 {
        let before = paragraph_of(all_lines.drop_last())->Ok_0;
        let line = all_lines.last();
        if before.fields.contains_key(name) || before.open_field == Some(name) {
            lemma_names_are_normal(all_lines.drop_last(), name);
        } else {
            lemma_lowercase_name(line.take(position(line, CharClass::Exactly(':')) as int));
        }
    }
}

/// Names that differ in the case of ASCII letters alone give the same value.
pub proof fn lookup_ignores_case(fields: Fields, first: Seq<char>, second: Seq<char>)
    requires
        lowercase(first) == lowercase(second),
    ensures
        field_value(fields, first) == field_value(fields, second),
{
}

} // verus!
