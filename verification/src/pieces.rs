//! Trimming, splitting and joining of text.

use vstd::prelude::*;
use vstd::slice::slice_subrange;

use crate::text::{is_white_space, string, CharClass};

verus! {

// ---------------------------------------------------------------------------
// Trimming
// ---------------------------------------------------------------------------
/// The text without the characters of a class at its start.
pub open spec fn trim_start(text: Seq<char>, class: CharClass) -> Seq<char>
    decreases text.len(),
{
    if text.len() > 0 && class.has(text[0]) {
        trim_start(text.drop_first(), class)
    } else {
        text
    }
}

/// The text without the characters of a class at its end.
pub open spec fn trim_end(text: Seq<char>, class: CharClass) -> Seq<char>
    decreases text.len(),
{
    if text.len() > 0 && class.has(text.last()) {
        trim_end(text.drop_last(), class)
    } else {
        text
    }
}

/// The text without the characters of a class at its start and its end.
pub open spec fn trim_class(text: Seq<char>, class: CharClass) -> Seq<char> {
    trim_end(trim_start(text, class), class)
}

/// The text without white space at its start and its end.
pub open spec fn trim(text: Seq<char>) -> Seq<char> {
    trim_class(text, CharClass::WhiteSpace)
}

/// A text that trimming leaves empty holds nothing but white space.
pub proof fn lemma_trim_empty(text: Seq<char>)
    ensures
        trim(text).len() == 0 <==> forall|index: int|
            0 <= index < text.len() ==> CharClass::WhiteSpace.has(#[trigger] text[index]),
    decreases text.len(),
{
    let class = CharClass::WhiteSpace;
    if text.len() > 0 {
        if class.has(text[0]) {
            lemma_trim_empty(text.drop_first());
            assert forall|index: int|
                trim(text).len() == 0 && 0 <= index < text.len() implies class.has(
                #[trigger] text[index],
            ) by {
                if index > 0 {
                    assert(text.drop_first()[index - 1] == text[index]);
                }
            }
            assert forall|index: int|
                (forall|at: int| 0 <= at < text.len() ==> class.has(#[trigger] text[at])) && 0
                    <= index < text.drop_first().len() implies class.has(
                #[trigger] text.drop_first()[index],
            ) by {
                assert(text.drop_first()[index] == text[index + 1]);
            }
        } else {
            lemma_trim_end_keeps(text, class);
        }
    }
}

/// Trimming the end stops at a character outside the class.
pub proof fn lemma_trim_end_keeps(text: Seq<char>, class: CharClass)
    requires
        text.len() > 0,
        !class.has(text[0]),
    ensures
        trim_end(text, class).len() > 0,
    decreases text.len(),
{
    if class.has(text.last()) {
        lemma_trim_end_keeps(text.drop_last(), class);
    }
}

/// Remove the characters of a class from the start.
pub fn without_start<'a>(text: &'a [char], class: CharClass) -> (result: &'a [char])
    ensures
        result@ == trim_start(text@, class),
        result@.len() <= text@.len(),
        result@ == text@.skip(text@.len() - result@.len()),
{
    let mut start: usize = 0;
    assert(text@.skip(0) == text@);
    while start < text.len() && class.contains(text[start])
        invariant
            start <= text@.len(),
            trim_start(text@, class) == trim_start(text@.skip(start as int), class),
        decreases text@.len() - start,
    {
        assert(text@.skip(start as int).drop_first() == text@.skip(start + 1));
        start += 1;
    }
    slice_subrange(text, start, text.len())
}

/// Remove the characters of a class from the end.
pub fn without_end<'a>(text: &'a [char], class: CharClass) -> (result: &'a [char])
    ensures
        result@ == trim_end(text@, class),
        result@.len() <= text@.len(),
        result@ == text@.take(result@.len() as int),
{
    let mut end: usize = text.len();
    assert(text@.take(end as int) == text@);
    while end > 0 && class.contains(text[end - 1])
        invariant
            end <= text@.len(),
            trim_end(text@, class) == trim_end(text@.take(end as int), class),
        decreases end,
    {
        assert(text@.take(end as int).drop_last() == text@.take(end - 1));
        end -= 1;
    }
    slice_subrange(text, 0, end)
}

/// Remove the characters of a class from the start and the end.
pub fn without_ends<'a>(text: &'a [char], class: CharClass) -> (result: &'a [char])
    ensures
        result@ == trim_class(text@, class),
{
    without_end(without_start(text, class), class)
}

/// Remove white space from the start and the end.
pub fn trimmed<'a>(text: &'a [char]) -> (result: &'a [char])
    ensures
        result@ == trim(text@),
{
    without_ends(text, CharClass::WhiteSpace)
}

// ---------------------------------------------------------------------------
// Searching
// ---------------------------------------------------------------------------
/// The position of the first character of a class, or the length of the text.
pub open spec fn position(text: Seq<char>, class: CharClass) -> nat
    decreases text.len(),
{
    if text.len() == 0 || class.has(text[0]) {
        0
    } else {
        1 + position(text.drop_first(), class)
    }
}

/// `position` finds the first character of the class.
pub proof fn lemma_position(text: Seq<char>, class: CharClass)
    ensures
        position(text, class) <= text.len(),
        position(text, class) < text.len() ==> class.has(text[position(text, class) as int]),
        forall|index: int| 0 <= index < position(text, class) ==> !class.has(#[trigger] text[index]),
    decreases text.len(),
{
    if text.len() > 0 && !class.has(text[0]) {
        let rest = text.drop_first();
        lemma_position(rest, class);
        assert forall|index: int| 0 <= index < position(text, class) implies !class.has(
            #[trigger] text[index],
        ) by {
            if index > 0 {
                assert(rest[index - 1] == text[index]);
            }
        }
    }
}

/// A position that is the first of its class is the one `position` gives.
pub proof fn lemma_position_is(text: Seq<char>, class: CharClass, at: int)
    requires
        0 <= at <= text.len(),
        at < text.len() ==> class.has(text[at]),
        forall|index: int| 0 <= index < at ==> !class.has(#[trigger] text[index]),
    ensures
        position(text, class) == at,
{
    lemma_position(text, class);
    let found = position(text, class) as int;
    if found < at {
        assert(!class.has(text[found]));
    } else if at < found {
        assert(!class.has(text[at]));
    }
}

/// Find the first character of a class.
pub fn find(text: &[char], class: CharClass) -> (result: usize)
    ensures
        result == position(text@, class),
        result <= text@.len(),
{
    let mut at: usize = 0;
    while at < text.len() && !class.contains(text[at])
        invariant
            at <= text@.len(),
            forall|index: int| 0 <= index < at ==> !class.has(#[trigger] text@[index]),
        decreases text@.len() - at,
    {
        at += 1;
    }
    proof {
        lemma_position_is(text@, class, at as int);
    }
    at
}

/// `part` occurs somewhere in `text`.
pub open spec fn occurs_in(part: Seq<char>, text: Seq<char>) -> bool {
    exists|at: int|
        0 <= at && at + part.len() <= text.len() && #[trigger] text.subrange(at, at + part.len())
            == part
}

/// Test whether a literal occurs somewhere in the text.
pub fn contains_text(text: &[char], part: &str) -> (result: bool)
    ensures
        result == occurs_in(part@, text@),
{
    let length: usize = part.unicode_len();
    if length > text.len() {
        return false;
    }
    let mut at: usize = 0;
    loop
        invariant
            length == part@.len(),
            at + length <= text@.len(),
            forall|index: int|
                0 <= index < at ==> #[trigger] text@.subrange(index, index + length) != part@,
        decreases text@.len() - at,
    {
        if crate::text::matches_at(text, at, part) {
            return true;
        }
        if at == text.len() - length {
            return false;
        }
        at += 1;
    }
}

/// The last position up to a limit at which a part occurs in the text.
pub open spec fn last_occurrence(text: Seq<char>, part: Seq<char>, limit: int) -> Option<int>
    decreases limit + 1,
{
    if limit < 0 {
        None
    } else if limit + part.len() <= text.len() && text.subrange(limit, limit + part.len())
        == part {
        Some(limit)
    } else {
        last_occurrence(text, part, limit - 1)
    }
}

/// Find the last place where a part occurs in the text.
pub fn find_last(text: &[char], part: &str) -> (result: Option<usize>)
    ensures
        match result {
            Some(at) => last_occurrence(text@, part@, text@.len() as int) == Some(at as int) && at
                <= text@.len(),
            None => last_occurrence(text@, part@, text@.len() as int) is None,
        },
{
    let mut at: usize = text.len();
    loop
        invariant
            at <= text@.len(),
            last_occurrence(text@, part@, text@.len() as int) == last_occurrence(
                text@,
                part@,
                at as int,
            ),
        decreases at,
    {
        if crate::text::matches_at(text, at, part) {
            return Some(at);
        }
        if at == 0 {
            assert(last_occurrence(text@, part@, -1) is None);
            return None;
        }
        at -= 1;
    }
}

/// Test whether a character of a class occurs in the text.
pub fn contains_class(text: &[char], class: CharClass) -> (result: bool)
    ensures
        result == (exists|index: int| 0 <= index < text@.len() && class.has(#[trigger] text@[index])),
{
    let at = find(text, class);
    proof {
        lemma_position(text@, class);
    }
    at < text.len()
}

// ---------------------------------------------------------------------------
// Splitting
// ---------------------------------------------------------------------------
/// The texts of a sequence of slices.
pub open spec fn texts(slices: Seq<&[char]>) -> Seq<Seq<char>> {
    slices.map_values(|slice: &[char]| slice@)
}

/// The parts of a text between the characters of a class.
pub open spec fn split(text: Seq<char>, class: CharClass) -> Seq<Seq<char>>
    decreases text.len(),
{
    let at = position(text, class);
    if at < text.len() {
        seq![text.take(at as int)] + split(text.skip(at as int + 1), class)
    } else {
        seq![text]
    }
}

/// Splitting undoes joining with a character of the class.
pub proof fn lemma_split_join(left: Seq<char>, separator: char, right: Seq<char>, class: CharClass)
    requires
        class.has(separator),
    ensures
        split(left.push(separator) + right, class) == split(left, class) + split(right, class),
    decreases left.len(),
{
    let whole = left.push(separator) + right;
    let at = position(left, class) as int;
    lemma_position(left, class);
    assert forall|index: int| 0 <= index < at implies !class.has(#[trigger] whole[index]) by {
        assert(!class.has(left[index]));
    }
    lemma_position_is(whole, class, at);
    assert(whole.take(at) =~= left.take(at));
    if at < left.len() {
        assert(whole.skip(at + 1) =~= left.skip(at + 1).push(separator) + right);
        lemma_split_join(left.skip(at + 1), separator, right, class);
    } else {
        assert(left.take(at) =~= left);
        assert(whole.skip(at + 1) =~= right);
    }
    assert(split(whole, class) =~= split(left, class) + split(right, class));
}

/// A text without a character of the class is its only part.
pub proof fn lemma_split_whole(text: Seq<char>, class: CharClass)
    requires
        forall|index: int| 0 <= index < text.len() ==> !class.has(#[trigger] text[index]),
    ensures
        split(text, class) == seq![text],
{
    lemma_position_is(text, class, text.len() as int);
}

/// A part of a text is not longer than the text.
pub proof fn lemma_part_is_shorter(text: Seq<char>, class: CharClass, index: int)
    requires
        0 <= index < split(text, class).len(),
    ensures
        split(text, class)[index].len() <= text.len(),
    decreases text.len(),
{
    let at = position(text, class) as int;
    lemma_position(text, class);
    if at < text.len() && index > 0 {
        lemma_part_is_shorter(text.skip(at + 1), class, index - 1);
    }
}

/// Split a text at the characters of a class.
pub fn split_at_class<'a>(text: &'a [char], class: CharClass) -> (result: Vec<&'a [char]>)
    ensures
        texts(result@) == split(text@, class),
{
    let mut parts: Vec<&'a [char]> = Vec::new();
    let mut rest: &'a [char] = text;
    assert(texts(parts@) + split(rest@, class) == split(text@, class));
    loop
        invariant
            texts(parts@) + split(rest@, class) == split(text@, class),
        decreases rest@.len(),
    {
        let at = find(rest, class);
        let ghost before = texts(parts@);
        if at == rest.len() {
            parts.push(rest);
            assert(texts(parts@) == before + seq![rest@]);
            return parts;
        }
        let part = slice_subrange(rest, 0, at);
        let ghost old_rest = rest@;
        parts.push(part);
        rest = slice_subrange(rest, at + 1, rest.len());
        assert(part@ == old_rest.take(at as int));
        assert(rest@ == old_rest.skip(at + 1));
        assert(texts(parts@) == before + seq![part@]);
        assert(texts(parts@) + split(rest@, class) == before + split(old_rest, class));
    }
}

/// A line without the carriage return of its end.
pub open spec fn strip_return(line: Seq<char>) -> Seq<char> {
    if line.len() > 0 && line.last() == '\r' {
        line.drop_last()
    } else {
        line
    }
}

/// The lines of a text. A line ends with a newline, or a carriage return and
/// a newline; the newline of the last line is optional.
pub open spec fn lines(text: Seq<char>) -> Seq<Seq<char>>
    decreases text.len(),
{
    let at = position(text, CharClass::Exactly('\n'));
    if text.len() == 0 {
        seq![]
    } else if at < text.len() {
        seq![strip_return(text.take(at as int))] + lines(text.skip(at as int + 1))
    } else {
        seq![text]
    }
}

/// Split a text into its lines.
pub fn split_lines<'a>(text: &'a [char]) -> (result: Vec<&'a [char]>)
    ensures
        texts(result@) == lines(text@),
{
    let mut parts: Vec<&'a [char]> = Vec::new();
    let mut rest: &'a [char] = text;
    assert(texts(parts@) + lines(rest@) == lines(text@));
    while rest.len() > 0
        invariant
            texts(parts@) + lines(rest@) == lines(text@),
        decreases rest@.len(),
    {
        let at = find(rest, CharClass::Exactly('\n'));
        let ghost before = texts(parts@);
        let ghost old_rest = rest@;
        if at == rest.len() {
            parts.push(rest);
            rest = slice_subrange(rest, at, at);
            assert(texts(parts@) == before + seq![old_rest]);
            assert(lines(rest@) == Seq::<Seq<char>>::empty());
            assert(texts(parts@) + lines(rest@) == before + lines(old_rest));
        } else {
            let end: usize = if at > 0 && rest[at - 1] == '\r' {
                at - 1
            } else {
                at
            };
            let part = slice_subrange(rest, 0, end);
            parts.push(part);
            rest = slice_subrange(rest, at + 1, rest.len());
            assert(part@ == strip_return(old_rest.take(at as int)));
            assert(rest@ == old_rest.skip(at + 1));
            assert(texts(parts@) == before + seq![part@]);
            assert(texts(parts@) + lines(rest@) == before + lines(old_rest));
        }
    }
    assert(lines(rest@) == Seq::<Seq<char>>::empty());
    assert(texts(parts@) == lines(text@));
    parts
}

/// The parts that are not empty, in their order.
pub open spec fn nonempty(parts: Seq<Seq<char>>) -> Seq<Seq<char>> {
    parts.filter(|part: Seq<char>| part.len() > 0)
}

/// The words of a text: the parts between white space that are not empty.
pub open spec fn words(text: Seq<char>) -> Seq<Seq<char>> {
    nonempty(split(text, CharClass::WhiteSpace))
}

/// Keep the parts that are not empty.
pub fn keep_nonempty<'a>(parts: &Vec<&'a [char]>) -> (result: Vec<&'a [char]>)
    ensures
        texts(result@) == nonempty(texts(parts@)),
{
    let mut kept: Vec<&'a [char]> = Vec::new();
    for index in 0..parts.len()
        invariant
            texts(kept@) == nonempty(texts(parts@).take(index as int)),
    {
        let ghost before = texts(kept@);
        let part = parts[index];
        proof {
            let all = texts(parts@);
            assert(all.take(index + 1).drop_last() == all.take(index as int));
            assert(all.take(index + 1).last() == part@);
            reveal(Seq::filter);
        }
        if part.len() > 0 {
            kept.push(part);
            assert(texts(kept@) == before.push(part@));
        }
    }
    assert(texts(parts@).take(parts@.len() as int) == texts(parts@));
    kept
}

/// Split a text into its words.
pub fn split_words<'a>(text: &'a [char]) -> (result: Vec<&'a [char]>)
    ensures
        texts(result@) == words(text@),
{
    let parts = split_at_class(text, CharClass::WhiteSpace);
    keep_nonempty(&parts)
}

/// Every part without white space at its start and its end.
pub open spec fn trim_each(parts: Seq<Seq<char>>) -> Seq<Seq<char>> {
    parts.map_values(|part: Seq<char>| trim(part))
}

/// Trim every part.
pub fn trimmed_each<'a>(parts: &Vec<&'a [char]>) -> (result: Vec<&'a [char]>)
    ensures
        texts(result@) == trim_each(texts(parts@)),
{
    let mut result: Vec<&'a [char]> = Vec::new();
    for index in 0..parts.len()
        invariant
            result@.len() == index,
            forall|at: int|
                0 <= at < index ==> (#[trigger] result@[at])@ == trim(parts@[at]@),
    {
        result.push(trimmed(parts[index]));
    }
    assert(texts(result@) == trim_each(texts(parts@)));
    result
}

// ---------------------------------------------------------------------------
// Joining
// ---------------------------------------------------------------------------
/// The parts one after the other, with a separator between them.
pub open spec fn join(parts: Seq<Seq<char>>, separator: Seq<char>) -> Seq<char>
    decreases parts.len(),
{
    if parts.len() == 0 {
        seq![]
    } else if parts.len() == 1 {
        parts[0]
    } else {
        join(parts.drop_last(), separator) + separator + parts.last()
    }
}

/// Join slices with a separator.
pub fn joined(parts: &Vec<&[char]>, separator: &str) -> (result: String)
    ensures
        result@ == join(texts(parts@), separator@),
{
    let mut result = String::new();
    for index in 0..parts.len()
        invariant
            result@ == join(texts(parts@).take(index as int), separator@),
    {
        proof {
            let all = texts(parts@);
            assert(all.take(index + 1).drop_last() == all.take(index as int));
            assert(all.take(index + 1).last() == parts@[index as int]@);
        }
        let part = string(parts[index]);
        if index > 0 {
            result.append(separator);
            result.append(part.as_str());
        } else {
            result = part;
        }
    }
    assert(texts(parts@).take(parts@.len() as int) == texts(parts@));
    result
}

/// Join texts with a separator.
pub fn joined_strings(parts: &Vec<String>, separator: &str) -> (result: String)
    ensures
        result@ == join(parts.deep_view(), separator@),
{
    let mut result = String::new();
    for index in 0..parts.len()
        invariant
            result@ == join(parts.deep_view().take(index as int), separator@),
    {
        proof {
            let all = parts.deep_view();
            assert(all.take(index + 1).drop_last() == all.take(index as int));
            assert(all.take(index + 1).last() == parts@[index as int]@);
        }
        if index > 0 {
            result.append(separator);
            result.append(parts[index].as_str());
        } else {
            result = parts[index].clone();
        }
    }
    assert(parts.deep_view().take(parts@.len() as int) == parts.deep_view());
    result
}

// ---------------------------------------------------------------------------
// Letter case
// ---------------------------------------------------------------------------
/// A character with an ASCII upper-case letter made lower-case.
pub open spec fn lower_char(character: char) -> char {
    if 'A' <= character && character <= 'Z' {
        (character as u32 + 32) as char
    } else {
        character
    }
}

/// A text with its ASCII upper-case letters made lower-case.
pub open spec fn lowercase(text: Seq<char>) -> Seq<char> {
    text.map_values(|character: char| lower_char(character))
}

/// Make an ASCII upper-case letter lower-case.
pub fn lowered_char(character: char) -> (result: char)
    ensures
        result == lower_char(character),
{
    if 'A' <= character && character <= 'Z' {
        let code: u8 = character as u8;
        (code + 32) as char
    } else {
        character
    }
}

/// Make the ASCII upper-case letters of a text lower-case.
pub fn lowered(text: &[char]) -> (result: String)
    ensures
        result@ == lowercase(text@),
{
    let mut result = String::new();
    for index in 0..text.len()
        invariant
            result@ == lowercase(text@.take(index as int)),
    {
        result.push(lowered_char(text[index]));
        assert(text@.take(index + 1) == text@.take(index as int).push(text@[index as int]));
        assert(lowercase(text@.take(index + 1)) == lowercase(text@.take(index as int)).push(
            lower_char(text@[index as int]),
        ));
    }
    assert(text@.take(text@.len() as int) == text@);
    result
}

// ---------------------------------------------------------------------------
// Written lines
// ---------------------------------------------------------------------------
/// The text that holds a list of lines, each with a newline at its end.
pub open spec fn unlines(list: Seq<Seq<char>>) -> Seq<char>
    decreases list.len(),
{
    if list.len() == 0 {
        seq![]
    } else {
        list[0] + "\n"@ + unlines(list.drop_first())
    }
}

/// The text can stand on a line of its own.
pub open spec fn is_line(text: Seq<char>) -> bool {
    !text.contains('\n') && (text.len() > 0 ==> text.last() != '\r')
}

proof fn lemma_unlines_push(list: Seq<Seq<char>>, line: Seq<char>)
    ensures
        unlines(list.push(line)) == unlines(list) + line + "\n"@,
    decreases list.len(),
{
    let longer = list.push(line);
    if list.len() == 0 {
        assert(longer.drop_first() =~= seq![]);
        assert(unlines(longer.drop_first()) =~= seq![]);
        assert(longer[0] == line);
        assert(unlines(longer) =~= line + "\n"@);
        assert(seq![] + line + "\n"@ =~= line + "\n"@);
    } else {
        assert(longer.drop_first() =~= list.drop_first().push(line));
        lemma_unlines_push(list.drop_first(), line);
        assert(unlines(longer) =~= unlines(list) + line + "\n"@);
    }
}

/// Write lines into a text.
pub fn written_lines(list: &Vec<String>) -> (result: String)
    ensures
        result@ == unlines(list.deep_view()),
{
    let ghost all = list.deep_view();
    let mut text = String::from_str("");
    assert(text@ =~= unlines(all.take(0))) by {
        reveal_strlit("");
    }
    for index in 0..list.len()
        invariant
            all == list.deep_view(),
            text@ == unlines(all.take(index as int)),
    {
        proof {
            assert(all.take(index + 1) =~= all.take(index as int).push(list@[index as int]@));
            lemma_unlines_push(all.take(index as int), list@[index as int]@);
        }
        text = text.concat(list[index].as_str()).concat("\n");
    }
    assert(all.take(all.len() as int) == all);
    text
}

/// Written lines are read back.
pub proof fn written_lines_are_read_back(list: Seq<Seq<char>>)
    requires
        forall|index: int| 0 <= index < list.len() ==> is_line(#[trigger] list[index]),
    ensures
        lines(unlines(list)) == list,
    decreases list.len(),
{
    if list.len() > 0 {
        let line = list[0];
        let rest = unlines(list.drop_first());
        let text = unlines(list);
        let class = CharClass::Exactly('\n');
        reveal_strlit("\n");
        assert(is_line(line));
        assert(text[line.len() as int] == '\n');
        assert forall|index: int| 0 <= index < line.len() implies !class.has(
            #[trigger] text[index],
        ) by {
            assert(text[index] == line[index]);
            assert(line.contains(line[index]));
        }
        lemma_position_is(text, class, line.len() as int);
        assert(text.take(line.len() as int) =~= line);
        assert(text.skip(line.len() as int + 1) =~= rest);
        assert forall|index: int| 0 <= index < list.drop_first().len() implies is_line(
            #[trigger] list.drop_first()[index],
        ) by {
            assert(is_line(list[index + 1]));
        }
        written_lines_are_read_back(list.drop_first());
        assert(lines(text) =~= seq![line] + list.drop_first());
        assert(seq![line] + list.drop_first() =~= list);
    }
}

proof fn lemma_trim_start_cut(text: Seq<char>, class: CharClass) -> (cut: int)
    ensures
        0 <= cut <= text.len(),
        trim_start(text, class) == text.skip(cut),
        forall|index: int| 0 <= index < cut ==> class.has(#[trigger] text[index]),
        cut < text.len() ==> !class.has(text[cut]),
    decreases text.len(),
{
    if text.len() > 0 && class.has(text[0]) {
        let less = lemma_trim_start_cut(text.drop_first(), class);
        assert(text.drop_first().skip(less) =~= text.skip(less + 1));
        assert forall|index: int| 0 <= index < less + 1 implies class.has(#[trigger] text[index]) by {
            if index > 0 {
                assert(text[index] == text.drop_first()[index - 1]);
            }
        }
        less + 1
    } else {
        assert(text.skip(0) =~= text);
        0
    }
}

proof fn lemma_trim_end_cut(text: Seq<char>, class: CharClass) -> (cut: int)
    ensures
        0 <= cut <= text.len(),
        trim_end(text, class) == text.take(cut),
        forall|index: int| cut <= index < text.len() ==> class.has(#[trigger] text[index]),
        cut > 0 ==> !class.has(text[cut - 1]),
    decreases text.len(),
{
    if text.len() > 0 && class.has(text.last()) {
        let cut = lemma_trim_end_cut(text.drop_last(), class);
        assert(text.drop_last().take(cut) =~= text.take(cut));
        assert forall|index: int| cut <= index < text.len() implies class.has(
            #[trigger] text[index],
        ) by {
            if index < text.len() - 1 {
                assert(text[index] == text.drop_last()[index]);
            }
        }
        cut
    } else {
        assert(text.take(text.len() as int) =~= text);
        text.len() as int
    }
}

/// The trimmed text is the middle of a text between white space, and neither
/// starts nor ends in white space.
pub open spec fn is_middle(text: Seq<char>, start: int, end: int) -> bool {
    &&& 0 <= start <= end <= text.len()
    &&& trim(text) == text.subrange(start, end)
    &&& forall|index: int|
        0 <= index < text.len() && !(start <= index < end) ==> is_white_space(#[trigger] text[index])
    &&& start < end ==> !is_white_space(text[start]) && !is_white_space(text[end - 1])
}

/// Trimming takes the white space at both ends away, and nothing else.
pub proof fn only_outer_white_space_is_trimmed(text: Seq<char>)
    ensures
        exists|start: int, end: int| is_middle(text, start, end),
{
    let class = CharClass::WhiteSpace;
    let start = lemma_trim_start_cut(text, class);
    let rest = text.skip(start);
    let end = lemma_trim_end_cut(rest, class);
    assert(rest.take(end) =~= text.subrange(start, start + end));
    assert forall|index: int|
        0 <= index < text.len() && !(start <= index < start + end) implies is_white_space(
        #[trigger] text[index],
    ) by {
        if index < start {
            assert(class.has(text[index]));
        } else {
            assert(class.has(rest[index - start]));
        }
    }
    if end > 0 {
        assert(rest[end - 1] == text[start + end - 1]);
        assert(!class.has(rest[end - 1]));
        assert(!class.has(text[start]));
    }
    assert(is_middle(text, start, start + end));
}

/// White space separates words, and nothing else does.
pub proof fn white_space_separates_words(left: Seq<char>, separator: char, right: Seq<char>)
    requires
        is_white_space(separator),
    ensures
        words(left.push(separator) + right) == words(left) + words(right),
        (forall|index: int| 0 <= index < left.len() ==> !is_white_space(#[trigger] left[index]))
            && left.len() > 0 ==> words(left) == seq![left],
        words(seq![]).len() == 0,
{
    let class = CharClass::WhiteSpace;
    let pred = |part: Seq<char>| part.len() > 0;
    lemma_split_join(left, separator, right, class);
    Seq::filter_distributes_over_add(split(left, class), split(right, class), pred);
    reveal(Seq::filter);
    let nothing = Seq::<char>::empty();
    lemma_split_whole(nothing, class);
    assert(split(nothing, class).drop_last() =~= seq![]);
    assert(split(nothing, class).drop_last().filter(pred) =~= seq![]);
    assert(words(nothing) =~= seq![]);
    if (forall|index: int| 0 <= index < left.len() ==> !is_white_space(#[trigger] left[index]))
        && left.len() > 0 {
        assert forall|index: int| 0 <= index < left.len() implies !class.has(
            #[trigger] left[index],
        ) by {
            assert(!is_white_space(left[index]));
        }
        lemma_split_whole(left, class);
        assert(seq![left].drop_last() =~= seq![]);
        assert(seq![left].drop_last().filter(pred) =~= seq![]);
        assert(words(left) =~= seq![left]);
    }
}

/// A line ends in a line feed, with or without a carriage return before it.
pub proof fn lines_end_in_line_feeds(line: Seq<char>, rest: Seq<char>)
    requires
        is_line(line),
    ensures
        lines(line.push('\n') + rest) == seq![line] + lines(rest),
        lines(line.push('\r').push('\n') + rest) == seq![line] + lines(rest),
        line.len() > 0 ==> lines(line) == seq![line],
{
    let class = CharClass::Exactly('\n');
    let one = line.push('\n') + rest;
    let two = line.push('\r').push('\n') + rest;
    assert forall|index: int| 0 <= index < line.len() implies line[index] != '\n' by {
        assert(line.contains(line[index]));
    }
    lemma_position_is(one, class, line.len() as int);
    lemma_position_is(two, class, line.len() as int + 1);
    lemma_position_is(line, class, line.len() as int);
    assert(one.take(line.len() as int) =~= line);
    assert(one.skip(line.len() as int + 1) =~= rest);
    assert(two.take(line.len() as int + 1) =~= line.push('\r'));
    assert(line.push('\r').drop_last() =~= line);
    assert(two.skip(line.len() as int + 2) =~= rest);
}

} // verus!
