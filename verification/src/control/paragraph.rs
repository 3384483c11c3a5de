//! The Deb822 paragraph of a binary package.

use vstd::prelude::*;
use vstd::slice::slice_subrange;

use crate::collection::{lists, TextMap};
use crate::control::description::{description_of, DebianDescription};
use crate::error::{failure, outcome, AppError, Outcome, Result};
use crate::number::{decimal, decimal_text};
use crate::pieces::{
    contains_class, find, join, joined, keep_nonempty, lines, lowercase, lowered, nonempty,
    position, split, split_at_class, split_lines, texts, trim_class, trim_each, trim_end,
    trimmed_each, without_end, without_ends,
};
use crate::text::{alphanumeric, chars, is_alphanumeric, string, CharClass};

verus! {

// ---------------------------------------------------------------------------
// Model
// ---------------------------------------------------------------------------
/// The fields of a paragraph: lower-case names and their values.
pub type Fields = Map<Seq<char>, Seq<char>>;

/// A paragraph after some lines.
pub struct ParagraphModel {
    pub fields: Fields,
    /// The name of the field that a continuation line belongs to.
    pub open_field: Option<Seq<char>>,
    pub finished: bool,
}

/// The rule for field names.
pub open spec fn is_field_name(name: Seq<char>) -> bool {
    &&& name.len() > 0
    &&& is_alphanumeric(name[0])
    &&& forall|index: int|
        0 <= index < name.len() ==> is_field_name_character(#[trigger] name[index])
}

pub open spec fn is_field_name_character(character: char) -> bool {
    is_alphanumeric(character) || character == '-'
}

/// A line that starts with a space or a tab.
pub open spec fn is_continuation(line: Seq<char>) -> bool {
    line.len() > 0 && CharClass::Blank.has(line[0])
}

/// The paragraph after a continuation line.
pub open spec fn after_continuation(
    paragraph: ParagraphModel,
    line: Seq<char>,
    number: nat,
) -> Outcome<ParagraphModel> {
    if paragraph.finished {
        Err(
            "unexpected continuation line after the control paragraph at line "@ + decimal(number),
        )
    } else {
        match paragraph.open_field {
            None => Err("control continuation line "@ + decimal(number) + " has no field"@),
            Some(name) => Ok(
                ParagraphModel {
                    fields: paragraph.fields.insert(
                        name,
                        paragraph.fields[name] + seq!['\n'] + trim_end(
                            line.skip(1),
                            CharClass::Blank,
                        ),
                    ),
                    ..paragraph
                },
            ),
        }
    }
}

/// The paragraph after a line that starts a field.
pub open spec fn after_field_line(
    paragraph: ParagraphModel,
    line: Seq<char>,
    number: nat,
) -> Outcome<ParagraphModel> {
    let colon = position(line, CharClass::Exactly(':')) as int;
    let name = line.take(colon);
    if paragraph.finished {
        Err(
            "the binary package control file has more than one paragraph (line "@ + decimal(number)
                + ")"@,
        )
    } else if colon == line.len() {
        Err("control line "@ + decimal(number) + " does not contain a field separator"@)
    } else if !is_field_name(name) {
        Err("invalid control field name '"@ + name + "' at line "@ + decimal(number))
    } else if paragraph.fields.contains_key(lowercase(name)) {
        Err("control field '"@ + name + "' occurs more than once"@)
    } else {
        Ok(
            ParagraphModel {
                fields: paragraph.fields.insert(
                    lowercase(name),
                    trim_class(line.skip(colon + 1), CharClass::Blank),
                ),
                open_field: Some(lowercase(name)),
                finished: false,
            },
        )
    }
}

/// The paragraph after one more line.
pub open spec fn after_line(
    paragraph: ParagraphModel,
    line: Seq<char>,
    number: nat,
) -> Outcome<ParagraphModel> {
    if line.len() == 0 {
        Ok(
            ParagraphModel {
                fields: paragraph.fields,
                open_field: None,
                finished: paragraph.finished || paragraph.fields != Fields::empty(),
            },
        )
    } else if is_continuation(line) {
        after_continuation(paragraph, line, number)
    } else {
        after_field_line(paragraph, line, number)
    }
}

/// The paragraph that a list of lines gives.
pub open spec fn paragraph_of(all_lines: Seq<Seq<char>>) -> Outcome<ParagraphModel>
    decreases all_lines.len(),
{
    if all_lines.len() == 0 {
        Ok(ParagraphModel { fields: Fields::empty(), open_field: None, finished: false })
    } else {
        match paragraph_of(all_lines.drop_last()) {
            Err(message) => Err(message),
            Ok(paragraph) => after_line(paragraph, all_lines.last(), all_lines.len()),
        }
    }
}

/// The fields that a control file gives.
pub open spec fn control_of(input: Seq<char>) -> Outcome<Fields> {
    if input.contains('\0') {
        Err("the Debian control record contains a NUL byte"@)
    } else {
        match paragraph_of(lines(input)) {
            Err(message) => Err(message),
            Ok(paragraph) => if paragraph.fields == Fields::empty() {
                Err("the Debian control record is empty"@)
            } else {
                Ok(paragraph.fields)
            },
        }
    }
}

/// A folded value with one space in place of each line boundary.
pub open spec fn unfold(value: Seq<char>) -> Seq<char> {
    join(nonempty(trim_each(split(value, CharClass::Exactly('\n')))), " "@)
}

/// The value of a field, whatever the case of its name.
pub open spec fn field_value(fields: Fields, name: Seq<char>) -> Option<Seq<char>> {
    if fields.contains_key(lowercase(name)) {
        Some(fields[lowercase(name)])
    } else {
        None
    }
}

/// The unfolded value of a field.
pub open spec fn unfolded_value(fields: Fields, name: Seq<char>) -> Option<Seq<char>> {
    match field_value(fields, name) {
        Some(value) => Some(unfold(value)),
        None => None,
    }
}

// ---------------------------------------------------------------------------
// Parser
// ---------------------------------------------------------------------------
/// One parsed Deb822 paragraph from a binary package `control` file.
#[derive(Clone, Debug, PartialEq, Eq)]
pub struct DebianControl {
    fields: TextMap<String>,
}

impl DeepView for DebianControl {
    type V = Fields;

    closed spec fn deep_view(&self) -> Fields {
        self.fields@
    }
}

fn field_name(name: &[char]) -> (result: bool)
    ensures
        result == is_field_name(name@),
{
    if name.len() == 0 || !alphanumeric(name[0]) {
        return false;
    }
    for index in 0..name.len()
        invariant
            forall|at: int| 0 <= at < index ==> is_field_name_character(#[trigger] name@[at]),
    {
        if !(alphanumeric(name[index]) || name[index] == '-') {
            assert(!is_field_name_character(name@[index as int]));
            return false;
        }
    }
    true
}

fn validate_field_name(name: &[char], line_number: u64) -> (result: Result<()>)
    ensures
        outcome(result) == if is_field_name(name@) {
            Ok::<(), Seq<char>>(())
        } else {
            Err("invalid control field name '"@ + name@ + "' at line "@ + decimal(line_number as nat))
        },
{
    if field_name(name) {
        Ok(())
    } else {
        Err(
            AppError::new(
                String::from_str("invalid control field name '").concat(
                    string(name).as_str(),
                ).concat("' at line ").concat(decimal_text(line_number).as_str()),
            ),
        )
    }
}

/// The fields with the field that is still open.
spec fn with_open(fields: Fields, current: Option<(String, String)>) -> Fields {
    match current {
        Some((name, value)) => fields.insert(name@, value@),
        None => fields,
    }
}

spec fn paragraph_view(
    fields: Fields,
    current: Option<(String, String)>,
    finished: bool,
) -> ParagraphModel {
    ParagraphModel {
        fields: with_open(fields, current),
        open_field: match current {
            Some((name, _)) => Some(name@),
            None => None,
        },
        finished,
    }
}

fn finish_field(fields: &mut TextMap<String>, current: Option<(String, String)>)
    ensures
        final(fields)@ == with_open(old(fields)@, current),
{
    if let Some((name, value)) = current {
        fields.insert(name, value);
    }
}

fn unfold_field(value: &str) -> (result: String)
    ensures
        result@ == unfold(value@),
{
    let characters = chars(value);
    let parts = split_at_class(characters.as_slice(), CharClass::Exactly('\n'));
    let parts = trimmed_each(&parts);
    let parts = keep_nonempty(&parts);
    joined(&parts, " ")
}

proof fn lemma_paragraph_prefix(all_lines: Seq<Seq<char>>, length: int)
    requires
        0 <= length <= all_lines.len(),
        paragraph_of(all_lines.take(length)) is Err,
    ensures
        paragraph_of(all_lines) == paragraph_of(all_lines.take(length)),
    decreases all_lines.len(),
{
    if length < all_lines.len() {
        assert(all_lines.drop_last().take(length) == all_lines.take(length));
        lemma_paragraph_prefix(all_lines.drop_last(), length);
    } else {
        assert(all_lines.take(length) == all_lines);
    }
}

/// What stays between two lines of a control file.
struct Paragraph {
    fields: TextMap<String>,
    current: Option<(String, String)>,
    finished: bool,
}

impl DeepView for Paragraph {
    type V = ParagraphModel;

    closed spec fn deep_view(&self) -> ParagraphModel {
        paragraph_view(self.fields@, self.current, self.finished)
    }
}

impl Paragraph {
    fn continue_field(self, line: &[char], number: u64) -> (result: Result<Paragraph>)
        requires
            is_continuation(line@),
        ensures
            outcome(result) == after_continuation(self.deep_view(), line@, number as nat),
    {
        if self.finished {
            return Err(
                AppError::new(
                    String::from_str(
                        "unexpected continuation line after the control paragraph at line ",
                    ).concat(decimal_text(number).as_str()),
                ),
            );
        }
        match self.current {
            None => Err(
                AppError::new(
                    String::from_str("control continuation line ").concat(
                        decimal_text(number).as_str(),
                    ).concat(" has no field"),
                ),
            ),
            Some((name, value)) => {
                // Deb822 removes the first space or tab.  Any additional space
                // is data and can be important in a preformatted description.
                let rest = without_end(slice_subrange(line, 1, line.len()), CharClass::Blank);
                assert(line@.subrange(1, line@.len() as int) == line@.skip(1));
                let mut longer = value.clone();
                longer.push('\n');
                let longer = longer.concat(string(rest).as_str());
                let ghost before = self.deep_view();
                let result = Paragraph {
                    fields: self.fields,
                    current: Some((name, longer)),
                    finished: false,
                };
                proof {
                    let added = trim_end(line@.skip(1), CharClass::Blank);
                    assert(before.fields[name@] == value@);
                    assert(longer@ =~= value@ + seq!['\n'] + added);
                    assert(result.deep_view().fields =~= before.fields.insert(name@, longer@));
                }
                Ok(result)
            },
        }
    }

    fn start_field(self, line: &[char], number: u64) -> (result: Result<Paragraph>)
        ensures
            outcome(result) == after_field_line(self.deep_view(), line@, number as nat),
    {
        if self.finished {
            return Err(
                AppError::new(
                    String::from_str(
                        "the binary package control file has more than one paragraph (line ",
                    ).concat(decimal_text(number).as_str()).concat(")"),
                ),
            );
        }
        let Paragraph { mut fields, current, finished: _ } = self;
        finish_field(&mut fields, current);
        let colon = find(line, CharClass::Exactly(':'));
        if colon == line.len() {
            return Err(
                AppError::new(
                    String::from_str("control line ").concat(decimal_text(number).as_str()).concat(
                        " does not contain a field separator",
                    ),
                ),
            );
        }
        let name = slice_subrange(line, 0, colon);
        let value = slice_subrange(line, colon + 1, line.len());
        assert(name@ == line@.take(colon as int));
        assert(value@ == line@.skip(colon + 1));
        validate_field_name(name, number)?;
        let key = lowered(name);
        if fields.contains(key.as_str()) {
            return Err(
                AppError::new(
                    String::from_str("control field '").concat(string(name).as_str()).concat(
                        "' occurs more than once",
                    ),
                ),
            );
        }
        let text = string(without_ends(value, CharClass::Blank));
        Ok(Paragraph { fields, current: Some((key, text)), finished: false })
    }

    fn read_line(self, line: &[char], number: u64) -> (result: Result<Paragraph>)
        ensures
            outcome(result) == after_line(self.deep_view(), line@, number as nat),
    {
        if line.len() == 0 {
            let Paragraph { mut fields, current, finished } = self;
            finish_field(&mut fields, current);
            let finished = finished || !fields.is_empty();
            return Ok(Paragraph { fields, current: None, finished });
        }
        if CharClass::Blank.contains(line[0]) {
            self.continue_field(line, number)
        } else {
            self.start_field(line, number)
        }
    }
}

impl DebianControl {
    /// Parse one Deb822 paragraph.
    ///
    /// Field names are stored in lower case and are matched without regard to
    /// case.  Exactly one paragraph is accepted because a binary package has
    /// exactly one control record.
    pub fn parse(input: &str) -> (result: Result<Self>)
        ensures
            outcome(result) == control_of(input@),
    {
        let characters = chars(input);
        if contains_class(characters.as_slice(), CharClass::Exactly('\0')) {
            proof {
                let at = choose|at: int|
                    0 <= at < input@.len() && CharClass::Exactly('\0').has(#[trigger] input@[at]);
                assert(input@[at] == '\0');
            }
            return Err(failure("the Debian control record contains a NUL byte"));
        }
        proof {
            if input@.contains('\0') {
                let at = choose|at: int| 0 <= at < input@.len() && input@[at] == '\0';
                assert(CharClass::Exactly('\0').has(input@[at]));
            }
        }
        let all_lines = split_lines(characters.as_slice());
        let ghost all = texts(all_lines@);
        let mut paragraph = Paragraph {
            fields: TextMap::new(),
            current: None,
            finished: false,
        };
        for index in 0..all_lines.len()
            invariant
                !input@.contains('\0'),
                all == texts(all_lines@),
                all == lines(input@),
                paragraph_of(all.take(index as int)) == Ok::<ParagraphModel, Seq<char>>(
                    paragraph.deep_view(),
                ),
        {
            proof {
                assert(all.take(index + 1).drop_last() == all.take(index as int));
                assert(all.take(index + 1).last() == all_lines@[index as int]@);
                if paragraph_of(all.take(index + 1)) is Err {
                    lemma_paragraph_prefix(all, index + 1);
                }
            }
            paragraph = paragraph.read_line(all_lines[index], (index + 1) as u64)?;
        }
        assert(all.take(all.len() as int) == all);
        let Paragraph { mut fields, current, finished: _ } = paragraph;
        finish_field(&mut fields, current);
        if fields.is_empty() {
            return Err(failure("the Debian control record is empty"));
        }
        Ok(DebianControl { fields })
    }

    /// Get a field value.  Field-name matching is case-insensitive.
    ///
    /// A newline separates each physical continuation line.  Use
    /// [`Self::get_unfolded`] for fields where line boundaries have no meaning.
    pub fn get(&self, name: &str) -> (result: Option<&str>)
        ensures
            result.deep_view() == field_value(self.deep_view(), name@),
    {
        let characters = chars(name);
        let key = lowered(characters.as_slice());
        match self.fields.get(key.as_str()) {
            Some(value) => Some(value.as_str()),
            None => None,
        }
    }

    /// Get a field and replace folded line boundaries with one space.
    pub fn get_unfolded(&self, name: &str) -> (result: Option<String>)
        ensures
            result.deep_view() == unfolded_value(self.deep_view(), name@),
    {
        match self.get(name) {
            Some(value) => Some(unfold_field(value)),
            None => None,
        }
    }

    /// List the normalized field names and their values in the order of the
    /// names.
    pub fn fields(&self) -> (result: Vec<(&str, &str)>)
        ensures
            lists(field_views(result@), self.deep_view()),
    {
        self.fields.reveal_listing();
        let mut result: Vec<(&str, &str)> = Vec::new();
        let count: usize = self.fields.len();
        for index in 0..count
            invariant
                count == self.fields.listing().len(),
                field_views(result@) == self.fields.listing().take(index as int),
        {
            let (name, value) = self.fields.entry(index);
            let text = value.as_str();
            let ghost before = field_views(result@);
            result.push((name, text));
            assert(field_views(result@) =~= before.push((name@, text@)));
            assert(self.fields.listing().take(index + 1) =~= before.push((name@, text@)));
        }
        assert(self.fields.listing().take(count as int) == self.fields.listing());
        result
    }

    /// Parse the `Description` field into its short and long parts.
    pub fn description(&self) -> (result: DebianDescription)
        ensures
            result.deep_view() == description_of(field_value(self.deep_view(), "Description"@)),
    {
        DebianDescription::parse(self.get("Description"))
    }
}

/// The texts of a list of names and values.
pub open spec fn field_views(fields: Seq<(&str, &str)>) -> Seq<(Seq<char>, Seq<char>)> {
    fields.map_values(|field: (&str, &str)| (field.0@, field.1@))
}

} // verus!
