//! Debian package descriptions.

use vstd::prelude::*;
use vstd::slice::slice_subrange;

use crate::pieces::{join, joined, split, split_at_class, texts, trim, trim_class, trimmed, without_ends};
use crate::text::{chars, is, string, CharClass};

verus! {

/// The two semantic parts of a Debian package description.
#[derive(Clone, Debug, PartialEq, Eq)]
pub struct DebianDescription {
    /// The short description from the first physical field line.
    pub summary: Option<String>,
    /// The optional extended description, with paragraph breaks as newlines.
    pub long: Option<String>,
}

/// The mathematical value of a [`DebianDescription`].
pub struct DescriptionModel {
    pub summary: Option<Seq<char>>,
    pub long: Option<Seq<char>>,
}

impl DeepView for DebianDescription {
    type V = DescriptionModel;

    open spec fn deep_view(&self) -> DescriptionModel {
        DescriptionModel { summary: self.summary.deep_view(), long: self.long.deep_view() }
    }
}

/// The short description on the first line of a field.
pub open spec fn summary_of(line: Seq<char>) -> Option<Seq<char>> {
    let summary = trim(line);
    if summary.len() == 0 || summary == "."@ {
        None
    } else {
        Some(summary)
    }
}

/// A line of the extended description.  A lone dot stands for an empty line.
pub open spec fn long_line(line: Seq<char>) -> Seq<char> {
    if trim(line) == "."@ {
        seq![]
    } else {
        line
    }
}

/// The extended description on the other lines of a field.
pub open spec fn long_of(lines: Seq<Seq<char>>) -> Option<Seq<char>> {
    let long = trim_class(
        join(lines.map_values(|line: Seq<char>| long_line(line)), "\n"@),
        CharClass::Exactly('\n'),
    );
    if long.len() == 0 {
        None
    } else {
        Some(long)
    }
}

/// The description that a field value holds.
pub open spec fn description_of(value: Option<Seq<char>>) -> DescriptionModel {
    match value {
        None => DescriptionModel { summary: None, long: None },
        Some(text) => {
            let lines = split(text, CharClass::Exactly('\n'));
            DescriptionModel { summary: summary_of(lines[0]), long: long_of(lines.skip(1)) }
        },
    }
}

impl Default for DebianDescription {
    fn default() -> (result: Self)
        ensures
            result.deep_view() == description_of(None),
    {
        DebianDescription { summary: None, long: None }
    }
}

impl DebianDescription {
    pub(crate) fn parse(value: Option<&str>) -> (result: Self)
        ensures
            result.deep_view() == description_of(value.deep_view()),
    {
        let text = match value {
            None => return DebianDescription::default(),
            Some(text) => text,
        };
        let characters = chars(text);
        let lines = split_at_class(characters.as_slice(), CharClass::Exactly('\n'));
        let ghost all = split(text@, CharClass::Exactly('\n'));
        assert(texts(lines@).len() == all.len());
        assert(all.len() > 0);
        assert(all[0] == lines@[0]@);
        let first = trimmed(lines[0]);
        let summary = if first.len() == 0 || is(first, ".") {
            None
        } else {
            Some(string(first))
        };
        let mut long_lines: Vec<&[char]> = Vec::new();
        for index in 1..lines.len()
            invariant
                lines@.len() == all.len(),
                texts(lines@) == all,
                long_lines@.len() == index - 1,
                forall|at: int|
                    0 <= at < index - 1 ==> (#[trigger] long_lines@[at])@ == long_line(all[at + 1]),
        {
            let line = lines[index];
            assert(line@ == all[index as int]);
            if is(trimmed(line), ".") {
                let nothing = slice_subrange(line, 0, 0);
                assert(nothing@ =~= seq![]);
                long_lines.push(nothing);
            } else {
                long_lines.push(line);
            }
        }
        assert(texts(long_lines@) =~= all.skip(1).map_values(
            |line: Seq<char>| long_line(line),
        ));
        let together = joined(&long_lines, "\n");
        let together_characters = chars(together.as_str());
        let useful = without_ends(together_characters.as_slice(), CharClass::Exactly('\n'));
        let long = if useful.len() == 0 {
            None
        } else {
            Some(string(useful))
        };
        DebianDescription { summary, long }
    }
}

} // verus!
