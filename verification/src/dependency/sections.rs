//! What holds of the sections of a relation.

use vstd::prelude::*;

use crate::dependency::relation::{
    closing_of, constraint_of, has_sign, is_package_name, is_qualifier_character, qualifier_of,
    relation_of, restrictions_of, with_section, with_sections, ConstraintModel, RelationModel,
    RestrictionModel,
};
use crate::error::Outcome;
use crate::pieces::{lemma_position_is, trim_start};
use crate::text::CharClass;

verus! {

// ---------------------------------------------------------------------------
// Texts
// ---------------------------------------------------------------------------
/// A section of a relation: the bracket that opens it, and what stands between
/// its brackets.
pub struct SectionModel {
    pub opening: char,
    pub content: Seq<char>,
}

/// The section opens with a bracket, and ends with the first one that closes it.
pub open spec fn is_section(section: SectionModel) -> bool {
    closing_of(section.opening) matches Some(closing) && !section.content.contains(closing)
}

/// All sections end with the first bracket that closes them.
pub open spec fn are_sections(sections: Seq<SectionModel>) -> bool {
    forall|index: int| 0 <= index < sections.len() ==> is_section(#[trigger] sections[index])
}

/// A section with a space before it.
pub open spec fn section_text(section: SectionModel) -> Seq<char> {
    seq![' ', section.opening] + section.content + seq![closing_of(section.opening)->0]
}

/// Sections with a space before each of them.
pub open spec fn sections_text(sections: Seq<SectionModel>) -> Seq<char>
    decreases sections.len(),
{
    if sections.len() == 0 {
        seq![]
    } else {
        section_text(sections[0]) + sections_text(sections.drop_first())
    }
}

/// A package name and an optional qualifier behind a colon.
pub open spec fn head_text(name: Seq<char>, qualifier: Option<Seq<char>>) -> Seq<char> {
    match qualifier {
        Some(text) => name + seq![':'] + text,
        None => name,
    }
}

/// The name and the qualifier are valid.
pub open spec fn is_head(name: Seq<char>, qualifier: Option<Seq<char>>) -> bool {
    is_package_name(name) && (qualifier matches Some(text) ==> qualifier_of(text) is Ok)
}

/// The relation that a text with a head and sections stands for.
pub open spec fn relation_with(
    name: Seq<char>,
    qualifier: Option<Seq<char>>,
    sections: Seq<SectionModel>,
) -> Outcome<RelationModel> {
    relation_of(head_text(name, qualifier) + sections_text(sections))
}

// ---------------------------------------------------------------------------
// Meaning
// ---------------------------------------------------------------------------
/// A relation with a list of sections.
pub open spec fn with_list(
    source: Seq<char>,
    sections: Seq<SectionModel>,
    relation: RelationModel,
) -> Outcome<RelationModel>
    decreases sections.len(),
{
    if sections.len() == 0 {
        Ok(relation)
    } else {
        match with_section(source, sections[0].opening, sections[0].content, relation) {
            Err(message) => Err(message),
            Ok(next) => with_list(source, sections.drop_first(), next),
        }
    }
}

/// The contents of the sections with a bracket, in their order.
pub open spec fn contents_of(sections: Seq<SectionModel>, opening: char) -> Seq<Seq<char>>
    decreases sections.len(),
{
    if sections.len() == 0 {
        seq![]
    } else {
        let rest = contents_of(sections.drop_first(), opening);
        if sections[0].opening == opening {
            seq![sections[0].content] + rest
        } else {
            rest
        }
    }
}

/// The version limit after a list of version sections, or nothing for a fault.
pub open spec fn version_after(
    current: Option<ConstraintModel>,
    contents: Seq<Seq<char>>,
) -> Option<Option<ConstraintModel>>
    decreases contents.len(),
{
    if contents.len() == 0 {
        Some(current)
    } else if current is Some {
        None
    } else {
        match constraint_of(contents[0]) {
            Err(_) => None,
            Ok(limit) => version_after(Some(limit), contents.drop_first()),
        }
    }
}

/// The architectures after a list of architecture sections, or nothing for a
/// fault.
pub open spec fn architectures_after(
    current: Seq<RestrictionModel>,
    contents: Seq<Seq<char>>,
) -> Option<Seq<RestrictionModel>>
    decreases contents.len(),
{
    if contents.len() == 0 {
        Some(current)
    } else if current.len() > 0 {
        None
    } else {
        match restrictions_of(contents[0], "architecture"@) {
            Err(_) => None,
            Ok(terms) => if has_sign(terms, true) && has_sign(terms, false) {
                None
            } else {
                architectures_after(terms, contents.drop_first())
            },
        }
    }
}

/// The profile lists after a list of profile sections, or nothing for a fault.
pub open spec fn profiles_after(
    current: Seq<Seq<RestrictionModel>>,
    contents: Seq<Seq<char>>,
) -> Option<Seq<Seq<RestrictionModel>>>
    decreases contents.len(),
{
    if contents.len() == 0 {
        Some(current)
    } else {
        match restrictions_of(contents[0], "build profile"@) {
            Err(_) => None,
            Ok(terms) => profiles_after(current.push(terms), contents.drop_first()),
        }
    }
}

/// The relation with its sections, sort by sort, or nothing for a fault.
pub open spec fn sorted_relation(relation: RelationModel, sections: Seq<SectionModel>) -> Option<
    RelationModel,
> {
    match (
        version_after(relation.version, contents_of(sections, '(')),
        architectures_after(relation.architectures, contents_of(sections, '[')),
        profiles_after(relation.profiles, contents_of(sections, '<')),
    ) {
        (Some(version), Some(architectures), Some(profiles)) => Some(
            RelationModel { version, architectures, profiles, ..relation },
        ),
        _ => None,
    }
}

/// The relation of a head without sections.
pub open spec fn bare_relation(name: Seq<char>, qualifier: Option<Seq<char>>) -> RelationModel {
    RelationModel {
        name,
        qualifier: match qualifier {
            Some(text) => Some(qualifier_of(text)->Ok_0),
            None => None,
        },
        version: None,
        architectures: seq![],
        profiles: seq![],
    }
}

// ---------------------------------------------------------------------------
// Lemmas
// ---------------------------------------------------------------------------
proof fn lemma_tail(sections: Seq<SectionModel>)
    requires
        are_sections(sections),
        sections.len() > 0,
    ensures
        are_sections(sections.drop_first()),
{
    assert forall|index: int| 0 <= index < sections.len() - 1 implies is_section(
        #[trigger] sections.drop_first()[index],
    ) by {
        assert(is_section(sections[index + 1]));
    }
}

/// The sections of a text are read one after the other.
proof fn lemma_sections_are_read(
    source: Seq<char>,
    sections: Seq<SectionModel>,
    relation: RelationModel,
)
    requires
        are_sections(sections),
    ensures
        with_sections(source, sections_text(sections), relation) == with_list(
            source,
            sections,
            relation,
        ),
    decreases sections.len(),
{
    let text = sections_text(sections);
    if sections.len() > 0 {
        let section = sections[0];
        let closing = closing_of(section.opening)->0;
        let tail = sections_text(sections.drop_first());
        let class = CharClass::AsciiWhiteSpace;
        let from_bracket = text.drop_first();
        let inner = from_bracket.drop_first();
        assert(is_section(sections[0]));
        assert(text[0] == ' ' && from_bracket[0] == section.opening);
        assert(trim_start(from_bracket, class) == from_bracket);
        assert(trim_start(text, class) == from_bracket);
        assert(inner =~= section.content + seq![closing] + tail);
        let length = section.content.len() as int;
        assert forall|index: int| 0 <= index < length implies !CharClass::Exactly(closing).has(
            #[trigger] inner[index],
        ) by {
            assert(inner[index] == section.content[index]);
            assert(section.content.contains(section.content[index]));
        }
        lemma_position_is(inner, CharClass::Exactly(closing), length);
        assert(inner.take(length) =~= section.content);
        assert(inner.skip(length + 1) =~= tail);
        lemma_tail(sections);
        if let Ok(next) = with_section(source, section.opening, section.content, relation) {
            lemma_sections_are_read(source, sections.drop_first(), next);
        }
    }
}

/// A section changes the part of its sort alone.
proof fn lemma_list_is_sorted(
    source: Seq<char>,
    sections: Seq<SectionModel>,
    relation: RelationModel,
)
    requires
        are_sections(sections),
    ensures
        match with_list(source, sections, relation) {
            Ok(result) => sorted_relation(relation, sections) == Some(result),
            Err(_) => sorted_relation(relation, sections) is None,
        },
    decreases sections.len(),
{
    if sections.len() > 0 {
        let section = sections[0];
        let rest = sections.drop_first();
        assert(is_section(sections[0]));
        lemma_tail(sections);
        let one = seq![section.content] + contents_of(rest, section.opening);
        assert(one.drop_first() =~= contents_of(rest, section.opening));
        assert(one[0] == section.content);
        if let Ok(next) = with_section(source, section.opening, section.content, relation) {
            lemma_list_is_sorted(source, rest, next);
        }
    }
}

/// A text with a head and sections is read as the head and the sections.
proof fn lemma_head_is_read(
    name: Seq<char>,
    qualifier: Option<Seq<char>>,
    sections: Seq<SectionModel>,
)
    requires
        is_head(name, qualifier),
        are_sections(sections),
    ensures
        relation_with(name, qualifier, sections) == with_sections(
            head_text(name, qualifier) + sections_text(sections),
            sections_text(sections),
            bare_relation(name, qualifier),
        ),
{
    let tail = sections_text(sections);
    let source = head_text(name, qualifier) + tail;
    let end = name.len() as int;
    assert(tail.len() > 0 ==> tail[0] == ' ');
    assert forall|index: int| 0 <= index < end implies !CharClass::RelationNameEnd.has(
        #[trigger] source[index],
    ) by {
        assert(source[index] == name[index]);
    }
    lemma_position_is(source, CharClass::RelationNameEnd, end);
    assert(source.take(end) =~= name);
    match qualifier {
        None => {
            assert(source.skip(end) =~= tail);
        },
        Some(text) => {
            let qualified = text + tail;
            assert(source.skip(end).drop_first() =~= qualified);
            assert forall|index: int|
                0 <= index < text.len() implies !CharClass::QualifierEnd.has(
                #[trigger] qualified[index],
            ) by {
                assert(qualified[index] == text[index]);
                assert(is_qualifier_character(text[index]));
            }
            lemma_position_is(qualified, CharClass::QualifierEnd, text.len() as int);
            assert(qualified.take(text.len() as int) =~= text);
            assert(qualified.skip(text.len() as int) =~= tail);
        },
    }
}

/// What a text with a head and sections stands for depends on the sections of
/// each sort alone.
proof fn lemma_relation_is_sorted(
    name: Seq<char>,
    qualifier: Option<Seq<char>>,
    sections: Seq<SectionModel>,
)
    requires
        is_head(name, qualifier),
        are_sections(sections),
    ensures
        match relation_with(name, qualifier, sections) {
            Ok(result) => sorted_relation(bare_relation(name, qualifier), sections) == Some(
                result,
            ),
            Err(_) => sorted_relation(bare_relation(name, qualifier), sections) is None,
        },
{
    let bare = bare_relation(name, qualifier);
    let source = head_text(name, qualifier) + sections_text(sections);
    lemma_head_is_read(name, qualifier, sections);
    lemma_sections_are_read(source, sections, bare);
    lemma_list_is_sorted(source, sections, bare);
}

// ---------------------------------------------------------------------------
// Laws
// ---------------------------------------------------------------------------
/// The order of sections of different sorts does not matter: two lists with the
/// same version sections, the same architecture sections and the same profile
/// sections, each in the same order, give the same relation.
pub proof fn section_order_does_not_matter(
    name: Seq<char>,
    qualifier: Option<Seq<char>>,
    one: Seq<SectionModel>,
    other: Seq<SectionModel>,
)
    requires
        is_head(name, qualifier),
        are_sections(one),
        are_sections(other),
        contents_of(one, '(') == contents_of(other, '('),
        contents_of(one, '[') == contents_of(other, '['),
        contents_of(one, '<') == contents_of(other, '<'),
        relation_with(name, qualifier, one) is Ok,
    ensures
        relation_with(name, qualifier, other) == relation_with(name, qualifier, one),
{
    lemma_relation_is_sorted(name, qualifier, one);
    lemma_relation_is_sorted(name, qualifier, other);
}

/// A version section, an architecture section and a profile section give the
/// same relation in each of their orders.
pub proof fn three_sections_stand_in_any_order(
    name: Seq<char>,
    qualifier: Option<Seq<char>>,
    version: Seq<char>,
    architectures: Seq<char>,
    profiles: Seq<char>,
)
    requires
        is_head(name, qualifier),
        !version.contains(')'),
        !architectures.contains(']'),
        !profiles.contains('>'),
        ({
            let v = SectionModel { opening: '(', content: version };
            let a = SectionModel { opening: '[', content: architectures };
            let p = SectionModel { opening: '<', content: profiles };
            relation_with(name, qualifier, seq![v, a, p]) is Ok
        }),
    ensures
        ({
            let v = SectionModel { opening: '(', content: version };
            let a = SectionModel { opening: '[', content: architectures };
            let p = SectionModel { opening: '<', content: profiles };
            let relation = relation_with(name, qualifier, seq![v, a, p]);
            &&& relation_with(name, qualifier, seq![v, p, a]) == relation
            &&& relation_with(name, qualifier, seq![a, v, p]) == relation
            &&& relation_with(name, qualifier, seq![a, p, v]) == relation
            &&& relation_with(name, qualifier, seq![p, v, a]) == relation
            &&& relation_with(name, qualifier, seq![p, a, v]) == relation
        }),
{
    let v = SectionModel { opening: '(', content: version };
    let a = SectionModel { opening: '[', content: architectures };
    let p = SectionModel { opening: '<', content: profiles };
    lemma_three_contents(v, a, p);
    lemma_three_contents(v, p, a);
    lemma_three_contents(a, v, p);
    lemma_three_contents(a, p, v);
    lemma_three_contents(p, v, a);
    lemma_three_contents(p, a, v);
    section_order_does_not_matter(name, qualifier, seq![v, a, p], seq![v, p, a]);
    section_order_does_not_matter(name, qualifier, seq![v, a, p], seq![a, v, p]);
    section_order_does_not_matter(name, qualifier, seq![v, a, p], seq![a, p, v]);
    section_order_does_not_matter(name, qualifier, seq![v, a, p], seq![p, v, a]);
    section_order_does_not_matter(name, qualifier, seq![v, a, p], seq![p, a, v]);
}

proof fn lemma_three_contents(one: SectionModel, two: SectionModel, three: SectionModel)
    requires
        one.opening != two.opening,
        one.opening != three.opening,
        two.opening != three.opening,
    ensures
        contents_of(seq![one, two, three], one.opening) == seq![one.content],
        contents_of(seq![one, two, three], two.opening) == seq![two.content],
        contents_of(seq![one, two, three], three.opening) == seq![three.content],
{
    let all = seq![one, two, three];
    let rest = all.drop_first();
    assert(rest =~= seq![two, three]);
    assert(rest.drop_first() =~= seq![three]);
    assert(rest.drop_first().drop_first() =~= seq![]);
    reveal_with_fuel(contents_of, 4);
    assert(contents_of(all, one.opening) =~= seq![one.content]);
    assert(contents_of(all, two.opening) =~= seq![two.content]);
    assert(contents_of(all, three.opening) =~= seq![three.content]);
}

/// A relation has at most one version section and one architecture section.
pub proof fn repeated_limits_are_refused(
    name: Seq<char>,
    qualifier: Option<Seq<char>>,
    sections: Seq<SectionModel>,
)
    requires
        is_head(name, qualifier),
        are_sections(sections),
        contents_of(sections, '(').len() > 1 || contents_of(sections, '[').len() > 1,
    ensures
        relation_with(name, qualifier, sections) is Err,
{
    lemma_relation_is_sorted(name, qualifier, sections);
    let versions = contents_of(sections, '(');
    let architectures = contents_of(sections, '[');
    if versions.len() > 1 {
        reveal_with_fuel(version_after, 2);
        assert(versions.drop_first().len() > 0);
        assert(version_after(None, versions) is None);
    } else {
        reveal_with_fuel(architectures_after, 2);
        assert(architectures.drop_first().len() > 0);
        assert(architectures_after(seq![], architectures) is None);
    }
}

proof fn lemma_contents_grow(sections: Seq<SectionModel>, section: SectionModel, opening: char)
    ensures
        contents_of(sections.push(section), opening) == if section.opening == opening {
            contents_of(sections, opening).push(section.content)
        } else {
            contents_of(sections, opening)
        },
    decreases sections.len(),
{
    let all = sections.push(section);
    if sections.len() == 0 {
        assert(all.drop_first() =~= seq![]);
        assert(contents_of(all.drop_first(), opening) =~= seq![]);
        assert(contents_of(all, opening) =~= if section.opening == opening {
            contents_of(sections, opening).push(section.content)
        } else {
            contents_of(sections, opening)
        });
    } else {
        assert(all.drop_first() =~= sections.drop_first().push(section));
        lemma_contents_grow(sections.drop_first(), section, opening);
        assert(contents_of(all, opening) =~= if section.opening == opening {
            contents_of(sections, opening).push(section.content)
        } else {
            contents_of(sections, opening)
        });
    }
}

proof fn lemma_profiles_grow(
    current: Seq<Seq<RestrictionModel>>,
    contents: Seq<Seq<char>>,
    more: Seq<char>,
)
    requires
        profiles_after(current, contents) is Some,
        restrictions_of(more, "build profile"@) is Ok,
    ensures
        profiles_after(current, contents.push(more)) == Some(
            profiles_after(current, contents)->0.push(
                restrictions_of(more, "build profile"@)->Ok_0,
            ),
        ),
    decreases contents.len(),
{
    let all = contents.push(more);
    if contents.len() == 0 {
        assert(all.drop_first() =~= seq![]);
        reveal_with_fuel(profiles_after, 2);
    } else {
        let terms = restrictions_of(contents[0], "build profile"@)->Ok_0;
        assert(all.drop_first() =~= contents.drop_first().push(more));
        lemma_profiles_grow(current.push(terms), contents.drop_first(), more);
    }
}

proof fn lemma_profile_is_valid(
    current: Seq<Seq<RestrictionModel>>,
    contents: Seq<Seq<char>>,
    index: int,
)
    requires
        profiles_after(current, contents) is Some,
        0 <= index < contents.len(),
    ensures
        restrictions_of(contents[index], "build profile"@) is Ok,
    decreases contents.len(),
{
    if index > 0 {
        let terms = restrictions_of(contents[0], "build profile"@)->Ok_0;
        lemma_profile_is_valid(current.push(terms), contents.drop_first(), index - 1);
    }
}

proof fn lemma_content_is_held(sections: Seq<SectionModel>, index: int)
    requires
        0 <= index < sections.len(),
    ensures
        contents_of(sections, sections[index].opening).contains(sections[index].content),
    decreases sections.len(),
{
    let opening = sections[index].opening;
    let content = sections[index].content;
    let rest = contents_of(sections.drop_first(), opening);
    let all = contents_of(sections, opening);
    if index == 0 {
        assert(all[0] == content);
    } else {
        lemma_content_is_held(sections.drop_first(), index - 1);
        let at = choose|at: int| 0 <= at < rest.len() && rest[at] == content;
        assert(all.contains(content)) by {
            if sections[0].opening == opening {
                assert(all[at + 1] == content);
            } else {
                assert(all[at] == content);
            }
        }
    }
}

/// A profile section that is repeated adds one list of profiles, and changes
/// nothing else.
pub proof fn repeated_profiles_add_a_list(
    name: Seq<char>,
    qualifier: Option<Seq<char>>,
    sections: Seq<SectionModel>,
    index: int,
)
    requires
        is_head(name, qualifier),
        are_sections(sections),
        0 <= index < sections.len(),
        sections[index].opening == '<',
        relation_with(name, qualifier, sections) is Ok,
    ensures
        ({
            let relation = relation_with(name, qualifier, sections)->Ok_0;
            let terms = restrictions_of(sections[index].content, "build profile"@);
            &&& terms is Ok
            &&& relation_with(name, qualifier, sections.push(sections[index])) == Ok::<
                RelationModel,
                Seq<char>,
            >(RelationModel { profiles: relation.profiles.push(terms->Ok_0), ..relation })
        }),
{
    let section = sections[index];
    let more = sections.push(section);
    let lists = contents_of(sections, '<');
    assert forall|at: int| 0 <= at < more.len() implies is_section(#[trigger] more[at]) by {
        if at < sections.len() {
            assert(is_section(sections[at]));
        } else {
            assert(is_section(sections[index]));
        }
    }
    lemma_relation_is_sorted(name, qualifier, sections);
    lemma_relation_is_sorted(name, qualifier, more);
    lemma_contents_grow(sections, section, '(');
    lemma_contents_grow(sections, section, '[');
    lemma_contents_grow(sections, section, '<');
    lemma_content_is_held(sections, index);
    let at = choose|at: int| 0 <= at < lists.len() && lists[at] == section.content;
    lemma_profile_is_valid(seq![], lists, at);
    lemma_profiles_grow(seq![], lists, section.content);
}

} // verus!
