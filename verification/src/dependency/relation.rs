//! Parsing of Debian package relations.

use vstd::prelude::*;
use vstd::slice::slice_subrange;
use vstd::utf8::encode_utf8;

use crate::error::{failure, outcome, AppError, Outcome, Result};
use crate::pieces::{find, position, split_words, texts, trim_start, without_start, words};
use crate::text::{digit, is, is_digit, is_lower, lower, string, CharClass};

verus! {

// ---------------------------------------------------------------------------
// Types
// ---------------------------------------------------------------------------
/// A comma-separated Debian relation list.
#[derive(Clone, Debug, PartialEq, Eq)]
pub struct RelationSet {
    /// Relation groups in their source order.
    pub groups: Vec<RelationGroup>,
}

/// Alternatives that satisfy one dependency group.
#[derive(Clone, Debug, PartialEq, Eq)]
pub struct RelationGroup {
    /// Alternatives in Debian preference order.
    pub alternatives: Vec<Relation>,
}

/// One named package relation.
#[derive(Clone, Debug, PartialEq, Eq)]
pub struct Relation {
    /// Debian binary or virtual package name, without a qualifier.
    pub name: String,
    /// Optional Debian multiarch qualifier.
    pub qualifier: Option<PackageQualifier>,
    /// Optional Debian version constraint.
    pub version: Option<VersionConstraint>,
    /// Terms from the optional square-bracket architecture restriction.
    pub architecture_restrictions: Vec<Restriction>,
    /// Build-profile restriction lists.  Each inner list comes from one pair
    /// of angle brackets.
    pub profile_restrictions: Vec<Vec<Restriction>>,
}

/// A package architecture qualifier from `name:qualifier`.
#[derive(Clone, Debug, PartialEq, Eq)]
pub enum PackageQualifier {
    Any,
    Native,
    Architecture(String),
}

/// A version comparison operator in a Debian relation.
#[derive(Clone, Copy, Debug, PartialEq, Eq, Structural)]
pub enum VersionOperator {
    LessThan,
    LessOrEqual,
    Equal,
    GreaterOrEqual,
    GreaterThan,
}

/// A parsed version constraint.
#[derive(Debug, PartialEq, Eq)]
pub struct VersionConstraint {
    pub operator: VersionOperator,
    pub version: String,
}

/// One positive or negative architecture or build-profile term.
#[derive(Clone, Debug, PartialEq, Eq)]
pub struct Restriction {
    pub name: String,
    pub negated: bool,
}

/// The mathematical value of a [`PackageQualifier`].
pub enum QualifierModel {
    Any,
    Native,
    Architecture(Seq<char>),
}

/// The mathematical value of a [`VersionConstraint`].
pub struct ConstraintModel {
    pub operator: VersionOperator,
    pub version: Seq<char>,
}

/// The mathematical value of a [`Restriction`].
pub struct RestrictionModel {
    pub name: Seq<char>,
    pub negated: bool,
}

/// The mathematical value of a [`Relation`].
pub struct RelationModel {
    pub name: Seq<char>,
    pub qualifier: Option<QualifierModel>,
    pub version: Option<ConstraintModel>,
    pub architectures: Seq<RestrictionModel>,
    pub profiles: Seq<Seq<RestrictionModel>>,
}

impl DeepView for PackageQualifier {
    type V = QualifierModel;

    open spec fn deep_view(&self) -> QualifierModel {
        match self {
            PackageQualifier::Any => QualifierModel::Any,
            PackageQualifier::Native => QualifierModel::Native,
            PackageQualifier::Architecture(name) => QualifierModel::Architecture(name@),
        }
    }
}

impl DeepView for VersionOperator {
    type V = VersionOperator;

    open spec fn deep_view(&self) -> VersionOperator {
        *self
    }
}

impl DeepView for VersionConstraint {
    type V = ConstraintModel;

    open spec fn deep_view(&self) -> ConstraintModel {
        ConstraintModel { operator: self.operator, version: self.version@ }
    }
}

impl DeepView for Restriction {
    type V = RestrictionModel;

    open spec fn deep_view(&self) -> RestrictionModel {
        RestrictionModel { name: self.name@, negated: self.negated }
    }
}

impl DeepView for Relation {
    type V = RelationModel;

    open spec fn deep_view(&self) -> RelationModel {
        RelationModel {
            name: self.name@,
            qualifier: self.qualifier.deep_view(),
            version: self.version.deep_view(),
            architectures: self.architecture_restrictions.deep_view(),
            profiles: self.profile_restrictions.deep_view(),
        }
    }
}

impl DeepView for RelationGroup {
    type V = Seq<RelationModel>;

    open spec fn deep_view(&self) -> Seq<RelationModel> {
        self.alternatives.deep_view()
    }
}

impl DeepView for RelationSet {
    type V = Seq<Seq<RelationModel>>;

    open spec fn deep_view(&self) -> Seq<Seq<RelationModel>> {
        self.groups.deep_view()
    }
}

// ---------------------------------------------------------------------------
// Names and words
// ---------------------------------------------------------------------------
/// A character that a Debian package name can hold.
pub open spec fn is_name_character(character: char) -> bool {
    ||| is_lower(character)
    ||| is_digit(character)
    ||| character == '+'
    ||| character == '.'
    ||| character == '-'
}

pub fn name_character(character: char) -> (result: bool)
    ensures
        result == is_name_character(character),
{
    lower(character) || digit(character) || character == '+' || character == '.' || character == '-'
}

/// All characters can stand in a Debian package name.
pub open spec fn all_name_characters(text: Seq<char>) -> bool {
    forall|index: int| 0 <= index < text.len() ==> is_name_character(#[trigger] text[index])
}

pub fn only_name_characters(text: &[char]) -> (result: bool)
    ensures
        result == all_name_characters(text@),
{
    for index in 0..text.len()
        invariant
            forall|at: int| 0 <= at < index ==> is_name_character(#[trigger] text@[at]),
    {
        if !name_character(text[index]) {
            return false;
        }
    }
    true
}

/// The rule for Debian package names.
pub open spec fn is_package_name(name: Seq<char>) -> bool {
    &&& name.len() >= 2
    &&& is_lower(name[0]) || is_digit(name[0])
    &&& all_name_characters(name)
}

pub fn package_name(name: &[char]) -> (result: bool)
    ensures
        result == is_package_name(name@),
{
    name.len() >= 2 && (lower(name[0]) || digit(name[0])) && only_name_characters(name)
}

/// The message for a relation with a bad package name.
pub open spec fn bad_relation_name(name: Seq<char>) -> Seq<char> {
    "invalid Debian relation package name '"@ + name + "'"@
}

pub fn validate_relation_name(name: &[char]) -> (result: Result<()>)
    ensures
        outcome(result) == if is_package_name(name@) {
            Ok::<(), Seq<char>>(())
        } else {
            Err(bad_relation_name(name@))
        },
{
    if package_name(name) {
        Ok(())
    } else {
        Err(
            AppError::new(
                String::from_str("invalid Debian relation package name '").concat(
                    string(name).as_str(),
                ).concat("'"),
            ),
        )
    }
}

/// A sequence of results so far, and one more result.
pub open spec fn followed_by<T>(list: Outcome<Seq<T>>, item: Outcome<T>) -> Outcome<Seq<T>> {
    match list {
        Err(message) => Err(message),
        Ok(items) => match item {
            Err(message) => Err(message),
            Ok(value) => Ok(items.push(value)),
        },
    }
}

// ---------------------------------------------------------------------------
// Qualifiers
// ---------------------------------------------------------------------------
/// A character that a package qualifier can hold.
pub open spec fn is_qualifier_character(character: char) -> bool {
    is_lower(character) || is_digit(character) || character == '-'
}

/// The qualifier that a text stands for.
pub open spec fn qualifier_of(source: Seq<char>) -> Outcome<QualifierModel> {
    if source.len() == 0 || exists|index: int|
        0 <= index < source.len() && !is_qualifier_character(#[trigger] source[index]) {
        Err("invalid Debian package qualifier '"@ + source + "'"@)
    } else if source == "any"@ {
        Ok(QualifierModel::Any)
    } else if source == "native"@ {
        Ok(QualifierModel::Native)
    } else {
        Ok(QualifierModel::Architecture(source))
    }
}

fn invalid_qualifier(source: &[char]) -> (result: AppError)
    ensures
        result@ == "invalid Debian package qualifier '"@ + source@ + "'"@,
{
    AppError::new(
        String::from_str("invalid Debian package qualifier '").concat(
            string(source).as_str(),
        ).concat("'"),
    )
}

impl PackageQualifier {
    /// Parse the text behind the colon of a package name.
    pub fn parse(source: &[char]) -> (result: Result<Self>)
        ensures
            outcome(result) == qualifier_of(source@),
    {
        if source.len() == 0 {
            return Err(invalid_qualifier(source));
        }
        for index in 0..source.len()
            invariant
                forall|at: int|
                    0 <= at < index ==> is_qualifier_character(#[trigger] source@[at]),
        {
            if !(lower(source[index]) || digit(source[index]) || source[index] == '-') {
                assert(!is_qualifier_character(source@[index as int]));
                return Err(invalid_qualifier(source));
            }
        }
        if is(source, "any") {
            Ok(PackageQualifier::Any)
        } else if is(source, "native") {
            Ok(PackageQualifier::Native)
        } else {
            Ok(PackageQualifier::Architecture(string(source)))
        }
    }
}

// ---------------------------------------------------------------------------
// Version constraints
// ---------------------------------------------------------------------------
/// The operator that a text stands for.
pub open spec fn operator_of(source: Seq<char>) -> Outcome<VersionOperator> {
    if source == "<<"@ || source == "<"@ {
        Ok(VersionOperator::LessThan)
    } else if source == "<="@ {
        Ok(VersionOperator::LessOrEqual)
    } else if source == "="@ {
        Ok(VersionOperator::Equal)
    } else if source == ">="@ {
        Ok(VersionOperator::GreaterOrEqual)
    } else if source == ">>"@ || source == ">"@ {
        Ok(VersionOperator::GreaterThan)
    } else {
        Err("invalid Debian version operator '"@ + source + "'"@)
    }
}

impl VersionOperator {
    /// Parse an operator.
    pub fn parse(source: &[char]) -> (result: Result<Self>)
        ensures
            outcome(result) == operator_of(source@),
    {
        if is(source, "<<") || is(source, "<") {
            Ok(VersionOperator::LessThan)
        } else if is(source, "<=") {
            Ok(VersionOperator::LessOrEqual)
        } else if is(source, "=") {
            Ok(VersionOperator::Equal)
        } else if is(source, ">=") {
            Ok(VersionOperator::GreaterOrEqual)
        } else if is(source, ">>") || is(source, ">") {
            Ok(VersionOperator::GreaterThan)
        } else {
            Err(
                AppError::new(
                    String::from_str("invalid Debian version operator '").concat(
                        string(source).as_str(),
                    ).concat("'"),
                ),
            )
        }
    }

    /// The operator in an Arch dependency.
    pub open spec fn arch_operator(self) -> Seq<char> {
        match self {
            VersionOperator::LessThan => "<"@,
            VersionOperator::LessOrEqual => "<="@,
            VersionOperator::Equal => "="@,
            VersionOperator::GreaterOrEqual => ">="@,
            VersionOperator::GreaterThan => ">"@,
        }
    }

    /// Write the operator for an Arch dependency.
    pub fn arch_text(self) -> (result: &'static str)
        ensures
            result@ == self.arch_operator(),
    {
        match self {
            VersionOperator::LessThan => "<",
            VersionOperator::LessOrEqual => "<=",
            VersionOperator::Equal => "=",
            VersionOperator::GreaterOrEqual => ">=",
            VersionOperator::GreaterThan => ">",
        }
    }
}

/// A character that the version of a constraint cannot hold.
pub open spec fn is_version_breaker(character: char) -> bool {
    ||| character < ' '
    ||| character == '\u{7f}'
    ||| character == ','
    ||| character == '|'
    ||| character == '('
    ||| character == ')'
}

/// Some character cannot stand in the version of a constraint.
pub open spec fn breaks_version(version: Seq<char>) -> bool {
    exists|index: int| 0 <= index < version.len() && is_version_breaker(#[trigger] version[index])
}

/// The constraint that the text between parentheses stands for.
pub open spec fn constraint_of(source: Seq<char>) -> Outcome<ConstraintModel> {
    let parts = words(source);
    if parts.len() == 0 {
        Err("a Debian version constraint has no operator"@)
    } else {
        match operator_of(parts[0]) {
            Err(message) => Err(message),
            Ok(operator) => if parts.len() == 1 {
                Err("a Debian version constraint has no version"@)
            } else if parts.len() > 2 || breaks_version(parts[1]) {
                Err("invalid Debian version constraint '("@ + source + ")'"@)
            } else {
                Ok(ConstraintModel { operator, version: parts[1] })
            },
        }
    }
}

fn has_version_breaker(version: &[char]) -> (result: bool)
    ensures
        result == breaks_version(version@),
{
    for index in 0..version.len()
        invariant
            forall|at: int| 0 <= at < index ==> !is_version_breaker(#[trigger] version@[at]),
    {
        let character = version[index];
        if character < ' ' || character == '\u{7f}' || character == ',' || character == '|'
            || character == '(' || character == ')' {
            assert(is_version_breaker(version@[index as int]));
            return true;
        }
    }
    false
}

impl Clone for VersionConstraint {
    fn clone(&self) -> (result: Self)
        ensures
            result.deep_view() == self.deep_view(),
    {
        VersionConstraint { operator: self.operator, version: self.version.clone() }
    }
}

impl VersionConstraint {
    /// Parse the text between the parentheses of a relation.
    pub fn parse(source: &[char]) -> (result: Result<Self>)
        ensures
            outcome(result) == constraint_of(source@),
    {
        let parts = split_words(source);
        assert(texts(parts@).len() == parts@.len());
        if parts.len() == 0 {
            return Err(failure("a Debian version constraint has no operator"));
        }
        assert(texts(parts@)[0] == parts@[0]@);
        let operator = VersionOperator::parse(parts[0])?;
        if parts.len() == 1 {
            return Err(failure("a Debian version constraint has no version"));
        }
        assert(texts(parts@)[1] == parts@[1]@);
        if parts.len() > 2 || has_version_breaker(parts[1]) {
            return Err(
                AppError::new(
                    String::from_str("invalid Debian version constraint '(").concat(
                        string(source).as_str(),
                    ).concat(")'"),
                ),
            );
        }
        Ok(VersionConstraint { operator, version: string(parts[1]) })
    }
}

// ---------------------------------------------------------------------------
// Restrictions
// ---------------------------------------------------------------------------
/// The restriction that one word stands for.
pub open spec fn restriction_of(term: Seq<char>, kind: Seq<char>) -> Outcome<RestrictionModel> {
    let negated = term.len() > 0 && term[0] == '!';
    let name = if negated {
        term.drop_first()
    } else {
        term
    };
    if name.len() == 0 || !all_name_characters(name) {
        Err("invalid "@ + kind + " restriction '"@ + term + "'"@)
    } else {
        Ok(RestrictionModel { name, negated })
    }
}

/// The restrictions that a list of words stands for.
pub open spec fn restriction_list(terms: Seq<Seq<char>>, kind: Seq<char>) -> Outcome<
    Seq<RestrictionModel>,
>
    decreases terms.len(),
{
    if terms.len() == 0 {
        Ok(seq![])
    } else {
        followed_by(
            restriction_list(terms.drop_last(), kind),
            restriction_of(terms.last(), kind),
        )
    }
}

/// The restrictions that the text between brackets stands for.
pub open spec fn restrictions_of(source: Seq<char>, kind: Seq<char>) -> Outcome<
    Seq<RestrictionModel>,
> {
    match restriction_list(words(source), kind) {
        Err(message) => Err(message),
        Ok(restrictions) => if restrictions.len() == 0 {
            Err("empty "@ + kind + " restriction"@)
        } else {
            Ok(restrictions)
        },
    }
}

fn parse_restriction(term: &[char], kind: &str) -> (result: Result<Restriction>)
    ensures
        outcome(result) == restriction_of(term@, kind@),
{
    let negated = term.len() > 0 && term[0] == '!';
    let name: &[char] = if negated {
        slice_subrange(term, 1, term.len())
    } else {
        term
    };
    if name.len() == 0 || !only_name_characters(name) {
        Err(
            AppError::new(
                String::from_str("invalid ").concat(kind).concat(" restriction '").concat(
                    string(term).as_str(),
                ).concat("'"),
            ),
        )
    } else {
        Ok(Restriction { name: string(name), negated })
    }
}

/// An error in a prefix of the words is the error of all the words.
proof fn lemma_restriction_prefix(terms: Seq<Seq<char>>, kind: Seq<char>, length: int)
    requires
        0 <= length <= terms.len(),
        restriction_list(terms.take(length), kind) is Err,
    ensures
        restriction_list(terms, kind) == restriction_list(terms.take(length), kind),
    decreases terms.len(),
{
    if length < terms.len() {
        assert(terms.drop_last().take(length) == terms.take(length));
        lemma_restriction_prefix(terms.drop_last(), kind, length);
    } else {
        assert(terms.take(length) == terms);
    }
}

/// Parse the text between brackets.
pub fn parse_restrictions(source: &[char], kind: &str) -> (result: Result<Vec<Restriction>>)
    ensures
        outcome(result) == restrictions_of(source@, kind@),
        result matches Ok(list) ==> list@.len() > 0,
{
    let terms = split_words(source);
    let ghost all = texts(terms@);
    let mut restrictions: Vec<Restriction> = Vec::new();
    assert(restrictions.deep_view() == Seq::<RestrictionModel>::empty());
    for index in 0..terms.len()
        invariant
            all == texts(terms@),
            all == words(source@),
            restriction_list(all.take(index as int), kind@) == Ok::<
                Seq<RestrictionModel>,
                Seq<char>,
            >(restrictions.deep_view()),
    {
        proof {
            assert(all.take(index + 1).drop_last() == all.take(index as int));
            assert(all.take(index + 1).last() == terms@[index as int]@);
            if restriction_of(terms@[index as int]@, kind@) is Err {
                lemma_restriction_prefix(all, kind@, index + 1);
            }
        }
        let ghost before = restrictions.deep_view();
        let restriction = parse_restriction(terms[index], kind)?;
        restrictions.push(restriction);
        assert(restrictions.deep_view() == before.push(restriction.deep_view()));
    }
    assert(all.take(all.len() as int) == all);
    if restrictions.len() == 0 {
        Err(AppError::new(String::from_str("empty ").concat(kind).concat(" restriction")))
    } else {
        Ok(restrictions)
    }
}

// ---------------------------------------------------------------------------
// Relations
// ---------------------------------------------------------------------------
/// The bracket that closes a section.
pub open spec fn closing_of(opening: char) -> Option<char> {
    if opening == '(' {
        Some(')')
    } else if opening == '[' {
        Some(']')
    } else if opening == '<' {
        Some('>')
    } else {
        None
    }
}

/// Some restriction has the given sign.
pub open spec fn has_sign(restrictions: Seq<RestrictionModel>, negated: bool) -> bool {
    exists|index: int|
        0 <= index < restrictions.len() && (#[trigger] restrictions[index]).negated == negated
}

/// A relation with one more section.
pub open spec fn with_section(
    source: Seq<char>,
    opening: char,
    content: Seq<char>,
    relation: RelationModel,
) -> Outcome<RelationModel> {
    if opening == '(' {
        if relation.version is Some {
            Err("relation '"@ + source + "' has more than one version constraint"@)
        } else {
            match constraint_of(content) {
                Err(message) => Err(message),
                Ok(constraint) => Ok(
                    RelationModel { version: Some(constraint), ..relation },
                ),
            }
        }
    } else if opening == '[' {
        if relation.architectures.len() > 0 {
            Err("relation '"@ + source + "' has more than one architecture restriction"@)
        } else {
            match restrictions_of(content, "architecture"@) {
                Err(message) => Err(message),
                Ok(restrictions) => if has_sign(restrictions, true) && has_sign(
                    restrictions,
                    false,
                ) {
                    Err(
                        "relation '"@ + source
                            + "' mixes positive and negative architecture restrictions"@,
                    )
                } else {
                    Ok(RelationModel { architectures: restrictions, ..relation })
                },
            }
        }
    } else {
        match restrictions_of(content, "build profile"@) {
            Err(message) => Err(message),
            Ok(restrictions) => Ok(
                RelationModel { profiles: relation.profiles.push(restrictions), ..relation },
            ),
        }
    }
}

/// The first byte of a character in UTF-8, as a character.
pub open spec fn first_byte(character: char) -> char {
    encode_utf8(seq![character])[0] as char
}

/// A relation with the sections that `rest` holds.
pub open spec fn with_sections(
    source: Seq<char>,
    rest: Seq<char>,
    relation: RelationModel,
) -> Outcome<RelationModel>
    decreases rest.len(),
{
    let sections = trim_start(rest, CharClass::AsciiWhiteSpace);
    if sections.len() == 0 {
        Ok(relation)
    } else {
        match closing_of(sections[0]) {
            None => Err(
                "unexpected character '"@ + seq![first_byte(sections[0])] + "' in relation '"@
                    + source + "'"@,
            ),
            Some(closing) => {
                let inner = sections.drop_first();
                let length = position(inner, CharClass::Exactly(closing));
                proof {
                    lemma_trim_start_shorter(rest, CharClass::AsciiWhiteSpace);
                }
                if length >= inner.len() {
                    Err(
                        "unclosed '"@ + seq![sections[0]] + "' section in relation '"@ + source
                            + "'"@,
                    )
                } else {
                    match with_section(source, sections[0], inner.take(length as int), relation) {
                        Err(message) => Err(message),
                        Ok(next) => with_sections(source, inner.skip(length as int + 1), next),
                    }
                }
            },
        }
    }
}

/// Trimming does not make a text longer.
pub proof fn lemma_trim_start_shorter(text: Seq<char>, class: CharClass)
    ensures
        trim_start(text, class).len() <= text.len(),
    decreases text.len(),
{
    if text.len() > 0 {
        lemma_trim_start_shorter(text.drop_first(), class);
    }
}

/// The relation that a text stands for: a package name, an optional qualifier
/// behind a colon, and sections in brackets.
pub open spec fn relation_of(source: Seq<char>) -> Outcome<RelationModel> {
    let name_end = position(source, CharClass::RelationNameEnd) as int;
    let name = source.take(name_end);
    let after_name = source.skip(name_end);
    if !is_package_name(name) {
        Err(bad_relation_name(name))
    } else {
        let bare = RelationModel {
            name,
            qualifier: None,
            version: None,
            architectures: seq![],
            profiles: seq![],
        };
        if after_name.len() > 0 && after_name[0] == ':' {
            let qualified = after_name.drop_first();
            let qualifier_end = position(qualified, CharClass::QualifierEnd) as int;
            match qualifier_of(qualified.take(qualifier_end)) {
                Err(message) => Err(message),
                Ok(qualifier) => with_sections(
                    source,
                    qualified.skip(qualifier_end),
                    RelationModel { qualifier: Some(qualifier), ..bare },
                ),
            }
        } else {
            with_sections(source, after_name, bare)
        }
    }
}

fn closing_bracket(opening: char) -> (result: Option<char>)
    ensures
        result == closing_of(opening),
{
    if opening == '(' {
        Some(')')
    } else if opening == '[' {
        Some(']')
    } else if opening == '<' {
        Some('>')
    } else {
        None
    }
}

fn any_with_sign(restrictions: &Vec<Restriction>, negated: bool) -> (result: bool)
    ensures
        result == has_sign(restrictions.deep_view(), negated),
{
    for index in 0..restrictions.len()
        invariant
            forall|at: int| 0 <= at < index ==> (#[trigger] restrictions@[at]).negated != negated,
    {
        if restrictions[index].negated == negated {
            assert(restrictions.deep_view()[index as int].negated == negated);
            return true;
        }
    }
    assert forall|at: int| 0 <= at < restrictions.deep_view().len() implies (
    #[trigger] restrictions.deep_view()[at]).negated != negated by {
        assert(restrictions.deep_view()[at] == restrictions@[at].deep_view());
    }
    false
}

fn lead_byte(character: char) -> (result: char)
    ensures
        result == first_byte(character),
{
    let mut text = String::new();
    text.push(character);
    assert(text@ == seq![character]);
    proof {
        vstd::utf8::encode_utf8_first_scalar(seq![character]);
        reveal_with_fuel(vstd::utf8::encode_utf8, 2);
        vstd::utf8::char_is_scalar(character);
    }
    let bytes = text.as_str().as_bytes();
    bytes[0] as char
}

/// The message of a fault in a relation: `start`, the source and `end`.
fn relation_fault(start: &str, source: &[char], end: &str) -> (result: AppError)
    ensures
        result@ == start@ + source@ + end@,
{
    AppError::new(String::from_str(start).concat(string(source).as_str()).concat(end))
}

/// The message of a fault at one character of a relation.
fn character_fault(start: &str, character: char, middle: &str, source: &[char]) -> (result:
    AppError)
    ensures
        result@ == start@ + seq![character] + middle@ + source@ + "'"@,
{
    let mut text = String::from_str(start);
    text.push(character);
    assert(text@ == start@ + seq![character]);
    AppError::new(text.concat(middle).concat(string(source).as_str()).concat("'"))
}

impl Relation {
    /// Parse one relation.
    pub fn parse(source: &[char]) -> (result: Result<Self>)
        ensures
            outcome(result) == relation_of(source@),
    {
        let name_end = find(source, CharClass::RelationNameEnd);
        let name = slice_subrange(source, 0, name_end);
        assert(name@ == source@.take(name_end as int));
        validate_relation_name(name)?;
        let mut rest = slice_subrange(source, name_end, source.len());
        assert(rest@ == source@.skip(name_end as int));
        let mut relation = Relation {
            name: string(name),
            qualifier: None,
            version: None,
            architecture_restrictions: Vec::new(),
            profile_restrictions: Vec::new(),
        };
        assert(relation.deep_view().architectures == Seq::<RestrictionModel>::empty());
        assert(relation.deep_view().profiles == Seq::<Seq<RestrictionModel>>::empty());
        if rest.len() > 0 && rest[0] == ':' {
            let ghost after_name = rest@;
            let qualified = slice_subrange(rest, 1, rest.len());
            assert(qualified@ == after_name.drop_first());
            let qualifier_end = find(qualified, CharClass::QualifierEnd);
            let text = slice_subrange(qualified, 0, qualifier_end);
            assert(text@ == qualified@.take(qualifier_end as int));
            let qualifier = PackageQualifier::parse(text)?;
            relation.qualifier = Some(qualifier);
            rest = slice_subrange(qualified, qualifier_end, qualified.len());
            assert(rest@ == qualified@.skip(qualifier_end as int));
        }
        assert(with_sections(source@, rest@, relation.deep_view()) == relation_of(source@));
        loop
            invariant
                with_sections(source@, rest@, relation.deep_view()) == relation_of(source@),
            decreases rest@.len(),
        {
            let ghost unfolded = with_sections(source@, rest@, relation.deep_view());
            let sections = without_start(rest, CharClass::AsciiWhiteSpace);
            if sections.len() == 0 {
                return Ok(relation);
            }
            let opening = sections[0];
            let closing = match closing_bracket(opening) {
                Some(closing) => closing,
                None => {
                    return Err(
                        character_fault(
                            "unexpected character '",
                            lead_byte(opening),
                            "' in relation '",
                            source,
                        ),
                    );
                },
            };
            let inner = slice_subrange(sections, 1, sections.len());
            assert(inner@ == sections@.drop_first());
            let length = find(inner, CharClass::Exactly(closing));
            if length == inner.len() {
                return Err(
                    character_fault("unclosed '", opening, "' section in relation '", source),
                );
            }
            let content = slice_subrange(inner, 0, length);
            assert(content@ == inner@.take(length as int));
            let ghost before = relation.deep_view();
            if opening == '(' {
                if relation.version.is_some() {
                    return Err(
                        relation_fault(
                            "relation '",
                            source,
                            "' has more than one version constraint",
                        ),
                    );
                }
                let constraint = VersionConstraint::parse(content)?;
                relation.version = Some(constraint);
            } else if opening == '[' {
                if relation.architecture_restrictions.len() > 0 {
                    return Err(
                        relation_fault(
                            "relation '",
                            source,
                            "' has more than one architecture restriction",
                        ),
                    );
                }
                let restrictions = parse_restrictions(content, "architecture")?;
                if any_with_sign(&restrictions, false) && any_with_sign(&restrictions, true) {
                    return Err(
                        relation_fault(
                            "relation '",
                            source,
                            "' mixes positive and negative architecture restrictions",
                        ),
                    );
                }
                relation.architecture_restrictions = restrictions;
            } else {
                let restrictions = parse_restrictions(content, "build profile")?;
                let ghost profiles = relation.profile_restrictions.deep_view();
                relation.profile_restrictions.push(restrictions);
                assert(relation.profile_restrictions.deep_view() == profiles.push(
                    restrictions.deep_view(),
                ));
            }
            assert(with_section(source@, opening, content@, before) == Ok::<
                RelationModel,
                Seq<char>,
            >(relation.deep_view()));
            rest = slice_subrange(inner, length + 1, inner.len());
            assert(rest@ == inner@.skip(length + 1));
        }
    }
}

} // verus!
