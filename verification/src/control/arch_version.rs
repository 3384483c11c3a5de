//! Debian versions in the form that Arch packages use.

use vstd::prelude::*;
use vstd::slice::slice_subrange;

use crate::error::{failure, outcome, AppError, Outcome, Result};
use crate::number::{
    decimal, decimal_has_only_digits, decimal_round_trip, decimal_text, number_value, parse_number,
};
use crate::pieces::{find, lemma_position, lemma_position_is, position};
use crate::text::{
    alphanumeric, chars, control, digit, is_alphanumeric, is_control, is_digit, is_white_space,
    string, white_space, CharClass,
};

verus! {

// ---------------------------------------------------------------------------
// Model
// ---------------------------------------------------------------------------
/// A Debian version converted to the parts used in an Arch package version.
#[derive(Clone, Debug, PartialEq, Eq)]
pub struct ArchVersion {
    /// A nonzero Debian epoch.  Epoch zero is omitted from Arch output.
    pub epoch: Option<u64>,
    /// Debian version text with characters forbidden by Arch escaped.
    pub pkgver: String,
    /// Converter package release.  It is `1` for a new conversion.
    pub pkgrel: u64,
}

/// The mathematical value of an [`ArchVersion`].
pub struct VersionModel {
    pub epoch: Option<u64>,
    pub pkgver: Seq<char>,
    pub pkgrel: u64,
}

impl DeepView for ArchVersion {
    type V = VersionModel;

    open spec fn deep_view(&self) -> VersionModel {
        VersionModel { epoch: self.epoch, pkgver: self.pkgver@, pkgrel: self.pkgrel }
    }
}

/// The place of the colon after the epoch, or the length of the version.
pub open spec fn epoch_end(version: Seq<char>) -> int {
    position(version, CharClass::Exactly(':')) as int
}

/// The version without its epoch.
pub open spec fn version_body(version: Seq<char>) -> Seq<char> {
    if epoch_end(version) < version.len() {
        version.skip(epoch_end(version) + 1)
    } else {
        version
    }
}

/// A character that cannot stand in a version at all.
pub open spec fn is_unprintable(character: char) -> bool {
    is_white_space(character) || is_control(character)
}

/// A character that can stand behind the epoch.
pub open spec fn is_version_character(character: char) -> bool {
    ||| is_alphanumeric(character)
    ||| character == '.'
    ||| character == '+'
    ||| character == '~'
    ||| character == '-'
    ||| character == ':'
    ||| character == '/'
    ||| character == '%'
}

pub open spec fn has_unprintable(version: Seq<char>) -> bool {
    exists|index: int| 0 <= index < version.len() && is_unprintable(#[trigger] version[index])
}

pub open spec fn only_version_characters(body: Seq<char>) -> bool {
    forall|index: int| 0 <= index < body.len() ==> is_version_character(#[trigger] body[index])
}

pub open spec fn only_digits(text: Seq<char>) -> bool {
    forall|index: int| 0 <= index < text.len() ==> is_digit(#[trigger] text[index])
}

/// The fault of a Debian version, apart from its epoch.
pub open spec fn version_fault(version: Seq<char>) -> Option<Seq<char>> {
    let body = version_body(version);
    if version.len() == 0 {
        Some("the Debian Version field is empty"@)
    } else if has_unprintable(version) {
        Some(
            "Debian version '"@ + version + "' contains whitespace or a control character"@,
        )
    } else if body.len() == 0 || !is_digit(body[0]) {
        Some(
            "Debian version '"@ + version
                + "' must start with a digit after its optional epoch"@,
        )
    } else if !only_version_characters(body) {
        Some("Debian version '"@ + version + "' contains an invalid character"@)
    } else {
        None
    }
}

/// The epoch of a Debian version, if it is not zero.
pub open spec fn epoch_of(version: Seq<char>) -> Outcome<Option<u64>> {
    let end = epoch_end(version);
    if end == version.len() {
        Ok(None)
    } else {
        let epoch = version.take(end);
        if epoch.len() == 0 || !only_digits(epoch) {
            Err("invalid Debian version epoch in '"@ + version + "'"@)
        } else {
            match number_value(epoch, u64::MAX as int) {
                Err(fault) => Err(
                    "Debian version epoch is too large in '"@ + version + "'"@ + ": "@
                        + fault.description(),
                ),
                Ok(value) => Ok(
                    if value == 0 {
                        None
                    } else {
                        Some(value as u64)
                    },
                ),
            }
        }
    }
}

/// A character as it stands in an Arch version.
pub open spec fn escaped_character(character: char) -> Seq<char> {
    if character == '%' {
        "%25"@
    } else if character == '-' {
        "%2D"@
    } else if character == ':' {
        "%3A"@
    } else if character == '/' {
        "%2F"@
    } else {
        seq![character]
    }
}

/// A text as it stands in an Arch version.
pub open spec fn escaped(text: Seq<char>) -> Seq<char>
    decreases text.len(),
{
    if text.len() == 0 {
        seq![]
    } else {
        escaped_character(text[0]) + escaped(text.drop_first())
    }
}

/// The Arch version of a Debian version.
pub open spec fn arch_version_of(version: Seq<char>) -> Outcome<VersionModel> {
    match version_fault(version) {
        Some(message) => Err(message),
        None => match epoch_of(version) {
            Err(message) => Err(message),
            Ok(epoch) => Ok(
                VersionModel { epoch, pkgver: escaped(version_body(version)), pkgrel: 1 },
            ),
        },
    }
}

/// An Arch version as text.
pub open spec fn version_text(version: VersionModel) -> Seq<char> {
    let rest = version.pkgver + "-"@ + decimal(version.pkgrel as nat);
    match version.epoch {
        Some(epoch) => decimal(epoch as nat) + ":"@ + rest,
        None => rest,
    }
}

/// The text of the Arch version of a Debian version.
pub open spec fn arch_version_text_of(version: Seq<char>) -> Outcome<Seq<char>> {
    match arch_version_of(version) {
        Err(message) => Err(message),
        Ok(model) => Ok(version_text(model)),
    }
}

// ---------------------------------------------------------------------------
// Conversion
// ---------------------------------------------------------------------------
fn unprintable(version: &[char]) -> (result: bool)
    ensures
        result == has_unprintable(version@),
{
    for index in 0..version.len()
        invariant
            forall|at: int| 0 <= at < index ==> !is_unprintable(#[trigger] version@[at]),
    {
        if white_space(version[index]) || control(version[index]) {
            assert(is_unprintable(version@[index as int]));
            return true;
        }
    }
    false
}

fn valid_body(body: &[char]) -> (result: bool)
    ensures
        result == only_version_characters(body@),
{
    for index in 0..body.len()
        invariant
            forall|at: int| 0 <= at < index ==> is_version_character(#[trigger] body@[at]),
    {
        let character = body[index];
        if !(alphanumeric(character) || character == '.' || character == '+' || character == '~'
            || character == '-' || character == ':' || character == '/' || character == '%') {
            assert(!is_version_character(body@[index as int]));
            return false;
        }
    }
    true
}

fn all_digits(text: &[char]) -> (result: bool)
    ensures
        result == only_digits(text@),
{
    for index in 0..text.len()
        invariant
            forall|at: int| 0 <= at < index ==> is_digit(#[trigger] text@[at]),
    {
        if !digit(text[index]) {
            assert(!is_digit(text@[index as int]));
            return false;
        }
    }
    true
}

fn body_of<'a>(version: &'a [char]) -> (result: &'a [char])
    ensures
        result@ == version_body(version@),
{
    let end = find(version, CharClass::Exactly(':'));
    if end < version.len() {
        let body = slice_subrange(version, end + 1, version.len());
        assert(body@ == version@.skip(end + 1));
        body
    } else {
        version
    }
}

fn version_error(start: &str, version: &[char], end: &str) -> (result: AppError)
    ensures
        result@ == start@ + version@ + end@,
{
    AppError::new(String::from_str(start).concat(string(version).as_str()).concat(end))
}

fn validate_debian_version(version: &[char]) -> (result: Result<()>)
    ensures
        outcome(result) == match version_fault(version@) {
            Some(message) => Err::<(), Seq<char>>(message),
            None => Ok(()),
        },
{
    if version.len() == 0 {
        return Err(failure("the Debian Version field is empty"));
    }
    if unprintable(version) {
        return Err(
            version_error(
                "Debian version '",
                version,
                "' contains whitespace or a control character",
            ),
        );
    }
    let body = body_of(version);
    if body.len() == 0 || !digit(body[0]) {
        return Err(
            version_error(
                "Debian version '",
                version,
                "' must start with a digit after its optional epoch",
            ),
        );
    }
    if !valid_body(body) {
        return Err(version_error("Debian version '", version, "' contains an invalid character"));
    }
    Ok(())
}

fn parse_epoch(version: &[char]) -> (result: Result<Option<u64>>)
    ensures
        match result {
            Ok(epoch) => epoch_of(version@) == Ok::<Option<u64>, Seq<char>>(epoch),
            Err(error) => epoch_of(version@) == Err::<Option<u64>, Seq<char>>(error@),
        },
{
    let end = find(version, CharClass::Exactly(':'));
    if end == version.len() {
        return Ok(None);
    }
    let epoch = slice_subrange(version, 0, end);
    assert(epoch@ == version@.take(end as int));
    if epoch.len() == 0 || !all_digits(epoch) {
        return Err(version_error("invalid Debian version epoch in '", version, "'"));
    }
    match parse_number(epoch, u64::MAX) {
        Err(fault) => Err(
            AppError::new(
                String::from_str("Debian version epoch is too large in '").concat(
                    string(version).as_str(),
                ).concat("'").concat(": ").concat(fault.describe()),
            ),
        ),
        Ok(value) => if value == 0 {
            Ok(None)
        } else {
            Ok(Some(value))
        },
    }
}

fn escape(text: &[char]) -> (result: String)
    ensures
        result@ == escaped(text@),
{
    let mut result = String::from_str("");
    assert(result@ =~= seq![]) by {
        reveal_strlit("");
    }
    assert(text@.skip(0) == text@);
    for index in 0..text.len()
        invariant
            result@ + escaped(text@.skip(index as int)) == escaped(text@),
    {
        let character = text[index];
        let ghost before = result@;
        assert(text@.skip(index as int)[0] == character);
        assert(text@.skip(index as int).drop_first() == text@.skip(index + 1));
        match character {
            '%' => result.append("%25"),
            '-' => result.append("%2D"),
            ':' => result.append("%3A"),
            '/' => result.append("%2F"),
            _ => result.push(character),
        }
        assert(result@ =~= before + escaped_character(character));
        assert(result@ + escaped(text@.skip(index + 1)) =~= before + escaped(
            text@.skip(index as int),
        ));
    }
    assert(escaped(text@.skip(text@.len() as int)) =~= seq![]);
    result
}

impl ArchVersion {
    /// Convert an exact Debian version into an Arch version.
    pub fn from_debian(version: &str) -> (result: Result<Self>)
        ensures
            outcome(result) == arch_version_of(version@),
    {
        let characters = chars(version);
        let version_characters = characters.as_slice();
        validate_debian_version(version_characters)?;
        let epoch = parse_epoch(version_characters)?;
        let pkgver = escape(body_of(version_characters));
        Ok(ArchVersion { epoch, pkgver, pkgrel: 1 })
    }

    /// The complete version: an optional epoch, the version and the release.
    pub fn to_string(&self) -> (result: String)
        ensures
            result@ == version_text(self.deep_view()),
    {
        let rest = self.pkgver.clone().concat("-").concat(decimal_text(self.pkgrel).as_str());
        match self.epoch {
            Some(epoch) => decimal_text(epoch).concat(":").concat(rest.as_str()),
            None => rest,
        }
    }
}

/// Convert a Debian version into a complete Arch version string.
pub fn debian_version_to_arch(version: &str) -> (result: Result<String>)
    ensures
        outcome(result) == arch_version_text_of(version@),
{
    match ArchVersion::from_debian(version) {
        Ok(converted) => Ok(converted.to_string()),
        Err(error) => Err(error),
    }
}

// ---------------------------------------------------------------------------
// Laws
// ---------------------------------------------------------------------------
/// A character that Arch does not allow in a version.
pub open spec fn is_forbidden_by_arch(character: char) -> bool {
    character == '-' || character == ':' || character == '/' || is_white_space(character)
}

proof fn reveal_escapes()
    ensures
        "%25"@ == seq!['%', '2', '5'],
        "%2D"@ == seq!['%', '2', 'D'],
        "%3A"@ == seq!['%', '3', 'A'],
        "%2F"@ == seq!['%', '2', 'F'],
{
    reveal_strlit("%25");
    reveal_strlit("%2D");
    reveal_strlit("%3A");
    reveal_strlit("%2F");
    assert("%25"@ =~= seq!['%', '2', '5']);
    assert("%2D"@ =~= seq!['%', '2', 'D']);
    assert("%3A"@ =~= seq!['%', '3', 'A']);
    assert("%2F"@ =~= seq!['%', '2', 'F']);
}

proof fn lemma_escaped_is_allowed(text: Seq<char>, index: int)
    requires
        only_version_characters(text),
        0 <= index < escaped(text).len(),
    ensures
        !is_forbidden_by_arch(escaped(text)[index]),
    decreases text.len(),
{
    reveal_escapes();
    if text.len() > 0 {
        assert(is_version_character(text[0]));
        let first = escaped_character(text[0]);
        if index < first.len() {
            assert(escaped(text)[index] == first[index]);
        } else {
            assert(escaped(text)[index] == escaped(text.drop_first())[index - first.len()]);
            assert forall|at: int| 0 <= at < text.len() - 1 implies is_version_character(
                #[trigger] text.drop_first()[at],
            ) by {
                assert(is_version_character(text[at + 1]));
            }
            lemma_escaped_is_allowed(text.drop_first(), index - first.len());
        }
    }
}

/// The converted version holds no character that Arch forbids.
pub proof fn converted_versions_are_allowed(version: Seq<char>, index: int)
    requires
        arch_version_of(version) matches Ok(converted) && 0 <= index < converted.pkgver.len(),
    ensures
        !is_forbidden_by_arch(arch_version_of(version)->Ok_0.pkgver[index]),
{
    lemma_escaped_is_allowed(version_body(version), index);
}

/// Different texts stay different when they are escaped.
pub proof fn escaping_keeps_texts_apart(left: Seq<char>, right: Seq<char>)
    requires
        escaped(left) == escaped(right),
    ensures
        left == right,
    decreases left.len(),
{
    reveal_escapes();
    if left.len() == 0 {
        if right.len() > 0 {
            assert(escaped(right).len() >= escaped_character(right[0]).len() > 0);
        }
        assert(left =~= right);
    } else if right.len() == 0 {
        assert(escaped(left).len() >= escaped_character(left[0]).len() > 0);
    } else {
        let whole = escaped(left);
        let one = escaped_character(left[0]);
        let two = escaped_character(right[0]);
        assert(one[0] == whole[0]);
        assert(two[0] == whole[0]);
        if one.len() > 1 {
            assert(one[1] == whole[1]);
            assert(one[2] == whole[2]);
        }
        if two.len() > 1 {
            assert(two[1] == whole[1]);
            assert(two[2] == whole[2]);
        }
        assert(left[0] == right[0]);
        assert(escaped(left.drop_first()) =~= whole.skip(one.len() as int));
        assert(escaped(right.drop_first()) =~= whole.skip(one.len() as int));
        escaping_keeps_texts_apart(left.drop_first(), right.drop_first());
        assert(left =~= seq![left[0]] + left.drop_first());
        assert(right =~= seq![right[0]] + right.drop_first());
    }
}

proof fn lemma_no_colon(version: VersionModel)
    requires
        forall|at: int|
            0 <= at < version.pkgver.len() ==> !is_forbidden_by_arch(#[trigger] version.pkgver[at]),
    ensures
        position(version_text(version), CharClass::Exactly(':')) == match version.epoch {
            Some(epoch) => decimal(epoch as nat).len(),
            None => version_text(version).len(),
        },
{
    reveal_strlit("-");
    reveal_strlit(":");
    let class = CharClass::Exactly(':');
    let text = version_text(version);
    decimal_has_only_digits(version.pkgrel as nat);
    match version.epoch {
        Some(epoch) => {
            let start = decimal(epoch as nat);
            decimal_has_only_digits(epoch as nat);
            assert forall|at: int| 0 <= at < start.len() implies !class.has(#[trigger] text[at]) by {
                assert(is_digit(start[at]));
            }
            lemma_position_is(text, class, start.len() as int);
        },
        None => {
            let release = decimal(version.pkgrel as nat);
            let length = version.pkgver.len();
            assert forall|at: int| 0 <= at < text.len() implies !class.has(#[trigger] text[at]) by {
                if at < length {
                    assert(!is_forbidden_by_arch(version.pkgver[at]));
                } else if at > length {
                    assert(is_digit(release[at - length - 1]));
                }
            }
            lemma_position_is(text, class, text.len() as int);
        },
    }
}

/// Two Debian versions with the same complete Arch version have the same
/// epoch, where no epoch counts as zero, and the same text behind it.
pub proof fn different_versions_get_different_texts(left: Seq<char>, right: Seq<char>)
    requires
        arch_version_of(left) is Ok,
        arch_version_of(right) is Ok,
        arch_version_text_of(left) == arch_version_text_of(right),
    ensures
        epoch_of(left) == epoch_of(right),
        version_body(left) == version_body(right),
{
    reveal_strlit("-");
    reveal_strlit(":");
    let one = arch_version_of(left)->Ok_0;
    let two = arch_version_of(right)->Ok_0;
    let text = version_text(one);
    assert forall|at: int| 0 <= at < one.pkgver.len() implies !is_forbidden_by_arch(
        #[trigger] one.pkgver[at],
    ) by {
        converted_versions_are_allowed(left, at);
    }
    assert forall|at: int| 0 <= at < two.pkgver.len() implies !is_forbidden_by_arch(
        #[trigger] two.pkgver[at],
    ) by {
        converted_versions_are_allowed(right, at);
    }
    lemma_no_colon(one);
    lemma_no_colon(two);
    lemma_position(text, CharClass::Exactly(':'));
    let release = decimal(1);
    let colon = position(text, CharClass::Exactly(':')) as int;
    let rest = if colon < text.len() {
        text.skip(colon + 1)
    } else {
        text
    };
    if let Some(epoch) = one.epoch {
        decimal_round_trip(epoch as nat, u64::MAX as int);
        assert(text.take(colon) =~= decimal(epoch as nat));
    }
    if let Some(epoch) = two.epoch {
        decimal_round_trip(epoch as nat, u64::MAX as int);
        assert(text.take(colon) =~= decimal(epoch as nat));
    }
    assert(one.epoch == two.epoch);
    assert(rest =~= one.pkgver + "-"@ + release);
    assert(rest =~= two.pkgver + "-"@ + release);
    assert(one.pkgver =~= rest.take(rest.len() - 1 - release.len()));
    assert(two.pkgver =~= rest.take(rest.len() - 1 - release.len()));
    escaping_keeps_texts_apart(version_body(left), version_body(right));
}

/// A converted version starts with a digit, and the Debian version holds neither
/// white space nor control characters.
pub proof fn converted_versions_start_with_digits(version: Seq<char>, index: int)
    requires
        arch_version_of(version) is Ok,
    ensures
        arch_version_of(version)->Ok_0.pkgver.len() > 0,
        is_digit(arch_version_of(version)->Ok_0.pkgver[0]),
        0 <= index < version.len() ==> !is_white_space(version[index]) && !is_control(
            version[index],
        ),
{
    let body = version_body(version);
    assert(escaped_character(body[0]) == seq![body[0]]);
    assert(escaped(body) == escaped_character(body[0]) + escaped(body.drop_first()));
    if 0 <= index < version.len() {
        assert(!is_unprintable(version[index]));
    }
}

} // verus!
