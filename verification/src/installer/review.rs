//! What the user sees and answers before an installation.

use vstd::prelude::*;

use crate::error::{failure, outcome, AppError, Result};
use crate::number::{decimal, decimal_text};
use crate::pieces::{lines, lowercase, lowered, split_lines, texts, trim, trimmed};
use crate::text::{chars, equal, string};

verus! {

/// The desktop file of the program.
pub const DESKTOP_FILE_ID: &'static str = "io.github.devnvll.Debforge.desktop";

/// The root helper.
pub const PRIVILEGED_HELPER: &'static str = "/usr/lib/debforge/debforge-helper";

/// The MIME types of Debian packages.
pub const DEB_MIME_TYPES: [&'static str; 2] = [
    "application/vnd.debian.binary-package",
    "application/x-deb",
];

/// The answer of a user agrees.
pub open spec fn is_yes(answer: Seq<char>) -> bool {
    lowercase(trim(answer)) == "y"@ || lowercase(trim(answer)) == "yes"@
}

/// Test whether the answer of a user agrees.
pub fn is_affirmative(answer: &str) -> (result: bool)
    ensures
        result == is_yes(answer@),
{
    let characters = chars(answer);
    let word = lowered(trimmed(characters.as_slice()));
    equal(word.as_str(), "y") || equal(word.as_str(), "yes")
}

/// What is shown in a review.
#[derive(Debug, Clone, PartialEq, Eq)]
pub struct Review {
    /// The Debian package.
    pub source: String,
    pub source_sha256: String,
    pub package_name: String,
    pub package_version: String,
    /// What `pacman -Qlp` prints.
    pub files: String,
    /// What `pacman -Qip` prints.
    pub details: String,
    /// What `pacman -U --print` prints.
    pub transaction: String,
    /// A configured repository has a package of the name.
    pub has_native_package: bool,
    /// What `pacman -Q` prints about an installed package of the name.
    pub installed: Option<String>,
    pub warnings: Vec<String>,
}

/// Warnings as a list, one on each line.
pub open spec fn warning_lines(warnings: Seq<Seq<char>>) -> Seq<char>
    decreases warnings.len(),
{
    if warnings.len() == 0 {
        seq![]
    } else {
        warning_lines(warnings.drop_last()) + "  - "@ + warnings.last() + "\n"@
    }
}

/// The part of a review that says what is known of the package.
pub open spec fn review_start(review: Review) -> Seq<char> {
    "\nDebforge installation review\n"@ + "Source       : "@ + review.source@ + "\n"@
        + "Source SHA-256: "@ + review.source_sha256@ + "\n"@ + "Package      : "@
        + review.package_name@ + " "@ + review.package_version@ + "\n"@ + "Package files: "@
        + decimal(lines(review.files@).len()) + "\n"@ + "\nPacman package information:\n"@ + trim(
        review.details@,
    ) + "\n"@ + "\nPlanned transaction:\n"@ + trim(review.transaction@) + "\n"@
}

/// The text of a review.
pub open spec fn review_of(review: Review) -> Seq<char> {
    let native = if review.has_native_package {
        "\nWarning: The configured Arch repositories contain a native package named '"@
            + review.package_name@ + "'.\n"@
    } else {
        seq![]
    };
    let installed = match review.installed {
        Some(text) => "Installed now: "@ + trim(text@) + "\n"@,
        None => seq![],
    };
    let warnings = if review.warnings@.len() == 0 {
        seq![]
    } else {
        "\nConversion warnings:\n"@ + warning_lines(review.warnings.deep_view())
    };
    review_start(review) + native + installed + warnings
}

fn trimmed_text(text: &str) -> (result: String)
    ensures
        result@ == trim(text@),
{
    let characters = chars(text);
    string(trimmed(characters.as_slice()))
}

fn count_lines(text: &str) -> (result: usize)
    ensures
        result == lines(text@).len(),
{
    let characters = chars(text);
    let all = split_lines(characters.as_slice());
    assert(texts(all@).len() == all@.len());
    all.len()
}

/// Write the text of a review.
pub fn show_review(review: &Review) -> (result: String)
    ensures
        result@ == review_of(*review),
{
    let mut text = String::from_str("\nDebforge installation review\n").concat(
        "Source       : ",
    ).concat(review.source.as_str()).concat("\n").concat("Source SHA-256: ").concat(
        review.source_sha256.as_str(),
    ).concat("\n").concat("Package      : ").concat(review.package_name.as_str()).concat(
        " ",
    ).concat(review.package_version.as_str()).concat("\n").concat("Package files: ").concat(
        decimal_text(count_lines(review.files.as_str()) as u64).as_str(),
    ).concat("\n").concat("\nPacman package information:\n").concat(
        trimmed_text(review.details.as_str()).as_str(),
    ).concat("\n").concat("\nPlanned transaction:\n").concat(
        trimmed_text(review.transaction.as_str()).as_str(),
    ).concat("\n");
    let ghost start = text@;
    assert(start == review_start(*review));
    if review.has_native_package {
        let native = String::from_str(
            "\nWarning: The configured Arch repositories contain a native package named '",
        ).concat(review.package_name.as_str()).concat("'.\n");
        text = text.concat(native.as_str());
    }
    let ghost native_part = if review.has_native_package {
        "\nWarning: The configured Arch repositories contain a native package named '"@
            + review.package_name@ + "'.\n"@
    } else {
        seq![]
    };
    assert(text@ =~= start + native_part);
    if let Some(installed) = &review.installed {
        let part = String::from_str("Installed now: ").concat(
            trimmed_text(installed.as_str()).as_str(),
        ).concat("\n");
        text = text.concat(part.as_str());
    }
    let ghost installed_part = match &review.installed {
        Some(installed) => "Installed now: "@ + trim(installed@) + "\n"@,
        None => seq![],
    };
    assert(text@ =~= start + native_part + installed_part);
    if review.warnings.len() > 0 {
        let list = write_warnings(&review.warnings);
        let part = String::from_str("\nConversion warnings:\n").concat(list.as_str());
        text = text.concat(part.as_str());
    }
    assert(text@ =~= review_of(*review));
    text
}

fn write_warnings(warnings: &Vec<String>) -> (result: String)
    ensures
        result@ == warning_lines(warnings.deep_view()),
{
    let ghost all = warnings.deep_view();
    let mut text = String::from_str("");
    assert(text@ =~= seq![]) by {
        reveal_strlit("");
    }
    for index in 0..warnings.len()
        invariant
            all == warnings.deep_view(),
            text@ == warning_lines(all.take(index as int)),
    {
        proof {
            assert(all.take(index + 1).drop_last() == all.take(index as int));
            assert(all.take(index + 1).last() == warnings@[index as int]@);
        }
        text = text.concat("  - ").concat(warnings[index].as_str()).concat("\n");
    }
    assert(all.take(all.len() as int) == all);
    text
}

/// Require a terminal for the question to the user.
pub fn confirm_installation(is_terminal: bool) -> (result: Result<()>)
    ensures
        outcome(result) == if is_terminal {
            Ok::<(), Seq<char>>(())
        } else {
            Err(
                "Installation needs a terminal confirmation. Use --yes only after you review the package separately."@,
            )
        },
{
    if is_terminal {
        Ok(())
    } else {
        Err(
            failure(
                "Installation needs a terminal confirmation. Use --yes only after you review the package separately.",
            ),
        )
    }
}

/// Require that the desktop selected the program for a MIME type.
pub fn register_handler(mime_type: &str, selected: &str) -> (result: Result<()>)
    ensures
        outcome(result) == if trim(selected@) == DESKTOP_FILE_ID@ {
            Ok::<(), Seq<char>>(())
        } else {
            Err(
                "The desktop did not select Debforge for MIME type "@ + mime_type@ + "."@,
            )
        },
{
    let name = trimmed_text(selected);
    if equal(name.as_str(), DESKTOP_FILE_ID) {
        Ok(())
    } else {
        Err(
            AppError::new(
                String::from_str("The desktop did not select Debforge for MIME type ").concat(
                    mime_type,
                ).concat("."),
            ),
        )
    }
}

} // verus!
