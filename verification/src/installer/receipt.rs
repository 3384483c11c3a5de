//! Installation receipts.

use vstd::prelude::*;
use vstd::utf8::encode_utf8;

use crate::bytes::copy;
use crate::cli::VERSION;
use crate::encoding::{decode_lossy, lossy_text};
use crate::error::{failure, outcome, Outcome, Result};
use crate::number::{decimal, decimal_text, wide_decimal_text};
use crate::paths::{is_absolute, is_absolute_path, join_path, joined_path};
use crate::text::chars;

verus! {

/// What was installed from where.
#[derive(Debug, Clone, PartialEq, Eq)]
pub struct InstallReceipt {
    pub package_name: String,
    pub package_version: String,
    pub source_path: Vec<u8>,
    pub source_sha256: String,
    pub converted_sha256: String,
}

/// The mathematical value of an [`InstallReceipt`].
pub struct ReceiptModel {
    pub package_name: Seq<char>,
    pub package_version: Seq<char>,
    pub source_path: Seq<u8>,
    pub source_sha256: Seq<char>,
    pub converted_sha256: Seq<char>,
}

impl DeepView for InstallReceipt {
    type V = ReceiptModel;

    open spec fn deep_view(&self) -> ReceiptModel {
        ReceiptModel {
            package_name: self.package_name@,
            package_version: self.package_version@,
            source_path: self.source_path@,
            source_sha256: self.source_sha256@,
            converted_sha256: self.converted_sha256@,
        }
    }
}

/// A line of a receipt.
pub open spec fn receipt_line(name: Seq<char>, value: Seq<char>) -> Seq<char> {
    name + "="@ + value + "\n"@
}

/// The text of a receipt for an installation at a time in seconds.
pub open spec fn receipt_text_of(receipt: ReceiptModel, installed_at: u64) -> Outcome<Seq<char>> {
    let source = lossy_text(receipt.source_path);
    if source.contains('\n') || source.contains('\r') {
        Err("The Debian source path contains a new line."@)
    } else {
        Ok(
            receipt_line("format"@, "1"@) + receipt_line("package"@, receipt.package_name)
                + receipt_line("version"@, receipt.package_version) + receipt_line(
                "source"@,
                source,
            ) + receipt_line("source_sha256"@, receipt.source_sha256) + receipt_line(
                "converted_sha256"@,
                receipt.converted_sha256,
            ) + receipt_line("debforge_version"@, VERSION@) + receipt_line(
                "installed_at"@,
                decimal(installed_at as nat),
            ),
        )
    }
}

fn line(name: &str, value: &str) -> (result: String)
    ensures
        result@ == receipt_line(name@, value@),
{
    String::from_str(name).concat("=").concat(value).concat("\n")
}

fn has_new_line(text: &str) -> (result: bool)
    ensures
        result == (text@.contains('\n') || text@.contains('\r')),
{
    let characters = chars(text);
    for index in 0..characters.len()
        invariant
            characters@ == text@,
            forall|at: int|
                0 <= at < index ==> (#[trigger] text@[at]) != '\n' && text@[at] != '\r',
    {
        if characters[index] == '\n' || characters[index] == '\r' {
            assert(text@.contains(text@[index as int]));
            return true;
        }
    }
    false
}

/// Write the text of a receipt.
pub fn receipt_text(receipt: &InstallReceipt, installed_at: u64) -> (result: Result<String>)
    ensures
        outcome(result) == receipt_text_of(receipt.deep_view(), installed_at),
{
    let source = decode_lossy(receipt.source_path.as_slice());
    if has_new_line(source.as_str()) {
        return Err(failure("The Debian source path contains a new line."));
    }
    Ok(
        line("format", "1").concat(line("package", receipt.package_name.as_str()).as_str()).concat(
            line("version", receipt.package_version.as_str()).as_str(),
        ).concat(line("source", source.as_str()).as_str()).concat(
            line("source_sha256", receipt.source_sha256.as_str()).as_str(),
        ).concat(line("converted_sha256", receipt.converted_sha256.as_str()).as_str()).concat(
            line("debforge_version", VERSION).as_str(),
        ).concat(line("installed_at", decimal_text(installed_at).as_str()).as_str()),
    )
}

// ---------------------------------------------------------------------------
// Places
// ---------------------------------------------------------------------------
/// The state root of a user.
pub open spec fn state_root_of(state: Option<Seq<u8>>, home: Option<Seq<u8>>) -> Outcome<Seq<u8>> {
    match state {
        Some(path) if is_absolute_path(path) => Ok(path),
        _ => match home {
            Some(path) if is_absolute_path(path) => Ok(
                joined_path(path, encode_utf8(".local/state"@)),
            ),
            _ => Err("Cannot find an absolute XDG_STATE_HOME or HOME directory."@),
        },
    }
}

/// Resolve the state root from `XDG_STATE_HOME`, or from `HOME/.local/state`.
pub fn state_home(state: Option<&[u8]>, home: Option<&[u8]>) -> (result: Result<Vec<u8>>)
    ensures
        match result {
            Ok(path) => state_root_of(
                crate::bytes::optional_slice(state),
                crate::bytes::optional_slice(home),
            ) == Ok::<Seq<u8>, Seq<char>>(path@),
            Err(error) => state_root_of(
                crate::bytes::optional_slice(state),
                crate::bytes::optional_slice(home),
            ) == Err::<Seq<u8>, Seq<char>>(error@),
        },
{
    if let Some(path) = state {
        if is_absolute(path) {
            return Ok(copy(path));
        }
    }
    if let Some(path) = home {
        if is_absolute(path) {
            return Ok(join_path(path, ".local/state".as_bytes()));
        }
    }
    Err(failure("Cannot find an absolute XDG_STATE_HOME or HOME directory."))
}

/// The directory of the receipts below a state root.
pub open spec fn receipts_below(state_root: Seq<u8>) -> Seq<u8> {
    joined_path(joined_path(state_root, encode_utf8("debforge"@)), encode_utf8("receipts"@))
}

/// The directory of the receipts below a state root.
pub fn receipt_directory(state_root: &[u8]) -> (result: Vec<u8>)
    ensures
        result@ == receipts_below(state_root@),
{
    let debforge = join_path(state_root, "debforge".as_bytes());
    join_path(debforge.as_slice(), "receipts".as_bytes())
}

/// The file of a receipt in the directory of the receipts.
pub fn receipt_path(directory: &[u8], package_name: &str) -> (result: Vec<u8>)
    ensures
        result@ == joined_path(directory@, encode_utf8(package_name@ + ".receipt"@)),
{
    let name = String::from_str(package_name).concat(".receipt");
    join_path(directory, name.as_str().as_bytes())
}

/// The file that a receipt is written to before it gets its name.
pub fn partial_receipt_path(directory: &[u8], package_name: &str, process: u32, nonce: u128) -> (result:
    Vec<u8>)
    ensures
        result@ == joined_path(
            directory@,
            encode_utf8(
                "."@ + package_name@ + ".receipt."@ + decimal(process as nat) + "."@ + decimal(
                    nonce as nat,
                ) + ".partial"@,
            ),
        ),
{
    let name = String::from_str(".").concat(package_name).concat(".receipt.").concat(
        decimal_text(process as u64).as_str(),
    ).concat(".").concat(wide_decimal_text(nonce).as_str()).concat(".partial");
    join_path(directory, name.as_str().as_bytes())
}

/// The state directory of the user counts only if it is absolute, the home
/// directory stands in for it, and what is found is absolute.
pub proof fn absolute_state_directories_count(
    state: Option<Seq<u8>>,
    home: Option<Seq<u8>>,
    path: Seq<u8>,
)
    ensures
        is_absolute_path(path) ==> state_root_of(Some(path), home) == Ok::<Seq<u8>, Seq<char>>(
            path,
        ),
        !is_absolute_path(path) ==> state_root_of(Some(path), home) == state_root_of(None, home),
        is_absolute_path(path) ==> state_root_of(None, Some(path)) == Ok::<Seq<u8>, Seq<char>>(
            joined_path(path, encode_utf8(".local/state"@)),
        ),
        state_root_of(None, None) is Err,
        state_root_of(state, home) matches Ok(root) ==> is_absolute_path(root),
{
}

} // verus!
