use vstd::prelude::*;
use vstd::string::*;

use crate::scan::{ScanError, ScanReport, Status};

verus! {

#[verifier::external_type_specification]
#[verifier::external_body]
pub struct ExHexError(blake3::HexError);

/// The value of one hexadecimal digit, of either case.
pub open spec fn hex_value(b: u8) -> Option<int> {
    if 48 <= b <= 57 {
        Some(b - 48)
    } else if 97 <= b <= 102 {
        Some(b - 87)
    } else if 65 <= b <= 70 {
        Some(b - 55)
    } else {
        None
    }
}

/// Whether `s` is a digest written as 64 hexadecimal digits.
pub open spec fn is_hex_digest(s: Seq<u8>) -> bool {
    s.len() == 64 && forall|i: int| 0 <= i < 64 ==> (#[trigger] hex_value(s[i])) is Some
}

/// The digest that 64 hexadecimal digits write, two digits to a byte, high digit first.
pub open spec fn hex_decoded(s: Seq<u8>) -> Seq<u8> {
    Seq::new(
        32,
        |i: int| (16 * hex_value(s[2 * i])->Some_0 + hex_value(s[2 * i + 1])->Some_0) as u8,
    )
}

/// Relies on blake3::Hash::from_hex: it accepts exactly 64 hexadecimal digits of
/// either case and reads two of them into each byte, high digit first.
#[verifier::external_body]
fn digest_from_hex(s: &str) -> (r: Result<[u8; 32], blake3::HexError>)
    ensures
        r is Ok <==> is_hex_digest(s.spec_bytes()),
        r matches Ok(h) ==> h@ == hex_decoded(s.spec_bytes()),
{
    match blake3::Hash::from_hex(s) {
        Ok(h) => Ok(*h.as_bytes()),
        Err(e) => Err(e),
    }
}

/// Why the archive cache cannot be used.
#[derive(Debug, Clone, Copy, PartialEq, Eq, Structural)]
pub enum CacheError {
    /// The expected digest is not 64 hexadecimal digits.
    InvalidDigest,
}

/// The digest that the caller expects of the archive, read from its hexadecimal form.
pub fn expected_digest(hex: &str) -> (r: Result<[u8; 32], CacheError>)
    ensures
        r is Ok <==> is_hex_digest(hex.spec_bytes()),
        r matches Ok(h) ==> h@ == hex_decoded(hex.spec_bytes()),
        r matches Err(e) ==> e == CacheError::InvalidDigest,
{
    match digest_from_hex(hex) {
        Ok(h) => Ok(h),
        Err(_) => Err(CacheError::InvalidDigest),
    }
}

/// The name of the cached archive for a digest: the digest followed by `.zip`.
pub fn cache_file_name(hex: &str) -> (r: String)
    ensures
        r@ == hex@ + ".zip"@,
{
    let mut name = String::from_str(hex);
    name.append(".zip");
    name
}

/// Whether the archive has to be fetched: it does unless the cached file exists
/// and has the expected digest.
pub fn needs_fetch(expected: &[u8; 32], on_disk: &Option<[u8; 32]>) -> (r: bool)
    ensures
        r == !(on_disk matches Some(h) && h@ == expected@),
{
    match on_disk {
        Some(h) => !crate::scan::digest_eq(h, expected),
        None => true,
    }
}

/// What an install keeps from the scan of its target: nothing on a first
/// install, the changes otherwise; any other failure stops it.
pub fn changes_to_preserve(scanned: Result<ScanReport, ScanError>) -> (r: Result<
    Option<ScanReport>,
    ScanError,
>)
    ensures
        scanned matches Ok(rep) ==> r == Ok::<Option<ScanReport>, ScanError>(Some(rep)),
        scanned == Err::<ScanReport, ScanError>(ScanError::IndexNotFoundError) ==> r == Ok::<
            Option<ScanReport>,
            ScanError,
        >(None),
        scanned matches Err(e) ==> (e != ScanError::IndexNotFoundError ==> r == Err::<
            Option<ScanReport>,
            ScanError,
        >(e)),
{
    match scanned {
        Ok(rep) => Ok(Some(rep)),
        Err(ScanError::IndexNotFoundError) => Ok(None),
        Err(e) => Err(e),
    }
}

/// How a preserved change is carried into the staged directory.
#[derive(Debug, Clone, Copy, PartialEq, Eq, Structural)]
pub enum Preserve {
    /// Remove the path from the staged directory.
    Remove,
    /// Copy the path from the old install over the staged directory.
    Overlay,
}

pub fn preserve_action(status: Status) -> (r: Preserve)
    ensures
        r == (if status == Status::Deleted {
            Preserve::Remove
        } else {
            Preserve::Overlay
        }),
{
    match status {
        Status::Deleted => Preserve::Remove,
        _ => Preserve::Overlay,
    }
}

/// What is at a destination path during a merge.
#[derive(Debug, Clone, Copy, PartialEq, Eq, Structural)]
pub enum DestKind {
    Absent,
    Directory,
    /// A file, a symbolic link or anything else that is not a directory.
    FileLike,
}

/// What has to go from a destination path before a merge step writes it.
#[derive(Debug, Clone, Copy, PartialEq, Eq, Structural)]
pub enum Removal {
    Nothing,
    File,
    DirectoryTree,
}

/// One step of overlaying a walked source path onto its destination.
#[derive(Debug, Clone, Copy, PartialEq, Eq, Structural)]
pub struct MergeStep {
    pub remove: Removal,
    pub create_dir: bool,
    pub copy_file: bool,
}

/// The merge table: directories overlay directories, anything else replaces
/// what is there.
pub open spec fn merge_table(src_is_dir: bool, dest: DestKind) -> MergeStep {
    if src_is_dir {
        match dest {
            DestKind::Directory => MergeStep { remove: Removal::Nothing, create_dir: false, copy_file: false },
            DestKind::FileLike => MergeStep { remove: Removal::File, create_dir: true, copy_file: false },
            DestKind::Absent => MergeStep { remove: Removal::Nothing, create_dir: true, copy_file: false },
        }
    } else {
        match dest {
            DestKind::Directory => MergeStep {
                remove: Removal::DirectoryTree,
                create_dir: false,
                copy_file: true,
            },
            _ => MergeStep { remove: Removal::Nothing, create_dir: false, copy_file: true },
        }
    }
}

pub fn merge_step(src_is_dir: bool, dest: DestKind) -> (r: MergeStep)
    ensures
        r == merge_table(src_is_dir, dest),
        r.create_dir == (src_is_dir && dest != DestKind::Directory),
        r.copy_file == !src_is_dir,
{
    if src_is_dir {
        match dest {
            DestKind::Directory => MergeStep { remove: Removal::Nothing, create_dir: false, copy_file: false },
            DestKind::FileLike => MergeStep { remove: Removal::File, create_dir: true, copy_file: false },
            DestKind::Absent => MergeStep { remove: Removal::Nothing, create_dir: true, copy_file: false },
        }
    } else {
        match dest {
            DestKind::Directory => MergeStep {
                remove: Removal::DirectoryTree,
                create_dir: false,
                copy_file: true,
            },
            _ => MergeStep { remove: Removal::Nothing, create_dir: false, copy_file: true },
        }
    }
}

} // verus!
