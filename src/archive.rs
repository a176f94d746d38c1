use vstd::prelude::*;
use vstd::string::StringSliceAdditionalSpecFns;
use vstd::utf8::encode_utf8;

verus! {

/// The container formats an archive can have.
#[derive(Debug, Clone, Copy, PartialEq, Eq, Structural)]
pub enum ArchiveKind {
    Tar,
    TarGz,
    TarBz2,
    TarXz,
    Zip,
}

/// Why an archive operation failed.
#[derive(Debug, Clone, Copy, PartialEq, Eq, Structural)]
pub enum ArchiveError {
    /// Reading or writing a file failed, or a compressed stream was corrupt.
    Io,
    /// The archive's structure could not be parsed.
    Malformed,
    /// The extension names no supported format.
    UnsupportedFormat,
}

/// The format an extension (or a declared archive type) names: `tar`, `gz`,
/// `bz2`, `xz` or `zip`.
pub open spec fn kind_of_ext(e: Seq<u8>) -> Option<ArchiveKind> {
    if e.len() == 3 && e[0] == 116u8 && e[1] == 97u8 && e[2] == 114u8 {
        Some(ArchiveKind::Tar)
    } else if e.len() == 2 && e[0] == 103u8 && e[1] == 122u8 {
        Some(ArchiveKind::TarGz)
    } else if e.len() == 3 && e[0] == 98u8 && e[1] == 122u8 && e[2] == 50u8 {
        Some(ArchiveKind::TarBz2)
    } else if e.len() == 2 && e[0] == 120u8 && e[1] == 122u8 {
        Some(ArchiveKind::TarXz)
    } else if e.len() == 3 && e[0] == 122u8 && e[1] == 105u8 && e[2] == 112u8 {
        Some(ArchiveKind::Zip)
    } else {
        None
    }
}

fn kind_of_bytes(b: &[u8], start: usize) -> (r: Option<ArchiveKind>)
    requires
        start <= b@.len(),
    ensures
        r == kind_of_ext(b@.subrange(start as int, b@.len() as int)),
{
    let ghost e = b@.subrange(start as int, b@.len() as int);
    let n = b.len() - start;
    assert(e.len() == n);
    if n == 3 {
        assert(e[0] == b@[start as int] && e[1] == b@[start + 1] && e[2] == b@[start + 2]);
        if b[start] == 116u8 && b[start + 1] == 97u8 && b[start + 2] == 114u8 {
            Some(ArchiveKind::Tar)
        } else if b[start] == 98u8 && b[start + 1] == 122u8 && b[start + 2] == 50u8 {
            Some(ArchiveKind::TarBz2)
        } else if b[start] == 122u8 && b[start + 1] == 105u8 && b[start + 2] == 112u8 {
            Some(ArchiveKind::Zip)
        } else {
            None
        }
    } else if n == 2 {
        assert(e[0] == b@[start as int] && e[1] == b@[start + 1]);
        if b[start] == 103u8 && b[start + 1] == 122u8 {
            Some(ArchiveKind::TarGz)
        } else if b[start] == 120u8 && b[start + 1] == 122u8 {
            Some(ArchiveKind::TarXz)
        } else {
            None
        }
    } else {
        None
    }
}

/// The extension of a path as `Path::extension` reads it, by components.
pub uninterp spec fn path_extension_of(path: Seq<char>) -> Option<Seq<char>>;

/// Relies on `Path::extension`: the extension of the last component of the
/// path, if that component has one.
#[verifier::external_body]
fn path_extension(path: &str) -> (r: Option<String>)
    ensures
        (match r {
            Some(e) => Some(e@),
            None => None,
        }) == path_extension_of(path@),
{
    std::path::Path::new(path).extension().map(|e| e.to_string_lossy().into_owned())
}

/// The format an extension names: `tar`, `gz`, `bz2`, `xz` or `zip`; any
/// other extension, or none, is `UnsupportedFormat`.
pub fn kind_from_extension(ext: Option<&str>) -> (r: Result<ArchiveKind, ArchiveError>)
    ensures
        r == (match ext {
            Some(e) => match kind_of_ext(e.spec_bytes()) {
                Some(k) => Ok(k),
                None => Err(ArchiveError::UnsupportedFormat),
            },
            None => Err(ArchiveError::UnsupportedFormat),
        }),
{
    match ext {
        Some(e) => {
            let b = e.as_bytes();
            assert(b@.subrange(0, b@.len() as int) =~= b@);
            match kind_of_bytes(b, 0) {
                Some(k) => Ok(k),
                None => Err(ArchiveError::UnsupportedFormat),
            }
        },
        None => Err(ArchiveError::UnsupportedFormat),
    }
}

/// The format of an archive, chosen by the extension of its path alone.
pub fn kind_from_path(path: &str) -> (r: Result<ArchiveKind, ArchiveError>)
    ensures
        r == (match path_extension_of(path@) {
            Some(e) => match kind_of_ext(encode_utf8(e)) {
                Some(k) => Ok(k),
                None => Err(ArchiveError::UnsupportedFormat),
            },
            None => Err(ArchiveError::UnsupportedFormat),
        }),
{
    match path_extension(path) {
        Some(e) => kind_from_extension(Some(e.as_str())),
        None => kind_from_extension(None),
    }
}

/// The format a catalog declares for an artifact (`tar`, `gz`, `bz2`, `xz`
/// or `zip`); a run extracts by this kind, not by the downloaded file's name.
pub fn kind_from_declared(archive_type: &str) -> (r: Result<ArchiveKind, ArchiveError>)
    ensures
        r == (match kind_of_ext(archive_type.spec_bytes()) {
            Some(k) => Ok(k),
            None => Err(ArchiveError::UnsupportedFormat),
        }),
{
    kind_from_extension(Some(archive_type))
}

/// Whether a zip entry stands for a directory: its name ends with `/`.
pub fn zip_entry_is_dir(name: &str) -> (r: bool)
    ensures
        r == (name.spec_bytes().len() > 0 && name.spec_bytes().last() == 47u8),
{
    let b = name.as_bytes();
    b.len() > 0 && b[b.len() - 1] == 47u8
}

/// The part of `path` below `base`, compared component by component, as
/// `Path::strip_prefix` gives it; `None` when `path` does not lie in `base`.
pub uninterp spec fn stripped_of(path: Seq<char>, base: Seq<char>) -> Option<Seq<char>>;

/// Relies on `Path::strip_prefix`: the rest of `path` after the components
/// of `base`, or an error when `base` is not a prefix of `path`.
#[verifier::external_body]
fn strip_prefix(path: &str, base: &str) -> (r: Option<String>)
    ensures
        (match r {
            Some(s) => Some(s@),
            None => None,
        }) == stripped_of(path@, base@),
{
    std::path::Path::new(path).strip_prefix(base).ok().map(|p| p.to_string_lossy().into_owned())
}

/// The name a file is archived under, given what stripping the working
/// directory from its path gave: that rest, or else the path itself.
pub fn entry_name_from(path: &str, stripped: Option<String>) -> (r: String)
    ensures
        r@ == (match stripped {
            Some(s) => s@,
            None => path@,
        }),
{
    match stripped {
        Some(s) => s,
        None => path.to_owned(),
    }
}

/// The name a file is archived under: its path relative to the working
/// directory `cwd`, or the path itself when it does not lie below `cwd`.
pub fn entry_name(path: &str, cwd: &str) -> (r: String)
    ensures
        r@ == (match stripped_of(path@, cwd@) {
            Some(s) => s,
            None => path@,
        }),
{
    let stripped = strip_prefix(path, cwd);
    entry_name_from(path, stripped)
}

} // verus!
