//! The archive as the scan sees it: an indexed container of entries, read
//! through the `zip` crate.
//!
//! Nothing in this module is proved. It declares the outside types, gives
//! names to what the outside reader reports, and wraps each call that the
//! scan makes. The contracts here are the assumptions on which the proofs
//! of the scan rest.

use vstd::prelude::*;

verus! {

/// `std::io::Cursor`, the seekable byte source the archive is read from.
#[verifier::external_type_specification]
#[verifier::external_body]
#[verifier::reject_recursive_types(T)]
pub struct ExCursor<T>(std::io::Cursor<T>);

/// `zip::ZipArchive`, an opened archive.
#[verifier::external_type_specification]
#[verifier::external_body]
#[verifier::reject_recursive_types(R)]
pub struct ExZipArchive<R>(zip::ZipArchive<R>);

/// `zip::result::ZipError`, the diagnostic of a failed archive operation.
#[verifier::external_type_specification]
#[verifier::external_body]
pub struct ExZipError(zip::result::ZipError);

/// Name and kind of an entry, as its metadata gives them.
pub struct Header {
    /// The raw bytes of the entry's name.
    pub name: Seq<u8>,
    /// Whether the entry is a regular file (neither directory nor symlink).
    pub is_file: bool,
}

/// The sizes an entry declares.
pub struct Sizes {
    /// Size of the content once decompressed.
    pub size: u64,
    /// Size of the content as stored in the archive.
    pub compressed_size: u64,
}

/// What the reader reports of one entry. Each part is `None` where the
/// corresponding read fails.
pub struct Entry {
    /// Metadata, read without decompressing.
    pub header: Option<Header>,
    /// Declared sizes, available once the entry is opened for reading.
    pub sizes: Option<Sizes>,
    /// The decompressed content, available if the entry opens and reads to
    /// its end.
    pub content: Option<Seq<u8>>,
}

/// An opened in-memory archive.
pub type Archive = zip::ZipArchive<std::io::Cursor<Vec<u8>>>;

/// The entries of an opened archive, by index.
pub uninterp spec fn archive_entries(archive: zip::ZipArchive<std::io::Cursor<Vec<u8>>>) -> Seq<Entry>;

/// The entries that a byte string holds when read as an archive, or the
/// reader's diagnostic if it cannot be parsed as one.
pub uninterp spec fn zip_entries(bytes: Seq<u8>) -> Result<Seq<Entry>, zip::result::ZipError>;

/// Metadata of an entry, as plain values.
#[derive(Debug)]
pub struct EntryHeader {
    pub name: Vec<u8>,
    pub is_file: bool,
}

impl View for EntryHeader {
    type V = Header;

    open spec fn view(&self) -> Header {
        Header { name: self.name@, is_file: self.is_file }
    }
}

/// Declared sizes of an entry, as plain values.
#[derive(Debug, Clone, Copy)]
pub struct EntrySizes {
    pub size: u64,
    pub compressed_size: u64,
}

impl View for EntrySizes {
    type V = Sizes;

    open spec fn view(&self) -> Sizes {
        Sizes { size: self.size, compressed_size: self.compressed_size }
    }
}

/// Calls `zip::ZipArchive::new` on a cursor over `bytes`.
///
/// Assumed: whether the bytes parse, the entries the opened archive then
/// reports, and the diagnostic where they do not parse, depend on the bytes
/// alone.
#[verifier::external_body]
pub(crate) fn open_archive(bytes: Vec<u8>) -> (r: Result<
    zip::ZipArchive<std::io::Cursor<Vec<u8>>>,
    zip::result::ZipError,
>)
    ensures
        match r {
            Ok(archive) => zip_entries(bytes@) == Ok::<Seq<Entry>, zip::result::ZipError>(
                archive_entries(archive),
            ),
            Err(err) => zip_entries(bytes@) == Err::<Seq<Entry>, zip::result::ZipError>(err),
        },
{
    zip::ZipArchive::new(std::io::Cursor::new(bytes))
}

/// Calls `zip::ZipArchive::len`.
///
/// Assumed: it is the number of entries that can be asked for by index.
#[verifier::external_body]
pub(crate) fn archive_len(archive: &zip::ZipArchive<std::io::Cursor<Vec<u8>>>) -> (n: usize)
    ensures
        n == archive_entries(*archive).len(),
{
    archive.len()
}

/// Calls `zip::ZipArchive::by_index_raw` and copies out the raw name
/// (`name_raw`) and the kind (`is_file`).
///
/// Assumed: the call leaves the archive's entries as they were; it fails
/// for an index past the end and where the entry's record cannot be read.
#[verifier::external_body]
pub(crate) fn entry_header(
    archive: &mut zip::ZipArchive<std::io::Cursor<Vec<u8>>>,
    index: usize,
) -> (r: Result<EntryHeader, zip::result::ZipError>)
    ensures
        archive_entries(*final(archive)) == archive_entries(*old(archive)),
        match r {
            Ok(header) => index < archive_entries(*old(archive)).len() && archive_entries(
                *old(archive),
            )[index as int].header == Some(header@),
            Err(_) => index >= archive_entries(*old(archive)).len() || archive_entries(
                *old(archive),
            )[index as int].header is None,
        },
{
    match archive.by_index_raw(index) {
        Ok(file) => Ok(EntryHeader { name: file.name_raw().to_vec(), is_file: file.is_file() }),
        Err(err) => Err(err),
    }
}

/// Calls `zip::ZipArchive::by_index` and copies out the declared sizes
/// (`size`, `compressed_size`).
///
/// Assumed: the call leaves the archive's entries as they were; it fails
/// for an index past the end and where the entry cannot be opened for
/// reading.
#[verifier::external_body]
pub(crate) fn entry_sizes(
    archive: &mut zip::ZipArchive<std::io::Cursor<Vec<u8>>>,
    index: usize,
) -> (r: Result<EntrySizes, zip::result::ZipError>)
    ensures
        archive_entries(*final(archive)) == archive_entries(*old(archive)),
        match r {
            Ok(sizes) => index < archive_entries(*old(archive)).len() && archive_entries(
                *old(archive),
            )[index as int].sizes == Some(sizes@),
            Err(_) => index >= archive_entries(*old(archive)).len() || archive_entries(
                *old(archive),
            )[index as int].sizes is None,
        },
{
    match archive.by_index(index) {
        Ok(file) => Ok(EntrySizes { size: file.size(), compressed_size: file.compressed_size() }),
        Err(err) => Err(err),
    }
}

/// Calls `zip::ZipArchive::by_index` and reads the opened entry to its end
/// (`std::io::Read::read_to_end`).
///
/// Assumed: the call leaves the archive's entries as they were; it yields
/// the decompressed content, or nothing where the entry cannot be opened or
/// the read fails partway.
#[verifier::external_body]
pub(crate) fn entry_content(
    archive: &mut zip::ZipArchive<std::io::Cursor<Vec<u8>>>,
    index: usize,
) -> (r: Option<Vec<u8>>)
    ensures
        archive_entries(*final(archive)) == archive_entries(*old(archive)),
        match r {
            Some(content) => index < archive_entries(*old(archive)).len() && archive_entries(
                *old(archive),
            )[index as int].content == Some(content@),
            None => index >= archive_entries(*old(archive)).len() || archive_entries(
                *old(archive),
            )[index as int].content is None,
        },
{
    let mut content = Vec::new();
    match archive.by_index(index) {
        Ok(mut file) => match std::io::Read::read_to_end(&mut file, &mut content) {
            Ok(_) => Some(content),
            Err(_) => None,
        },
        Err(_) => None,
    }
}

/// Formats a `zip::result::ZipError` through its `Display` impl. Nothing
/// is assumed of the text.
#[verifier::external_body]
pub(crate) fn describe_zip_error(err: &zip::result::ZipError) -> String {
    format!("{err}")
}

} // verus!
