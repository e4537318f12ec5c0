//! The archive thumbnail extractor: scan an archive for the first entry, in
//! ascending order of raw name, that decodes as an image, and scale it to
//! fit a bounding box.

use vstd::prelude::*;
use vstd::string::StringExecFns;
use crate::archive::{
    archive_entries, archive_len, describe_zip_error, entry_content, entry_header, entry_sizes,
    open_archive, zip_entries, Archive, Entry, Sizes,
};
use crate::candidates::{
    ascending, lemma_mapping_domain, lemma_mapping_value, mapping_of, CandidateSet,
};
use crate::names::{name_le, name_lt};
use crate::picture::{image_height, image_width, keeps_shape};
use crate::scale::{decode_image, decoded_image, fit, fitted_image};
use crate::selection::{
    distinct_file_names, entry_image, entry_name, is_candidate, is_file_entry, is_selected,
    lemma_name_index, lemma_no_files_no_selection, lemma_no_images_no_selection,
    lemma_selected_image, lemma_selection_ignores_physical_order, lemma_selection_is_least,
    lemma_unreadable_content_is_passed_over, lemma_unreadable_metadata_is_passed_over, name_index,
    plausible_sizes, selected_image, yields_image,
};

verus! {

/// Errors which may occur generating a thumbnail.
#[derive(Debug)]
pub enum Error {
    /// The input could not be read as a zip archive.
    NotZip(zip::result::ZipError),
    /// No entry of the archive could be decoded as an image.
    NoImage,
    /// An image was found, but it cannot be scaled to the bounding box in
    /// the memory this machine can address.
    TooLarge,
}

/// The message for an input that is no archive: a fixed line, then the
/// reader's diagnostic.
pub fn not_zip_message(detail: &str) -> (r: String)
    ensures
        r@ == "archive could not be read as a zip file\n"@ + detail@,
{
    let mut text = "archive could not be read as a zip file\n".to_owned();
    text.append(detail);
    text
}

impl Error {
    /// A human-readable message for this error; for an input that is no
    /// archive it carries the reader's diagnostic on a line of its own.
    pub fn message(&self) -> (r: String)
        ensures
            match self {
                Error::NotZip(_) => exists|detail: Seq<char>|
                    r@ == "archive could not be read as a zip file\n"@ + detail,
                Error::NoImage => r@ == "archive contained no suitable image file"@,
                Error::TooLarge => r@ == "image is too large to be scaled to this size"@,
            },
    {
        match self {
            Error::NotZip(err) => {
                let detail = describe_zip_error(err);
                not_zip_message(detail.as_str())
            },
            Error::NoImage => "archive contained no suitable image file".to_owned(),
            Error::TooLarge => "image is too large to be scaled to this size".to_owned(),
        }
    }
}

/// What a call of `thumbnail` comes to.
pub enum Outcome {
    /// A thumbnail.
    Picture(image::DynamicImage),
    /// The input is no archive; the reader's diagnostic says why.
    NotZip(zip::result::ZipError),
    /// The archive holds no suitable image.
    NoImage,
    /// The image found cannot be scaled on this machine.
    TooLarge,
}

/// What a result of `thumbnail` comes to.
pub open spec fn outcome_of(result: Result<image::DynamicImage, Error>) -> Outcome {
    match result {
        Ok(picture) => Outcome::Picture(picture),
        Err(Error::NotZip(err)) => Outcome::NotZip(err),
        Err(Error::NoImage) => Outcome::NoImage,
        Err(Error::TooLarge) => Outcome::TooLarge,
    }
}

/// What scaling an image to a bounding box comes to.
pub open spec fn scaling_outcome(source: image::DynamicImage, width: u32, height: u32) -> Outcome {
    match fitted_image(source, width, height) {
        Some(picture) => Outcome::Picture(picture),
        None => Outcome::TooLarge,
    }
}

/// What `thumbnail` comes to on given bytes and a given bounding box: the
/// selected image of the archive, scaled to fit the box.
pub open spec fn thumbnail_outcome(archive: Seq<u8>, width: u32, height: u32) -> Outcome {
    match zip_entries(archive) {
        Err(err) => Outcome::NotZip(err),
        Ok(entries) => match selected_image(entries) {
            Some(source) => scaling_outcome(source, width, height),
            None => Outcome::NoImage,
        },
    }
}

/// An archive without a single regular file gives no image, whatever the
/// bounding box.
pub proof fn lemma_archive_without_files(archive: Seq<u8>, width: u32, height: u32)
    requires
        zip_entries(archive) is Ok,
        forall|i: int|
            0 <= i < zip_entries(archive)->Ok_0.len() ==> !is_file_entry(
                #[trigger] zip_entries(archive)->Ok_0[i],
            ),
    ensures
        thumbnail_outcome(archive, width, height) == Outcome::NoImage,
{
    lemma_no_files_no_selection(zip_entries(archive)->Ok_0);
}

/// An archive none of whose regular files yields an image gives no image,
/// whatever the bounding box.
pub proof fn lemma_archive_without_images(archive: Seq<u8>, width: u32, height: u32)
    requires
        zip_entries(archive) is Ok,
        forall|i: int|
            0 <= i < zip_entries(archive)->Ok_0.len() && is_file_entry(
                #[trigger] zip_entries(archive)->Ok_0[i],
            ) ==> entry_image(zip_entries(archive)->Ok_0[i]) is None,
    ensures
        thumbnail_outcome(archive, width, height) == Outcome::NoImage,
{
    lemma_no_images_no_selection(zip_entries(archive)->Ok_0);
}

/// In an archive in which some candidate yields an image, the outcome is
/// that of scaling the image of the candidate with the least name among
/// those that yield one, wherever they stand in the archive.
pub proof fn lemma_first_name_wins(archive: Seq<u8>, width: u32, height: u32, i: int)
    requires
        zip_entries(archive) is Ok,
        yields_image(zip_entries(archive)->Ok_0, i),
    ensures
        exists|k: int|
            {
                &&& #[trigger] is_selected(zip_entries(archive)->Ok_0, k)
                &&& name_le(
                    entry_name(zip_entries(archive)->Ok_0[k]),
                    entry_name(zip_entries(archive)->Ok_0[i]),
                )
                &&& thumbnail_outcome(archive, width, height) == scaling_outcome(
                    entry_image(zip_entries(archive)->Ok_0[k])->0,
                    width,
                    height,
                )
            },
{
    let entries = zip_entries(archive)->Ok_0;
    lemma_selection_is_least(entries, i);
    let k = choose|k: int|
        {
            &&& #[trigger] is_selected(entries, k)
            &&& selected_image(entries) == entry_image(entries[k])
            &&& name_le(entry_name(entries[k]), entry_name(entries[i]))
        };
    lemma_selected_image(entries, k);
}

/// Two archives that hold the same entries in different physical orders
/// give the same outcome, provided no two regular files bear the same
/// name.
pub proof fn lemma_physical_order_is_immaterial(
    first: Seq<u8>,
    second: Seq<u8>,
    width: u32,
    height: u32,
)
    requires
        zip_entries(first) is Ok,
        zip_entries(second) is Ok,
        zip_entries(first)->Ok_0.to_multiset() == zip_entries(second)->Ok_0.to_multiset(),
        distinct_file_names(zip_entries(first)->Ok_0),
    ensures
        thumbnail_outcome(first, width, height) == thumbnail_outcome(second, width, height),
{
    lemma_selection_ignores_physical_order(zip_entries(first)->Ok_0, zip_entries(second)->Ok_0);
}

/// An entry whose metadata cannot be read does not abort the scan: the
/// outcome is that of the archive without the entry.
pub proof fn lemma_unreadable_metadata_does_not_abort(
    damaged: Seq<u8>,
    sound: Seq<u8>,
    k: int,
    width: u32,
    height: u32,
)
    requires
        zip_entries(damaged) is Ok,
        zip_entries(sound) is Ok,
        0 <= k < zip_entries(damaged)->Ok_0.len(),
        zip_entries(damaged)->Ok_0[k].header is None,
        zip_entries(sound)->Ok_0 == zip_entries(damaged)->Ok_0.remove(k),
    ensures
        thumbnail_outcome(damaged, width, height) == thumbnail_outcome(sound, width, height),
{
    lemma_unreadable_metadata_is_passed_over(zip_entries(damaged)->Ok_0, k);
}

/// A regular file whose content cannot be opened, read to its end or
/// decoded does not abort the scan: the outcome is that of the archive
/// without the entry, provided no other regular file bears its name.
pub proof fn lemma_unreadable_content_does_not_abort(
    damaged: Seq<u8>,
    sound: Seq<u8>,
    k: int,
    width: u32,
    height: u32,
)
    requires
        zip_entries(damaged) is Ok,
        zip_entries(sound) is Ok,
        0 <= k < zip_entries(damaged)->Ok_0.len(),
        is_file_entry(zip_entries(damaged)->Ok_0[k]),
        zip_entries(damaged)->Ok_0[k].sizes is None || zip_entries(damaged)->Ok_0[k].content
            is None || decoded_image(zip_entries(damaged)->Ok_0[k].content->0) is None,
        forall|j: int|
            0 <= j < zip_entries(damaged)->Ok_0.len() && j != k && is_file_entry(
                #[trigger] zip_entries(damaged)->Ok_0[j],
            ) ==> entry_name(zip_entries(damaged)->Ok_0[j]) != entry_name(
                zip_entries(damaged)->Ok_0[k],
            ),
        zip_entries(sound)->Ok_0 == zip_entries(damaged)->Ok_0.remove(k),
    ensures
        thumbnail_outcome(damaged, width, height) == thumbnail_outcome(sound, width, height),
{
    lemma_unreadable_content_is_passed_over(zip_entries(damaged)->Ok_0, k);
}

/// Bytes that do not parse as an archive give `NotZip` with the reader's
/// diagnostic, whatever they are and whatever the bounding box.
pub proof fn lemma_not_an_archive(archive: Seq<u8>, width: u32, height: u32)
    requires
        zip_entries(archive) is Err,
    ensures
        thumbnail_outcome(archive, width, height) == Outcome::NotZip(
            zip_entries(archive)->Err_0,
        ),
{
}

/// The state of the scan after `done` candidates have been tried in vain,
/// with `pairs` the candidates in scan order: if the next one yields an
/// image it is the selected entry, and if none is left no entry yields one.
proof fn lemma_scan_step(entries: Seq<Entry>, pairs: Seq<(Seq<u8>, usize)>, done: int)
    requires
        entries.len() <= usize::MAX,
        ascending(pairs),
        mapping_of(pairs) == name_index(entries, entries.len() as int),
        0 <= done <= pairs.len(),
        forall|k: int|
            0 <= k < done ==> entry_image(entries[(#[trigger] pairs[k]).1 as int]) is None,
    ensures
        forall|k: int|
            0 <= k < pairs.len() ==> is_candidate(entries, (#[trigger] pairs[k]).1 as int)
                && entry_name(entries[pairs[k].1 as int]) == pairs[k].0,
        done < pairs.len() && entry_image(entries[pairs[done].1 as int]) is Some ==> is_selected(
            entries,
            pairs[done].1 as int,
        ),
        done == pairs.len() ==> forall|i: int| !yields_image(entries, i),
{
    let n = entries.len() as int;
    assert forall|k: int| 0 <= k < pairs.len() implies is_candidate(
        entries,
        (#[trigger] pairs[k]).1 as int,
    ) && entry_name(entries[pairs[k].1 as int]) == pairs[k].0 by {
        lemma_mapping_value(pairs, k);
        lemma_name_index(entries, n, pairs[k].0, pairs[k].1);
    }
    assert forall|i: int| yields_image(entries, i) implies exists|k: int|
        done <= k < pairs.len() && (#[trigger] pairs[k]).1 == i by {
        let name = entry_name(entries[i]);
        lemma_name_index(entries, n, name, i as usize);
        assert(mapping_of(pairs).contains_pair(name, i as usize));
        lemma_mapping_domain(pairs, name);
        let k = choose|k: int| 0 <= k < pairs.len() && (#[trigger] pairs[k]).0 == name;
        lemma_mapping_value(pairs, k);
        assert(pairs[k].1 == i);
    }
    if done < pairs.len() && entry_image(entries[pairs[done].1 as int]) is Some {
        let s = pairs[done].1 as int;
        assert forall|i: int| #[trigger] yields_image(entries, i) implies name_le(
            entry_name(entries[s]),
            entry_name(entries[i]),
        ) by {
            let k = choose|k: int| done <= k < pairs.len() && (#[trigger] pairs[k]).1 == i;
            if k > done {
                assert(name_lt(pairs[done].0, pairs[k].0));
            }
        }
    }
}

/// Whether an entry of these declared sizes may hold an image. A quotient
/// of uncompressed by compressed size above four says no; so does a
/// compressed size of zero.
pub fn plausible_image_sizes(size: u64, compressed_size: u64) -> (r: bool)
    ensures
        r == plausible_sizes(Sizes { size, compressed_size }),
        r == (compressed_size != 0 && size / compressed_size <= 4),
{
    match size.checked_div(compressed_size) {
        Some(quotient) => quotient <= 4,
        None => false,
    }
}

/// Build the candidate set of an archive: every regular-file entry whose
/// metadata can be read, by name. An entry whose metadata cannot be read is
/// passed over.
pub fn index_candidates(archive: &mut Archive) -> (set: CandidateSet)
    ensures
        archive_entries(*final(archive)) == archive_entries(*old(archive)),
        archive_entries(*old(archive)).len() <= usize::MAX,
        set.wf(),
        set.mapping() == name_index(
            archive_entries(*old(archive)),
            archive_entries(*old(archive)).len() as int,
        ),
{
    let ghost entries = archive_entries(*archive);
    let mut set = CandidateSet::new();
    let count = archive_len(archive);
    let mut index: usize = 0;
    while index < count
        invariant
            archive_entries(*archive) == entries,
            count == entries.len(),
            index <= count,
            set.wf(),
            set.mapping() == name_index(entries, index as int),
        decreases count - index,
    {
        match entry_header(archive, index) {
            Ok(header) => {
                if header.is_file {
                    set.insert(header.name, index);
                }
            },
            Err(_) => {},
        }
        index += 1;
    }
    set
}

/// Try one entry: open it, check that its sizes are plausible for an image,
/// read its content and decode it. Any failure on the way gives `None`.
pub fn load_entry(archive: &mut Archive, index: usize) -> (r: Option<image::DynamicImage>)
    ensures
        archive_entries(*final(archive)) == archive_entries(*old(archive)),
        r == if index < archive_entries(*old(archive)).len() {
            entry_image(archive_entries(*old(archive))[index as int])
        } else {
            None
        },
{
    let sizes = match entry_sizes(archive, index) {
        Ok(sizes) => sizes,
        Err(_) => {
            return None;
        },
    };
    if !plausible_image_sizes(sizes.size, sizes.compressed_size) {
        return None;
    }
    let content = match entry_content(archive, index) {
        Some(content) => content,
        None => {
            return None;
        },
    };
    decode_image(content.as_slice())
}

/// Scan an opened archive: try its candidates in ascending order of name
/// and return the first image obtained.
pub fn first_image(archive: &mut Archive) -> (r: Option<image::DynamicImage>)
    ensures
        archive_entries(*final(archive)) == archive_entries(*old(archive)),
        r == selected_image(archive_entries(*old(archive))),
        r is Some <==> exists|i: int| yields_image(archive_entries(*old(archive)), i),
{
    let ghost entries = archive_entries(*archive);
    let set = index_candidates(archive);
    let ghost pairs = set.order();
    let order = set.into_indices();
    let mut tried: usize = 0;
    while tried < order.len()
        invariant
            archive_entries(*archive) == entries,
            archive_entries(*old(archive)) == entries,
            entries.len() <= usize::MAX,
            ascending(pairs),
            mapping_of(pairs) == name_index(entries, entries.len() as int),
            order@.len() == pairs.len(),
            forall|k: int| 0 <= k < order@.len() ==> order@[k] == (#[trigger] pairs[k]).1,
            0 <= tried <= order@.len(),
            forall|k: int|
                0 <= k < tried ==> entry_image(entries[(#[trigger] pairs[k]).1 as int]) is None,
        decreases order@.len() - tried,
    {
        let index = order[tried];
        proof {
            lemma_scan_step(entries, pairs, tried as int);
            assert(is_candidate(entries, pairs[tried as int].1 as int));
        }
        match load_entry(archive, index) {
            Some(picture) => {
                proof {
                    lemma_selected_image(entries, index as int);
                }
                return Some(picture);
            },
            None => {},
        }
        tried += 1;
    }
    proof {
        lemma_scan_step(entries, pairs, tried as int);
    }
    None
}

/// Generate a thumbnail from a zip archive held in memory.
///
/// The entries that are regular files are tried in ascending byte-wise
/// order of their raw names; the first that decodes as an image is scaled
/// to fit within `width` by `height`, keeping its aspect ratio. An entry that
/// cannot be read or decoded is passed over. Where the image found cannot
/// be scaled to the box in the memory this machine can address, the call
/// says so and scales nothing.
pub fn thumbnail(archive: Vec<u8>, width: u32, height: u32) -> (r: Result<
    image::DynamicImage,
    Error,
>)
    ensures
        outcome_of(r) == thumbnail_outcome(archive@, width, height),
        zip_entries(archive@) matches Ok(entries) ==> (r is Ok || r matches Err(Error::TooLarge)
            <==> exists|i: int| yields_image(entries, i)),
        r matches Ok(picture) ==> zip_entries(archive@) matches Ok(entries) && selected_image(
            entries,
        ) matches Some(source) && keeps_shape(
            image_width(source),
            image_height(source),
            width,
            height,
            image_width(picture),
            image_height(picture),
        ),
{
    let mut file = match open_archive(archive) {
        Ok(file) => file,
        Err(err) => {
            return Err(Error::NotZip(err));
        },
    };
    match first_image(&mut file) {
        Some(picture) => match fit(&picture, width, height) {
            Some(scaled) => Ok(scaled),
            None => Err(Error::TooLarge),
        },
        None => Err(Error::NoImage),
    }
}

} // verus!
