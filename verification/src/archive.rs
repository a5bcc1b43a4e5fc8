//! The archive in which a document comes from the tablet, and the PDF file inside it.
use vstd::prelude::*;

use crate::text;

verus! {

/// Why no PDF file came out of an archive.
#[derive(Debug, PartialEq, Eq, Clone, Copy)]
pub enum ArchiveError {
    /// The bytes are no ZIP archive.
    NotAnArchive,
    /// An entry could not be opened before a PDF file was found.
    ClosedEntry,
    /// The PDF file was found but its content could not be read.
    UnreadableEntry,
    /// The archive holds no PDF file.
    NoPdf,
}

/// The entries of an archive, in order: the name and the content of each entry that can be opened,
/// and nothing for one that cannot. A content that cannot be read is missing.
pub type EntriesView = Seq<Option<(Seq<char>, Option<Seq<u8>>)>>;

#[verifier::external_type_specification]
#[verifier::external_body]
#[verifier::reject_recursive_types(T)]
pub struct ExCursor<T>(std::io::Cursor<T>);

#[verifier::external_type_specification]
#[verifier::external_body]
#[verifier::reject_recursive_types(R)]
pub struct ExZipArchive<R>(zip::ZipArchive<R>);

#[verifier::external_type_specification]
#[verifier::external_body]
pub struct ExZipError(zip::result::ZipError);

/// What an opened archive holds.
pub uninterp spec fn archive_entries(
    archive: zip::ZipArchive<std::io::Cursor<Vec<u8>>>,
) -> Seq<Option<(Seq<char>, Option<Seq<u8>>)>>;

/// What `zip::ZipArchive::new` finds in some bytes: the entries, or nothing where it reports an error.
pub uninterp spec fn zip_entries(bytes: Seq<u8>) -> Option<Seq<Option<(Seq<char>, Option<Seq<u8>>)>>>;

/// `zip::ZipArchive::new` on bytes in memory: what it finds depends on the bytes alone.
#[verifier::external_body]
fn open_archive(bytes: Vec<u8>) -> (r: Result<
    zip::ZipArchive<std::io::Cursor<Vec<u8>>>,
    zip::result::ZipError,
>)
    ensures
        match r {
            Ok(archive) => zip_entries(bytes@) == Some(archive_entries(archive)),
            Err(_) => zip_entries(bytes@) is None,
        },
{
    zip::ZipArchive::new(std::io::Cursor::new(bytes))
}

/// `zip::ZipArchive::len`: the number of entries.
#[verifier::external_body]
fn archive_len(archive: &zip::ZipArchive<std::io::Cursor<Vec<u8>>>) -> (r: usize)
    ensures
        r == archive_entries(*archive).len(),
{
    archive.len()
}

/// `zip::ZipArchive::by_index` and the `name` of the entry that it opens. An error is reported for an
/// entry that cannot be opened (one that is encrypted or badly packed). The archive holds the same
/// afterwards.
#[verifier::external_body]
fn entry_name(archive: &mut zip::ZipArchive<std::io::Cursor<Vec<u8>>>, i: usize) -> (r: Result<
    String,
    zip::result::ZipError,
>)
    requires
        i < archive_entries(*old(archive)).len(),
    ensures
        archive_entries(*final(archive)) == archive_entries(*old(archive)),
        match r {
            Ok(name) => archive_entries(*old(archive))[i as int] is Some && name@
                == (archive_entries(*old(archive))[i as int]->0).0,
            Err(_) => archive_entries(*old(archive))[i as int] is None,
        },
{
    archive.by_index(i).map(|file| file.name().to_string())
}

/// `zip::ZipArchive::by_index` and `read_to_end` on the entry that it opens: the whole content, or
/// nothing where either reports an error. The archive holds the same afterwards.
#[verifier::external_body]
fn entry_content(archive: &mut zip::ZipArchive<std::io::Cursor<Vec<u8>>>, i: usize) -> (r: Option<
    Vec<u8>,
>)
    requires
        i < archive_entries(*old(archive)).len(),
    ensures
        archive_entries(*final(archive)) == archive_entries(*old(archive)),
        match r {
            Some(content) => archive_entries(*old(archive))[i as int] is Some && (archive_entries(
                *old(archive),
            )[i as int]->0).1 == Some(content@),
            None => archive_entries(*old(archive))[i as int] is Some ==> (archive_entries(
                *old(archive),
            )[i as int]->0).1 is None,
        },
{
    let mut file = archive.by_index(i).ok()?;
    let mut out = Vec::new();
    std::io::Read::read_to_end(&mut file, &mut out).ok()?;
    Some(out)
}

/// Whether a name ends as those of PDF files do, in upper or lower case.
pub open spec fn is_pdf_name(name: Seq<char>) -> bool {
    text::ends_in(text::lower_text(name), ".pdf"@)
}

/// The first entry that is named `name`.
pub open spec fn entry_named(names: Seq<Option<Seq<char>>>, name: Seq<char>) -> Option<int> {
    if exists|i: int| 0 <= i < names.len() && names[i] == Some(name) {
        Some(
            choose|i: int|
                0 <= i < names.len() && names[i] == Some(name) && forall|j: int|
                    0 <= j < i ==> names[j] != Some(name),
        )
    } else {
        None
    }
}

/// The first entry from `from` on that is named as a PDF file, unless one that cannot be opened
/// comes before it.
pub open spec fn first_pdf(names: Seq<Option<Seq<char>>>, from: int) -> Result<int, ArchiveError>
    decreases names.len() - from,
{
    if from >= names.len() {
        Err(ArchiveError::NoPdf)
    } else {
        match names[from] {
            None => Err(ArchiveError::ClosedEntry),
            Some(name) => if is_pdf_name(name) {
                Ok(from)
            } else {
                first_pdf(names, from + 1)
            },
        }
    }
}

/// The entry that holds the document: the one named by it, or else the first PDF file.
pub open spec fn pdf_place(names: Seq<Option<Seq<char>>>, doc_id: Seq<char>) -> Result<
    int,
    ArchiveError,
> {
    match entry_named(names, doc_id + ".pdf"@) {
        Some(i) => Ok(i),
        None => first_pdf(names, 0),
    }
}

/// The names of the entries.
pub open spec fn names_of(entries: EntriesView) -> Seq<Option<Seq<char>>> {
    Seq::new(
        entries.len(),
        |i: int|
            match entries[i] {
                Some(entry) => Some(entry.0),
                None => None,
            },
    )
}

/// The PDF file that an archive holds for a document.
pub open spec fn pdf_among(entries: EntriesView, doc_id: Seq<char>) -> Result<
    Seq<u8>,
    ArchiveError,
> {
    match pdf_place(names_of(entries), doc_id) {
        Err(e) => Err(e),
        Ok(i) => match (entries[i]->0).1 {
            Some(content) => Ok(content),
            None => Err(ArchiveError::UnreadableEntry),
        },
    }
}

/// The PDF file that some bytes hold for a document.
pub open spec fn pdf_inside(bytes: Seq<u8>, doc_id: Seq<char>) -> Result<Seq<u8>, ArchiveError> {
    match zip_entries(bytes) {
        None => Err(ArchiveError::NotAnArchive),
        Some(entries) => pdf_among(entries, doc_id),
    }
}

/// The result with its bytes as a sequence.
pub open spec fn shown(r: Result<Vec<u8>, ArchiveError>) -> Result<Seq<u8>, ArchiveError> {
    match r {
        Ok(bytes) => Ok(bytes@),
        Err(e) => Err(e),
    }
}

/// Chooses the entry that holds the document, given the names of the entries that can be opened.
pub fn pick_pdf(names: &Vec<Option<String>>, doc_id: &str) -> (r: Result<usize, ArchiveError>)
    ensures
        match r {
            Ok(i) => i < names@.len() && pdf_place(names.deep_view(), doc_id@) == Ok::<
                int,
                ArchiveError,
            >(i as int),
            Err(e) => pdf_place(names.deep_view(), doc_id@) == Err::<int, ArchiveError>(e),
        },
{
    let direct: String = doc_id.to_owned().concat(".pdf");
    let ghost shown_names = names.deep_view();
    let mut i: usize = 0;
    while i < names.len()
        invariant
            i <= names@.len(),
            shown_names == names.deep_view(),
            direct@ == doc_id@ + ".pdf"@,
            forall|j: int| 0 <= j < i ==> #[trigger] shown_names[j] != Some(direct@),
        decreases names@.len() - i,
    {
        match &names[i] {
            Some(name) => {
                if text::same_text(name.as_str(), direct.as_str()) {
                    assert(shown_names[i as int] == Some(direct@));
                    return Ok(i);
                }
            },
            None => {},
        }
        i += 1;
    }
    let mut k: usize = 0;
    while k < names.len()
        invariant
            k <= names@.len(),
            shown_names == names.deep_view(),
            first_pdf(shown_names, 0) == first_pdf(shown_names, k as int),
            pdf_place(shown_names, doc_id@) == first_pdf(shown_names, 0),
        decreases names@.len() - k,
    {
        match &names[k] {
            None => {
                return Err(ArchiveError::ClosedEntry);
            },
            Some(name) => {
                let low: String = text::to_ascii_lowercase(name.as_str());
                if text::ends_with(low.as_str(), ".pdf") {
                    return Ok(k);
                }
            },
        }
        k += 1;
    }
    Err(ArchiveError::NoPdf)
}

/// The PDF file in an archive of a document: the entry that is named by the document, or else the
/// first entry that is named as a PDF file.
pub fn pdf_from_zip(zip_bytes: Vec<u8>, doc_id: &str) -> (r: Result<Vec<u8>, ArchiveError>)
    ensures
        shown(r) == pdf_inside(zip_bytes@, doc_id@),
{
    let mut archive = match open_archive(zip_bytes) {
        Ok(archive) => archive,
        Err(_) => {
            return Err(ArchiveError::NotAnArchive);
        },
    };
    let ghost entries = archive_entries(archive);
    let count: usize = archive_len(&archive);
    let mut names: Vec<Option<String>> = Vec::new();
    let mut i: usize = 0;
    while i < count
        invariant
            i <= count == entries.len(),
            entries == archive_entries(archive),
            names.deep_view() == names_of(entries).take(i as int),
        decreases count - i,
    {
        let ghost before = names.deep_view();
        let name: Option<String> = match entry_name(&mut archive, i) {
            Ok(name) => Some(name),
            Err(_) => None,
        };
        names.push(name);
        assert(names.deep_view() =~= before.push(name.deep_view()));
        assert(names.deep_view() =~= names_of(entries).take(i + 1));
        i += 1;
    }
    assert(names.deep_view() =~= names_of(entries));
    match pick_pdf(&names, doc_id) {
        Err(e) => Err(e),
        Ok(place) => {
            proof {
                lemma_place_is_open(names_of(entries), doc_id@);
            }
            match entry_content(&mut archive, place) {
                Some(content) => Ok(content),
                None => Err(ArchiveError::UnreadableEntry),
            }
        },
    }
}

/// The entry chosen is one that can be opened.
proof fn lemma_place_is_open(names: Seq<Option<Seq<char>>>, doc_id: Seq<char>)
    ensures
        pdf_place(names, doc_id) matches Ok(i) ==> 0 <= i < names.len() && names[i] is Some,
{
    let name = doc_id + ".pdf"@;
    if exists|i: int| 0 <= i < names.len() && names[i] == Some(name) {
        let i = choose|i: int| 0 <= i < names.len() && names[i] == Some(name);
        lemma_first_exists(names, name, i);
    } else {
        lemma_first_pdf_is_open(names, 0);
    }
}

proof fn lemma_first_exists(names: Seq<Option<Seq<char>>>, name: Seq<char>, i: int)
    requires
        0 <= i < names.len(),
        names[i] == Some(name),
    ensures
        exists|k: int|
            0 <= k < names.len() && names[k] == Some(name) && forall|j: int|
                0 <= j < k ==> names[j] != Some(name),
    decreases i,
{
    if exists|j: int| 0 <= j < i && names[j] == Some(name) {
        let j = choose|j: int| 0 <= j < i && names[j] == Some(name);
        lemma_first_exists(names, name, j);
    }
}

proof fn lemma_first_pdf_is_open(names: Seq<Option<Seq<char>>>, from: int)
    requires
        0 <= from,
    ensures
        first_pdf(names, from) matches Ok(i) ==> from <= i < names.len() && names[i] is Some,
    decreases names.len() - from,
{
    if from < names.len() && names[from] is Some {
        lemma_first_pdf_is_open(names, from + 1);
    }
}

/// Wherever an entry is named by the document, it is that entry that is taken, whatever else the
/// archive holds.
pub proof fn the_documents_own_entry_is_taken(
    names: Seq<Option<Seq<char>>>,
    doc_id: Seq<char>,
    i: int,
)
    requires
        0 <= i < names.len(),
        names[i] == Some(doc_id + ".pdf"@),
    ensures
        pdf_place(names, doc_id) matches Ok(k) && 0 <= k <= i && names[k] == Some(doc_id + ".pdf"@),
{
    lemma_first_exists(names, doc_id + ".pdf"@, i);
}

} // verus!
