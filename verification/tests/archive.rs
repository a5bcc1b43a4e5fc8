use std::io::{Cursor, Write};

use zip::write::SimpleFileOptions;
use zip::ZipWriter;

use zoterable::archive::{pdf_from_zip, pick_pdf, ArchiveError};

fn archive(entries: &[(&str, &[u8])]) -> Vec<u8> {
    let mut writer = ZipWriter::new(Cursor::new(Vec::new()));
    for (name, content) in entries {
        writer.start_file(*name, SimpleFileOptions::default()).unwrap();
        writer.write_all(content).unwrap();
    }
    writer.finish().unwrap().into_inner()
}

fn names(list: &[Option<&str>]) -> Vec<Option<String>> {
    list.iter().map(|n| n.map(|n| n.to_string())).collect()
}

#[test]
fn the_entry_named_by_the_document_is_taken() {
    let zip = archive(&[("other.pdf", b"no"), ("d1.content", b"{}"), ("d1.pdf", b"%PDF-1")]);
    assert_eq!(pdf_from_zip(zip, "d1"), Ok(b"%PDF-1".to_vec()));
}

#[test]
fn else_the_first_pdf_is_taken() {
    let zip = archive(&[("d1.metadata", b"m"), ("x/Scan.PDF", b"first"), ("b.pdf", b"second")]);
    assert_eq!(pdf_from_zip(zip, "d1"), Ok(b"first".to_vec()));
}

#[test]
fn an_archive_without_a_pdf_is_refused() {
    let zip = archive(&[("d1.content", b"{}"), ("pdf", b"no")]);
    assert_eq!(pdf_from_zip(zip, "d1"), Err(ArchiveError::NoPdf));
    assert_eq!(pdf_from_zip(archive(&[]), "d1"), Err(ArchiveError::NoPdf));
}

#[test]
fn bytes_that_are_no_archive_are_refused() {
    assert_eq!(pdf_from_zip(b"%PDF-1.4 not a zip".to_vec(), "d1"), Err(ArchiveError::NotAnArchive));
    assert_eq!(pdf_from_zip(Vec::new(), "d1"), Err(ArchiveError::NotAnArchive));
}

#[test]
fn a_damaged_pdf_cannot_be_read() {
    let mut zip = archive(&[("d1.pdf", b"some content that is long enough to be packed")]);
    // The content follows the local header of 30 bytes and the name.
    let at = 30 + "d1.pdf".len() + 3;
    zip[at] ^= 0xff;
    zip[at + 1] ^= 0xff;
    assert_eq!(pdf_from_zip(zip, "d1"), Err(ArchiveError::UnreadableEntry));
}

#[test]
fn an_encrypted_entry_cannot_be_opened() {
    let mut zip = archive(&[("d1.pdf", b"content")]);
    // The flag that marks an entry as encrypted, in the local and in the central header.
    zip[6] |= 1;
    let central = zip.windows(4).rposition(|w| w == b"PK\x01\x02").unwrap();
    zip[central + 8] |= 1;
    assert_eq!(pdf_from_zip(zip, "d1"), Err(ArchiveError::ClosedEntry));
}

#[test]
fn the_place_of_the_pdf_is_chosen_by_name() {
    assert_eq!(pick_pdf(&names(&[Some("a.pdf"), Some("d.pdf")]), "d"), Ok(1));
    assert_eq!(pick_pdf(&names(&[Some("a"), Some("A.Pdf")]), "d"), Ok(1));
    assert_eq!(pick_pdf(&names(&[None, Some("d.pdf")]), "d"), Ok(1));
    assert_eq!(pick_pdf(&names(&[None, Some("a.pdf")]), "d"), Err(ArchiveError::ClosedEntry));
    assert_eq!(pick_pdf(&names(&[Some("a.pdf"), None]), "d"), Ok(0));
    assert_eq!(pick_pdf(&names(&[Some("a.txt")]), "d"), Err(ArchiveError::NoPdf));
}
