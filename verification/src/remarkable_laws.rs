//! What is asked of the reMarkable cloud, and where its replies lead.
use vstd::prelude::*;

use crate::archive;
use crate::archive::{ArchiveError, EntriesView};
use crate::encoding;
use crate::http::{Method, RequestView};
use crate::json;
use crate::number;
use crate::remarkable;
use crate::remarkable::{DownloadError, DownloadRefView, FileEntry, FilesResponse, Remarkable};
use crate::text;

verus! {

/// Whether a text stands in a JSON string as it is.
pub open spec fn is_plain(s: Seq<char>) -> bool {
    forall|i: int| 0 <= i < s.len() ==> ' ' <= #[trigger] s[i] && s[i] != '"' && s[i] != '\\'
}

proof fn lemma_plain_char(c: char)
    requires
        ' ' <= c,
        c != '"',
        c != '\\',
    ensures
        json::escaped_char(c) == seq![c],
{
}

/// A text is put into a JSON string character by character, and most characters stand in it as they
/// are. A quotation mark and a backslash get a backslash before them.
pub proof fn json_strings_go_by_characters(a: Seq<char>, b: Seq<char>)
    ensures
        json::escaped(a + b) == json::escaped(a) + json::escaped(b),
        is_plain(a) ==> json::escaped(a) == a,
        json::escaped(seq!['"']) == seq!['\\', '"'],
        json::escaped(seq!['\\']) == seq!['\\', '\\'],
        json::quoted(a) == seq!['"'] + json::escaped(a) + seq!['"'],
    decreases a.len() + b.len(),
{
    assert(seq!['"'].drop_last() =~= Seq::<char>::empty());
    assert(seq!['\\'].drop_last() =~= Seq::<char>::empty());
    reveal_with_fuel(json::escaped, 2);
    assert(json::escaped(seq!['"']) =~= seq!['\\', '"']);
    assert(json::escaped(seq!['\\']) =~= seq!['\\', '\\']);
    if b.len() > 0 {
        json_strings_go_by_characters(a, b.drop_last());
        assert((a + b).drop_last() =~= a + b.drop_last());
        assert((a + b).last() == b.last());
        assert(json::escaped(a + b) =~= json::escaped(a) + json::escaped(b));
    } else {
        assert(a + b =~= a);
        assert(json::escaped(a) + json::escaped(b) =~= json::escaped(a));
        if is_plain(a) && a.len() > 0 {
            assert forall|i: int| 0 <= i < a.drop_last().len() implies ' '
                <= #[trigger] a.drop_last()[i] && a.drop_last()[i] != '"' && a.drop_last()[i]
                != '\\' by {
                assert(a[i] == a.drop_last()[i]);
            }
            json_strings_go_by_characters(a.drop_last(), b);
            let c = a[a.len() - 1];
            lemma_plain_char(c);
            assert(json::escaped(a) =~= a);
        }
    }
}

proof fn lemma_plain(a: Seq<char>)
    requires
        is_plain(a),
    ensures
        json::quoted(a) == seq!['"'] + a + seq!['"'],
{
    json_strings_go_by_characters(a, Seq::empty());
}

/// An object with one member.
proof fn lemma_one_member(a: (Seq<char>, Seq<char>))
    ensures
        json::object_text_of(seq![a]) == seq!['{'] + json::quoted(a.0) + seq![':'] + a.1 + seq!['}'],
{
    let f = |field: (Seq<char>, Seq<char>)| json::quoted(field.0) + seq![':'] + field.1;
    let parts = seq![a].map_values(f);
    assert(parts =~= seq![f(a)]);
    reveal_with_fuel(text::joined, 2);
    assert(text::joined(parts, seq![',']) =~= f(a));
    assert(json::object_text_of(seq![a]) =~= seq!['{'] + json::quoted(a.0) + seq![':'] + a.1
        + seq!['}']);
}

/// An object with two members.
proof fn lemma_two_members(a: (Seq<char>, Seq<char>), b: (Seq<char>, Seq<char>))
    ensures
        json::object_text_of(seq![a, b]) == seq!['{'] + json::quoted(a.0) + seq![':'] + a.1
            + seq![','] + json::quoted(b.0) + seq![':'] + b.1 + seq!['}'],
{
    let f = |field: (Seq<char>, Seq<char>)| json::quoted(field.0) + seq![':'] + field.1;
    let parts = seq![a, b].map_values(f);
    assert(parts =~= seq![f(a), f(b)]);
    reveal_with_fuel(text::joined, 3);
    assert(parts.drop_last() =~= seq![f(a)]);
    assert(text::joined(parts, seq![',']) =~= f(a) + seq![','] + f(b));
    assert(json::object_text_of(seq![a, b]) =~= seq!['{'] + json::quoted(a.0) + seq![':'] + a.1
        + seq![','] + json::quoted(b.0) + seq![':'] + b.1 + seq!['}']);
}

/// An object with three members.
proof fn lemma_three_members(
    a: (Seq<char>, Seq<char>),
    b: (Seq<char>, Seq<char>),
    c: (Seq<char>, Seq<char>),
)
    ensures
        json::object_text_of(seq![a, b, c]) == seq!['{'] + json::quoted(a.0) + seq![':'] + a.1
            + seq![','] + json::quoted(b.0) + seq![':'] + b.1 + seq![','] + json::quoted(c.0)
            + seq![':'] + c.1 + seq!['}'],
{
    let f = |field: (Seq<char>, Seq<char>)| json::quoted(field.0) + seq![':'] + field.1;
    let parts = seq![a, b, c].map_values(f);
    assert(parts =~= seq![f(a), f(b), f(c)]);
    reveal_with_fuel(text::joined, 4);
    assert(parts.drop_last() =~= seq![f(a), f(b)]);
    assert(seq![f(a), f(b)].drop_last() =~= seq![f(a)]);
    assert(text::joined(parts, seq![',']) =~= f(a) + seq![','] + f(b) + seq![','] + f(c));
    assert(json::object_text_of(seq![a, b, c]) =~= seq!['{'] + json::quoted(a.0) + seq![':'] + a.1
        + seq![','] + json::quoted(b.0) + seq![':'] + b.1 + seq![','] + json::quoted(c.0)
        + seq![':'] + c.1 + seq!['}']);
}

/// Whether a request is one to an address, by a method and with a bearer token.
pub open spec fn is_request(
    r: RequestView,
    method: Method,
    url: Seq<char>,
    bearer: Option<Seq<char>>,
) -> bool {
    &&& r.method == method
    &&& r.url == url
    &&& r.bearer == bearer
}

/// A device is registered with the code that the user got, as a browser, under its own identity, and
/// with an empty token.
pub proof fn pairing_sends_the_code(
    auth_host: Seq<char>,
    code: Seq<char>,
    device_id: Seq<char>,
)
    ensures
        ({
            let r = remarkable::pair_request(auth_host, code, device_id);
            &&& is_request(
                r,
                Method::Post,
                auth_host + "/token/json/2/device/new"@,
                Some(Seq::empty()),
            )
            &&& r.headers.len() == 0
            &&& r.body is Json
            &&& r.body->Json_0 == "{\"code\":"@ + json::quoted(code)
                + ",\"deviceDesc\":\"browser-chrome\",\"deviceID\":"@ + json::quoted(device_id)
                + "}"@
        }),
{
    let r = remarkable::pair_request(auth_host, code, device_id);
    reveal_strlit("code");
    reveal_strlit("deviceDesc");
    reveal_strlit("deviceID");
    reveal_strlit("browser-chrome");
    reveal_strlit("{\"code\":");
    reveal_strlit(",\"deviceDesc\":\"browser-chrome\",\"deviceID\":");
    reveal_strlit("}");
    lemma_plain("code"@);
    lemma_plain("deviceDesc"@);
    lemma_plain("deviceID"@);
    lemma_plain("browser-chrome"@);
    assert(remarkable::DEVICE_KIND@ == "browser-chrome"@);
    lemma_three_members(
        ("code"@, json::quoted(code)),
        ("deviceDesc"@, json::quoted("browser-chrome"@)),
        ("deviceID"@, json::quoted(device_id)),
    );
    assert(seq!['{'] + json::quoted("code"@) + seq![':'] =~= "{\"code\":"@);
    assert(seq![','] + json::quoted("deviceDesc"@) + seq![':'] + json::quoted("browser-chrome"@)
        + seq![','] + json::quoted("deviceID"@) + seq![':']
        =~= ",\"deviceDesc\":\"browser-chrome\",\"deviceID\":"@);
    assert(seq!['}'] =~= "}"@);
    assert(r.body->Json_0 =~= (seq!['{'] + json::quoted("code"@) + seq![':']) + json::quoted(code)
        + (seq![','] + json::quoted("deviceDesc"@) + seq![':'] + json::quoted("browser-chrome"@)
        + seq![','] + json::quoted("deviceID"@) + seq![':']) + json::quoted(device_id)
        + seq!['}']);
}

/// A session is asked for with the device token, without the whitespace round it, and an empty body.
pub proof fn connecting_sends_the_device_token(auth_host: Seq<char>, device_token: Seq<char>)
    ensures
        ({
            let r = remarkable::connect_request(auth_host, device_token);
            &&& is_request(
                r,
                Method::Post,
                auth_host + "/token/json/2/user/new"@,
                Some(text::trimmed(device_token)),
            )
            &&& r.headers.len() == 0
            &&& r.body is Bytes
            &&& r.body->Bytes_0.len() == 0
        }),
{
}

/// A new document or folder is described by its name, and by its folder where that has an identity.
pub proof fn new_files_are_described(name: Seq<char>, parent: Seq<char>)
    ensures
        remarkable::meta_text(name, None) == "{\"file_name\":"@ + json::quoted(name) + "}"@,
        parent.len() == 0 ==> remarkable::meta_text(name, Some(parent)) == "{\"file_name\":"@
            + json::quoted(name) + "}"@,
        parent.len() > 0 ==> remarkable::meta_text(name, Some(parent)) == "{\"file_name\":"@
            + json::quoted(name) + ",\"parent\":"@ + json::quoted(parent) + "}"@,
{
    reveal_strlit("file_name");
    reveal_strlit("parent");
    reveal_strlit("{\"file_name\":");
    reveal_strlit(",\"parent\":");
    reveal_strlit("}");
    lemma_plain("file_name"@);
    lemma_plain("parent"@);
    lemma_one_member(("file_name"@, json::quoted(name)));
    lemma_two_members(("file_name"@, json::quoted(name)), ("parent"@, json::quoted(parent)));
    assert(seq!['{'] + json::quoted("file_name"@) + seq![':'] =~= "{\"file_name\":"@);
    assert(seq![','] + json::quoted("parent"@) + seq![':'] =~= ",\"parent\":"@);
    assert(seq!['}'] =~= "}"@);
    assert(remarkable::meta_text(name, None) =~= "{\"file_name\":"@ + json::quoted(name) + "}"@);
    if parent.len() > 0 {
        assert(remarkable::meta_text(name, Some(parent)) =~= (seq!['{'] + json::quoted(
            "file_name"@,
        ) + seq![':']) + json::quoted(name) + (seq![','] + json::quoted("parent"@) + seq![':'])
            + json::quoted(parent) + seq!['}']);
    }
}

/// A PDF is stored as its own bytes, with its description in a header, and a folder is made in the same
/// way without any. The description is the UTF-8 of its text, in base64; it can be sent exactly where
/// that can be held in memory.
pub proof fn documents_and_folders_are_sent_with_their_description(
    session: Remarkable,
    name: Seq<char>,
    bytes: Seq<u8>,
    parent: Option<Seq<char>>,
)
    ensures
        ({
            let meta = vstd::utf8::encode_utf8(remarkable::meta_text(name, parent));
            let pdf = remarkable::upload_request(session, name, bytes, parent);
            let folder = remarkable::folder_request(session, name, parent);
            let url = session.upload_host@ + "/doc/v2/files"@;
            &&& is_request(pdf, Method::Post, url, Some(session.session_token@))
            &&& pdf.headers == seq![
                ("content-type"@, "application/pdf"@),
                ("rm-meta"@, encoding::base64_of(meta)),
                ("rm-source"@, "RoR-Browser"@),
            ]
            &&& pdf.body is Bytes
            &&& pdf.body->Bytes_0 == bytes
            &&& is_request(folder, Method::Post, url, Some(session.session_token@))
            &&& folder.headers == seq![
                ("content-type"@, "folder"@),
                ("content-length"@, "0"@),
                ("rm-meta"@, encoding::base64_of(meta)),
                ("rm-source"@, "RoR-Browser"@),
            ]
            &&& folder.body is Bytes
            &&& folder.body->Bytes_0.len() == 0
            &&& remarkable::meta_fits(name, parent) <==> encoding::base64_of(meta).len()
                <= isize::MAX
        }),
{
    encoding::base64_is_header_text(
        vstd::utf8::encode_utf8(remarkable::meta_text(name, parent)),
    );
}

/// A listing has the same entries whether they come alone or as a part of the reply.
pub proof fn listings_come_in_two_shapes(files: Vec<FileEntry>)
    ensures
        FilesResponse::Array(files).entries() == files.deep_view(),
        (FilesResponse::Wrapped { files }).entries() == files.deep_view(),
{
}

/// Bytes can be encoded exactly where their encoding can be held in memory.
pub proof fn what_fits_can_be_encoded(bytes: Seq<u8>)
    ensures
        encoding::base64_fits(bytes.len()) <==> encoding::base64_of(bytes).len() <= isize::MAX,
{
    encoding::base64_is_header_text(bytes);
}

/// All files are asked for at the address where new ones are sent.
pub proof fn listings_are_asked_for_where_files_go(session: Remarkable)
    ensures
        ({
            let r = remarkable::list_request(session);
            &&& is_request(
                r,
                Method::Get,
                session.upload_host@ + "/doc/v2/files"@,
                Some(session.session_token@),
            )
            &&& r.headers == seq![("rm-source"@, "RoR-Browser"@)]
            &&& r.body is Nothing
        }),
{
}

/// The place of a document's content is asked for by the document's identity.
pub proof fn downloads_name_the_document(session: Remarkable, doc_id: Seq<char>)
    ensures
        ({
            let r = remarkable::download_request(session, doc_id);
            &&& is_request(
                r,
                Method::Post,
                session.storage_host@
                    + "/document-storage/json/2/docs/download?withBlob=true"@,
                Some(session.session_token@),
            )
            &&& r.headers == seq![("content-type"@, "application/json"@)]
            &&& r.body is Json
            &&& r.body->Json_0 == "[{\"ID\":"@ + json::quoted(doc_id) + ",\"Version\":1}]"@
        }),
{
    let r = remarkable::download_request(session, doc_id);
    reveal_strlit("ID");
    reveal_strlit("Version");
    reveal_strlit("[{\"ID\":");
    reveal_strlit(",\"Version\":1}]");
    lemma_plain("ID"@);
    lemma_plain("Version"@);
    reveal_with_fuel(number::decimal_text, 2);
    let one = number::decimal_text(1);
    assert(one =~= seq!['1']);
    lemma_two_members(("ID"@, json::quoted(doc_id)), ("Version"@, one));
    assert(seq!['['] + seq!['{'] + json::quoted("ID"@) + seq![':'] =~= "[{\"ID\":"@);
    assert(seq![','] + json::quoted("Version"@) + seq![':'] + one + seq!['}'] + seq![']']
        =~= ",\"Version\":1}]"@);
    assert(r.body->Json_0 =~= (seq!['['] + seq!['{'] + json::quoted("ID"@) + seq![':'])
        + json::quoted(doc_id) + (seq![','] + json::quoted("Version"@) + seq![':'] + one
        + seq!['}'] + seq![']']));
}

/// The content of a document is where the first reference to the document says, without the whitespace
/// round it. Without a reference, or with an empty one, it is nowhere. It is fetched without any token.
pub proof fn the_first_reference_to_a_document_counts(
    refs: Seq<DownloadRefView>,
    doc_id: Seq<char>,
    i: int,
)
    requires
        forall|j: int| 0 <= j < i && j < refs.len() ==> (#[trigger] refs[j]).id != doc_id,
    ensures
        i >= refs.len() ==> remarkable::blob_url_in(refs, doc_id) == Err::<
            Seq<char>,
            DownloadError,
        >(DownloadError::NoInfo),
        0 <= i < refs.len() && refs[i].id == doc_id ==> {
            let url = text::trimmed(refs[i].blob_url);
            let r = remarkable::blob_url_in(refs, doc_id);
            &&& url.len() == 0 ==> r is Err && r->Err_0 is NoBlobUrl
            &&& url.len() > 0 ==> r is Ok && r->Ok_0 == url
        },
        ({
            let r = remarkable::blob_request_of(doc_id);
            is_request(r, Method::Get, doc_id, None) && r.headers.len() == 0 && r.body is Nothing
        }),
    decreases refs.len(),
{
    if refs.len() > 0 && i > 0 {
        let rest = refs.drop_first();
        assert(refs[0].id != doc_id);
        assert forall|j: int| 0 <= j < i - 1 && j < rest.len() implies (#[trigger] rest[j]).id
            != doc_id by {
            assert(refs[j + 1].id != doc_id);
        }
        the_first_reference_to_a_document_counts(rest, doc_id, i - 1);
    }
}

/// Whether a name ends in the ending of a PDF file, whatever the case of its letters.
pub open spec fn ends_as_pdf(name: Seq<char>) -> bool {
    let low = text::lower_text(name);
    low.len() >= 4 && low[low.len() - 4] == '.' && low[low.len() - 3] == 'p' && low[low.len() - 2]
        == 'd' && low[low.len() - 1] == 'f'
}

proof fn lemma_ends_as_pdf(name: Seq<char>)
    ensures
        archive::is_pdf_name(name) == ends_as_pdf(name),
{
    reveal_strlit(".pdf");
    let low = text::lower_text(name);
    if ends_as_pdf(name) {
        assert(low.skip(low.len() - 4) =~= ".pdf"@);
    }
    if archive::is_pdf_name(name) {
        let tail = low.skip(low.len() - 4);
        assert(tail[0] == low[low.len() - 4]);
        assert(tail[1] == low[low.len() - 3]);
        assert(tail[2] == low[low.len() - 2]);
        assert(tail[3] == low[low.len() - 1]);
    }
}

/// The first entry that is named by the document is the one that holds it.
pub proof fn the_first_own_entry_is_taken(
    names: Seq<Option<Seq<char>>>,
    doc_id: Seq<char>,
    i: int,
)
    requires
        0 <= i < names.len(),
        names[i] == Some(doc_id + ".pdf"@),
        forall|j: int| 0 <= j < i ==> #[trigger] names[j] != Some(doc_id + ".pdf"@),
    ensures
        archive::pdf_place(names, doc_id) == Ok::<int, ArchiveError>(i),
{
    archive::the_documents_own_entry_is_taken(names, doc_id, i);
}

/// Where no entry is named by the document, the entries are gone through in order. The first that ends
/// as PDF files do is taken; one that cannot be opened ends the search before, and so does the end of
/// the archive.
pub proof fn else_the_first_pdf_is_taken(
    names: Seq<Option<Seq<char>>>,
    doc_id: Seq<char>,
    i: int,
)
    requires
        0 <= i <= names.len(),
        forall|j: int| 0 <= j < names.len() ==> #[trigger] names[j] != Some(doc_id + ".pdf"@),
        forall|j: int|
            0 <= j < i ==> (#[trigger] names[j]) is Some && !ends_as_pdf(names[j]->0),
    ensures
        ({
            let r = archive::pdf_place(names, doc_id);
            &&& i == names.len() ==> r == Err::<int, ArchiveError>(ArchiveError::NoPdf)
            &&& i < names.len() && names[i] is None ==> r == Err::<int, ArchiveError>(
                ArchiveError::ClosedEntry,
            )
            &&& i < names.len() && names[i] is Some && ends_as_pdf(names[i]->0) ==> r == Ok::<
                int,
                ArchiveError,
            >(i)
        }),
{
    lemma_first_pdf(names, 0, i);
}

proof fn lemma_first_pdf(names: Seq<Option<Seq<char>>>, from: int, i: int)
    requires
        0 <= from <= i <= names.len(),
        forall|j: int|
            0 <= j < i ==> (#[trigger] names[j]) is Some && !ends_as_pdf(names[j]->0),
    ensures
        ({
            let r = archive::first_pdf(names, from);
            &&& i == names.len() ==> r == Err::<int, ArchiveError>(ArchiveError::NoPdf)
            &&& i < names.len() && names[i] is None ==> r == Err::<int, ArchiveError>(
                ArchiveError::ClosedEntry,
            )
            &&& i < names.len() && names[i] is Some && ends_as_pdf(names[i]->0) ==> r == Ok::<
                int,
                ArchiveError,
            >(i)
        }),
    decreases i - from,
{
    if from < i {
        assert(names[from] is Some);
        lemma_ends_as_pdf(names[from]->0);
        lemma_first_pdf(names, from + 1, i);
    } else if i < names.len() && names[i] is Some {
        lemma_ends_as_pdf(names[i]->0);
    }
}

/// What comes out of an archive is the whole content of the entry that was chosen by the names, and an
/// error where that cannot be read.
pub proof fn the_chosen_entry_comes_out(
    entries: EntriesView,
    names: Seq<Option<Seq<char>>>,
    doc_id: Seq<char>,
)
    requires
        names.len() == entries.len(),
        forall|i: int|
            0 <= i < names.len() ==> {
                &&& entries[i] is None ==> (#[trigger] names[i]) is None
                &&& entries[i] is Some ==> names[i] == Some((entries[i]->0).0)
            },
    ensures
        ({
            let r = archive::pdf_among(entries, doc_id);
            match archive::pdf_place(names, doc_id) {
                Err(e) => r == Err::<Seq<u8>, ArchiveError>(e),
                Ok(i) => match (entries[i]->0).1 {
                    Some(content) => r == Ok::<Seq<u8>, ArchiveError>(content),
                    None => r == Err::<Seq<u8>, ArchiveError>(ArchiveError::UnreadableEntry),
                },
            }
        }),
{
    assert(archive::names_of(entries) =~= names);
}

/// Bytes that are no archive hold no document, and those of an archive hold what its entries do.
pub proof fn archives_hold_what_their_entries_do(bytes: Seq<u8>, doc_id: Seq<char>)
    ensures
        archive::zip_entries(bytes) is None ==> archive::pdf_inside(bytes, doc_id) == Err::<
            Seq<u8>,
            ArchiveError,
        >(ArchiveError::NotAnArchive),
        archive::zip_entries(bytes) is Some ==> archive::pdf_inside(bytes, doc_id)
            == archive::pdf_among(archive::zip_entries(bytes)->0, doc_id),
{
}

} // verus!
