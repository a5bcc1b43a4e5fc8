//! What a run asks for, what it is told, and what it has to say.
use vstd::prelude::*;

use crate::archive::ArchiveError;
use crate::number;
use crate::remarkable::{FileEntry, FileEntryView};
use crate::text;
use crate::zotero::{Collection, CollectionView, Item, ItemView};

verus! {

/// What is to be done next.
#[derive(Debug, PartialEq, Eq)]
pub enum Action {
    /// List the collections of a library.
    ListCollections { library: String },
    /// List the stored PDF attachments of a library that changed after a version.
    ListAttachments { library: String, since: u64 },
    /// Fetch the publication that an attachment belongs to.
    FetchParent { library: String, key: String },
    /// Download the file of an attachment from Zotero.
    DownloadPdf { library: String, key: String },
    /// Open a session with the reMarkable cloud.
    Connect,
    /// List all files in the reMarkable cloud.
    ListFiles,
    /// Make a folder in the reMarkable cloud.
    CreateFolder { name: String, parent: Option<String> },
    /// Upload a document to the reMarkable cloud.
    UploadPdf { name: String, bytes: Vec<u8>, parent: Option<String> },
    /// Download the archive of a document from the reMarkable cloud.
    DownloadArchive { doc_id: String },
    /// Upload a new version of an attachment's file to Zotero.
    UploadAttachment { library: String, key: String, filename: String, bytes: Vec<u8> },
    /// Write the state down.
    Save,
    /// Stop.
    Finish(Outcome),
}

/// How a run ends.
#[derive(Debug, PartialEq, Eq, Clone, Copy)]
pub enum Outcome {
    /// Everything was done.
    Done,
    /// So many steps failed; they will be retried on the next run.
    Failed { failures: usize },
    /// The run could not go on.
    Aborted(Trouble),
}

/// Why a run cannot go on.
#[derive(Debug, PartialEq, Eq, Clone, Copy)]
pub enum Trouble {
    /// The collections of a library could not be listed.
    Collections,
    /// The attachments of a library could not be listed.
    Attachments,
    /// No session with the reMarkable cloud could be opened.
    Connection,
    /// The files in the reMarkable cloud could not be listed.
    Listing,
    /// A folder could not be made.
    Folder,
    /// The state could not be written down.
    Save,
    /// The collections round a publication lead back to themselves.
    CircularCollections,
    /// The reply is not one to the request that was made.
    OutOfTurn,
}

/// What came of a download from Zotero.
#[derive(Debug, PartialEq, Eq)]
pub enum PdfReply {
    Stored(Vec<u8>),
    /// Zotero has no file for the attachment.
    Missing,
    Failed,
}

/// What came of an action. Where nothing is given, the action failed.
#[derive(Debug, PartialEq, Eq)]
pub enum Event {
    Collections(Option<Vec<Collection>>),
    /// The attachments and the version that the library has now.
    Attachments(Option<(Vec<Item>, u64)>),
    Parent(Option<Item>),
    Pdf(PdfReply),
    Connected(bool),
    Files(Option<Vec<FileEntry>>),
    FolderCreated(Option<FileEntry>),
    Uploaded(Option<FileEntry>),
    Archive(Option<Vec<u8>>),
    WrittenBack(bool),
    Saved(bool),
}

/// Something to tell the user.
#[derive(Debug, PartialEq, Eq)]
pub enum Note {
    Fetching { library: String, since: u64 },
    Counted { library: String, changed: usize, new: usize, updated: usize },
    WouldUpload { name: String, folder_path: Vec<String> },
    WrittenBack { file_name: String },
    /// A marked-up copy could not be written back: for the archive's sake where a cause is given,
    /// else because an action failed.
    WriteBackFailed { key: String, cause: Option<ArchiveError> },
    Skipped { name: String },
    Uploaded { name: String },
    UploadFailed { name: String },
    FetchingAll { library: String },
    Marked { library: String, count: usize, already: usize },
    BaselineDone,
}

/// What an [`Action`] holds.
pub enum ActionView {
    ListCollections { library: Seq<char> },
    ListAttachments { library: Seq<char>, since: u64 },
    FetchParent { library: Seq<char>, key: Seq<char> },
    DownloadPdf { library: Seq<char>, key: Seq<char> },
    Connect,
    ListFiles,
    CreateFolder { name: Seq<char>, parent: Option<Seq<char>> },
    UploadPdf { name: Seq<char>, bytes: Seq<u8>, parent: Option<Seq<char>> },
    DownloadArchive { doc_id: Seq<char> },
    UploadAttachment {
        library: Seq<char>,
        key: Seq<char>,
        filename: Seq<char>,
        bytes: Seq<u8>,
    },
    Save,
    Finish(Outcome),
}

/// What a [`PdfReply`] holds.
pub enum PdfReplyView {
    Stored(Seq<u8>),
    Missing,
    Failed,
}

/// What an [`Event`] holds.
pub enum EventView {
    Collections(Option<Seq<CollectionView>>),
    Attachments(Option<(Seq<ItemView>, u64)>),
    Parent(Option<ItemView>),
    Pdf(PdfReplyView),
    Connected(bool),
    Files(Option<Seq<FileEntryView>>),
    FolderCreated(Option<FileEntryView>),
    Uploaded(Option<FileEntryView>),
    Archive(Option<Seq<u8>>),
    WrittenBack(bool),
    Saved(bool),
}

/// What a [`Note`] holds.
pub enum NoteView {
    Fetching { library: Seq<char>, since: u64 },
    Counted { library: Seq<char>, changed: nat, new: nat, updated: nat },
    WouldUpload { name: Seq<char>, folder_path: Seq<Seq<char>> },
    WrittenBack { file_name: Seq<char> },
    WriteBackFailed { key: Seq<char>, cause: Option<ArchiveError> },
    Skipped { name: Seq<char> },
    Uploaded { name: Seq<char> },
    UploadFailed { name: Seq<char> },
    FetchingAll { library: Seq<char> },
    Marked { library: Seq<char>, count: nat, already: nat },
    BaselineDone,
}

impl DeepView for Action {
    type V = ActionView;

    open spec fn deep_view(&self) -> ActionView {
        match self {
            Action::ListCollections { library } => ActionView::ListCollections {
                library: library@,
            },
            Action::ListAttachments { library, since } => ActionView::ListAttachments {
                library: library@,
                since: *since,
            },
            Action::FetchParent { library, key } => ActionView::FetchParent {
                library: library@,
                key: key@,
            },
            Action::DownloadPdf { library, key } => ActionView::DownloadPdf {
                library: library@,
                key: key@,
            },
            Action::Connect => ActionView::Connect,
            Action::ListFiles => ActionView::ListFiles,
            Action::CreateFolder { name, parent } => ActionView::CreateFolder {
                name: name@,
                parent: parent.deep_view(),
            },
            Action::UploadPdf { name, bytes, parent } => ActionView::UploadPdf {
                name: name@,
                bytes: bytes@,
                parent: parent.deep_view(),
            },
            Action::DownloadArchive { doc_id } => ActionView::DownloadArchive { doc_id: doc_id@ },
            Action::UploadAttachment { library, key, filename, bytes } =>
                ActionView::UploadAttachment {
                library: library@,
                key: key@,
                filename: filename@,
                bytes: bytes@,
            },
            Action::Save => ActionView::Save,
            Action::Finish(outcome) => ActionView::Finish(*outcome),
        }
    }
}

impl DeepView for PdfReply {
    type V = PdfReplyView;

    open spec fn deep_view(&self) -> PdfReplyView {
        match self {
            PdfReply::Stored(bytes) => PdfReplyView::Stored(bytes@),
            PdfReply::Missing => PdfReplyView::Missing,
            PdfReply::Failed => PdfReplyView::Failed,
        }
    }
}

impl DeepView for Event {
    type V = EventView;

    open spec fn deep_view(&self) -> EventView {
        match self {
            Event::Collections(list) => EventView::Collections(list.deep_view()),
            Event::Attachments(listing) => EventView::Attachments(listing.deep_view()),
            Event::Parent(item) => EventView::Parent(item.deep_view()),
            Event::Pdf(reply) => EventView::Pdf(reply.deep_view()),
            Event::Connected(ok) => EventView::Connected(*ok),
            Event::Files(files) => EventView::Files(files.deep_view()),
            Event::FolderCreated(file) => EventView::FolderCreated(file.deep_view()),
            Event::Uploaded(file) => EventView::Uploaded(file.deep_view()),
            Event::Archive(bytes) => EventView::Archive(bytes.deep_view()),
            Event::WrittenBack(ok) => EventView::WrittenBack(*ok),
            Event::Saved(ok) => EventView::Saved(*ok),
        }
    }
}

impl DeepView for Note {
    type V = NoteView;

    open spec fn deep_view(&self) -> NoteView {
        match self {
            Note::Fetching { library, since } => NoteView::Fetching {
                library: library@,
                since: *since,
            },
            Note::Counted { library, changed, new, updated } => NoteView::Counted {
                library: library@,
                changed: *changed as nat,
                new: *new as nat,
                updated: *updated as nat,
            },
            Note::WouldUpload { name, folder_path } => NoteView::WouldUpload {
                name: name@,
                folder_path: folder_path.deep_view(),
            },
            Note::WrittenBack { file_name } => NoteView::WrittenBack { file_name: file_name@ },
            Note::WriteBackFailed { key, cause } => NoteView::WriteBackFailed {
                key: key@,
                cause: *cause,
            },
            Note::Skipped { name } => NoteView::Skipped { name: name@ },
            Note::Uploaded { name } => NoteView::Uploaded { name: name@ },
            Note::UploadFailed { name } => NoteView::UploadFailed { name: name@ },
            Note::FetchingAll { library } => NoteView::FetchingAll { library: library@ },
            Note::Marked { library, count, already } => NoteView::Marked {
                library: library@,
                count: *count as nat,
                already: *already as nat,
            },
            Note::BaselineDone => NoteView::BaselineDone,
        }
    }
}

/// A line that begins with the library it speaks of.
pub open spec fn tagged(library: Seq<char>, rest: Seq<char>) -> Seq<char> {
    "["@ + library + "] "@ + rest
}

/// A note as a line of text. The cause of a failure is left to be put behind it.
pub open spec fn line_of(note: NoteView) -> Seq<char> {
    match note {
        NoteView::Fetching { library, since } => tagged(
            library,
            "fetching PDF attachments changed since library version "@ + number::decimal_text(
                since as nat,
            ) + "…"@,
        ),
        NoteView::Counted { library, changed, new, updated } => tagged(
            library,
            number::decimal_text(changed) + " changed attachment(s): "@ + number::decimal_text(new)
                + " new, "@ + number::decimal_text(updated) + " already on the tablet."@,
        ),
        NoteView::WouldUpload { name, folder_path } => if folder_path.len() == 0 {
            "would upload: "@ + name
        } else {
            "would upload: "@ + name + " (folder: "@ + text::joined(folder_path, "/"@) + ")"@
        },
        NoteView::WrittenBack { file_name } => "synced marked-up copy back to Zotero: "@
            + file_name,
        NoteView::WriteBackFailed { key, cause } =>
        "FAILED syncing marked-up copy for attachment "@ + key,
        NoteView::Skipped { name } => "skipped (no PDF stored in Zotero yet): "@ + name,
        NoteView::Uploaded { name } => "uploaded: "@ + name,
        NoteView::UploadFailed { name } => "FAILED: "@ + name,
        NoteView::FetchingAll { library } => tagged(library, "fetching all PDF attachments…"@),
        NoteView::Marked { library, count, already } => tagged(
            library,
            "marked "@ + number::decimal_text(count) + " attachment(s) as synced ("@
                + number::decimal_text(already) + " were already recorded)."@,
        ),
        NoteView::BaselineDone =>
        "Future `zoterable sync` runs will only upload newly added PDFs."@,
    }
}

/// Whether a note tells of something that was not done.
pub open spec fn is_warning_note(note: NoteView) -> bool {
    note is Skipped || note is UploadFailed || note is WriteBackFailed
}

fn count_text(n: usize) -> (r: String)
    ensures
        r@ == number::decimal_text(n as nat),
{
    number::decimal(n as u128)
}

fn tag(library: &str, rest: &str) -> (r: String)
    ensures
        r@ == tagged(library@, rest@),
{
    "[".to_owned().concat(library).concat("] ").concat(rest)
}

impl Note {
    /// The note as a line of text. The cause of a failure is left to be put behind it.
    pub fn line(&self) -> (r: String)
        ensures
            r@ == line_of(self.deep_view()),
    {
        match self {
            Note::Fetching { library, since } => {
                let rest: String = "fetching PDF attachments changed since library version ".to_owned(

                ).concat(number::decimal(*since as u128).as_str()).concat("…");
                tag(library.as_str(), rest.as_str())
            },
            Note::Counted { library, changed, new, updated } => {
                let rest: String = count_text(*changed).concat(" changed attachment(s): ").concat(
                    count_text(*new).as_str(),
                ).concat(" new, ").concat(count_text(*updated).as_str()).concat(
                    " already on the tablet.",
                );
                tag(library.as_str(), rest.as_str())
            },
            Note::WouldUpload { name, folder_path } => {
                let start: String = "would upload: ".to_owned().concat(name.as_str());
                if folder_path.len() == 0 {
                    start
                } else {
                    start.concat(" (folder: ").concat(text::join(folder_path, "/").as_str()).concat(
                        ")",
                    )
                }
            },
            Note::WrittenBack { file_name } => "synced marked-up copy back to Zotero: ".to_owned(

            ).concat(file_name.as_str()),
            Note::WriteBackFailed { key, cause: _ } =>
            "FAILED syncing marked-up copy for attachment ".to_owned().concat(key.as_str()),
            Note::Skipped { name } => "skipped (no PDF stored in Zotero yet): ".to_owned().concat(
                name.as_str(),
            ),
            Note::Uploaded { name } => "uploaded: ".to_owned().concat(name.as_str()),
            Note::UploadFailed { name } => "FAILED: ".to_owned().concat(name.as_str()),
            Note::FetchingAll { library } => tag(
                library.as_str(),
                "fetching all PDF attachments…",
            ),
            Note::Marked { library, count, already } => {
                let rest: String = "marked ".to_owned().concat(
                    count_text(*count).as_str(),
                ).concat(" attachment(s) as synced (").concat(count_text(*already).as_str()).concat(
                    " were already recorded).",
                );
                tag(library.as_str(), rest.as_str())
            },
            Note::BaselineDone =>
            "Future `zoterable sync` runs will only upload newly added PDFs.".to_owned(),
        }
    }

    /// Whether the note tells of something that was not done.
    pub fn is_warning(&self) -> (r: bool)
        ensures
            r == is_warning_note(self.deep_view()),
    {
        match self {
            Note::Skipped { .. } => true,
            Note::UploadFailed { .. } => true,
            Note::WriteBackFailed { .. } => true,
            _ => false,
        }
    }
}

} // verus!
