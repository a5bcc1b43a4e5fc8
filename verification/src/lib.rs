//! Keeps the PDF attachments of Zotero libraries in step with a reMarkable tablet.
use vstd::prelude::*;

pub mod archive;
pub mod baseline;
pub mod config;
pub mod encoding;
pub mod events;
pub mod folder_laws;
pub mod folders;
pub mod http;
pub mod json;
pub mod keymap;
pub mod name_laws;
pub mod number;
pub mod placement;
pub mod placement_laws;
pub mod record_laws;
pub mod remarkable;
pub mod remarkable_laws;
pub mod state;
pub mod step_laws;
pub mod sync;
pub mod sync_laws;
pub mod sync_model;
pub mod sync_order;
pub mod text;
pub mod text_laws;
pub mod throttle;
pub mod upload;
pub mod zotero;
pub mod zotero_laws;

verus! {

} // verus!
