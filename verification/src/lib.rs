//! Preview-window lifecycle manager and file-classification engine for a
//! time-tracking editor integration.
//!
//! The library models the host editor's buffer and window state as plain
//! data and verifies the logic that decides whether a file counts as a
//! time-tracking file, maintains a singleton read-only preview surface,
//! and reacts to editor trigger events. The thin adapter that talks to a
//! live editor performs the effects this logic decides on.

mod classify;
mod host;
mod lifecycle;
mod lines;
mod preview;
mod visibility;

pub use classify::classify;
pub use classify::ext_start;
pub use classify::file_name;
pub use classify::file_name_start;
pub use classify::has_md_ext;
pub use classify::has_md_extension;
pub use classify::is_preview_name;
pub use classify::lemma_classify_characterisation;
pub use classify::lemma_classify_empty_or_absent;
pub use classify::lemma_preview_name_never_classified;
pub use classify::md_extension;
pub use classify::names_preview;
pub use classify::path_is_under;
pub use classify::path_under;
pub use classify::preview_name;
pub use classify::spec_classify;
pub use classify::spec_classify_name;

pub use host::Document;
pub use host::DocumentModel;
pub use host::Host;
pub use host::HostModel;
pub use host::Window;
pub use host::doc_index_of;
pub use host::docs_model;
pub use host::find_doc_index;
pub use host::lemma_doc_index_of;

pub use lifecycle::TriggerEvent;
pub use lifecycle::handle_event;
pub use lifecycle::lemma_handle_event_preserves_singleton;
pub use lifecycle::lemma_toggle_untracked_noop;
pub use lifecycle::spec_handle_event;

pub use lines::join_lines;
pub use lines::lemma_split_lines_empty;
pub use lines::spec_join_lines;
pub use lines::spec_split_lines;
pub use lines::split_lines;
pub use lines::split_rec;
pub use lines::strip_cr;

pub use preview::apply_create_or_update_all;
pub use preview::at_most_one_preview_doc;
pub use preview::at_most_one_preview_window;
pub use preview::close_preview;
pub use preview::create_or_update_preview;
pub use preview::destroy_preview;
pub use preview::find_preview_doc;
pub use preview::find_preview_window;
pub use preview::first_preview_doc_index;
pub use preview::first_preview_window_index;
pub use preview::fresh_preview_doc;
pub use preview::has_preview_doc;
pub use preview::has_window_of;
pub use preview::is_preview_open;
pub use preview::lemma_close_preview_preserves_wf;
pub use preview::lemma_close_then_reopen;
pub use preview::lemma_create_or_update_content;
pub use preview::lemma_create_or_update_idempotent;
pub use preview::lemma_create_or_update_n_fold;
pub use preview::lemma_create_or_update_preserves_wf;
pub use preview::lemma_create_or_update_singleton;
pub use preview::lemma_destroy_preview_preserves_wf;
pub use preview::lemma_first_preview_doc_index;
pub use preview::lemma_first_preview_window_index;
pub use preview::lemma_non_preview_docs_wf;
pub use preview::lemma_non_preview_windows_wf;
pub use preview::lemma_preview_name_is_preview;
pub use preview::non_preview_docs;
pub use preview::non_preview_windows;
pub use preview::preview_name_vec;
pub use preview::preview_width;
pub use preview::spec_close_preview;
pub use preview::spec_create_or_update_preview;
pub use preview::spec_destroy_preview;
pub use preview::spec_preview_shown;
pub use preview::spec_preview_width;
pub use preview::updated_preview_doc;
pub use preview::window_shows_preview;

pub use visibility::any_tracking_visible;
pub use visibility::get_buffer_content;
pub use visibility::is_buf_time_tracking_file;
pub use visibility::is_time_tracking_file;
pub use visibility::is_win_time_tracking_file;
pub use visibility::lemma_preview_only_not_visible;
pub use visibility::spec_any_tracking_visible;
pub use visibility::spec_buffer_content;
pub use visibility::spec_doc_tracked;
pub use visibility::window_tracked;
