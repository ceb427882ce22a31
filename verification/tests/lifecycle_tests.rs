use time_tracking_nvim::Document;
use time_tracking_nvim::Host;
use time_tracking_nvim::TriggerEvent;
use time_tracking_nvim::Window;
use time_tracking_nvim::any_tracking_visible;
use time_tracking_nvim::classify;
use time_tracking_nvim::get_buffer_content;
use time_tracking_nvim::handle_event;
use time_tracking_nvim::is_buf_time_tracking_file;
use time_tracking_nvim::is_preview_open;
use time_tracking_nvim::is_time_tracking_file;
use time_tracking_nvim::is_win_time_tracking_file;
use time_tracking_nvim::names_preview;

fn bytes(s: &str) -> Vec<u8> {
    s.as_bytes().to_vec()
}

fn doc(id: u64, name: &str, lines: &[&str]) -> Document {
    Document {
        id,
        name: bytes(name),
        lines: lines.iter().map(|l| bytes(l)).collect(),
        listed: true,
        modifiable: true,
        wipe_on_hide: false,
        swapfile: true,
    }
}

fn win(id: u64, doc: u64) -> Window {
    Window { id, doc, fixed_width: false, width: 80 }
}

fn host_with(docs: Vec<Document>, windows: Vec<Window>, columns: u64) -> Host {
    let next_doc_id = docs.iter().map(|d| d.id).max().map_or(0, |m| m + 1);
    let next_win_id = windows.iter().map(|w| w.id).max().map_or(0, |m| m + 1);
    Host { docs, windows, next_doc_id, next_win_id, columns }
}

fn preview_count(host: &Host) -> usize {
    host.docs.iter().filter(|d| names_preview(&d.name)).count()
}

#[test]
fn test_is_buf_time_tracking_file_with_md_in_data_dir() {
    let root = bytes("/data");
    let host = host_with(vec![doc(1, "/data/test.md", &["# Test Content"])], vec![], 80);
    assert!(
        is_buf_time_tracking_file(&host, 1, Some(&root)),
        "Markdown file in data directory should be identified as time tracking file"
    );
}

#[test]
fn test_is_buf_time_tracking_file_with_txt_in_data_dir() {
    let root = bytes("/data");
    let host = host_with(vec![doc(1, "/data/test.txt", &["Test Content"])], vec![], 80);
    assert!(!is_buf_time_tracking_file(&host, 1, Some(&root)));
}

#[test]
fn test_is_buf_time_tracking_file_with_md_outside_data_dir() {
    let root = bytes("/data");
    let host = host_with(vec![doc(1, "/elsewhere/test.md", &["# Test Content"])], vec![], 80);
    assert!(!is_buf_time_tracking_file(&host, 1, Some(&root)));
}

#[test]
fn test_is_buf_time_tracking_file_with_empty_buffer_name() {
    let root = bytes("/data");
    let host = host_with(vec![doc(1, "", &[""])], vec![], 80);
    assert!(!is_buf_time_tracking_file(&host, 1, Some(&root)));
}

#[test]
fn test_is_buf_time_tracking_file_in_subdirectory() {
    let root = bytes("/data");
    let host = host_with(vec![doc(1, "/data/2024/january/project.md", &["# Project Notes"])], vec![], 80);
    assert!(is_buf_time_tracking_file(&host, 1, Some(&root)));
}

#[test]
fn is_buf_time_tracking_file_unknown_handle() {
    let root = bytes("/data");
    let host = host_with(vec![doc(1, "/data/test.md", &["x"])], vec![], 80);
    assert!(!is_buf_time_tracking_file(&host, 7, Some(&root)));
}

#[test]
fn test_is_time_tracking_file_current_buffer() {
    let root = bytes("/data");
    let host = host_with(vec![doc(1, "/data/current.md", &["# Current Buffer Test"])], vec![], 80);
    assert!(is_time_tracking_file(&host, 1, Some(&root)));
}

#[test]
fn test_is_win_time_tracking_file() {
    let root = bytes("/data");
    let w = win(1, 1);
    let host = host_with(vec![doc(1, "/data/window.md", &["# Window Test"])], vec![w], 80);
    assert!(is_win_time_tracking_file(&host, w, Some(&root)));
}

#[test]
fn test_get_buffer_content() {
    let host = host_with(
        vec![doc(1, "/data/a.md", &["# Test Header", "Some content", "More content"])],
        vec![],
        80,
    );
    assert_eq!(
        get_buffer_content(&host, 1),
        bytes("# Test Header\nSome content\nMore content"),
        "Buffer content should match the set lines joined by newlines"
    );
}

#[test]
fn test_get_buffer_content_empty() {
    let host = host_with(vec![doc(1, "", &[])], vec![], 80);
    assert_eq!(get_buffer_content(&host, 1), bytes(""), "Empty buffer should return empty string");
}

#[test]
fn test_any_tracking_visible_with_tracking_window() {
    let root = bytes("/data");
    let host = host_with(vec![doc(1, "/data/visible.md", &["# Visible Test"])], vec![win(1, 1)], 80);
    assert!(any_tracking_visible(&host, Some(&root)));
}

#[test]
fn test_any_tracking_visible_with_preview_window() {
    let root = bytes("/data");
    let host = host_with(
        vec![doc(1, "some/path/[Time Tracking Preview]", &["summary"])],
        vec![win(1, 1)],
        80,
    );
    assert!(
        !any_tracking_visible(&host, Some(&root)),
        "preview windows are ignored when checking for visible tracking files"
    );
}

#[test]
fn test_any_tracking_visible_no_tracking_files() {
    let root = bytes("/data");
    let host = host_with(vec![doc(1, "/elsewhere/normal.txt", &["Normal file"])], vec![win(1, 1)], 80);
    assert!(!any_tracking_visible(&host, Some(&root)));
}

#[test]
fn any_tracking_visible_open_but_hidden_does_not_count() {
    // The tracked file is open but shown in no window.
    let root = bytes("/data");
    let host = host_with(
        vec![doc(1, "/data/hidden.md", &["x"]), doc(2, "/tmp/other.txt", &["y"])],
        vec![win(1, 2)],
        80,
    );
    assert!(!any_tracking_visible(&host, Some(&root)));
}

#[test]
fn toggle_on_tracked_file_opens_preview_with_summary() {
    let root = bytes("/data");
    let notes = doc(1, "/data/jan/notes.md", &["# jan", "work 2h"]);
    let mut host = host_with(vec![notes], vec![win(1, 1)], 120);
    assert!(classify(Some(&bytes("/data/jan/notes.md")), Some(&root)));

    let summary = bytes("Summary for jan\ntotal: 2h");
    handle_event(&mut host, TriggerEvent::Toggle, Some(1), Some(&root), &summary);

    assert_eq!(preview_count(&host), 1, "exactly one preview document exists");
    assert!(is_preview_open(&host), "exactly one preview window exists");
    let pid = host.docs.iter().find(|d| names_preview(&d.name)).unwrap().id;
    assert_eq!(get_buffer_content(&host, pid), summary, "content equals the formatted summary");
    assert_eq!(
        host.windows.iter().filter(|w| w.doc == pid).count(),
        1,
        "exactly one window shows the preview"
    );

    // Leaving the document: after the settle delay the adapter fires the
    // auto-close trigger, which closes the preview view.
    handle_event(&mut host, TriggerEvent::AutoClose, None, Some(&root), &bytes(""));
    assert!(!is_preview_open(&host), "the preview view is closed");
}

#[test]
fn toggle_outside_root_is_noop() {
    let root = bytes("/data");
    let mut host = host_with(vec![doc(1, "/tmp/outside.md", &["x"])], vec![win(1, 1)], 120);
    assert!(!classify(Some(&bytes("/tmp/outside.md")), Some(&root)));

    handle_event(&mut host, TriggerEvent::Toggle, Some(1), Some(&root), &bytes("summary"));

    assert_eq!(preview_count(&host), 0, "no preview is created");
    assert_eq!(host.windows.len(), 1);
    assert_eq!(host.docs.len(), 1);
}

#[test]
fn toggle_on_open_preview_closes_it() {
    let root = bytes("/data");
    let mut host = host_with(vec![doc(1, "/data/a.md", &["x"])], vec![win(1, 1)], 120);
    handle_event(&mut host, TriggerEvent::Toggle, Some(1), Some(&root), &bytes("s"));
    assert!(is_preview_open(&host));
    handle_event(&mut host, TriggerEvent::Toggle, Some(1), Some(&root), &bytes("s"));
    assert!(!is_preview_open(&host), "a second toggle closes the preview");
    assert_eq!(preview_count(&host), 1, "the document itself persists");
}

#[test]
fn update_is_noop_when_preview_not_open() {
    let root = bytes("/data");
    let mut host = host_with(vec![doc(1, "/data/a.md", &["x"])], vec![win(1, 1)], 120);
    handle_event(&mut host, TriggerEvent::Update, Some(1), Some(&root), &bytes("s"));
    assert_eq!(preview_count(&host), 0);
}

#[test]
fn update_refreshes_open_preview() {
    let root = bytes("/data");
    let mut host = host_with(vec![doc(1, "/data/a.md", &["x"])], vec![win(1, 1)], 120);
    handle_event(&mut host, TriggerEvent::Toggle, Some(1), Some(&root), &bytes("old summary"));
    handle_event(&mut host, TriggerEvent::Update, Some(1), Some(&root), &bytes("new summary"));
    let pid = host.docs.iter().find(|d| names_preview(&d.name)).unwrap().id;
    assert_eq!(get_buffer_content(&host, pid), bytes("new summary"));
}

#[test]
fn auto_open_only_when_not_already_open() {
    let root = bytes("/data");
    let mut host = host_with(vec![doc(1, "/data/a.md", &["x"])], vec![win(1, 1)], 120);
    handle_event(&mut host, TriggerEvent::AutoOpen, Some(1), Some(&root), &bytes("first"));
    assert!(is_preview_open(&host));
    let windows_before = host.windows.len();
    handle_event(&mut host, TriggerEvent::AutoOpen, Some(1), Some(&root), &bytes("second"));
    assert_eq!(host.windows.len(), windows_before, "no second window is opened");
    let pid = host.docs.iter().find(|d| names_preview(&d.name)).unwrap().id;
    assert_eq!(get_buffer_content(&host, pid), bytes("first"), "an open preview is left alone");
}

#[test]
fn auto_open_on_untracked_is_noop() {
    let root = bytes("/data");
    let mut host = host_with(vec![doc(1, "/tmp/b.md", &["x"])], vec![win(1, 1)], 120);
    handle_event(&mut host, TriggerEvent::AutoOpen, Some(1), Some(&root), &bytes("s"));
    assert_eq!(preview_count(&host), 0);
}

#[test]
fn visibility_changed_closes_when_no_tracked_visible() {
    let root = bytes("/data");
    let mut host = host_with(vec![doc(1, "/data/a.md", &["x"])], vec![win(1, 1)], 120);
    handle_event(&mut host, TriggerEvent::Toggle, Some(1), Some(&root), &bytes("s"));
    assert!(is_preview_open(&host));

    // The tracked window goes away; only the preview window remains.
    let pid = host.docs.iter().find(|d| names_preview(&d.name)).unwrap().id;
    host.windows.retain(|w| w.doc == pid);
    handle_event(&mut host, TriggerEvent::VisibilityChanged, None, Some(&root), &bytes(""));
    assert!(!is_preview_open(&host), "the preview closes once no tracked file is visible");
}

#[test]
fn visibility_changed_keeps_preview_while_tracked_visible() {
    let root = bytes("/data");
    let mut host = host_with(vec![doc(1, "/data/a.md", &["x"])], vec![win(1, 1)], 120);
    handle_event(&mut host, TriggerEvent::Toggle, Some(1), Some(&root), &bytes("s"));
    assert!(is_preview_open(&host));
    handle_event(&mut host, TriggerEvent::VisibilityChanged, Some(1), Some(&root), &bytes(""));
    assert!(is_preview_open(&host), "the preview stays while a tracked file is visible");
}

#[test]
fn shutdown_destroys_preview_document() {
    let root = bytes("/data");
    let mut host = host_with(vec![doc(1, "/data/a.md", &["x"])], vec![win(1, 1)], 120);
    handle_event(&mut host, TriggerEvent::Toggle, Some(1), Some(&root), &bytes("s"));
    assert_eq!(preview_count(&host), 1);
    handle_event(&mut host, TriggerEvent::Shutdown, None, Some(&root), &bytes(""));
    assert_eq!(preview_count(&host), 0, "shutdown wipes the document, not just the window");
}

#[test]
fn missing_root_never_tracks() {
    let mut host = host_with(vec![doc(1, "/data/a.md", &["x"])], vec![win(1, 1)], 120);
    assert!(!is_time_tracking_file(&host, 1, None));
    handle_event(&mut host, TriggerEvent::Toggle, Some(1), None, &bytes("s"));
    assert_eq!(preview_count(&host), 0);
}
