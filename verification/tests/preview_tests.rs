use time_tracking_nvim::Document;
use time_tracking_nvim::Host;
use time_tracking_nvim::Window;
use time_tracking_nvim::close_preview;
use time_tracking_nvim::create_or_update_preview;
use time_tracking_nvim::destroy_preview;
use time_tracking_nvim::get_buffer_content;
use time_tracking_nvim::is_preview_open;
use time_tracking_nvim::names_preview;

fn bytes(s: &str) -> Vec<u8> {
    s.as_bytes().to_vec()
}

fn doc(id: u64, name: &str, lines: &[&str]) -> Document {
    Document {
        id,
        name: bytes(name),
        lines: lines.iter().map(|l| bytes(l)).collect(),
        listed: true,
        modifiable: true,
        wipe_on_hide: false,
        swapfile: true,
    }
}

fn win(id: u64, doc: u64) -> Window {
    Window { id, doc, fixed_width: false, width: 80 }
}

fn host_with(docs: Vec<Document>, windows: Vec<Window>, columns: u64) -> Host {
    let next_doc_id = docs.iter().map(|d| d.id).max().map_or(0, |m| m + 1);
    let next_win_id = windows.iter().map(|w| w.id).max().map_or(0, |m| m + 1);
    Host { docs, windows, next_doc_id, next_win_id, columns }
}

fn preview_docs(host: &Host) -> Vec<&Document> {
    host.docs.iter().filter(|d| names_preview(&d.name)).collect()
}

fn preview_content(host: &Host) -> Vec<u8> {
    let previews = preview_docs(host);
    assert_eq!(previews.len(), 1, "expected exactly one preview document");
    let id = previews[0].id;
    get_buffer_content(host, id)
}

#[test]
fn test_create_or_update_preview_creates_new_buffer() {
    let test_output = "# Time Tracking Summary\n\n## Today\n- Task 1: 2h\n- Task 2: 1.5h";
    let mut host = host_with(vec![doc(1, "", &[""])], vec![win(1, 1)], 120);
    assert!(preview_docs(&host).is_empty(), "should start without preview buffer");

    create_or_update_preview(&mut host, &bytes(test_output));

    assert_eq!(preview_docs(&host).len(), 1, "preview buffer should be created");
    assert_eq!(preview_content(&host), bytes(test_output));
}

#[test]
fn test_create_or_update_preview_updates_existing_buffer() {
    let initial_output = "# Initial Content\n- Item 1";
    let updated_output = "# Updated Content\n- Item 1\n- Item 2";
    let mut host = host_with(vec![doc(1, "", &[""])], vec![win(1, 1)], 120);

    create_or_update_preview(&mut host, &bytes(initial_output));
    let first_id = preview_docs(&host)[0].id;
    assert_eq!(preview_content(&host), bytes(initial_output));

    create_or_update_preview(&mut host, &bytes(updated_output));
    assert_eq!(preview_docs(&host).len(), 1);
    assert_eq!(preview_docs(&host)[0].id, first_id, "the same document is reused");
    assert_eq!(preview_content(&host), bytes(updated_output));
}

#[test]
fn test_create_or_update_preview_with_empty_output() {
    let mut host = host_with(vec![doc(1, "", &[""])], vec![win(1, 1)], 120);
    create_or_update_preview(&mut host, &bytes(""));
    let previews = preview_docs(&host);
    assert_eq!(previews.len(), 1, "preview buffer should be created even with empty content");
    assert!(previews[0].lines.is_empty(), "empty input yields no meaningful lines");
}

#[test]
fn test_create_or_update_preview_buffer_options() {
    let mut host = host_with(vec![doc(1, "", &[""])], vec![win(1, 1)], 120);
    create_or_update_preview(&mut host, &bytes("# Test Content"));
    let previews = preview_docs(&host);
    let p = previews[0];
    assert!(!p.listed, "preview buffer should not be listed");
    assert!(!p.modifiable, "preview buffer should not be modifiable after creation");
    assert!(p.wipe_on_hide, "preview buffer should be wiped when hidden");
    assert!(!p.swapfile, "preview buffer should not use swapfile");
}

#[test]
fn test_create_or_update_preview_with_multiline_content() {
    let multiline_output =
        "# Time Summary\n\n## Morning\n- Meeting: 1h\n- Code: 2h\n\n## Afternoon\n- Review: 30m\n- Documentation: 1.5h";
    let mut host = host_with(vec![doc(1, "", &[""])], vec![win(1, 1)], 120);
    create_or_update_preview(&mut host, &bytes(multiline_output));
    assert_eq!(preview_content(&host), bytes(multiline_output));
    let expected_lines = multiline_output.lines().count();
    assert_eq!(preview_docs(&host)[0].lines.len(), expected_lines);
}

#[test]
fn test_create_or_update_preview_handles_special_characters() {
    let special_content =
        "# Test with special chars\n\n- Task with émojis: 🚀 ✅\n- Unicode: áéíóú\n- Symbols: @#$%^&*()";
    let mut host = host_with(vec![doc(1, "", &[""])], vec![win(1, 1)], 120);
    create_or_update_preview(&mut host, &bytes(special_content));
    assert_eq!(preview_content(&host), bytes(special_content));
}

#[test]
fn test_multiple_preview_creation_updates_same_buffer() {
    let content1 = "First content";
    let content2 = "Second content";
    let content3 = "Third content";
    let mut host = host_with(vec![doc(1, "", &[""])], vec![win(1, 1)], 120);

    create_or_update_preview(&mut host, &bytes(content1));
    assert_eq!(preview_docs(&host).len(), 1, "exactly one preview buffer after first creation");

    create_or_update_preview(&mut host, &bytes(content2));
    assert_eq!(preview_docs(&host).len(), 1, "still exactly one preview buffer after update");

    create_or_update_preview(&mut host, &bytes(content3));
    assert_eq!(preview_docs(&host).len(), 1, "still exactly one preview buffer after second update");

    assert_eq!(preview_content(&host), bytes(content3), "the latest content wins");
}

#[test]
fn create_or_update_preview_no_windows_is_noop() {
    // During early startup the host may have no windows yet; the call is
    // a silent no-op then.
    let mut host = host_with(vec![doc(1, "", &[""])], vec![], 120);
    create_or_update_preview(&mut host, &bytes("text"));
    assert!(preview_docs(&host).is_empty());
    assert!(host.windows.is_empty());
}

#[test]
fn create_or_update_preview_opens_window_at_fixed_width() {
    let mut host = host_with(vec![doc(1, "", &[""])], vec![win(1, 1)], 120);
    create_or_update_preview(&mut host, &bytes("x"));
    assert!(is_preview_open(&host));
    let pid = preview_docs(&host)[0].id;
    let pw = host.windows.iter().find(|w| w.doc == pid).expect("preview window");
    assert!(pw.fixed_width);
    assert_eq!(pw.width, 40);
    // A second call does not open a second window.
    let window_count = host.windows.len();
    create_or_update_preview(&mut host, &bytes("y"));
    assert_eq!(host.windows.len(), window_count);
}

#[test]
fn close_preview_removes_window_keeps_document() {
    let mut host = host_with(vec![doc(1, "", &[""])], vec![win(1, 1)], 120);
    create_or_update_preview(&mut host, &bytes("body"));
    assert!(is_preview_open(&host));

    close_preview(&mut host);
    assert!(!is_preview_open(&host), "the window binding is gone");
    assert_eq!(preview_docs(&host).len(), 1, "the document persists");

    // Reopening recreates a visible preview without error.
    create_or_update_preview(&mut host, &bytes("body again"));
    assert!(is_preview_open(&host));
    assert_eq!(preview_content(&host), bytes("body again"));
}

#[test]
fn close_preview_noop_when_not_open() {
    let mut host = host_with(vec![doc(1, "/data/a.md", &["x"])], vec![win(1, 1)], 120);
    close_preview(&mut host);
    assert_eq!(host.windows.len(), 1);
    assert_eq!(host.docs.len(), 1);
}

#[test]
fn destroy_preview_wipes_document_and_window() {
    let mut host = host_with(vec![doc(1, "", &[""])], vec![win(1, 1)], 120);
    create_or_update_preview(&mut host, &bytes("body"));
    assert_eq!(preview_docs(&host).len(), 1);

    destroy_preview(&mut host);
    assert!(preview_docs(&host).is_empty(), "the document is wiped outright");
    assert!(!is_preview_open(&host));
    assert_eq!(host.docs.len(), 1, "other documents survive");
    assert_eq!(host.windows.len(), 1, "other windows survive");
}
