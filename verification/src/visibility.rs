//! Queries over the host's live view state: which document a window
//! shows, what the current buffer holds, and whether any tracked file is
//! visible at all — the preview surface itself never counts as one.

use vstd::prelude::*;

use crate::classify::classify;
use crate::classify::is_preview_name;
use crate::classify::names_preview;
use crate::classify::spec_classify;
use crate::classify::spec_classify_name;
use crate::host::DocumentModel;
use crate::host::Host;
use crate::host::HostModel;
use crate::host::Window;
use crate::host::doc_index_of;
use crate::host::docs_model;
use crate::host::find_doc_index;
use crate::host::lemma_doc_index_of;
use crate::lines::join_lines;
use crate::lines::spec_join_lines;
use crate::preview::window_shows_preview;

verus! {

/// Is the document with handle `id` an open tracked file? Its stored name
/// is the resolved path the classifier judges; an unknown handle or an
/// unnamed document is never tracked.
pub open spec fn spec_doc_tracked(h: HostModel, id: u64, root: Option<Seq<u8>>) -> bool {
    let di = doc_index_of(h.docs, id);
    di >= 0 && spec_classify_name(h.docs[di].name, root)
}

/// Checks whether the document with handle `doc_id` is a time-tracking
/// file: a document under the tracking root with the `md` extension.
pub fn is_buf_time_tracking_file(host: &Host, doc_id: u64, root: Option<&Vec<u8>>) -> (r: bool)
    ensures
        r == spec_doc_tracked(host@, doc_id, root.deep_view()),
{
    match find_doc_index(&host.docs, doc_id) {
        Some(di) => {
            proof {
                lemma_doc_index_of(host@.docs, doc_id);
            }
            let name = &host.docs[di].name;
            let r = classify(Some(name), root);
            proof {
                assert(host@.docs[di as int].name == name@);
                assert(name.deep_view() =~= name@);
                if name@.len() == 0 {
                    assert(!spec_classify(Some(name@), root.deep_view()));
                    assert(!spec_classify_name(name@, root.deep_view()));
                }
            }
            r
        },
        None => false,
    }
}

/// Checks whether the host's current document is a time-tracking file.
/// `current` is the handle of the document the host reports as current.
pub fn is_time_tracking_file(host: &Host, current: u64, root: Option<&Vec<u8>>) -> (r: bool)
    ensures
        r == spec_doc_tracked(host@, current, root.deep_view()),
{
    is_buf_time_tracking_file(host, current, root)
}

/// Checks whether the document shown in window `win` is a time-tracking
/// file.
pub fn is_win_time_tracking_file(host: &Host, win: Window, root: Option<&Vec<u8>>) -> (r: bool)
    ensures
        r == spec_doc_tracked(host@, win.doc, root.deep_view()),
{
    is_buf_time_tracking_file(host, win.doc, root)
}

/// The content of the document with handle `id`: its lines joined with a
/// line feed. Empty for an unknown handle.
pub open spec fn spec_buffer_content(h: HostModel, id: u64) -> Seq<u8> {
    let di = doc_index_of(h.docs, id);
    if di < 0 {
        Seq::empty()
    } else {
        spec_join_lines(h.docs[di].lines)
    }
}

/// Reads the whole content of the document with handle `doc_id`, its
/// lines joined with a line feed.
pub fn get_buffer_content(host: &Host, doc_id: u64) -> (r: Vec<u8>)
    ensures
        r@ == spec_buffer_content(host@, doc_id),
{
    match find_doc_index(&host.docs, doc_id) {
        Some(di) => {
            proof {
                lemma_doc_index_of(host@.docs, doc_id);
            }
            let r = join_lines(&host.docs[di].lines);
            proof {
                assert(host@.docs[di as int].lines == host.docs@[di as int].lines.deep_view());
            }
            r
        },
        None => {
            let r: Vec<u8> = Vec::new();
            assert(r@ =~= Seq::<u8>::empty());
            r
        },
    }
}

/// Does window `w` show a tracked file? The preview surface is excluded
/// by identity before the path check even runs.
pub open spec fn window_tracked(
    docs: Seq<DocumentModel>,
    w: Window,
    root: Option<Seq<u8>>,
) -> bool {
    let di = doc_index_of(docs, w.doc);
    &&& di >= 0
    &&& !is_preview_name(docs[di].name)
    &&& spec_classify_name(docs[di].name, root)
}

/// Is any tracked file visible in some window, the preview surface itself
/// not counting?
pub open spec fn spec_any_tracking_visible(h: HostModel, root: Option<Seq<u8>>) -> bool {
    exists|i: int| 0 <= i < h.windows.len() && window_tracked(h.docs, h.windows[i], root)
}

/// Does window `w` show a tracked file? The executable twin of
/// `window_tracked`.
fn window_tracked_exec(docs: &Vec<crate::host::Document>, w: Window, root: Option<&Vec<u8>>) -> (r:
    bool)
    ensures
        r == window_tracked(docs_model(*docs), w, root.deep_view()),
{
    match find_doc_index(docs, w.doc) {
        Some(di) => {
            proof {
                lemma_doc_index_of(docs_model(*docs), w.doc);
            }
            let name = &docs[di].name;
            proof {
                assert(docs_model(*docs)[di as int].name == name@);
                assert(name.deep_view() =~= name@);
            }
            if names_preview(name) {
                false
            } else {
                let r = classify(Some(name), root);
                proof {
                    if name@.len() == 0 {
                        assert(!spec_classify(Some(name@), root.deep_view()));
                    }
                }
                r
            }
        },
        None => false,
    }
}

/// Walks all windows and reports whether any of them shows a tracked
/// file. The preview surface is skipped by identity; the answer is an
/// existential one, so the host's enumeration order does not matter.
pub fn any_tracking_visible(host: &Host, root: Option<&Vec<u8>>) -> (r: bool)
    ensures
        r == spec_any_tracking_visible(host@, root.deep_view()),
{
    for i in 0..host.windows.len()
        invariant
            forall|k: int|
                0 <= k < i ==> !window_tracked(host@.docs, host@.windows[k], root.deep_view()),
    {
        let shows_tracking = window_tracked_exec(&host.docs, host.windows[i], root);
        assert(host@.windows[i as int] == host.windows@[i as int]);
        if shows_tracking {
            assert(window_tracked(host@.docs, host@.windows[i as int], root.deep_view()));
            return true;
        }
        assert(!window_tracked(host@.docs, host@.windows[i as int], root.deep_view()));
    }
    false
}

/// The preview never counts as tracked: when every visible window shows the
/// preview surface, no tracked file is visible — the preview's reserved
/// name is excluded by identity, and `lemma_preview_name_never_classified`
/// says the classifier would reject it anyway.
pub proof fn lemma_preview_only_not_visible(h: HostModel, root: Option<Seq<u8>>)
    requires
        forall|i: int|
            0 <= i < h.windows.len() ==> window_shows_preview(h.docs, #[trigger] h.windows[i]),
    ensures
        !spec_any_tracking_visible(h, root),
{
    assert forall|i: int| 0 <= i < h.windows.len() implies !window_tracked(
        h.docs,
        h.windows[i],
        root,
    ) by {
        assert(window_shows_preview(h.docs, h.windows[i]));
    }
}

} // verus!
