//! The preview surface: a singleton scratch document carrying the reserved
//! name, shown in at most one dedicated window.
//!
//! All operations locate the surface by its reserved name each time, never
//! through a cached handle, so a surface destroyed and recreated between
//! calls is still found. Content updates always replace the whole content.
//! The write-lock toggle around the live update, the settle delays, and
//! the swallowing of concurrent-layout errors are the adapter's business
//! at the live host; here the operations are total state transitions.

use vstd::prelude::*;

use crate::classify::is_preview_name;
use crate::classify::preview_name;
use crate::host::Document;
use crate::host::DocumentModel;
use crate::host::Host;
use crate::host::HostModel;
use crate::host::Window;
use crate::host::doc_index_of;
use crate::host::docs_model;
use crate::host::find_doc_index;
use crate::host::lemma_doc_index_of;
use crate::lines::spec_split_lines;
use crate::lines::split_lines;

verus! {

/// Index of the first document carrying the reserved name, or -1.
pub open spec fn first_preview_doc_index(docs: Seq<DocumentModel>) -> int
    decreases docs.len(),
{
    if docs.len() == 0 {
        -1
    } else if is_preview_name(docs[0].name) {
        0
    } else {
        let r = first_preview_doc_index(docs.drop_first());
        if r < 0 {
            -1
        } else {
            r + 1
        }
    }
}

/// What `first_preview_doc_index` returns: -1 exactly when no document
/// carries the reserved name, otherwise the least index of one that does.
pub proof fn lemma_first_preview_doc_index(docs: Seq<DocumentModel>)
    ensures
        first_preview_doc_index(docs) == -1 ==> forall|i: int|
            0 <= i < docs.len() ==> !is_preview_name(docs[i].name),
        first_preview_doc_index(docs) != -1 ==> {
            let r = first_preview_doc_index(docs);
            &&& 0 <= r < docs.len()
            &&& is_preview_name(docs[r].name)
            &&& forall|i: int| 0 <= i < r ==> !is_preview_name(docs[i].name)
        },
    decreases docs.len(),
{
    if docs.len() > 0 && !is_preview_name(docs[0].name) {
        lemma_first_preview_doc_index(docs.drop_first());
        assert(forall|i: int|
            1 <= i < docs.len() ==> docs[i] == docs.drop_first()[i - 1]);
    }
}

/// Does window `w` show a document carrying the reserved name?
pub open spec fn window_shows_preview(docs: Seq<DocumentModel>, w: Window) -> bool {
    let di = doc_index_of(docs, w.doc);
    di >= 0 && is_preview_name(docs[di].name)
}

/// Index of the first window showing a preview-named document, or -1.
pub open spec fn first_preview_window_index(docs: Seq<DocumentModel>, ws: Seq<Window>) -> int
    decreases ws.len(),
{
    if ws.len() == 0 {
        -1
    } else if window_shows_preview(docs, ws[0]) {
        0
    } else {
        let r = first_preview_window_index(docs, ws.drop_first());
        if r < 0 {
            -1
        } else {
            r + 1
        }
    }
}

/// What `first_preview_window_index` returns.
pub proof fn lemma_first_preview_window_index(docs: Seq<DocumentModel>, ws: Seq<Window>)
    ensures
        first_preview_window_index(docs, ws) == -1 ==> forall|i: int|
            0 <= i < ws.len() ==> !window_shows_preview(docs, ws[i]),
        first_preview_window_index(docs, ws) != -1 ==> {
            let r = first_preview_window_index(docs, ws);
            &&& 0 <= r < ws.len()
            &&& window_shows_preview(docs, ws[r])
            &&& forall|i: int| 0 <= i < r ==> !window_shows_preview(docs, ws[i])
        },
    decreases ws.len(),
{
    if ws.len() > 0 && !window_shows_preview(docs, ws[0]) {
        lemma_first_preview_window_index(docs, ws.drop_first());
        assert(forall|i: int| 1 <= i < ws.len() ==> ws[i] == ws.drop_first()[i - 1]);
    }
}

/// Is some window currently bound to a preview-named document?
pub open spec fn spec_preview_shown(h: HostModel) -> bool {
    exists|i: int| 0 <= i < h.windows.len() && window_shows_preview(h.docs, h.windows[i])
}

/// Uniqueness of the surface as a predicate: no two documents both carry
/// the reserved name.
pub open spec fn at_most_one_preview_doc(docs: Seq<DocumentModel>) -> bool {
    forall|i: int, j: int|
        0 <= i < j < docs.len() ==> !(is_preview_name(docs[i].name) && is_preview_name(
            docs[j].name,
        ))
}

/// Does some document carry the reserved name?
pub open spec fn has_preview_doc(docs: Seq<DocumentModel>) -> bool {
    exists|i: int| 0 <= i < docs.len() && is_preview_name(docs[i].name)
}

/// No two windows are both bound to a preview-named document.
pub open spec fn at_most_one_preview_window(h: HostModel) -> bool {
    forall|i: int, j: int|
        0 <= i < j < h.windows.len() ==> !(window_shows_preview(h.docs, h.windows[i])
            && window_shows_preview(h.docs, h.windows[j]))
}

/// The width the preview window is fixed to: a third of the total
/// available columns, with a floor of 20.
pub open spec fn spec_preview_width(columns: u64) -> u64 {
    if columns / 3 > 20 {
        (columns / 3) as u64
    } else {
        20
    }
}

/// Computes the fixed preview window width.
pub fn preview_width(columns: u64) -> (w: u64)
    ensures
        w == spec_preview_width(columns),
{
    let w = columns / 3;
    if w < 20 {
        20
    } else {
        w
    }
}

/// The preview document as it is first created: scratch, unlisted, not
/// user-editable, discarded by the host when hidden, never swapped.
pub open spec fn fresh_preview_doc(id: u64) -> DocumentModel {
    DocumentModel {
        id,
        name: preview_name(),
        lines: Seq::empty(),
        listed: false,
        modifiable: false,
        wipe_on_hide: true,
        swapfile: false,
    }
}

/// The reserved name as a byte vector.
pub fn preview_name_vec() -> (r: Vec<u8>)
    ensures
        r@ == preview_name(),
{
    let a: [u8; 23] = [
        91u8, 84u8, 105u8, 109u8, 101u8, 32u8, 84u8, 114u8, 97u8, 99u8, 107u8, 105u8, 110u8,
        103u8, 32u8, 80u8, 114u8, 101u8, 118u8, 105u8, 101u8, 119u8, 93u8,
    ];
    let mut r: Vec<u8> = Vec::new();
    for i in 0..23usize
        invariant
            r@ == a@.take(i as int),
    {
        r.push(a[i]);
        assert(r@ =~= a@.take(i + 1));
    }
    assert(a@.take(23) =~= a@);
    assert(a@ =~= preview_name());
    r
}

/// Position of the first document carrying the reserved name, if any.
pub fn find_preview_doc(docs: &Vec<Document>) -> (r: Option<usize>)
    ensures
        match r {
            Some(i) => i == first_preview_doc_index(docs_model(*docs)),
            None => first_preview_doc_index(docs_model(*docs)) == -1,
        },
{
    proof {
        lemma_first_preview_doc_index(docs_model(*docs));
    }
    for i in 0..docs.len()
        invariant
            forall|k: int| 0 <= k < i ==> !is_preview_name(docs_model(*docs)[k].name),
    {
        if crate::classify::names_preview(&docs[i].name) {
            proof {
                assert(is_preview_name(docs_model(*docs)[i as int].name));
                lemma_first_preview_doc_index(docs_model(*docs));
            }
            return Some(i);
        }
        assert(!is_preview_name(docs_model(*docs)[i as int].name));
    }
    None
}

/// Does window `w` show a document carrying the reserved name? The
/// executable twin of `window_shows_preview`.
fn window_doc_is_preview(docs: &Vec<Document>, w: Window) -> (r: bool)
    ensures
        r == window_shows_preview(docs_model(*docs), w),
{
    match find_doc_index(docs, w.doc) {
        Some(di) => {
            proof {
                lemma_doc_index_of(docs_model(*docs), w.doc);
            }
            let r = crate::classify::names_preview(&docs[di].name);
            proof {
                assert(docs_model(*docs)[di as int].name == docs@[di as int].name@);
            }
            r
        },
        None => false,
    }
}

/// Position of the first window bound to a preview-named document, if any.
pub fn find_preview_window(host: &Host) -> (r: Option<usize>)
    ensures
        match r {
            Some(i) => i == first_preview_window_index(host@.docs, host@.windows),
            None => first_preview_window_index(host@.docs, host@.windows) == -1,
        },
{
    proof {
        lemma_first_preview_window_index(host@.docs, host@.windows);
    }
    for i in 0..host.windows.len()
        invariant
            forall|k: int| 0 <= k < i ==> !window_shows_preview(host@.docs, host@.windows[k]),
    {
        let shows = window_doc_is_preview(&host.docs, host.windows[i]);
        proof {
            assert(host@.windows[i as int] == host.windows@[i as int]);
        }
        if shows {
            proof {
                assert(window_shows_preview(host@.docs, host@.windows[i as int]));
                lemma_first_preview_window_index(host@.docs, host@.windows);
            }
            return Some(i);
        }
        assert(!window_shows_preview(host@.docs, host@.windows[i as int]));
    }
    None
}

/// Is the preview surface currently shown in some window?
pub fn is_preview_open(host: &Host) -> (r: bool)
    ensures
        r == spec_preview_shown(host@),
{
    proof {
        lemma_first_preview_window_index(host@.docs, host@.windows);
    }
    match find_preview_window(host) {
        Some(i) => {
            assert(window_shows_preview(host@.docs, host@.windows[i as int]));
            true
        },
        None => false,
    }
}

/// Closing the preview: the first window bound to a preview-named document
/// goes away; the document itself persists, and nothing else changes. A
/// no-op when no such window exists.
pub open spec fn spec_close_preview(h: HostModel) -> HostModel {
    let wi = first_preview_window_index(h.docs, h.windows);
    if wi < 0 {
        h
    } else {
        HostModel {
            docs: h.docs,
            windows: h.windows.remove(wi),
            next_doc_id: h.next_doc_id,
            next_win_id: h.next_win_id,
            columns: h.columns,
        }
    }
}

/// Closing the preview preserves well-formedness.
pub proof fn lemma_close_preview_preserves_wf(h: HostModel)
    requires
        h.wf(),
    ensures
        spec_close_preview(h).wf(),
{
    let wi = first_preview_window_index(h.docs, h.windows);
    lemma_first_preview_window_index(h.docs, h.windows);
    if wi >= 0 {
        let h2 = spec_close_preview(h);
        let ws2 = h.windows.remove(wi);
        assert(h2.windows == ws2);
        assert(forall|k: int|
            0 <= k < ws2.len() ==> ws2[k] == (if k < wi {
                h.windows[k]
            } else {
                h.windows[k + 1]
            }));
        assert forall|a: int, b: int| 0 <= a < b < ws2.len() implies ws2[a].id != ws2[b].id by {
            let a0 = if a < wi { a } else { a + 1 };
            let b0 = if b < wi { b } else { b + 1 };
            assert(ws2[a] == h.windows[a0]);
            assert(ws2[b] == h.windows[b0]);
        }
        assert forall|a: int| 0 <= a < ws2.len() implies h2.has_doc(ws2[a].doc) by {
            let a0 = if a < wi { a } else { a + 1 };
            assert(ws2[a] == h.windows[a0]);
            assert(h.has_doc(h.windows[a0].doc));
            let i = choose|i: int| 0 <= i < h.docs.len() && h.docs[i].id == h.windows[a0].doc;
            assert(0 <= i < h2.docs.len() && h2.docs[i].id == ws2[a].doc);
        }
    }
}

/// Finds the window bound to the preview document, by its reserved name,
/// and closes it. A no-op, not an error, when no such window exists.
pub fn close_preview(host: &mut Host)
    requires
        old(host)@.wf(),
    ensures
        final(host)@ == spec_close_preview(old(host)@),
        final(host)@.wf(),
{
    proof {
        lemma_close_preview_preserves_wf(old(host)@);
        lemma_first_preview_window_index(old(host)@.docs, old(host)@.windows);
    }
    match find_preview_window(host) {
        Some(i) => {
            host.windows.remove(i);
            assert(host@ =~~= spec_close_preview(old(host)@));
        },
        None => {
            assert(host@ =~~= spec_close_preview(old(host)@));
        },
    }
}

/// Is some window bound to the document with handle `doc`?
pub open spec fn has_window_of(ws: Seq<Window>, doc: u64) -> bool {
    exists|i: int| 0 <= i < ws.len() && ws[i].doc == doc
}

/// Is some window bound to the document with handle `doc`? The executable
/// twin of `has_window_of`.
fn window_shows(ws: &Vec<Window>, doc: u64) -> (r: bool)
    ensures
        r == has_window_of(ws@, doc),
{
    for i in 0..ws.len()
        invariant
            forall|k: int| 0 <= k < i ==> ws@[k].doc != doc,
    {
        if ws[i].doc == doc {
            assert(ws@[i as int].doc == doc);
            return true;
        }
        assert(ws@[i as int].doc != doc);
    }
    false
}

/// The preview document after a full content replacement: the supplied
/// text split into lines, the write-lock restored, everything else kept.
pub open spec fn updated_preview_doc(d: DocumentModel, text: Seq<u8>) -> DocumentModel {
    DocumentModel {
        id: d.id,
        name: d.name,
        lines: spec_split_lines(text),
        listed: d.listed,
        modifiable: false,
        wipe_on_hide: d.wipe_on_hide,
        swapfile: d.swapfile,
    }
}

/// Creating or updating the preview. With no windows at all the host is
/// still initializing and nothing happens. Otherwise the first document
/// carrying the reserved name is reused — a second one is never created —
/// or a fresh scratch document is made; its content becomes the supplied
/// text split into lines; and when no window is bound to it, a new window
/// is opened on it at the fixed preview width.
pub open spec fn spec_create_or_update_preview(h: HostModel, text: Seq<u8>) -> HostModel {
    if h.windows.len() == 0 {
        h
    } else {
        let pi0 = first_preview_doc_index(h.docs);
        let docs1 = if pi0 >= 0 {
            h.docs
        } else {
            h.docs.push(fresh_preview_doc(h.next_doc_id))
        };
        let next_doc_id1 = if pi0 >= 0 {
            h.next_doc_id
        } else {
            (h.next_doc_id + 1) as u64
        };
        let pidx = if pi0 >= 0 {
            pi0
        } else {
            h.docs.len() as int
        };
        let pid = docs1[pidx].id;
        let docs2 = docs1.update(pidx, updated_preview_doc(docs1[pidx], text));
        let shown = has_window_of(h.windows, pid);
        let windows2 = if shown {
            h.windows
        } else {
            h.windows.push(
                Window {
                    id: h.next_win_id,
                    doc: pid,
                    fixed_width: true,
                    width: spec_preview_width(h.columns),
                },
            )
        };
        let next_win_id2 = if shown {
            h.next_win_id
        } else {
            (h.next_win_id + 1) as u64
        };
        HostModel {
            docs: docs2,
            windows: windows2,
            next_doc_id: next_doc_id1,
            next_win_id: next_win_id2,
            columns: h.columns,
        }
    }
}

/// Creating or updating the preview preserves well-formedness.
pub proof fn lemma_create_or_update_preserves_wf(h: HostModel, text: Seq<u8>)
    requires
        h.wf(),
        h.next_doc_id < u64::MAX,
        h.next_win_id < u64::MAX,
    ensures
        spec_create_or_update_preview(h, text).wf(),
{
    lemma_first_preview_doc_index(h.docs);
    if h.windows.len() > 0 {
        let h2 = spec_create_or_update_preview(h, text);
        let pi0 = first_preview_doc_index(h.docs);
        let docs1 = if pi0 >= 0 {
            h.docs
        } else {
            h.docs.push(fresh_preview_doc(h.next_doc_id))
        };
        let pidx = if pi0 >= 0 {
            pi0
        } else {
            h.docs.len() as int
        };
        let pid = docs1[pidx].id;
        assert(forall|k: int| 0 <= k < h2.docs.len() ==> h2.docs[k].id == docs1[k].id);
        assert(forall|k: int| 0 <= k < h.docs.len() ==> docs1[k] == h.docs[k]);
        assert forall|a: int| 0 <= a < h2.windows.len() implies h2.has_doc(
            h2.windows[a].doc,
        ) by {
            if a < h.windows.len() {
                assert(h2.windows[a] == h.windows[a]);
                assert(h.has_doc(h.windows[a].doc));
                let i = choose|i: int|
                    0 <= i < h.docs.len() && h.docs[i].id == h.windows[a].doc;
                assert(h2.docs[i].id == h2.windows[a].doc);
            } else {
                assert(h2.windows[a].doc == pid);
                assert(h2.docs[pidx].id == pid);
            }
        }
    }
}

/// Create or update the preview surface with the given text as its whole
/// content. Idempotent with respect to document identity: an existing
/// preview document is always reused, first match wins. A silent no-op
/// while the host has no windows at all. The adapter performs the same
/// steps at the live host, where a split refused because another window is
/// closing is skipped, not an error.
pub fn create_or_update_preview(host: &mut Host, output: &Vec<u8>)
    requires
        old(host)@.wf(),
        old(host).next_doc_id < u64::MAX,
        old(host).next_win_id < u64::MAX,
    ensures
        final(host)@ == spec_create_or_update_preview(old(host)@, output@),
        final(host)@.wf(),
{
    proof {
        lemma_create_or_update_preserves_wf(old(host)@, output@);
        lemma_first_preview_doc_index(old(host)@.docs);
    }
    if host.windows.len() == 0 {
        return ;
    }
    let ghost h0 = old(host)@;
    let pi = find_preview_doc(&host.docs);
    let pidx: usize = match pi {
        Some(i) => i,
        None => {
            let d = Document {
                id: host.next_doc_id,
                name: preview_name_vec(),
                lines: Vec::new(),
                listed: false,
                modifiable: false,
                wipe_on_hide: true,
                swapfile: false,
            };
            proof {
                assert(d@ =~~= fresh_preview_doc(host.next_doc_id));
            }
            let n = host.docs.len();
            host.docs.push(d);
            host.next_doc_id = host.next_doc_id + 1;
            n
        },
    };
    let ghost docs1 = if first_preview_doc_index(h0.docs) >= 0 {
        h0.docs
    } else {
        h0.docs.push(fresh_preview_doc(h0.next_doc_id))
    };
    proof {
        assert(host@.docs =~~= docs1);
        assert(pidx as int == (if first_preview_doc_index(h0.docs) >= 0 {
            first_preview_doc_index(h0.docs)
        } else {
            h0.docs.len() as int
        }));
    }
    let pid = host.docs[pidx].id;
    // Replace the whole content; at the live host the write-lock is lifted
    // only around this single mutation.
    let mut d = host.docs.remove(pidx);
    d.lines = split_lines(output);
    d.modifiable = false;
    host.docs.insert(pidx, d);
    proof {
        assert(host@.docs =~~= docs1.update(
            pidx as int,
            updated_preview_doc(docs1[pidx as int], output@),
        ));
    }
    let shown = window_shows(&host.windows, pid);
    if !shown {
        let w = preview_width(host.columns);
        host.windows.push(
            Window { id: host.next_win_id, doc: pid, fixed_width: true, width: w },
        );
        host.next_win_id = host.next_win_id + 1;
    }
    proof {
        assert(host@ =~~= spec_create_or_update_preview(h0, output@));
    }
}

/// The documents that do not carry the reserved name, in order.
pub open spec fn non_preview_docs(docs: Seq<DocumentModel>) -> Seq<DocumentModel>
    decreases docs.len(),
{
    if docs.len() == 0 {
        Seq::empty()
    } else if is_preview_name(docs[0].name) {
        non_preview_docs(docs.drop_first())
    } else {
        seq![docs[0]] + non_preview_docs(docs.drop_first())
    }
}

/// The windows not bound to a preview-named document, in order.
pub open spec fn non_preview_windows(docs: Seq<DocumentModel>, ws: Seq<Window>) -> Seq<Window>
    decreases ws.len(),
{
    if ws.len() == 0 {
        Seq::empty()
    } else if window_shows_preview(docs, ws[0]) {
        non_preview_windows(docs, ws.drop_first())
    } else {
        seq![ws[0]] + non_preview_windows(docs, ws.drop_first())
    }
}

/// What filtering the documents leaves: only originals without the
/// reserved name, all of them, with unique handles kept unique.
pub proof fn lemma_non_preview_docs_wf(docs: Seq<DocumentModel>)
    requires
        forall|i: int, j: int| 0 <= i < j < docs.len() ==> docs[i].id != docs[j].id,
    ensures
        forall|k: int|
            0 <= k < non_preview_docs(docs).len() ==> !is_preview_name(
                #[trigger] non_preview_docs(docs)[k].name,
            ),
        forall|k: int|
            0 <= k < non_preview_docs(docs).len() ==> exists|j: int|
                0 <= j < docs.len() && #[trigger] non_preview_docs(docs)[k] == docs[j],
        forall|j: int|
            0 <= j < docs.len() && !is_preview_name(#[trigger] docs[j].name) ==> exists|k: int|
                0 <= k < non_preview_docs(docs).len() && non_preview_docs(docs)[k] == docs[j],
        forall|a: int, b: int|
            0 <= a < b < non_preview_docs(docs).len() ==> non_preview_docs(docs)[a].id
                != non_preview_docs(docs)[b].id,
    decreases docs.len(),
{
    if docs.len() > 0 {
        let rest = docs.drop_first();
        assert(forall|i: int| 0 <= i < rest.len() ==> rest[i] == docs[i + 1]);
        lemma_non_preview_docs_wf(rest);
        let r = non_preview_docs(docs);
        let rr = non_preview_docs(rest);
        if is_preview_name(docs[0].name) {
            assert(r == rr);
            assert forall|k: int| 0 <= k < r.len() implies exists|j: int|
                0 <= j < docs.len() && #[trigger] r[k] == docs[j] by {
                let jr = choose|jr: int| 0 <= jr < rest.len() && rr[k] == rest[jr];
                assert(r[k] == docs[jr + 1]);
            }
            assert forall|j: int|
                0 <= j < docs.len() && !is_preview_name(#[trigger] docs[j].name) implies exists|
                k: int,
            | 0 <= k < r.len() && r[k] == docs[j] by {
                assert(j >= 1);
                assert(rest[j - 1] == docs[j]);
            }
        } else {
            assert(forall|k: int| 1 <= k < r.len() ==> r[k] == rr[k - 1]);
            assert forall|k: int| 0 <= k < r.len() implies exists|j: int|
                0 <= j < docs.len() && #[trigger] r[k] == docs[j] by {
                if k == 0 {
                    assert(r[0] == docs[0]);
                } else {
                    let jr = choose|jr: int| 0 <= jr < rest.len() && rr[k - 1] == rest[jr];
                    assert(r[k] == docs[jr + 1]);
                }
            }
            assert forall|j: int|
                0 <= j < docs.len() && !is_preview_name(#[trigger] docs[j].name) implies exists|
                k: int,
            | 0 <= k < r.len() && r[k] == docs[j] by {
                if j == 0 {
                    assert(r[0] == docs[0]);
                } else {
                    assert(rest[j - 1] == docs[j]);
                    let k = choose|k: int| 0 <= k < rr.len() && rr[k] == rest[j - 1];
                    assert(r[k + 1] == docs[j]);
                }
            }
            assert forall|a: int, b: int| 0 <= a < b < r.len() implies r[a].id != r[b].id by {
                if a == 0 {
                    let jr = choose|jr: int| 0 <= jr < rest.len() && rr[b - 1] == rest[jr];
                    assert(r[b] == docs[jr + 1]);
                    assert(docs[0].id != docs[jr + 1].id);
                } else {
                    assert(r[a] == rr[a - 1] && r[b] == rr[b - 1]);
                }
            }
        }
    }
}

/// What filtering the windows leaves: only windows not bound to a
/// preview-named document, all of them, with unique handles kept unique.
pub proof fn lemma_non_preview_windows_wf(docs: Seq<DocumentModel>, ws: Seq<Window>)
    requires
        forall|i: int, j: int| 0 <= i < j < ws.len() ==> ws[i].id != ws[j].id,
    ensures
        forall|k: int|
            0 <= k < non_preview_windows(docs, ws).len() ==> !window_shows_preview(
                docs,
                #[trigger] non_preview_windows(docs, ws)[k],
            ),
        forall|k: int|
            0 <= k < non_preview_windows(docs, ws).len() ==> exists|j: int|
                0 <= j < ws.len() && #[trigger] non_preview_windows(docs, ws)[k] == ws[j],
        forall|a: int, b: int|
            0 <= a < b < non_preview_windows(docs, ws).len() ==> non_preview_windows(docs, ws)[a].id
                != non_preview_windows(docs, ws)[b].id,
    decreases ws.len(),
{
    if ws.len() > 0 {
        let rest = ws.drop_first();
        assert(forall|i: int| 0 <= i < rest.len() ==> rest[i] == ws[i + 1]);
        lemma_non_preview_windows_wf(docs, rest);
        let r = non_preview_windows(docs, ws);
        let rr = non_preview_windows(docs, rest);
        if window_shows_preview(docs, ws[0]) {
            assert(r == rr);
            assert forall|k: int| 0 <= k < r.len() implies exists|j: int|
                0 <= j < ws.len() && #[trigger] r[k] == ws[j] by {
                let jr = choose|jr: int| 0 <= jr < rest.len() && rr[k] == rest[jr];
                assert(r[k] == ws[jr + 1]);
            }
        } else {
            assert(forall|k: int| 1 <= k < r.len() ==> r[k] == rr[k - 1]);
            assert forall|k: int| 0 <= k < r.len() implies exists|j: int|
                0 <= j < ws.len() && #[trigger] r[k] == ws[j] by {
                if k == 0 {
                    assert(r[0] == ws[0]);
                } else {
                    let jr = choose|jr: int| 0 <= jr < rest.len() && rr[k - 1] == rest[jr];
                    assert(r[k] == ws[jr + 1]);
                }
            }
            assert forall|a: int, b: int| 0 <= a < b < r.len() implies r[a].id != r[b].id by {
                if a == 0 {
                    let jr = choose|jr: int| 0 <= jr < rest.len() && rr[b - 1] == rest[jr];
                    assert(r[b] == ws[jr + 1]);
                    assert(ws[0].id != ws[jr + 1].id);
                } else {
                    assert(r[a] == rr[a - 1] && r[b] == rr[b - 1]);
                }
            }
        }
    }
}

/// Destroying the preview outright, as on host shutdown: every document
/// carrying the reserved name is wiped, and every window bound to one goes
/// with it. Everything else survives unchanged.
pub open spec fn spec_destroy_preview(h: HostModel) -> HostModel {
    HostModel {
        docs: non_preview_docs(h.docs),
        windows: non_preview_windows(h.docs, h.windows),
        next_doc_id: h.next_doc_id,
        next_win_id: h.next_win_id,
        columns: h.columns,
    }
}

/// Destroying the preview preserves well-formedness.
pub proof fn lemma_destroy_preview_preserves_wf(h: HostModel)
    requires
        h.wf(),
    ensures
        spec_destroy_preview(h).wf(),
{
    lemma_non_preview_docs_wf(h.docs);
    lemma_non_preview_windows_wf(h.docs, h.windows);
    let h2 = spec_destroy_preview(h);
    assert forall|a: int| 0 <= a < h2.docs.len() implies h2.docs[a].id < h2.next_doc_id by {
        let j = choose|j: int| 0 <= j < h.docs.len() && h2.docs[a] == h.docs[j];
    }
    assert forall|a: int| 0 <= a < h2.windows.len() implies h2.windows[a].id
        < h2.next_win_id by {
        let j = choose|j: int| 0 <= j < h.windows.len() && h2.windows[a] == h.windows[j];
    }
    assert forall|a: int| 0 <= a < h2.windows.len() implies h2.has_doc(
        h2.windows[a].doc,
    ) by {
        let w = h2.windows[a];
        assert(!window_shows_preview(h.docs, w));
        let j = choose|j: int| 0 <= j < h.windows.len() && w == h.windows[j];
        assert(h.has_doc(w.doc));
        lemma_doc_index_of(h.docs, w.doc);
        let di = doc_index_of(h.docs, w.doc);
        if di == -1 {
            let i = choose|i: int| 0 <= i < h.docs.len() && h.docs[i].id == w.doc;
            assert(false);
        }
        assert(!is_preview_name(h.docs[di].name));
        let k = choose|k: int|
            0 <= k < h2.docs.len() && h2.docs[k] == h.docs[di];
        assert(h2.docs[k].id == w.doc);
    }
}

/// Wipes the preview document and every window bound to it, as on host
/// shutdown. A no-op when no preview document exists.
pub fn destroy_preview(host: &mut Host)
    requires
        old(host)@.wf(),
    ensures
        final(host)@ == spec_destroy_preview(old(host)@),
        final(host)@.wf(),
{
    proof {
        lemma_destroy_preview_preserves_wf(old(host)@);
    }
    let ghost d0 = old(host)@.docs;
    let ghost w0 = old(host)@.windows;
    proof {
        assert(w0.skip(0) =~= w0);
        assert(w0.take(0) =~= Seq::<Window>::empty());
    }
    // Close every window bound to a preview-named document first, while
    // the document list is still intact.
    let mut i: usize = 0;
    while i < host.windows.len()
        invariant
            host@.docs == d0,
            host@.next_doc_id == old(host)@.next_doc_id,
            host@.next_win_id == old(host)@.next_win_id,
            host@.columns == old(host)@.columns,
            i <= host.windows.len(),
            non_preview_windows(d0, w0) == host@.windows.take(i as int) + non_preview_windows(
                d0,
                host@.windows.skip(i as int),
            ),
        decreases host.windows.len() - i,
    {
        let ghost pre = host@.windows;
        let shows = window_doc_is_preview(&host.docs, host.windows[i]);
        assert(pre.skip(i as int)[0] == pre[i as int]);
        if shows {
            host.windows.remove(i);
            proof {
                assert(pre.skip(i as int).drop_first() =~= host@.windows.skip(i as int));
                assert(host@.windows.take(i as int) =~= pre.take(i as int));
            }
        } else {
            i = i + 1;
            proof {
                assert(pre.skip(i - 1).drop_first() =~= pre.skip(i as int));
                assert(pre.take(i as int) =~= pre.take(i - 1).push(pre[i - 1]));
                assert(pre.take(i - 1) + (seq![pre[i - 1]] + non_preview_windows(
                    d0,
                    pre.skip(i as int),
                )) =~= pre.take(i as int) + non_preview_windows(d0, pre.skip(i as int)));
            }
        }
    }
    proof {
        assert(host@.windows.skip(i as int) =~= Seq::<Window>::empty());
        assert(host@.windows.take(i as int) =~= host@.windows);
        assert(host@.windows + Seq::<Window>::empty() =~= host@.windows);
        assert(host@.windows == non_preview_windows(d0, w0));
        assert(d0.take(0) =~= Seq::<DocumentModel>::empty());
        assert(d0.skip(0) =~= d0);
    }
    // Now wipe every document carrying the reserved name.
    let mut j: usize = 0;
    while j < host.docs.len()
        invariant
            host@.windows == non_preview_windows(d0, w0),
            host@.next_doc_id == old(host)@.next_doc_id,
            host@.next_win_id == old(host)@.next_win_id,
            host@.columns == old(host)@.columns,
            j <= host.docs.len(),
            non_preview_docs(d0) == host@.docs.take(j as int) + non_preview_docs(
                host@.docs.skip(j as int),
            ),
        decreases host.docs.len() - j,
    {
        let ghost pre = host@.docs;
        let wipe = crate::classify::names_preview(&host.docs[j].name);
        assert(pre.skip(j as int)[0] == pre[j as int]);
        assert(host@.docs[j as int].name == host.docs@[j as int].name@);
        if wipe {
            host.docs.remove(j);
            proof {
                assert(host@.docs =~~= pre.remove(j as int));
                assert(pre.skip(j as int).drop_first() =~= host@.docs.skip(j as int));
                assert(host@.docs.take(j as int) =~= pre.take(j as int));
            }
        } else {
            j = j + 1;
            proof {
                assert(pre.skip(j - 1).drop_first() =~= pre.skip(j as int));
                assert(pre.take(j as int) =~= pre.take(j - 1).push(pre[j - 1]));
                assert(pre.take(j - 1) + (seq![pre[j - 1]] + non_preview_docs(
                    pre.skip(j as int),
                )) =~= pre.take(j as int) + non_preview_docs(pre.skip(j as int)));
            }
        }
    }
    proof {
        assert(host@.docs.skip(j as int) =~= Seq::<DocumentModel>::empty());
        assert(host@.docs.take(j as int) =~= host@.docs);
        assert(host@.docs + Seq::<DocumentModel>::empty() =~= host@.docs);
        assert(host@ =~~= spec_destroy_preview(old(host)@));
    }
}

/// The reserved name is a preview name.
pub proof fn lemma_preview_name_is_preview()
    ensures
        is_preview_name(preview_name()),
{
    assert(preview_name().skip(0) =~= preview_name());
}

/// Uniqueness of the surface: creating or updating the preview never results in a
/// second document carrying the reserved name — an existing one is
/// reused — and, as soon as the host has any window, one such document
/// exists afterwards.
pub proof fn lemma_create_or_update_singleton(h: HostModel, text: Seq<u8>)
    requires
        h.wf(),
        at_most_one_preview_doc(h.docs),
    ensures
        at_most_one_preview_doc(spec_create_or_update_preview(h, text).docs),
        h.windows.len() > 0 ==> has_preview_doc(spec_create_or_update_preview(h, text).docs),
{
    lemma_first_preview_doc_index(h.docs);
    lemma_preview_name_is_preview();
    if h.windows.len() > 0 {
        let h2 = spec_create_or_update_preview(h, text);
        let pi0 = first_preview_doc_index(h.docs);
        let docs1 = if pi0 >= 0 {
            h.docs
        } else {
            h.docs.push(fresh_preview_doc(h.next_doc_id))
        };
        assert(forall|k: int| 0 <= k < h2.docs.len() ==> h2.docs[k].name == docs1[k].name);
        if pi0 >= 0 {
            assert(is_preview_name(h2.docs[pi0].name));
        } else {
            assert(is_preview_name(h2.docs[h.docs.len() as int].name));
        }
    }
}

/// Uniqueness of the surface across repeated calls: two successive creations or
/// updates, with any contents, still leave at most one document carrying
/// the reserved name; the step case extends this to any number of calls.
pub proof fn lemma_create_or_update_idempotent(h: HostModel, t1: Seq<u8>, t2: Seq<u8>)
    requires
        h.wf(),
        at_most_one_preview_doc(h.docs),
        h.next_doc_id < u64::MAX,
        h.next_win_id < u64::MAX,
    ensures
        at_most_one_preview_doc(
            spec_create_or_update_preview(spec_create_or_update_preview(h, t1), t2).docs,
        ),
        h.windows.len() > 0 ==> has_preview_doc(
            spec_create_or_update_preview(spec_create_or_update_preview(h, t1), t2).docs,
        ),
{
    lemma_create_or_update_preserves_wf(h, t1);
    lemma_create_or_update_singleton(h, t1);
    let h1 = spec_create_or_update_preview(h, t1);
    assert(h1.windows.len() >= h.windows.len());
    lemma_create_or_update_singleton(h1, t2);
}

/// Any number of successive creations or updates, one per entry of
/// `texts`, applied in order.
pub open spec fn apply_create_or_update_all(h: HostModel, texts: Seq<Seq<u8>>) -> HostModel
    decreases texts.len(),
{
    if texts.len() == 0 {
        h
    } else {
        apply_create_or_update_all(
            spec_create_or_update_preview(h, texts[0]),
            texts.drop_first(),
        )
    }
}

/// Uniqueness of the surface for any number of calls: creating or updating the preview
/// N times, with any contents, never results in more than one document
/// carrying the reserved name — and, once the host has a window, at least
/// one call leaves exactly one.
pub proof fn lemma_create_or_update_n_fold(h: HostModel, texts: Seq<Seq<u8>>)
    requires
        h.wf(),
        at_most_one_preview_doc(h.docs),
        h.next_doc_id + texts.len() <= u64::MAX,
        h.next_win_id + texts.len() <= u64::MAX,
    ensures
        apply_create_or_update_all(h, texts).wf(),
        at_most_one_preview_doc(apply_create_or_update_all(h, texts).docs),
        has_preview_doc(h.docs) ==> has_preview_doc(apply_create_or_update_all(h, texts).docs),
        texts.len() > 0 && h.windows.len() > 0 ==> has_preview_doc(
            apply_create_or_update_all(h, texts).docs,
        ),
    decreases texts.len(),
{
    if texts.len() > 0 {
        lemma_create_or_update_preserves_wf(h, texts[0]);
        lemma_create_or_update_singleton(h, texts[0]);
        let h1 = spec_create_or_update_preview(h, texts[0]);
        assert(h1.next_doc_id <= h.next_doc_id + 1);
        assert(h1.next_win_id <= h.next_win_id + 1);
        lemma_create_or_update_n_fold(h1, texts.drop_first());
    }
}

/// Full replacement of content: after a creation or update the preview
/// document holds exactly the supplied text split into lines — empty input
/// leaves no lines — its write-lock is restored, it is shown in some
/// window, and reading its content back yields those lines joined again.
pub proof fn lemma_create_or_update_content(h: HostModel, text: Seq<u8>)
    requires
        h.wf(),
        h.windows.len() > 0,
    ensures
        ({
            let h2 = spec_create_or_update_preview(h, text);
            let pi0 = first_preview_doc_index(h.docs);
            let pidx = if pi0 >= 0 {
                pi0
            } else {
                h.docs.len() as int
            };
            &&& 0 <= pidx < h2.docs.len()
            &&& is_preview_name(h2.docs[pidx].name)
            &&& h2.docs[pidx].lines == spec_split_lines(text)
            &&& !h2.docs[pidx].modifiable
            &&& spec_preview_shown(h2)
            &&& crate::visibility::spec_buffer_content(h2, h2.docs[pidx].id)
                == crate::lines::spec_join_lines(spec_split_lines(text))
        }),
{
    lemma_first_preview_doc_index(h.docs);
    lemma_preview_name_is_preview();
    let h2 = spec_create_or_update_preview(h, text);
    let pi0 = first_preview_doc_index(h.docs);
    let docs1 = if pi0 >= 0 {
        h.docs
    } else {
        h.docs.push(fresh_preview_doc(h.next_doc_id))
    };
    let pidx = if pi0 >= 0 {
        pi0
    } else {
        h.docs.len() as int
    };
    let pid = docs1[pidx].id;
    assert(is_preview_name(docs1[pidx].name));
    assert(forall|k: int| 0 <= k < h2.docs.len() ==> h2.docs[k].name == docs1[k].name);
    assert(forall|k: int| 0 <= k < h2.docs.len() ==> h2.docs[k].id == docs1[k].id);
    assert(forall|i: int, j: int|
        0 <= i < j < docs1.len() ==> docs1[i].id != docs1[j].id);
    lemma_doc_index_of(h2.docs, pid);
    let di = doc_index_of(h2.docs, pid);
    assert(h2.docs[pidx].id == pid);
    if di == -1 {
        assert(false);
    }
    assert(di == pidx);
    let shown = has_window_of(h.windows, pid);
    if shown {
        let wi = choose|wi: int| 0 <= wi < h.windows.len() && h.windows[wi].doc == pid;
        assert(h2.windows[wi] == h.windows[wi]);
        assert(window_shows_preview(h2.docs, h2.windows[wi]));
    } else {
        let wi = h.windows.len() as int;
        assert(h2.windows[wi].doc == pid);
        assert(window_shows_preview(h2.docs, h2.windows[wi]));
    }
}

/// Closing an open preview removes its window binding, and a creation or
/// update afterwards brings back a visible preview — provided the host
/// still has some window to work in.
pub proof fn lemma_close_then_reopen(h: HostModel, text: Seq<u8>)
    requires
        h.wf(),
        at_most_one_preview_window(h),
        spec_close_preview(h).windows.len() > 0,
        h.next_doc_id < u64::MAX,
        h.next_win_id < u64::MAX,
    ensures
        !spec_preview_shown(spec_close_preview(h)),
        spec_preview_shown(spec_create_or_update_preview(spec_close_preview(h), text)),
{
    lemma_first_preview_window_index(h.docs, h.windows);
    lemma_close_preview_preserves_wf(h);
    let h1 = spec_close_preview(h);
    let wi = first_preview_window_index(h.docs, h.windows);
    if wi < 0 {
        assert(!spec_preview_shown(h1));
    } else {
        assert(forall|k: int|
            0 <= k < h1.windows.len() ==> h1.windows[k] == (if k < wi {
                h.windows[k]
            } else {
                h.windows[k + 1]
            }));
        assert forall|k: int| 0 <= k < h1.windows.len() implies !window_shows_preview(
            h1.docs,
            h1.windows[k],
        ) by {
            let m = if k < wi {
                k
            } else {
                k + 1
            };
            assert(h1.windows[k] == h.windows[m]);
            assert(m != wi);
            assert(window_shows_preview(h.docs, h.windows[wi]));
            if window_shows_preview(h.docs, h.windows[m]) {
                if m < wi {
                    assert(!(window_shows_preview(h.docs, h.windows[m])
                        && window_shows_preview(h.docs, h.windows[wi])));
                } else {
                    assert(!(window_shows_preview(h.docs, h.windows[wi])
                        && window_shows_preview(h.docs, h.windows[m])));
                }
            }
        }
        assert(!spec_preview_shown(h1));
    }
    lemma_create_or_update_content(h1, text);
}

} // verus!
