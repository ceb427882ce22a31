//! The model of the host editor's state: documents (buffers), windows
//! (views), and the counters the host draws fresh handles from.
//!
//! The host owns this state in reality; the adapter mirrors it into a
//! [`Host`] value, the verified operations work on that value, and the
//! adapter replays the effects. Names stored on documents are the host's
//! resolved paths; a document whose path could not be resolved, or that has
//! no file at all, carries the empty name.

use vstd::prelude::*;

verus! {

/// Mathematical model of one document: its handle, resolved name, content
/// lines, and the options the preview surface cares about.
#[verifier::ext_equal]
pub struct DocumentModel {
    pub id: u64,
    pub name: Seq<u8>,
    pub lines: Seq<Seq<u8>>,
    pub listed: bool,
    pub modifiable: bool,
    pub wipe_on_hide: bool,
    pub swapfile: bool,
}

/// A window: a display slot bound to exactly one document. Plain data, so
/// it serves as its own model.
#[derive(Clone, Copy)]
pub struct Window {
    pub id: u64,
    pub doc: u64,
    pub fixed_width: bool,
    pub width: u64,
}

/// Mathematical model of the whole host state.
#[verifier::ext_equal]
pub struct HostModel {
    pub docs: Seq<DocumentModel>,
    pub windows: Seq<Window>,
    pub next_doc_id: u64,
    pub next_win_id: u64,
    pub columns: u64,
}

/// One document as the adapter mirrors it.
pub struct Document {
    pub id: u64,
    pub name: Vec<u8>,
    pub lines: Vec<Vec<u8>>,
    pub listed: bool,
    pub modifiable: bool,
    pub wipe_on_hide: bool,
    pub swapfile: bool,
}

impl View for Document {
    type V = DocumentModel;

    open spec fn view(&self) -> DocumentModel {
        DocumentModel {
            id: self.id,
            name: self.name@,
            lines: self.lines.deep_view(),
            listed: self.listed,
            modifiable: self.modifiable,
            wipe_on_hide: self.wipe_on_hide,
            swapfile: self.swapfile,
        }
    }
}

/// The host state as the adapter mirrors it: all open documents, all
/// windows, the id counters, and the total available width in columns.
pub struct Host {
    pub docs: Vec<Document>,
    pub windows: Vec<Window>,
    pub next_doc_id: u64,
    pub next_win_id: u64,
    pub columns: u64,
}

impl View for Host {
    type V = HostModel;

    open spec fn view(&self) -> HostModel {
        HostModel {
            docs: docs_model(self.docs),
            windows: self.windows@,
            next_doc_id: self.next_doc_id,
            next_win_id: self.next_win_id,
            columns: self.columns,
        }
    }
}

impl HostModel {
    /// Is `id` the handle of some open document?
    pub open spec fn has_doc(self, id: u64) -> bool {
        exists|i: int| 0 <= i < self.docs.len() && self.docs[i].id == id
    }

    /// Well-formedness of the mirrored host state: handles are unique and
    /// below the counters that issue them, and every window is bound to an
    /// open document (a window with no document cannot exist on the host).
    pub open spec fn wf(self) -> bool {
        &&& forall|i: int, j: int|
            0 <= i < j < self.docs.len() ==> self.docs[i].id != self.docs[j].id
        &&& forall|i: int| 0 <= i < self.docs.len() ==> self.docs[i].id < self.next_doc_id
        &&& forall|i: int, j: int|
            0 <= i < j < self.windows.len() ==> self.windows[i].id != self.windows[j].id
        &&& forall|i: int| 0 <= i < self.windows.len() ==> self.windows[i].id < self.next_win_id
        &&& forall|i: int| 0 <= i < self.windows.len() ==> self.has_doc(self.windows[i].doc)
    }
}

/// Index of the first document carrying handle `id`, or -1 when none does.
pub open spec fn doc_index_of(docs: Seq<DocumentModel>, id: u64) -> int
    decreases docs.len(),
{
    if docs.len() == 0 {
        -1
    } else if docs[0].id == id {
        0
    } else {
        let r = doc_index_of(docs.drop_first(), id);
        if r < 0 {
            -1
        } else {
            r + 1
        }
    }
}

/// What `doc_index_of` returns: -1 exactly when no document carries the
/// handle, otherwise the least index that does.
pub proof fn lemma_doc_index_of(docs: Seq<DocumentModel>, id: u64)
    ensures
        doc_index_of(docs, id) == -1 ==> forall|i: int|
            0 <= i < docs.len() ==> docs[i].id != id,
        doc_index_of(docs, id) != -1 ==> {
            let r = doc_index_of(docs, id);
            &&& 0 <= r < docs.len()
            &&& docs[r].id == id
            &&& forall|i: int| 0 <= i < r ==> docs[i].id != id
        },
    decreases docs.len(),
{
    if docs.len() > 0 && docs[0].id != id {
        lemma_doc_index_of(docs.drop_first(), id);
        assert(forall|i: int|
            1 <= i < docs.len() ==> docs[i] == docs.drop_first()[i - 1]);
    }
}

/// The model of a mirrored document list.
pub open spec fn docs_model(docs: Vec<Document>) -> Seq<DocumentModel> {
    docs@.map_values(|d: Document| d@)
}

/// Position of the document with handle `id`, if any.
pub fn find_doc_index(docs: &Vec<Document>, id: u64) -> (r: Option<usize>)
    ensures
        match r {
            Some(i) => i == doc_index_of(docs_model(*docs), id),
            None => doc_index_of(docs_model(*docs), id) == -1,
        },
{
    proof {
        lemma_doc_index_of(docs_model(*docs), id);
    }
    for i in 0..docs.len()
        invariant
            forall|k: int| 0 <= k < i ==> docs_model(*docs)[k].id != id,
    {
        if docs[i].id == id {
            proof {
                assert(docs_model(*docs)[i as int].id == id);
                lemma_doc_index_of(docs_model(*docs), id);
            }
            return Some(i);
        }
        assert(docs_model(*docs)[i as int].id != id);
    }
    None
}

} // verus!
