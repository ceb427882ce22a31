//! The lifecycle controller: a reactive state machine over the host
//! model, driven by named trigger events.
//!
//! It holds no state of its own; every decision re-reads the mirrored
//! host state. The adapter registers the triggers at the live host, runs
//! the settle delays before the automatic ones, computes the summary text
//! through the configured formatter, and replays the decided transition.
//! Failures of automatic transitions are swallowed and logged by the
//! adapter; user-invoked ones report theirs.

use vstd::prelude::*;

use crate::host::Host;
use crate::host::HostModel;
use crate::preview::close_preview;
use crate::preview::create_or_update_preview;
use crate::preview::destroy_preview;
use crate::preview::is_preview_open;
use crate::preview::spec_close_preview;
use crate::preview::spec_create_or_update_preview;
use crate::preview::spec_destroy_preview;
use crate::preview::spec_preview_shown;
use crate::visibility::any_tracking_visible;
use crate::visibility::is_time_tracking_file;
use crate::visibility::spec_any_tracking_visible;
use crate::visibility::spec_doc_tracked;

verus! {

/// The named trigger events the host fires at the controller.
#[derive(Clone, Copy)]
pub enum TriggerEvent {
    /// The user toggles the preview for the current document.
    Toggle,
    /// The current document's content changed.
    Update,
    /// A view was entered or opened; fires after a settle delay.
    AutoOpen,
    /// A classified document was left; fires after a settle delay.
    AutoClose,
    /// The view layout changed: a view was entered or closed, or a tab
    /// switched.
    VisibilityChanged,
    /// The host is shutting down.
    Shutdown,
}

/// The transition table. `current` is the handle of the host's current
/// document, `root` the resolved tracking root, and `summary` the text
/// the configured formatter produced for the current document.
pub open spec fn spec_handle_event(
    h: HostModel,
    ev: TriggerEvent,
    current: Option<u64>,
    root: Option<Seq<u8>>,
    summary: Seq<u8>,
) -> HostModel {
    let on_tracking = match current {
        Some(id) => spec_doc_tracked(h, id, root),
        None => false,
    };
    match ev {
        TriggerEvent::Toggle => if !on_tracking {
            h
        } else if spec_preview_shown(h) {
            spec_close_preview(h)
        } else {
            spec_create_or_update_preview(h, summary)
        },
        TriggerEvent::Update => if on_tracking && spec_preview_shown(h) {
            spec_create_or_update_preview(h, summary)
        } else {
            h
        },
        TriggerEvent::AutoOpen => if on_tracking && !spec_preview_shown(h) {
            spec_create_or_update_preview(h, summary)
        } else {
            h
        },
        TriggerEvent::AutoClose => spec_close_preview(h),
        TriggerEvent::VisibilityChanged => if !spec_any_tracking_visible(h, root) {
            spec_close_preview(h)
        } else {
            h
        },
        TriggerEvent::Shutdown => spec_destroy_preview(h),
    }
}

/// A toggle on a document that does not classify as tracked changes
/// nothing: no preview is created and none is closed.
pub proof fn lemma_toggle_untracked_noop(
    h: HostModel,
    current: Option<u64>,
    root: Option<Seq<u8>>,
    summary: Seq<u8>,
)
    requires
        match current {
            Some(id) => !spec_doc_tracked(h, id, root),
            None => true,
        },
    ensures
        spec_handle_event(h, TriggerEvent::Toggle, current, root, summary) == h,
{
}

/// Whatever event fires, the preview document stays unique: no transition
/// of the controller ever leaves two documents carrying the reserved name.
pub proof fn lemma_handle_event_preserves_singleton(
    h: HostModel,
    ev: TriggerEvent,
    current: Option<u64>,
    root: Option<Seq<u8>>,
    summary: Seq<u8>,
)
    requires
        h.wf(),
        crate::preview::at_most_one_preview_doc(h.docs),
    ensures
        crate::preview::at_most_one_preview_doc(
            spec_handle_event(h, ev, current, root, summary).docs,
        ),
{
    crate::preview::lemma_create_or_update_singleton(h, summary);
    crate::preview::lemma_non_preview_docs_wf(h.docs);
    assert(crate::preview::at_most_one_preview_doc(spec_close_preview(h).docs));
    assert(crate::preview::at_most_one_preview_doc(spec_destroy_preview(h).docs));
}

/// Runs one transition of the controller on the mirrored host state,
/// exactly as the transition table says.
pub fn handle_event(
    host: &mut Host,
    ev: TriggerEvent,
    current: Option<u64>,
    root: Option<&Vec<u8>>,
    summary: &Vec<u8>,
)
    requires
        old(host)@.wf(),
        old(host).next_doc_id < u64::MAX,
        old(host).next_win_id < u64::MAX,
    ensures
        final(host)@ == spec_handle_event(old(host)@, ev, current, root.deep_view(), summary@),
        final(host)@.wf(),
{
    match ev {
        TriggerEvent::Toggle => {
            let on_tracking = match current {
                Some(id) => is_time_tracking_file(host, id, root),
                None => false,
            };
            if on_tracking {
                if is_preview_open(host) {
                    close_preview(host);
                } else {
                    create_or_update_preview(host, summary);
                }
            }
        },
        TriggerEvent::Update => {
            let on_tracking = match current {
                Some(id) => is_time_tracking_file(host, id, root),
                None => false,
            };
            if on_tracking && is_preview_open(host) {
                create_or_update_preview(host, summary);
            }
        },
        TriggerEvent::AutoOpen => {
            let on_tracking = match current {
                Some(id) => is_time_tracking_file(host, id, root),
                None => false,
            };
            if on_tracking && !is_preview_open(host) {
                create_or_update_preview(host, summary);
            }
        },
        TriggerEvent::AutoClose => {
            close_preview(host);
        },
        TriggerEvent::VisibilityChanged => {
            if !any_tracking_visible(host, root) {
                close_preview(host);
            }
        },
        TriggerEvent::Shutdown => {
            destroy_preview(host);
        },
    }
}

} // verus!
