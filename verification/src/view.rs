//! The log view: per-view configuration and the two operations the host UI
//! invokes each frame — sizing and drawing — over a shared store.

use vstd::prelude::*;

use crate::layout;
use crate::layout::{matches_plan, render_plan, spec_required_size, PlacedSpan};
use crate::store::LogStore;

verus! {

/// A view of the log store. Its one configuration flag, set at construction
/// time, says whether continuation rows of a multi-line message are indented
/// to the message body's start column or reset to column zero.
pub struct FlexiLoggerView {
    pub indent: bool,
}

/// Switches a view's continuation-indent policy at construction time.
pub trait Indentable: Sized {
    /// Whether continuation rows of this value indent.
    spec fn spec_indent(&self) -> bool;

    /// Continuation rows start at column zero.
    fn no_indent(self) -> (r: Self)
        ensures
            !r.spec_indent(),
    ;

    /// Continuation rows align under the message body's start column.
    fn indent(self) -> (r: Self)
        ensures
            r.spec_indent(),
    ;
}

impl FlexiLoggerView {
    /// Creates a view; continuation rows indent by default.
    pub fn new() -> (r: FlexiLoggerView)
        ensures
            r.indent,
    {
        FlexiLoggerView { indent: true }
    }

    /// Sizing: the bounding box the stored lines want — width of the widest
    /// line, total physical row count — each clamped up to the constraint the
    /// host proposes.
    pub fn required_size(&self, store: &LogStore, constraint_w: usize, constraint_h: usize) -> (r:
        (usize, usize))
        requires
            store.wf(),
        ensures
            (r.0 as nat, r.1 as nat) == spec_required_size(
                store.lines(),
                constraint_w as nat,
                constraint_h as nat,
            ),
    {
        layout::required_size(store, constraint_w, constraint_h)
    }

    /// Drawing: the placement of every styled span of the newest stored lines
    /// that fit a viewport of the given height, under this view's indent
    /// policy.
    pub fn draw(&self, store: &LogStore, viewport_height: usize) -> (r: Vec<PlacedSpan>)
        requires
            store.wf(),
        ensures
            matches_plan(r@, render_plan(store.lines(), viewport_height as nat, self.indent)),
    {
        layout::render_spans(store, viewport_height, self.indent)
    }
}

impl Indentable for FlexiLoggerView {
    open spec fn spec_indent(&self) -> bool {
        self.indent
    }

    fn no_indent(self) -> (r: Self) {
        FlexiLoggerView { indent: false }
    }

    fn indent(self) -> (r: Self) {
        FlexiLoggerView { indent: true }
    }
}

} // verus!
