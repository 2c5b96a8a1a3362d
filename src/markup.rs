//! The rendered elements that cells and bodies hand to the page.

use vstd::prelude::*;

verus! {

/// One rendered element: its tag, class, whether its text can be edited in
/// place, the handle that the owner asked to attach, and its children.
pub struct Element<C> {
    pub tag: String,
    pub class: String,
    pub content_editable: bool,
    pub node_ref: Option<BodyRef>,
    pub children: C,
}

/// A handle through which the owning table finds a rendered container again.
#[derive(Clone, Copy, Debug, PartialEq, Eq, Structural)]
pub struct BodyRef {
    pub id: u64,
}

} // verus!
