//! The table body container.

use vstd::prelude::*;
use crate::digits::push_char;
use crate::markup::{BodyRef, Element};

verus! {

/// The default body renderer: exactly one `tbody` root that carries the class
/// and the handle and wraps the content.
#[allow(non_snake_case)]
pub fn DefaultTableBodyRenderer<C>(content: C, class: String, body_ref: BodyRef) -> (r: Vec<Element<C>>)
    ensures
        r@.len() == 1,
        r@[0].tag@ == seq!['t', 'b', 'o', 'd', 'y'],
        r@[0].class@ == class@,
        r@[0].content_editable == false,
        r@[0].node_ref == Some(body_ref),
        r@[0].children == content,
{
    let mut tag = String::new();
    push_char(&mut tag, 't');
    push_char(&mut tag, 'b');
    push_char(&mut tag, 'o');
    push_char(&mut tag, 'd');
    push_char(&mut tag, 'y');
    let root = Element { tag, class, content_editable: false, node_ref: Some(body_ref), children: content };
    let mut r: Vec<Element<C>> = Vec::new();
    r.push(root);
    r
}

} // verus!
