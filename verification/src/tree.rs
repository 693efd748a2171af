//! The validation-error tree: a recursive structure that mirrors the shape of
//! the validated data, annotating nodes with constraint-violation messages.

use vstd::prelude::*;
use crate::report::msg_views;

verus! {

/// A node of the validation-error tree.
///
/// `Sequence` stands for an ordered collection: `own_errors` are violations of
/// the collection itself, `items` holds the sub-trees of offending elements,
/// keyed by the decimal rendering of their index (sparse: clean elements have
/// no entry). `Keyed` stands for a named-field object, keyed by field name.
/// `Wrapped` stands for a single-value wrapper with a flat message list and no
/// children. Children are kept in insertion order.
#[derive(Debug, PartialEq)]
pub enum ErrorTree {
    Sequence { own_errors: Vec<String>, items: Vec<(String, ErrorTree)> },
    Keyed { own_errors: Vec<String>, fields: Vec<(String, ErrorTree)> },
    Wrapped { errors: Vec<String> },
}

/// The messages attached to the node itself.
pub open spec fn node_messages(t: ErrorTree) -> Seq<Seq<char>> {
    match t {
        ErrorTree::Sequence { own_errors, .. } => msg_views(own_errors@),
        ErrorTree::Keyed { own_errors, .. } => msg_views(own_errors@),
        ErrorTree::Wrapped { errors } => msg_views(errors@),
    }
}

/// The node's named children, in order.
pub open spec fn node_children(t: ErrorTree) -> Seq<(String, ErrorTree)> {
    match t {
        ErrorTree::Sequence { items, .. } => items@,
        ErrorTree::Keyed { fields, .. } => fields@,
        ErrorTree::Wrapped { .. } => Seq::empty(),
    }
}

/// A leaf that only carries its own messages: no children, at least one message.
pub open spec fn is_message_leaf(t: ErrorTree) -> bool {
    node_messages(t).len() > 0 && node_children(t).len() == 0
}

} // verus!
