//! Flattening a validation-error tree into a single report.
//!
//! Messages on a node land under the node's name (or `non_field_errors` at
//! the root); a named child whose local report is a lone `non_field_errors`
//! entry collapses to a flat message array under the child's name; any other
//! child report is nested whole, extending an object already bound to the
//! same key rather than overwriting it.

use vstd::prelude::*;
use vstd::string::StringExecFns;
use crate::report::{
    insert_all, insert_entry, collapse, lemma_lookup_insert, lemma_lookup_insert_all_other, lookup,
    merge_under, nfe, msg_views, Report, ReportModel, ReportValue, ValueModel,
};
use crate::tree::{is_message_leaf, node_children, node_messages, ErrorTree};

verus! {

/// The key under which a node's own messages land: its enclosing name if it
/// has one, else the sentinel.
pub open spec fn key_or(key: Option<Seq<char>>) -> Seq<char> {
    match key {
        Some(k) => k,
        None => nfe(),
    }
}

/// `m` with the node's own messages inserted, if it has any.
pub open spec fn with_own(m: ReportModel, key: Option<Seq<char>>, t: ErrorTree) -> ReportModel {
    if node_messages(t).len() > 0 {
        insert_entry(m, key_or(key), ValueModel::Messages(node_messages(t)))
    } else {
        m
    }
}

/// One node flattened into the result map `m` of its recursion level.
pub open spec fn flatten_node(m: ReportModel, key: Option<Seq<char>>, t: ErrorTree) -> ReportModel
    decreases t,
{
    match t {
        ErrorTree::Sequence { own_errors, items } => insert_all(
            with_own(m, key, t),
            flatten_items(Seq::empty(), items@),
        ),
        ErrorTree::Keyed { own_errors, fields } => {
            let m1 = with_own(m, key, t);
            let cm = keyed_children(Seq::empty(), fields@);
            if cm.len() > 0 {
                match key {
                    Some(parent) => merge_under(m1, parent, cm),
                    None => insert_all(m1, cm),
                }
            } else {
                m1
            }
        },
        ErrorTree::Wrapped { errors } => with_own(m, key, t),
    }
}

/// Sequence items flattened one after the other into a local map, each under
/// its own index key.
pub open spec fn flatten_items(m: ReportModel, items: Seq<(String, ErrorTree)>) -> ReportModel
    decreases items,
{
    if items.len() == 0 {
        m
    } else {
        flatten_items(flatten_node(m, Some(items[0].0@), items[0].1), items.drop_first())
    }
}

/// The child map of a keyed node: each field's local report, collapsed where
/// it is a lone `non_field_errors` entry, bound under the field's name.
pub open spec fn keyed_children(cm: ReportModel, fields: Seq<(String, ErrorTree)>) -> ReportModel
    decreases fields,
{
    if fields.len() == 0 {
        cm
    } else {
        keyed_children(
            insert_entry(
                cm,
                fields[0].0@,
                collapse(flatten_node(Seq::empty(), None, fields[0].1)),
            ),
            fields.drop_first(),
        )
    }
}

/// The whole report of a tree: its root flattened with no enclosing name.
pub open spec fn flatten_spec(t: ErrorTree) -> ReportModel {
    flatten_node(Seq::empty(), None, t)
}

/// A node that only carries its own messages contributes exactly one
/// insertion: its message array, in order, under its enclosing name.
pub proof fn lemma_leaf_flatten(m: ReportModel, key: Option<Seq<char>>, t: ErrorTree)
    requires
        is_message_leaf(t),
    ensures
        flatten_node(m, key, t) == insert_entry(
            m,
            key_or(key),
            ValueModel::Messages(node_messages(t)),
        ),
{
    match t {
        ErrorTree::Sequence { own_errors, items } => {
            assert(items@ =~= Seq::<(String, ErrorTree)>::empty());
            assert(flatten_items(Seq::empty(), items@) == Seq::<(Seq<char>, ValueModel)>::empty());
        },
        ErrorTree::Keyed { own_errors, fields } => {
            assert(fields@ =~= Seq::<(String, ErrorTree)>::empty());
            assert(keyed_children(Seq::empty(), fields@) == Seq::<(Seq<char>, ValueModel)>::empty());
        },
        ErrorTree::Wrapped { errors } => {},
    }
}

/// Flattening a tree with no messages anywhere and no children produces the
/// empty report.
pub proof fn lemma_empty_tree(t: ErrorTree)
    requires
        node_messages(t).len() == 0,
        node_children(t).len() == 0,
    ensures
        flatten_spec(t) == Seq::<(Seq<char>, ValueModel)>::empty(),
{
    match t {
        ErrorTree::Sequence { own_errors, items } => {
            assert(items@ =~= Seq::<(String, ErrorTree)>::empty());
            assert(flatten_items(Seq::empty(), items@) == Seq::<(Seq<char>, ValueModel)>::empty());
        },
        ErrorTree::Keyed { own_errors, fields } => {
            assert(fields@ =~= Seq::<(String, ErrorTree)>::empty());
            assert(keyed_children(Seq::empty(), fields@) == Seq::<(Seq<char>, ValueModel)>::empty());
        },
        ErrorTree::Wrapped { errors } => {},
    }
}

/// The report of a lone message leaf at the root: exactly the sentinel key
/// bound to the node's messages, in their original order.
pub proof fn lemma_leaf_report(t: ErrorTree)
    requires
        is_message_leaf(t),
    ensures
        flatten_spec(t) =~= seq![(nfe(), ValueModel::Messages(node_messages(t)))],
{
    lemma_leaf_flatten(Seq::empty(), None, t);
}

/// The entries the root's children contribute at the top level.
pub open spec fn root_child_entries(t: ErrorTree) -> ReportModel {
    match t {
        ErrorTree::Sequence { items, .. } => flatten_items(Seq::empty(), items@),
        ErrorTree::Keyed { fields, .. } => keyed_children(Seq::empty(), fields@),
        ErrorTree::Wrapped { .. } => Seq::empty(),
    }
}

/// Messages on the root itself land under `non_field_errors` at the top
/// level. (If a child entry reuses the sentinel key it overwrites the
/// binding, so such trees are left out.)
pub proof fn lemma_root_promotion(t: ErrorTree)
    requires
        node_messages(t).len() > 0,
        forall|j: int|
            0 <= j < root_child_entries(t).len() ==> root_child_entries(t)[j].0 != nfe(),
    ensures
        lookup(flatten_spec(t), nfe()) == Some(ValueModel::Messages(node_messages(t))),
{
    let v = ValueModel::Messages(node_messages(t));
    let m1 = insert_entry(Seq::empty(), nfe(), v);
    lemma_lookup_insert(Seq::empty(), nfe(), v);
    match t {
        ErrorTree::Sequence { own_errors, items } => {
            lemma_lookup_insert_all_other(m1, root_child_entries(t), nfe());
        },
        ErrorTree::Keyed { own_errors, fields } => {
            let cm = keyed_children(Seq::empty(), fields@);
            assert(root_child_entries(t) == cm);
            if cm.len() > 0 {
                lemma_lookup_insert_all_other(m1, cm, nfe());
            }
        },
        ErrorTree::Wrapped { errors } => {},
    }
}

/// No key absent from `cm` and distinct from every field name appears in the
/// child map built over `cm`.
pub proof fn lemma_keyed_children_keys(
    cm: ReportModel,
    fields: Seq<(String, ErrorTree)>,
    k: Seq<char>,
)
    requires
        forall|j: int| 0 <= j < cm.len() ==> cm[j].0 != k,
        forall|j: int| 0 <= j < fields.len() ==> fields[j].0@ != k,
    ensures
        forall|j: int|
            0 <= j < keyed_children(cm, fields).len() ==> keyed_children(cm, fields)[j].0 != k,
    decreases fields.len(),
{
    if fields.len() > 0 {
        let cm1 = insert_entry(
            cm,
            fields[0].0@,
            collapse(flatten_node(Seq::empty(), None, fields[0].1)),
        );
        crate::report::lemma_insert_preserves_absent(
            cm,
            fields[0].0@,
            collapse(flatten_node(Seq::empty(), None, fields[0].1)),
            k,
        );
        assert forall|j: int| 0 <= j < fields.drop_first().len() implies fields.drop_first()[j].0@
            != k by {
            assert(fields.drop_first()[j] == fields[j + 1]);
        }
        lemma_keyed_children_keys(cm1, fields.drop_first(), k);
        assert(keyed_children(cm, fields) == keyed_children(cm1, fields.drop_first()));
    }
}

/// Root promotion for a keyed root stated over the tree alone: messages on
/// the object itself land under `non_field_errors` whenever no field of the
/// object is itself named `non_field_errors`.
pub proof fn lemma_root_promotion_keyed(t: ErrorTree)
    requires
        t is Keyed,
        node_messages(t).len() > 0,
        forall|j: int| 0 <= j < node_children(t).len() ==> node_children(t)[j].0@ != nfe(),
    ensures
        lookup(flatten_spec(t), nfe()) == Some(ValueModel::Messages(node_messages(t))),
{
    match t {
        ErrorTree::Keyed { own_errors, fields } => {
            assert(root_child_entries(t) == keyed_children(Seq::empty(), fields@));
            assert forall|j: int| 0 <= j < fields@.len() implies fields@[j].0@ != nfe() by {
                assert(fields@[j] == node_children(t)[j]);
            }
            lemma_keyed_children_keys(Seq::empty(), fields@, nfe());
            lemma_root_promotion(t);
        },
        _ => {},
    }
}

/// A named child that only carries its own messages appears as a flat
/// message array under the child's name, not as a nested object.
pub proof fn lemma_leaf_collapse(t: ErrorTree, name: Seq<char>, child: ErrorTree)
    requires
        t is Keyed,
        node_children(t).len() == 1,
        node_children(t)[0].0@ == name,
        node_children(t)[0].1 == child,
        is_message_leaf(child),
    ensures
        lookup(flatten_spec(t), name) == Some(ValueModel::Messages(node_messages(child))),
{
    reveal_with_fuel(keyed_children, 3);
    reveal_with_fuel(insert_entry, 3);
    reveal_with_fuel(insert_all, 3);
    let fields = node_children(t);
    let v = ValueModel::Messages(node_messages(child));
    lemma_leaf_flatten(Seq::empty(), None, child);
    let child_rep = flatten_node(Seq::empty(), None, child);
    assert(child_rep =~= seq![(nfe(), v)]);
    assert(collapse(child_rep) == v);
    assert(fields.drop_first() =~= Seq::<(String, ErrorTree)>::empty());
    let cm1 = insert_entry(
        Seq::empty(),
        fields[0].0@,
        collapse(flatten_node(Seq::empty(), None, fields[0].1)),
    );
    assert(cm1 =~= seq![(name, v)]);
    let cm = keyed_children(Seq::empty(), fields);
    assert(cm == keyed_children(cm1, fields.drop_first()));
    assert(cm =~= seq![(name, v)]);
    let m1 = with_own(Seq::empty(), None, t);
    assert(cm.drop_first() =~= Seq::<(Seq<char>, ValueModel)>::empty());
    assert(insert_all(m1, cm) == insert_all(insert_entry(m1, name, v), cm.drop_first()));
    assert(insert_all(m1, cm) == insert_entry(m1, name, v));
    lemma_lookup_insert(m1, name, v);
}

/// A sequence with message-leaf items at two distinct keys produces exactly
/// those two entries, in item order: present indices only, no placeholders.
pub proof fn lemma_sparse_items(
    t: ErrorTree,
    k0: Seq<char>,
    c0: ErrorTree,
    k1: Seq<char>,
    c1: ErrorTree,
)
    requires
        t is Sequence,
        node_messages(t).len() == 0,
        node_children(t).len() == 2,
        node_children(t)[0].0@ == k0,
        node_children(t)[0].1 == c0,
        node_children(t)[1].0@ == k1,
        node_children(t)[1].1 == c1,
        is_message_leaf(c0),
        is_message_leaf(c1),
        k0 != k1,
    ensures
        flatten_spec(t) =~= seq![
            (k0, ValueModel::Messages(node_messages(c0))),
            (k1, ValueModel::Messages(node_messages(c1))),
        ],
{
    reveal_with_fuel(insert_entry, 3);
    reveal_with_fuel(insert_all, 3);
    reveal_with_fuel(flatten_items, 3);
    let items = node_children(t);
    let v0 = ValueModel::Messages(node_messages(c0));
    let v1 = ValueModel::Messages(node_messages(c1));
    lemma_leaf_flatten(Seq::empty(), Some(k0), c0);
    let n1 = flatten_node(Seq::empty(), Some(items[0].0@), items[0].1);
    assert(n1 =~= seq![(k0, v0)]);
    assert(items.drop_first()[0] == items[1]);
    lemma_leaf_flatten(n1, Some(k1), c1);
    let n2 = flatten_node(n1, Some(items.drop_first()[0].0@), items.drop_first()[0].1);
    assert(n1.drop_first() =~= Seq::<(Seq<char>, ValueModel)>::empty());
    assert(n2 == insert_entry(n1, k1, v1));
    assert(insert_entry(n1, k1, v1) == seq![n1[0]] + insert_entry(n1.drop_first(), k1, v1));
    assert(n2 =~= seq![(k0, v0), (k1, v1)]);
    assert(items.drop_first().drop_first() =~= Seq::<(String, ErrorTree)>::empty());
    assert(flatten_items(Seq::empty(), items) == flatten_items(n1, items.drop_first()));
    assert(flatten_items(n1, items.drop_first()) == flatten_items(
        n2,
        items.drop_first().drop_first(),
    ));
    assert(flatten_items(Seq::empty(), items) == n2);
    let m1 = with_own(Seq::empty(), None, t);
    assert(m1 == Seq::<(Seq<char>, ValueModel)>::empty());
    assert(n2.drop_first() =~= seq![(k1, v1)]);
    assert(n2.drop_first().drop_first() =~= Seq::<(Seq<char>, ValueModel)>::empty());
    assert(insert_entry(m1, k0, v0) =~= seq![(k0, v0)]);
    assert(insert_entry(seq![(k0, v0)], k1, v1) =~= seq![(k0, v0), (k1, v1)]);
    assert(insert_all(m1, n2) == insert_all(insert_entry(m1, k0, v0), n2.drop_first()));
    assert(insert_all(m1, n2) =~= seq![(k0, v0), (k1, v1)]);
}

pub open spec fn view_opt_key(key: Option<&String>) -> Option<Seq<char>> {
    match key {
        Some(k) => Some(k@),
        None => None,
    }
}

/// The enclosing name as an owned key, or the sentinel.
fn key_string(key: Option<&String>) -> (r: String)
    ensures
        r@ == key_or(view_opt_key(key)),
{
    match key {
        Some(k) => (*k).clone(),
        None => String::from_str("non_field_errors"),
    }
}

fn clone_messages(msgs: &Vec<String>) -> (r: Vec<String>)
    ensures
        r@ == msgs@,
{
    let mut r: Vec<String> = Vec::new();
    let mut i: usize = 0;
    while i < msgs.len()
        invariant
            0 <= i <= msgs.len(),
            r@ =~= msgs@.take(i as int),
        decreases msgs.len() - i,
    {
        r.push(msgs[i].clone());
        i += 1;
        proof {
            assert(r@ =~= msgs@.take(i as int));
        }
    }
    proof {
        assert(r@ =~= msgs@);
    }
    r
}

/// Flatten a validation-error tree into its report.
pub fn flatten(root: &ErrorTree) -> (r: Report)
    ensures
        r@ == flatten_spec(*root),
{
    let mut result = Report::new();
    process_node(&mut result, None, root);
    result
}

fn process_node(result: &mut Report, key: Option<&String>, node: &ErrorTree)
    ensures
        final(result)@ == flatten_node(old(result)@, view_opt_key(key), *node),
    decreases node,
{
    match node {
        ErrorTree::Sequence { own_errors, items } => {
            if own_errors.len() > 0 {
                let msgs = clone_messages(own_errors);
                let k = key_string(key);
                result.insert(k, ReportValue::Messages(msgs));
            }
            let ghost m1 = result@;
            proof {
                assert(m1 == with_own(old(result)@, view_opt_key(key), *node));
            }
            let mut nested = Report::new();
            let mut i: usize = 0;
            proof {
                assert(items@.skip(0) =~= items@);
            }
            while i < items.len()
                invariant
                    0 <= i <= items.len(),
                    node is Sequence,
                    items@ == node_children(*node),
                    flatten_items(nested@, items@.skip(i as int)) == flatten_items(
                        Seq::empty(),
                        items@,
                    ),
                decreases items.len() - i,
            {
                let ghost pre = nested@;
                proof {
                    assert(items@.skip(i as int)[0] == items@[i as int]);
                }
                process_node(&mut nested, Some(&items[i].0), &items[i].1);
                i += 1;
                proof {
                    assert(items@.skip(i - 1).drop_first() =~= items@.skip(i as int));
                    assert(flatten_items(pre, items@.skip(i - 1)) == flatten_items(
                        nested@,
                        items@.skip(i as int),
                    ));
                }
            }
            proof {
                assert(items@.skip(items@.len() as int) =~= Seq::<(String, ErrorTree)>::empty());
            }
            result.insert_all(nested);
        },
        ErrorTree::Keyed { own_errors, fields } => {
            if own_errors.len() > 0 {
                let msgs = clone_messages(own_errors);
                let k = key_string(key);
                result.insert(k, ReportValue::Messages(msgs));
            }
            let ghost m1 = result@;
            proof {
                assert(m1 == with_own(old(result)@, view_opt_key(key), *node));
            }
            let mut child_map = Report::new();
            let mut i: usize = 0;
            proof {
                assert(fields@.skip(0) =~= fields@);
            }
            while i < fields.len()
                invariant
                    0 <= i <= fields.len(),
                    node is Keyed,
                    fields@ == node_children(*node),
                    keyed_children(child_map@, fields@.skip(i as int)) == keyed_children(
                        Seq::empty(),
                        fields@,
                    ),
                decreases fields.len() - i,
            {
                let ghost pre = child_map@;
                proof {
                    assert(fields@.skip(i as int)[0] == fields@[i as int]);
                }
                let mut child_result = Report::new();
                process_node(&mut child_result, None, &fields[i].1);
                let v = child_result.collapse_value();
                child_map.insert(fields[i].0.clone(), v);
                i += 1;
                proof {
                    assert(fields@.skip(i - 1).drop_first() =~= fields@.skip(i as int));
                    assert(keyed_children(pre, fields@.skip(i - 1)) == keyed_children(
                        child_map@,
                        fields@.skip(i as int),
                    ));
                }
            }
            proof {
                assert(fields@.skip(fields@.len() as int) =~= Seq::<(String, ErrorTree)>::empty());
            }
            if child_map.len() > 0 {
                match key {
                    Some(parent) => {
                        result.merge_nested_under((*parent).clone(), child_map);
                    },
                    None => {
                        result.insert_all(child_map);
                    },
                }
            }
        },
        ErrorTree::Wrapped { errors } => {
            if errors.len() > 0 {
                let msgs = clone_messages(errors);
                let k = key_string(key);
                result.insert(k, ReportValue::Messages(msgs));
            }
        },
    }
}

} // verus!
