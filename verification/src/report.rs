//! The flattened error report: an insertion-ordered map from string keys to
//! values that are either message arrays or nested reports of the same shape.

use vstd::prelude::*;

verus! {

/// Mathematical model of a report value: a message array or a nested map,
/// the map given as an association sequence in insertion order.
pub enum ValueModel {
    Messages(Seq<Seq<char>>),
    Nested(Seq<(Seq<char>, ValueModel)>),
}

/// Mathematical model of a whole report.
pub type ReportModel = Seq<(Seq<char>, ValueModel)>;

/// The sentinel key for messages that have no enclosing field or index name.
pub open spec fn nfe() -> Seq<char> {
    "non_field_errors"@
}

/// The views of a sequence of owned strings.
pub open spec fn msg_views(msgs: Seq<String>) -> Seq<Seq<char>> {
    msgs.map_values(|s: String| s@)
}

/// First-match lookup in an association sequence.
pub open spec fn lookup(m: ReportModel, k: Seq<char>) -> Option<ValueModel>
    decreases m.len(),
{
    if m.len() == 0 {
        None
    } else if m[0].0 == k {
        Some(m[0].1)
    } else {
        lookup(m.drop_first(), k)
    }
}

pub open spec fn contains_key(m: ReportModel, k: Seq<char>) -> bool {
    lookup(m, k) is Some
}

/// Map insertion: replace the value at the first occurrence of the key,
/// keeping its position, or append a new entry at the end.
pub open spec fn insert_entry(m: ReportModel, k: Seq<char>, v: ValueModel) -> ReportModel
    decreases m.len(),
{
    if m.len() == 0 {
        seq![(k, v)]
    } else if m[0].0 == k {
        seq![(k, v)] + m.drop_first()
    } else {
        seq![m[0]] + insert_entry(m.drop_first(), k, v)
    }
}

/// Insert every entry of `entries` into `m`, in order.
pub open spec fn insert_all(m: ReportModel, entries: ReportModel) -> ReportModel
    decreases entries.len(),
{
    if entries.len() == 0 {
        m
    } else {
        insert_all(insert_entry(m, entries[0].0, entries[0].1), entries.drop_first())
    }
}

pub proof fn lemma_insert_found(m: ReportModel, k: Seq<char>, v: ValueModel, i: int)
    requires
        0 <= i < m.len(),
        m[i].0 == k,
        forall|j: int| 0 <= j < i ==> m[j].0 != k,
    ensures
        insert_entry(m, k, v) =~= m.update(i, (k, v)),
    decreases i,
{
    if i == 0 {
        assert(insert_entry(m, k, v) =~= m.update(0, (k, v)));
    } else {
        lemma_insert_found(m.drop_first(), k, v, i - 1);
        assert(insert_entry(m, k, v) =~= m.update(i, (k, v)));
    }
}

pub proof fn lemma_insert_fresh(m: ReportModel, k: Seq<char>, v: ValueModel)
    requires
        forall|j: int| 0 <= j < m.len() ==> m[j].0 != k,
    ensures
        insert_entry(m, k, v) =~= m.push((k, v)),
    decreases m.len(),
{
    if m.len() > 0 {
        lemma_insert_fresh(m.drop_first(), k, v);
        assert(insert_entry(m, k, v) =~= m.push((k, v)));
    }
}

pub proof fn lemma_lookup_found(m: ReportModel, k: Seq<char>, i: int)
    requires
        0 <= i < m.len(),
        m[i].0 == k,
        forall|j: int| 0 <= j < i ==> m[j].0 != k,
    ensures
        lookup(m, k) == Some(m[i].1),
    decreases i,
{
    if i > 0 {
        lemma_lookup_found(m.drop_first(), k, i - 1);
    }
}

pub proof fn lemma_lookup_fresh(m: ReportModel, k: Seq<char>)
    requires
        forall|j: int| 0 <= j < m.len() ==> m[j].0 != k,
    ensures
        lookup(m, k) is None,
    decreases m.len(),
{
    if m.len() > 0 {
        lemma_lookup_fresh(m.drop_first(), k);
    }
}

/// Looking a key up right after inserting it yields the inserted value.
pub proof fn lemma_lookup_insert(m: ReportModel, k: Seq<char>, v: ValueModel)
    ensures
        lookup(insert_entry(m, k, v), k) == Some(v),
    decreases m.len(),
{
    if m.len() > 0 && m[0].0 != k {
        lemma_lookup_insert(m.drop_first(), k, v);
        assert(insert_entry(m, k, v).drop_first() =~= insert_entry(m.drop_first(), k, v));
    }
}

/// Inserting under one key leaves every other key's binding unchanged.
pub proof fn lemma_lookup_insert_other(m: ReportModel, k: Seq<char>, v: ValueModel, k2: Seq<char>)
    requires
        k2 != k,
    ensures
        lookup(insert_entry(m, k, v), k2) == lookup(m, k2),
    decreases m.len(),
{
    reveal_with_fuel(lookup, 3);
    reveal_with_fuel(insert_entry, 3);
    if m.len() == 0 {
        assert(insert_entry(m, k, v) =~= seq![(k, v)]);
        assert(insert_entry(m, k, v).drop_first() =~= Seq::<(Seq<char>, ValueModel)>::empty());
    } else if m[0].0 == k {
        assert(insert_entry(m, k, v)[0] == (k, v));
        assert(insert_entry(m, k, v).drop_first() =~= m.drop_first());
    } else {
        lemma_lookup_insert_other(m.drop_first(), k, v, k2);
        assert(insert_entry(m, k, v)[0] == m[0]);
        assert(insert_entry(m, k, v).drop_first() =~= insert_entry(m.drop_first(), k, v));
    }
}

/// Inserting under a different key cannot introduce an absent key.
pub proof fn lemma_insert_preserves_absent(m: ReportModel, k: Seq<char>, v: ValueModel, k2: Seq<char>)
    requires
        k != k2,
        forall|j: int| 0 <= j < m.len() ==> m[j].0 != k2,
    ensures
        forall|j: int|
            0 <= j < insert_entry(m, k, v).len() ==> insert_entry(m, k, v)[j].0 != k2,
    decreases m.len(),
{
    if m.len() == 0 {
        assert(insert_entry(m, k, v) =~= seq![(k, v)]);
    } else if m[0].0 == k {
        assert forall|j: int| 0 <= j < insert_entry(m, k, v).len() implies insert_entry(
            m,
            k,
            v,
        )[j].0 != k2 by {
            if j > 0 {
                assert(insert_entry(m, k, v)[j] == m.drop_first()[j - 1]);
            }
        }
    } else {
        lemma_insert_preserves_absent(m.drop_first(), k, v, k2);
        assert forall|j: int| 0 <= j < insert_entry(m, k, v).len() implies insert_entry(
            m,
            k,
            v,
        )[j].0 != k2 by {
            if j > 0 {
                assert(insert_entry(m, k, v)[j] == insert_entry(m.drop_first(), k, v)[j - 1]);
            }
        }
    }
}

/// Inserting entries none of which carries key `k` leaves `k`'s binding unchanged.
pub proof fn lemma_lookup_insert_all_other(m: ReportModel, entries: ReportModel, k: Seq<char>)
    requires
        forall|j: int| 0 <= j < entries.len() ==> entries[j].0 != k,
    ensures
        lookup(insert_all(m, entries), k) == lookup(m, k),
    decreases entries.len(),
{
    if entries.len() > 0 {
        lemma_lookup_insert_other(m, entries[0].0, entries[0].1, k);
        lemma_lookup_insert_all_other(
            insert_entry(m, entries[0].0, entries[0].1),
            entries.drop_first(),
            k,
        );
    }
}

/// The value a child's local report contributes under the child's own name:
/// a lone `non_field_errors` entry collapses to its flat message array, any
/// other report is nested whole.
pub open spec fn collapse(r: ReportModel) -> ValueModel {
    if r.len() == 1 && r[0].0 == nfe() {
        r[0].1
    } else {
        ValueModel::Nested(r)
    }
}

/// Merging a child map under a parent key: extend the object already bound to
/// the parent, if there is one; any other existing binding is overwritten.
pub open spec fn merge_under(m: ReportModel, parent: Seq<char>, cm: ReportModel) -> ReportModel {
    match lookup(m, parent) {
        Some(ValueModel::Nested(obj)) => insert_entry(
            m,
            parent,
            ValueModel::Nested(insert_all(obj, cm)),
        ),
        _ => insert_entry(m, parent, ValueModel::Nested(cm)),
    }
}

/// A report value: an array of constraint-violation messages, or a nested
/// report for a child that itself has named sub-errors.
#[derive(Debug, PartialEq)]
pub enum ReportValue {
    Messages(Vec<String>),
    Nested(Report),
}

/// The flattened, JSON-compatible error report: string keys mapped to message
/// arrays or nested reports, in insertion order.
#[derive(Debug, PartialEq)]
pub struct Report {
    pub entries: Vec<(String, ReportValue)>,
}

pub open spec fn value_model(v: ReportValue) -> ValueModel
    decreases v,
{
    match v {
        ReportValue::Messages(msgs) => ValueModel::Messages(msg_views(msgs@)),
        ReportValue::Nested(r) => ValueModel::Nested(entries_model(r.entries@)),
    }
}

pub open spec fn entries_model(es: Seq<(String, ReportValue)>) -> ReportModel
    decreases es,
{
    if es.len() == 0 {
        Seq::empty()
    } else {
        seq![(es[0].0@, value_model(es[0].1))] + entries_model(es.drop_first())
    }
}

impl View for ReportValue {
    type V = ValueModel;

    open spec fn view(&self) -> ValueModel {
        value_model(*self)
    }
}

impl View for Report {
    type V = ReportModel;

    open spec fn view(&self) -> ReportModel {
        entries_model(self.entries@)
    }
}

/// The model of an entry sequence is its per-entry view, pointwise.
pub proof fn lemma_entries_model(es: Seq<(String, ReportValue)>)
    ensures
        entries_model(es).len() == es.len(),
        forall|j: int|
            0 <= j < es.len() ==> entries_model(es)[j] == (es[j].0@, value_model(es[j].1)),
    decreases es,
{
    if es.len() > 0 {
        lemma_entries_model(es.drop_first());
    }
}

impl Report {
    /// An empty report.
    pub fn new() -> (r: Report)
        ensures
            r@ == Seq::<(Seq<char>, ValueModel)>::empty(),
    {
        Report { entries: Vec::new() }
    }

    /// The number of keys bound in the report.
    pub fn len(&self) -> (n: usize)
        ensures
            n == self@.len(),
    {
        proof {
            lemma_entries_model(self.entries@);
        }
        self.entries.len()
    }

    /// Bind `k` to `v`: replace the value at `k` if present (keeping the
    /// key's position), else append the new entry.
    pub fn insert(&mut self, k: String, v: ReportValue)
        ensures
            final(self)@ == insert_entry(old(self)@, k@, v@),
    {
        let mut i: usize = 0;
        while i < self.entries.len()
            invariant
                0 <= i <= self.entries.len(),
                self.entries@ == old(self).entries@,
                forall|j: int| 0 <= j < i ==> self.entries@[j].0@ != k@,
            decreases self.entries.len() - i,
        {
            if self.entries[i].0 == k {
                proof {
                    lemma_entries_model(self.entries@);
                }
                self.entries.set(i, (k, v));
                proof {
                    lemma_entries_model(self.entries@);
                    lemma_insert_found(old(self)@, k@, v@, i as int);
                    assert(self@ =~= old(self)@.update(i as int, (k@, v@)));
                }
                return ;
            }
            i += 1;
        }
        proof {
            lemma_entries_model(self.entries@);
        }
        self.entries.push((k, v));
        proof {
            lemma_entries_model(self.entries@);
            lemma_insert_fresh(old(self)@, k@, v@);
            assert(self@ =~= old(self)@.push((k@, v@)));
        }
    }

    /// Insert every entry of `other` into this report, in `other`'s order.
    pub fn insert_all(&mut self, other: Report)
        ensures
            final(self)@ == insert_all(old(self)@, other@),
    {
        let mut rest = other;
        while rest.entries.len() > 0
            invariant
                insert_all(old(self)@, other@) == insert_all(self@, rest@),
            decreases rest.entries.len(),
        {
            let ghost prev_self = self@;
            let ghost es = rest.entries@;
            proof {
                lemma_entries_model(es);
            }
            let e = rest.entries.remove(0);
            proof {
                assert(rest.entries@ =~= es.drop_first());
                lemma_entries_model(es.drop_first());
                assert(entries_model(es).drop_first() =~= entries_model(es.drop_first()));
            }
            self.insert(e.0, e.1);
            proof {
                assert(insert_all(prev_self, entries_model(es)) == insert_all(self@, rest@));
            }
        }
    }

    /// Turn this report into the value it contributes under its parent's
    /// name: a lone `non_field_errors` entry collapses to its message array.
    pub fn collapse_value(self) -> (v: ReportValue)
        ensures
            v@ == collapse(self@),
    {
        proof {
            lemma_entries_model(self.entries@);
        }
        if self.entries.len() == 1 {
            let sentinel = String::from_str("non_field_errors");
            if self.entries[0].0 == sentinel {
                let mut taken = self;
                let e = taken.entries.remove(0);
                return e.1;
            }
            return ReportValue::Nested(self);
        }
        ReportValue::Nested(self)
    }

    /// Merge `child_map` in under the key `parent`: extend the object already
    /// bound there if one is, else bind the child map as a nested object.
    pub fn merge_nested_under(&mut self, parent: String, child_map: Report)
        ensures
            final(self)@ == merge_under(old(self)@, parent@, child_map@),
    {
        let ghost cm0 = child_map@;
        let mut i: usize = 0;
        while i < self.entries.len()
            invariant
                0 <= i <= self.entries.len(),
                self.entries@ == old(self).entries@,
                child_map@ == cm0,
                forall|j: int| 0 <= j < i ==> self.entries@[j].0@ != parent@,
            decreases self.entries.len() - i,
        {
            if self.entries[i].0 == parent {
                proof {
                    lemma_entries_model(self.entries@);
                    lemma_lookup_found(self@, parent@, i as int);
                }
                let ghost es0 = self.entries@;
                let e = self.entries.remove(i);
                proof {
                    assert(e == es0[i as int]);
                    assert(e.0@ == parent@);
                }
                match e.1 {
                    ReportValue::Nested(mut obj) => {
                        let ghost obj0 = obj@;
                        proof {
                            assert(lookup(old(self)@, parent@) == Some(
                                ValueModel::Nested(obj0),
                            ));
                        }
                        obj.insert_all(child_map);
                        let new_pair = (e.0, ReportValue::Nested(obj));
                        let ghost np = new_pair;
                        self.entries.insert(i, new_pair);
                        proof {
                            let nv = ValueModel::Nested(insert_all(obj0, cm0));
                            assert(np.1->Nested_0@ == insert_all(obj0, cm0));
                            assert(value_model(np.1) == nv);
                            assert(self.entries@ =~= es0.update(i as int, np));
                            lemma_entries_model(self.entries@);
                            lemma_insert_found(old(self)@, parent@, nv, i as int);
                            assert(self@ =~= old(self)@.update(i as int, (parent@, nv)));
                            assert(merge_under(old(self)@, parent@, cm0) == insert_entry(
                                old(self)@,
                                parent@,
                                nv,
                            ));
                        }
                    },
                    ReportValue::Messages(msgs) => {
                        proof {
                            assert(lookup(old(self)@, parent@) == Some(
                                ValueModel::Messages(msg_views(msgs@)),
                            ));
                        }
                        let new_pair = (e.0, ReportValue::Nested(child_map));
                        let ghost np = new_pair;
                        self.entries.insert(i, new_pair);
                        proof {
                            let nv = ValueModel::Nested(cm0);
                            assert(value_model(np.1) == nv);
                            assert(self.entries@ =~= es0.update(i as int, np));
                            lemma_entries_model(self.entries@);
                            lemma_insert_found(old(self)@, parent@, nv, i as int);
                            assert(self@ =~= old(self)@.update(i as int, (parent@, nv)));
                            assert(merge_under(old(self)@, parent@, cm0) == insert_entry(
                                old(self)@,
                                parent@,
                                nv,
                            ));
                        }
                    },
                }
                return ;
            }
            i += 1;
        }
        proof {
            lemma_entries_model(self.entries@);
            lemma_lookup_fresh(self@, parent@);
            lemma_insert_fresh(self@, parent@, ValueModel::Nested(cm0));
        }
        self.entries.push((parent, ReportValue::Nested(child_map)));
        proof {
            lemma_entries_model(self.entries@);
            assert(self@ =~= old(self)@.push((parent@, ValueModel::Nested(cm0))));
        }
    }

    /// The value bound to `k`, if any.
    pub fn get(&self, k: &String) -> (r: Option<&ReportValue>)
        ensures
            match r {
                Some(v) => lookup(self@, k@) == Some(v@),
                None => lookup(self@, k@) is None,
            },
    {
        proof {
            lemma_entries_model(self.entries@);
        }
        let mut i: usize = 0;
        while i < self.entries.len()
            invariant
                0 <= i <= self.entries.len(),
                forall|j: int| 0 <= j < i ==> self.entries@[j].0@ != k@,
            decreases self.entries.len() - i,
        {
            if self.entries[i].0 == *k {
                proof {
                    lemma_entries_model(self.entries@);
                    lemma_lookup_found(self@, k@, i as int);
                }
                return Some(&self.entries[i].1);
            }
            i += 1;
        }
        proof {
            lemma_lookup_fresh(self@, k@);
        }
        None
    }
}

} // verus!
