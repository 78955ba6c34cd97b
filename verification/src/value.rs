//! The metadata value model: a JSON-like tree of plain values.
//!
//! Numbers are modeled as `i64`; the splitting logic never reads inside a
//! metadata value, it only copies values from an input document to every
//! chunk the document yields.

use vstd::prelude::*;

verus! {

/// Mathematical model of a metadata value.
pub enum MetaValueV {
    Null,
    Bool(bool),
    Int(int),
    Str(Seq<char>),
    Arr(Seq<MetaValueV>),
    Obj(Seq<MetaEntryV>),
}

/// Mathematical model of one key/value pair of an object.
pub struct MetaEntryV {
    pub key: Seq<char>,
    pub value: MetaValueV,
}

/// A metadata value: null, boolean, integer, string, ordered array, or
/// object given as a list of key/value entries.
#[derive(Debug, PartialEq, Eq)]
pub enum MetaValue {
    Null,
    Bool(bool),
    Int(i64),
    Str(String),
    Arr(Vec<MetaValue>),
    Obj(Vec<MetaEntry>),
}

/// One key/value pair of an object value.
#[derive(Debug, PartialEq, Eq)]
pub struct MetaEntry {
    pub key: String,
    pub value: MetaValue,
}

/// The model denoted by a metadata value.
pub open spec fn view_value(v: MetaValue) -> MetaValueV
    decreases v,
{
    match v {
        MetaValue::Null => MetaValueV::Null,
        MetaValue::Bool(b) => MetaValueV::Bool(b),
        MetaValue::Int(i) => MetaValueV::Int(i as int),
        MetaValue::Str(s) => MetaValueV::Str(s@),
        MetaValue::Arr(xs) => MetaValueV::Arr(view_values(xs@)),
        MetaValue::Obj(es) => MetaValueV::Obj(view_entries(es@)),
    }
}

/// The models of a sequence of metadata values, elementwise.
pub open spec fn view_values(xs: Seq<MetaValue>) -> Seq<MetaValueV>
    decreases xs,
{
    Seq::new(
        xs.len(),
        |i: int|
            if 0 <= i < xs.len() {
                view_value(xs[i])
            } else {
                MetaValueV::Null
            },
    )
}

/// The models of a sequence of object entries, elementwise.
pub open spec fn view_entries(es: Seq<MetaEntry>) -> Seq<MetaEntryV>
    decreases es,
{
    Seq::new(
        es.len(),
        |i: int|
            if 0 <= i < es.len() {
                view_entry(es[i])
            } else {
                MetaEntryV { key: Seq::empty(), value: MetaValueV::Null }
            },
    )
}

/// The model denoted by one object entry.
pub open spec fn view_entry(e: MetaEntry) -> MetaEntryV
    decreases e,
{
    MetaEntryV { key: e.key@, value: view_value(e.value) }
}

/// `view_values` agrees with the elementwise deep view of a vector.
pub proof fn lemma_view_values_is_deep_view(xs: Vec<MetaValue>)
    ensures
        view_values(xs@) == xs.deep_view(),
{
    assert(view_values(xs@) =~= xs.deep_view());
}

/// `view_entries` agrees with the elementwise deep view of a vector.
pub proof fn lemma_view_entries_is_deep_view(es: Vec<MetaEntry>)
    ensures
        view_entries(es@) == es.deep_view(),
{
    assert(view_entries(es@) =~= es.deep_view());
}

impl DeepView for MetaValue {
    type V = MetaValueV;

    open spec fn deep_view(&self) -> MetaValueV {
        view_value(*self)
    }
}

impl DeepView for MetaEntry {
    type V = MetaEntryV;

    open spec fn deep_view(&self) -> MetaEntryV {
        view_entry(*self)
    }
}

impl Clone for MetaValue {
    /// A clone denotes the same metadata value.
    fn clone(&self) -> (res: MetaValue)
        ensures
            res.deep_view() == self.deep_view(),
        decreases *self,
    {
        match self {
            MetaValue::Null => MetaValue::Null,
            MetaValue::Bool(b) => MetaValue::Bool(*b),
            MetaValue::Int(i) => MetaValue::Int(*i),
            MetaValue::Str(s) => MetaValue::Str(s.clone()),
            MetaValue::Arr(xs) => {
                let mut out: Vec<MetaValue> = Vec::new();
                let mut j: usize = 0;
                proof {
                    assert(out.deep_view() =~= xs.deep_view().take(0));
                }
                while j < xs.len()
                    invariant
                        j <= xs.len(),
                        out@.len() == j,
                        out.deep_view() == xs.deep_view().take(j as int),
                        *self == MetaValue::Arr(*xs),
                    decreases xs.len() - j,
                {
                    let ghost pre = out.deep_view();
                    proof {
                        assert(decreases_to!(*self => (*self)->Arr_0));
                        assert(decreases_to!((*self)->Arr_0 => xs@));
                        assert(decreases_to!(xs@ => xs@[j as int]));
                    }
                    out.push(xs[j].clone());
                    proof {
                        assert forall|k: int| 0 <= k < out@.len() implies out.deep_view()[k]
                            == xs.deep_view().take(j + 1)[k] by {
                            if k < j {
                                assert(pre[k] == xs.deep_view().take(j as int)[k]);
                            }
                        }
                        assert(out.deep_view() =~= xs.deep_view().take(j + 1));
                    }
                    j = j + 1;
                }
                proof {
                    assert(xs.deep_view().take(j as int) =~= xs.deep_view());
                    lemma_view_values_is_deep_view(out);
                    lemma_view_values_is_deep_view(*xs);
                }
                MetaValue::Arr(out)
            },
            MetaValue::Obj(es) => {
                let mut out: Vec<MetaEntry> = Vec::new();
                let mut j: usize = 0;
                proof {
                    assert(out.deep_view() =~= es.deep_view().take(0));
                }
                while j < es.len()
                    invariant
                        j <= es.len(),
                        out@.len() == j,
                        out.deep_view() == es.deep_view().take(j as int),
                        *self == MetaValue::Obj(*es),
                    decreases es.len() - j,
                {
                    let ghost pre = out.deep_view();
                    proof {
                        assert(decreases_to!(*self => (*self)->Obj_0));
                        assert(decreases_to!((*self)->Obj_0 => es@));
                        assert(decreases_to!(es@ => es@[j as int]));
                        assert(decreases_to!(es@[j as int] => es@[j as int].value));
                    }
                    let e = &es[j];
                    out.push(MetaEntry { key: e.key.clone(), value: e.value.clone() });
                    proof {
                        assert forall|k: int| 0 <= k < out@.len() implies out.deep_view()[k]
                            == es.deep_view().take(j + 1)[k] by {
                            if k < j {
                                assert(pre[k] == es.deep_view().take(j as int)[k]);
                            }
                        }
                        assert(out.deep_view() =~= es.deep_view().take(j + 1));
                    }
                    j = j + 1;
                }
                proof {
                    assert(es.deep_view().take(j as int) =~= es.deep_view());
                    lemma_view_entries_is_deep_view(out);
                    lemma_view_entries_is_deep_view(*es);
                }
                MetaValue::Obj(out)
            },
        }
    }
}

impl Clone for MetaEntry {
    /// A clone denotes the same key/value pair.
    fn clone(&self) -> (res: MetaEntry)
        ensures
            res.deep_view() == self.deep_view(),
    {
        MetaEntry { key: self.key.clone(), value: self.value.clone() }
    }
}

/// An ordered collection of metadata entries attached to a document.
/// Insertion order is kept, though no operation of this crate depends on it.
#[derive(Debug, PartialEq, Eq)]
pub struct Metadata {
    pub entries: Vec<MetaEntry>,
}

impl DeepView for Metadata {
    type V = Seq<MetaEntryV>;

    open spec fn deep_view(&self) -> Seq<MetaEntryV> {
        self.entries.deep_view()
    }
}

impl Metadata {
    /// An empty metadata collection.
    pub fn new() -> (r: Metadata)
        ensures
            r.deep_view() == Seq::<MetaEntryV>::empty(),
    {
        let entries: Vec<MetaEntry> = Vec::new();
        let r = Metadata { entries };
        proof {
            assert(r.deep_view() =~= Seq::<MetaEntryV>::empty());
        }
        r
    }

    /// Appends one key/value entry.
    pub fn insert(&mut self, key: String, value: MetaValue)
        ensures
            final(self).deep_view() == old(self).deep_view().push(
                MetaEntryV { key: key@, value: value.deep_view() },
            ),
    {
        let ghost before = self.deep_view();
        let ghost entry = MetaEntryV { key: key@, value: value.deep_view() };
        self.entries.push(MetaEntry { key, value });
        proof {
            assert(self.deep_view() =~= before.push(entry));
        }
    }
}

impl Clone for Metadata {
    /// A clone denotes the same metadata collection.
    fn clone(&self) -> (res: Metadata)
        ensures
            res.deep_view() == self.deep_view(),
    {
        let mut entries: Vec<MetaEntry> = Vec::new();
        let mut j: usize = 0;
        proof {
            assert(entries.deep_view() =~= self.entries.deep_view().take(0));
        }
        while j < self.entries.len()
            invariant
                j <= self.entries.len(),
                entries@.len() == j,
                entries.deep_view() == self.entries.deep_view().take(j as int),
            decreases self.entries.len() - j,
        {
            let ghost pre = entries.deep_view();
            entries.push(self.entries[j].clone());
            proof {
                assert forall|k: int| 0 <= k < entries@.len() implies entries.deep_view()[k]
                    == self.entries.deep_view().take(j + 1)[k] by {
                    if k < j {
                        assert(pre[k] == self.entries.deep_view().take(j as int)[k]);
                    }
                }
                assert(entries.deep_view() =~= self.entries.deep_view().take(j + 1));
            }
            j = j + 1;
        }
        proof {
            assert(self.entries.deep_view().take(j as int) =~= self.entries.deep_view());
        }
        Metadata { entries }
    }
}

} // verus!
