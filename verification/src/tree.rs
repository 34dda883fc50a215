//! The nodes a literal tree is composed of, and their mathematical models.
//!
//! A tree is a static composition of leaves ([`Expr`], [`Null`]), take-once
//! slots ([`Option2`]), binary chain links ([`HList`] and [`Entries::Link`])
//! and the two top-level containers [`Array`] and [`MapContainer`]. There is
//! no dynamic length field anywhere: sizes are computed structurally.

use vstd::prelude::*;

use crate::model::JsonModel;
use crate::scalar::Value;
use crate::scalar::ValueModel;

verus! {

/// A leaf node: wraps one scalar, which it emits or decodes exactly once.
pub struct Expr(pub Value);

/// The sentinel leaf for JSON null. It emits as the null primitive and
/// decodes as "no value present" rather than as a typed value.
pub struct Null;

/// A take-once slot: holds zero or one occupant. Once the occupant is taken
/// the slot stays empty and reports itself done forever after.
pub enum Option2<T> {
    Filled(T),
    Spent,
}

/// A binary link in an array chain, preserving left-to-right order: every
/// operation is routed to `first` until it is exhausted, then to `second`.
pub struct HList {
    pub first: Box<Items>,
    pub second: Box<Items>,
}

/// A chain of array elements: the zero-element terminal, one slot, or a
/// binary link of two sub-chains.
pub enum Items {
    Empty,
    Slot(Option2<Box<Node>>),
    Link(HList),
}

/// One map entry in mid-traversal: either the key and value both still to be
/// handed out, or only the value, after the key was requested.
pub enum KV {
    Pair(String, Box<Node>),
    V(Box<Node>),
}

/// A chain of map entries, mirroring [`Items`]. A slot together with its
/// [`KV`] occupant forms the three-state unit of object-entry traversal:
/// unconsumed pair, pending value, or spent.
pub enum Entries {
    Empty,
    Slot(Option2<KV>),
    Link(Box<Entries>, Box<Entries>),
}

/// Any node of a literal tree.
pub enum Node {
    Leaf(Expr),
    Null(Null),
    List(Array),
    Object(MapContainer),
}

/// The top-level wrapper over an array chain: exposes emission and
/// pull-consumption of a JSON array.
pub struct Array(pub Items);

/// The top-level wrapper over an entry chain: exposes emission and
/// pull-consumption of a JSON object.
pub struct MapContainer(pub Entries);

/// The elements an array chain still holds, in declaration order. Spent
/// slots contribute nothing; where a slot was taken does not matter, only
/// which occupants remain and in what order.
pub open spec fn items_view(c: Items) -> Seq<Node>
    decreases c,
{
    match c {
        Items::Empty => Seq::empty(),
        Items::Slot(Option2::Spent) => Seq::empty(),
        Items::Slot(Option2::Filled(n)) => seq![*n],
        Items::Link(h) => items_view(*h.first) + items_view(*h.second),
    }
}

/// One map entry as traversal sees it: both halves left, or the value alone.
pub ghost enum EntryView {
    Full(String, Node),
    Pending(Node),
}

/// The entries a map chain still holds, in declaration order. Spent slots
/// contribute nothing.
pub open spec fn entries_view(e: Entries) -> Seq<EntryView>
    decreases e,
{
    match e {
        Entries::Empty => Seq::empty(),
        Entries::Slot(Option2::Spent) => Seq::empty(),
        Entries::Slot(Option2::Filled(KV::Pair(k, v))) => seq![EntryView::Full(k, *v)],
        Entries::Slot(Option2::Filled(KV::V(v))) => seq![EntryView::Pending(*v)],
        Entries::Link(a, b) => entries_view(*a) + entries_view(*b),
    }
}

/// What a node denotes. An array denotes its remaining elements; an object
/// denotes its unconsumed (key, value) entries — an entry whose key was
/// already handed out no longer appears in the denotation, which is exactly
/// how emission treats it.
pub open spec fn node_model(n: Node) -> JsonModel
    decreases n,
{
    match n {
        Node::Leaf(Expr(v)) => scalar_model(v@),
        Node::Null(Null) => JsonModel::Null,
        Node::List(Array(c)) => JsonModel::Arr(items_models(c)),
        Node::Object(MapContainer(e)) => JsonModel::Obj(entries_models(e)),
    }
}

/// The scalar denotations.
pub open spec fn scalar_model(v: ValueModel) -> JsonModel {
    match v {
        ValueModel::Int(i) => JsonModel::Int(i),
        ValueModel::Bool(b) => JsonModel::Bool(b),
        ValueModel::Text(s) => JsonModel::Text(s),
    }
}

/// The denotations of the elements an array chain still holds.
pub open spec fn items_models(c: Items) -> Seq<JsonModel>
    decreases c,
{
    match c {
        Items::Empty => Seq::empty(),
        Items::Slot(Option2::Spent) => Seq::empty(),
        Items::Slot(Option2::Filled(n)) => seq![node_model(*n)],
        Items::Link(h) => items_models(*h.first) + items_models(*h.second),
    }
}

/// The denotations of the full entries a map chain still holds. An entry
/// whose key was already taken is skipped, as emission skips it.
pub open spec fn entries_models(e: Entries) -> Seq<(Seq<char>, JsonModel)>
    decreases e,
{
    match e {
        Entries::Empty => Seq::empty(),
        Entries::Slot(Option2::Spent) => Seq::empty(),
        Entries::Slot(Option2::Filled(KV::Pair(k, v))) => seq![(k@, node_model(*v))],
        Entries::Slot(Option2::Filled(KV::V(_))) => Seq::empty(),
        Entries::Link(a, b) => entries_models(*a) + entries_models(*b),
    }
}

impl<T> Option2<T> {
    /// Takes the occupant out, if one is left. Once taken, the slot stays
    /// empty: a second take yields nothing, never an error.
    pub fn take(&mut self) -> (r: Option<T>)
        ensures
            *final(self) is Spent,
            *old(self) matches Option2::Filled(x) ==> r == Option::Some(x),
            *old(self) is Spent ==> r is None,
    {
        let mut slot = Option2::Spent;
        core::mem::swap(self, &mut slot);
        match slot {
            Option2::Filled(x) => Option::Some(x),
            Option2::Spent => Option::None,
        }
    }

    /// Whether the occupant is gone.
    pub fn is_done(&self) -> (r: bool)
        ensures
            r == (*self is Spent),
    {
        match self {
            Option2::Filled(_) => false,
            Option2::Spent => true,
        }
    }
}

/// An array chain denotes exactly one element per remaining occupant.
pub proof fn lemma_items_models_len(c: Items)
    ensures
        items_models(c).len() == items_view(c).len(),
    decreases c,
{
    match c {
        Items::Link(h) => {
            lemma_items_models_len(*h.first);
            lemma_items_models_len(*h.second);
        },
        _ => {},
    }
}

impl Items {
    /// Whether every slot along this chain has been consumed.
    pub fn is_done(&self) -> (r: bool)
        ensures
            r == (items_view(*self).len() == 0),
        decreases *self,
    {
        match self {
            Items::Empty => true,
            Items::Slot(Option2::Spent) => true,
            Items::Slot(Option2::Filled(_)) => false,
            Items::Link(h) => h.first.is_done() && h.second.is_done(),
        }
    }
}

impl Entries {
    /// Whether every entry along this chain has been consumed. An entry
    /// whose value is still pending is not done.
    pub fn is_done(&self) -> (r: bool)
        ensures
            r == (entries_view(*self).len() == 0),
        decreases *self,
    {
        match self {
            Entries::Empty => true,
            Entries::Slot(Option2::Spent) => true,
            Entries::Slot(Option2::Filled(_)) => false,
            Entries::Link(a, b) => a.is_done() && b.is_done(),
        }
    }
}

} // verus!
