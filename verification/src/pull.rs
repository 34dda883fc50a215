//! Pull-consumption: external "next key" / "next value" / "next element"
//! requests consume a tree from the front, exactly once per element.
//!
//! The two chains are two distinct state machines on purpose: object
//! traversal must alternate strictly between key and value requests, and
//! detects any other order as a protocol violation, while list traversal has
//! no alternation to enforce.

use vstd::prelude::*;

use crate::errors::Error;
use crate::tree::Array;
use crate::tree::Entries;
use crate::tree::EntryView;
use crate::tree::HList;
use crate::tree::Items;
use crate::tree::KV;
use crate::tree::MapContainer;
use crate::tree::Node;
use crate::tree::Option2;
use crate::tree::entries_models;
use crate::tree::entries_view;
use crate::tree::items_models;
use crate::tree::items_view;
use crate::tree::node_model;

verus! {

/// What one "next element" request does to a list chain: the front element
/// leaves the chain and is handed out; an exhausted chain answers "end of
/// sequence" and stays as it is.
pub open spec fn next_element_view(vw: Seq<Node>) -> (Seq<Node>, Option<Node>) {
    if vw.len() == 0 {
        (vw, Option::None)
    } else {
        (vw.drop_first(), Option::Some(vw.first()))
    }
}

/// What one "next key" request does to an entry chain. The front entry
/// decides: an unconsumed entry hands out its key and keeps its value
/// pending; an exhausted chain answers "end of map", which is not an error;
/// a pending value means the requester skipped a value request, a protocol
/// violation that discards the entry.
pub open spec fn next_key_view(vw: Seq<EntryView>) -> (Seq<EntryView>, Result<
    Option<String>,
    Error,
>) {
    if vw.len() == 0 {
        (vw, Result::Ok(Option::None))
    } else {
        match vw.first() {
            EntryView::Full(k, v) => (
                vw.update(0, EntryView::Pending(v)),
                Result::Ok(Option::Some(k)),
            ),
            EntryView::Pending(_) => (vw.drop_first(), Result::Err(Error::ProtocolViolation)),
        }
    }
}

/// What one "next value" request does to an entry chain. Only a pending
/// value may be requested: asking before the entry's key was handed out, or
/// when nothing is left, is a protocol violation.
pub open spec fn next_value_view(vw: Seq<EntryView>) -> (Seq<EntryView>, Result<Node, Error>) {
    if vw.len() == 0 {
        (vw, Result::Err(Error::ProtocolViolation))
    } else {
        match vw.first() {
            EntryView::Pending(v) => (vw.drop_first(), Result::Ok(v)),
            EntryView::Full(_, _) => (vw.drop_first(), Result::Err(Error::ProtocolViolation)),
        }
    }
}

/// Whether a node can still be pull-consumed in full: no entry anywhere in
/// it has a value left pending by an earlier key request. A freshly built
/// tree always can.
pub open spec fn node_ready(n: Node) -> bool
    decreases n,
{
    match n {
        Node::Leaf(_) => true,
        Node::Null(_) => true,
        Node::List(Array(c)) => items_ready(c),
        Node::Object(MapContainer(e)) => entries_ready(e),
    }
}

/// [`node_ready`], over every remaining occupant of an array chain.
pub open spec fn items_ready(c: Items) -> bool
    decreases c,
{
    match c {
        Items::Empty => true,
        Items::Slot(Option2::Spent) => true,
        Items::Slot(Option2::Filled(n)) => node_ready(*n),
        Items::Link(h) => items_ready(*h.first) && items_ready(*h.second),
    }
}

/// [`node_ready`], over every remaining entry of an entry chain. An entry
/// whose key was handed out but whose value was not is a traversal left in
/// mid-flight: pulling it again starts with a protocol violation.
pub open spec fn entries_ready(e: Entries) -> bool
    decreases e,
{
    match e {
        Entries::Empty => true,
        Entries::Slot(Option2::Spent) => true,
        Entries::Slot(Option2::Filled(KV::Pair(_, v))) => node_ready(*v),
        Entries::Slot(Option2::Filled(KV::V(_))) => false,
        Entries::Link(a, b) => entries_ready(*a) && entries_ready(*b),
    }
}

/// Whether every entry of an entry-chain view is still unconsumed, as on a
/// freshly built map container.
pub open spec fn all_unconsumed(vw: Seq<EntryView>) -> bool {
    forall|i: int| 0 <= i < vw.len() ==> vw[i] is Full
}

/// The traversal view and the denotation of an array chain agree element
/// for element: the chain denotes exactly its remaining occupants, in order.
/// Together with the pull laws this says that "next element" hands out
/// precisely what emission writes, in the same order.
pub proof fn lemma_items_agree(c: Items)
    ensures
        items_models(c).len() == items_view(c).len(),
        forall|i: int|
            0 <= i < items_view(c).len() ==> items_models(c)[i] == node_model(items_view(c)[i]),
    decreases c,
{
    match c {
        Items::Link(h) => {
            lemma_items_agree(*h.first);
            lemma_items_agree(*h.second);
            assert forall|i: int|
                0 <= i < items_view(c).len() implies items_models(c)[i] == node_model(
                items_view(c)[i],
            ) by {
                let la = items_view(*h.first).len() as int;
                if i < la {
                    assert(items_view(c)[i] == items_view(*h.first)[i]);
                    assert(items_models(c)[i] == items_models(*h.first)[i]);
                } else {
                    assert(items_view(c)[i] == items_view(*h.second)[i - la]);
                    assert(items_models(c)[i] == items_models(*h.second)[i - la]);
                }
            }
        },
        _ => {},
    }
}

/// On a chain that can still be pull-consumed in full, the traversal view
/// and the denotation agree entry for entry: every entry is unconsumed, and
/// the chain denotes exactly its entries' keys and value denotations, in
/// order. Together with the pull laws this says that pull-consumption hands
/// out precisely what emission writes.
pub proof fn lemma_ready_entries_agree(e: Entries)
    requires
        entries_ready(e),
    ensures
        all_unconsumed(entries_view(e)),
        entries_models(e).len() == entries_view(e).len(),
        forall|i: int|
            0 <= i < entries_view(e).len() ==> entries_models(e)[i] == (
                entries_view(e)[i]->Full_0@,
                node_model(entries_view(e)[i]->Full_1),
            ),
    decreases e,
{
    match e {
        Entries::Link(a, b) => {
            lemma_ready_entries_agree(*a);
            lemma_ready_entries_agree(*b);
            assert forall|i: int|
                0 <= i < entries_view(e).len() implies entries_models(e)[i] == (
                entries_view(e)[i]->Full_0@,
                node_model(entries_view(e)[i]->Full_1),
            ) by {
                let la = entries_view(*a).len() as int;
                if i < la {
                    assert(entries_view(e)[i] == entries_view(*a)[i]);
                    assert(entries_models(e)[i] == entries_models(*a)[i]);
                } else {
                    assert(entries_view(e)[i] == entries_view(*b)[i - la]);
                    assert(entries_models(e)[i] == entries_models(*b)[i - la]);
                }
            }
        },
        _ => {},
    }
}

/// The (key, value) pairs that strict key-then-value alternation hands out
/// on a chain of unconsumed entries, in order.
pub open spec fn pull_trace(vw: Seq<EntryView>) -> Seq<(String, Node)>
    decreases vw.len(),
{
    if vw.len() == 0 {
        Seq::empty()
    } else if vw.first() is Full {
        let (vw1, r1) = next_key_view(vw);
        let (vw2, r2) = next_value_view(vw1);
        seq![(vw.first()->Full_0, vw.first()->Full_1)] + pull_trace(vw2)
    } else {
        Seq::empty()
    }
}

/// Law: on a chain of N unconsumed entries, strict key-then-value
/// alternation yields exactly the N (key, value) pairs in declaration order,
/// and each value request made immediately after its key request succeeds.
pub proof fn lemma_map_pull_in_order(vw: Seq<EntryView>)
    requires
        all_unconsumed(vw),
    ensures
        pull_trace(vw).len() == vw.len(),
        forall|i: int|
            0 <= i < vw.len() ==> pull_trace(vw)[i] == (vw[i]->Full_0, vw[i]->Full_1),
    decreases vw.len(),
{
    if vw.len() > 0 {
        let (vw1, r1) = next_key_view(vw);
        let (vw2, r2) = next_value_view(vw1);
        assert(r1 == Result::<Option<String>, Error>::Ok(Option::Some(vw.first()->Full_0)));
        assert(r2 == Result::<Node, Error>::Ok(vw.first()->Full_1));
        assert(vw2 =~= vw.drop_first());
        lemma_map_pull_in_order(vw2);
    }
}

/// Law: a value request made immediately after a successful key request
/// always succeeds and hands out the value paired with the key just handed
/// out, leaving exactly the later entries.
pub proof fn lemma_value_after_key(vw: Seq<EntryView>)
    requires
        vw.len() > 0,
        vw[0] is Full,
    ensures
        ({
            let (vw1, r1) = next_key_view(vw);
            let (vw2, r2) = next_value_view(vw1);
            &&& r1 == Result::<Option<String>, Error>::Ok(Option::Some(vw[0]->Full_0))
            &&& r2 == Result::<Node, Error>::Ok(vw[0]->Full_1)
            &&& vw2 == vw.drop_first()
        }),
{
    let (vw1, r1) = next_key_view(vw);
    let (vw2, r2) = next_value_view(vw1);
    assert(vw2 =~= vw.drop_first());
}

/// Law: a value request on a map container on which no key has yet been
/// requested — in particular a freshly built one — is a protocol violation,
/// never a value.
pub proof fn lemma_value_before_key(vw: Seq<EntryView>)
    requires
        all_unconsumed(vw),
    ensures
        next_value_view(vw).1 == Result::<Node, Error>::Err(Error::ProtocolViolation),
{
}

/// Law: a key request after every entry has been consumed answers "end of
/// map" and leaves the chain unchanged; exhaustion is not an error.
pub proof fn lemma_key_after_exhaustion(vw: Seq<EntryView>)
    requires
        vw.len() == 0,
    ensures
        next_key_view(vw).1 == Result::<Option<String>, Error>::Ok(Option::None::<String>),
        next_key_view(vw).0 == vw,
{
}

/// Takes the front element out of a list chain, routing the request to the
/// left sub-chain while it has anything left.
fn items_next(c: Items) -> (r: (Items, Option<Node>))
    ensures
        items_view(r.0) == next_element_view(items_view(c)).0,
        r.1 == next_element_view(items_view(c)).1,
    decreases c,
{
    match c {
        Items::Empty => (Items::Empty, Option::None),
        Items::Slot(Option2::Spent) => (Items::Slot(Option2::Spent), Option::None),
        Items::Slot(Option2::Filled(n)) => (Items::Slot(Option2::Spent), Option::Some(*n)),
        Items::Link(h) => {
            let HList { first, second } = h;
            if !first.is_done() {
                let ghost va = items_view(*first);
                let ghost vb = items_view(*second);
                let (f2, out) = items_next(*first);
                proof {
                    assert((va + vb).first() == va.first());
                    assert(items_view(f2) + vb =~= (va + vb).drop_first());
                }
                (Items::Link(HList { first: Box::new(f2), second }), out)
            } else {
                let ghost vb = items_view(*second);
                let (s2, out) = items_next(*second);
                proof {
                    assert(items_view(*first) + vb =~= vb);
                    if vb.len() > 0 {
                        assert(items_view(*first) + items_view(s2) =~= vb.drop_first());
                    } else {
                        assert(items_view(*first) + items_view(s2) =~= vb);
                    }
                }
                (Items::Link(HList { first, second: Box::new(s2) }), out)
            }
        },
    }
}

/// Hands out the front entry's key, routing to the left sub-chain while it
/// has anything left.
fn entries_next_key(e: Entries) -> (r: (Entries, Result<Option<String>, Error>))
    ensures
        entries_view(r.0) == next_key_view(entries_view(e)).0,
        r.1 == next_key_view(entries_view(e)).1,
    decreases e,
{
    match e {
        Entries::Empty => (Entries::Empty, Result::Ok(Option::None)),
        Entries::Slot(Option2::Spent) => (Entries::Slot(Option2::Spent), Result::Ok(Option::None)),
        Entries::Slot(Option2::Filled(KV::Pair(k, v))) => (
            Entries::Slot(Option2::Filled(KV::V(v))),
            Result::Ok(Option::Some(k)),
        ),
        Entries::Slot(Option2::Filled(KV::V(_))) => (
            Entries::Slot(Option2::Spent),
            Result::Err(Error::ProtocolViolation),
        ),
        Entries::Link(a, b) => {
            if !a.is_done() {
                let ghost va = entries_view(*a);
                let ghost vb = entries_view(*b);
                let (a2, out) = entries_next_key(*a);
                proof {
                    assert((va + vb).first() == va.first());
                    if va.first() is Full {
                        assert(entries_view(a2) + vb =~= (va + vb).update(
                            0,
                            EntryView::Pending(va.first()->Full_1),
                        ));
                    } else {
                        assert(entries_view(a2) + vb =~= (va + vb).drop_first());
                    }
                }
                (Entries::Link(Box::new(a2), b), out)
            } else {
                let ghost vb = entries_view(*b);
                let (b2, out) = entries_next_key(*b);
                proof {
                    assert(entries_view(*a) + vb =~= vb);
                    if vb.len() == 0 {
                        assert(entries_view(*a) + entries_view(b2) =~= vb);
                    } else if vb.first() is Full {
                        assert(entries_view(*a) + entries_view(b2) =~= vb.update(
                            0,
                            EntryView::Pending(vb.first()->Full_1),
                        ));
                    } else {
                        assert(entries_view(*a) + entries_view(b2) =~= vb.drop_first());
                    }
                }
                (Entries::Link(a, Box::new(b2)), out)
            }
        },
    }
}

/// Hands out the front entry's pending value, routing to the left sub-chain
/// while it has anything left.
fn entries_next_value(e: Entries) -> (r: (Entries, Result<Node, Error>))
    ensures
        entries_view(r.0) == next_value_view(entries_view(e)).0,
        r.1 == next_value_view(entries_view(e)).1,
    decreases e,
{
    match e {
        Entries::Empty => (Entries::Empty, Result::Err(Error::ProtocolViolation)),
        Entries::Slot(Option2::Spent) => (
            Entries::Slot(Option2::Spent),
            Result::Err(Error::ProtocolViolation),
        ),
        Entries::Slot(Option2::Filled(KV::Pair(_, _))) => (
            Entries::Slot(Option2::Spent),
            Result::Err(Error::ProtocolViolation),
        ),
        Entries::Slot(Option2::Filled(KV::V(v))) => (
            Entries::Slot(Option2::Spent),
            Result::Ok(*v),
        ),
        Entries::Link(a, b) => {
            if !a.is_done() {
                let ghost va = entries_view(*a);
                let ghost vb = entries_view(*b);
                let (a2, out) = entries_next_value(*a);
                proof {
                    assert((va + vb).first() == va.first());
                    assert(entries_view(a2) + vb =~= (va + vb).drop_first());
                }
                (Entries::Link(Box::new(a2), b), out)
            } else {
                let ghost vb = entries_view(*b);
                let (b2, out) = entries_next_value(*b);
                proof {
                    assert(entries_view(*a) + vb =~= vb);
                    if vb.len() == 0 {
                        assert(entries_view(*a) + entries_view(b2) =~= vb);
                    } else {
                        assert(entries_view(*a) + entries_view(b2) =~= vb.drop_first());
                    }
                }
                (Entries::Link(a, Box::new(b2)), out)
            }
        },
    }
}

impl Array {
    /// Answers one "next element" request: the front remaining element, or
    /// "end of sequence" once the chain is exhausted. Consumes the element
    /// handed out; this container cannot be pull-consumed twice.
    pub fn next_element(&mut self) -> (r: Option<Node>)
        ensures
            items_view(final(self).0) == next_element_view(items_view(old(self).0)).0,
            r == next_element_view(items_view(old(self).0)).1,
    {
        let mut c = Items::Empty;
        core::mem::swap(&mut self.0, &mut c);
        let (c2, out) = items_next(c);
        self.0 = c2;
        out
    }
}

impl MapContainer {
    /// Answers one "next key" request, per [`next_key_view`]. Exhaustion is
    /// answered with "end of map", never with an error.
    pub fn next_key(&mut self) -> (r: Result<Option<String>, Error>)
        ensures
            entries_view(final(self).0) == next_key_view(entries_view(old(self).0)).0,
            r == next_key_view(entries_view(old(self).0)).1,
    {
        let mut e = Entries::Empty;
        core::mem::swap(&mut self.0, &mut e);
        let (e2, out) = entries_next_key(e);
        self.0 = e2;
        out
    }

    /// Answers one "next value" request, per [`next_value_view`]: only valid
    /// immediately after the paired key was handed out.
    pub fn next_value(&mut self) -> (r: Result<Node, Error>)
        ensures
            entries_view(final(self).0) == next_value_view(entries_view(old(self).0)).0,
            r == next_value_view(entries_view(old(self).0)).1,
    {
        let mut e = Entries::Empty;
        core::mem::swap(&mut self.0, &mut e);
        let (e2, out) = entries_next_value(e);
        self.0 = e2;
        out
    }
}

} // verus!
