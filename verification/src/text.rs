//! Rendering a tree as compact JSON text, the way its display form is
//! printed: leaves in place, elements and entries comma-separated, keys and
//! strings in their JSON-escaped form.

use vstd::prelude::*;

use crate::model::JsonModel;
use crate::scalar::Value;
use crate::tree::Array;
use crate::tree::Entries;
use crate::tree::Expr;
use crate::tree::Items;
use crate::tree::KV;
use crate::tree::MapContainer;
use crate::tree::Node;
use crate::tree::Null;
use crate::tree::Option2;
use crate::tree::entries_models;
use crate::tree::items_models;
use crate::tree::node_model;
use crate::tree::scalar_model;

verus! {

/// The JSON text of one string, quotes and escapes included: what the JSON
/// serializer prints for it. It depends on the characters alone.
pub uninterp spec fn json_text_of_string(s: Seq<char>) -> Seq<char>;

/// Relies on serde_json::to_string on a string slice: the text depends on
/// the slice's characters alone, and serializing a plain string never fails
/// (its writer is an in-memory buffer and a string has no failing step).
#[verifier::external_body]
fn json_string_text(s: &str) -> (r: String)
    ensures
        r@ == json_text_of_string(s@),
{
    match serde_json::to_string(s) {
        Ok(t) => t,
        Err(_) => String::new(),
    }
}

/// The character for one decimal digit.
pub open spec fn digit_char(d: nat) -> char {
    if d == 0 {
        '0'
    } else if d == 1 {
        '1'
    } else if d == 2 {
        '2'
    } else if d == 3 {
        '3'
    } else if d == 4 {
        '4'
    } else if d == 5 {
        '5'
    } else if d == 6 {
        '6'
    } else if d == 7 {
        '7'
    } else if d == 8 {
        '8'
    } else {
        '9'
    }
}

/// The decimal digits of a natural number, most significant first, with no
/// leading zero except for zero itself.
pub open spec fn dec_digits(n: nat) -> Seq<char>
    decreases n,
{
    if n < 10 {
        seq![digit_char(n)]
    } else {
        dec_digits(n / 10) + seq![digit_char(n % 10)]
    }
}

/// The decimal text of an integer: a leading minus sign where negative.
pub open spec fn int_text(i: int) -> Seq<char> {
    if i < 0 {
        seq!['-'] + dec_digits((-i) as nat)
    } else {
        dec_digits(i as nat)
    }
}

/// One decimal digit as text.
fn digit_str(d: u64) -> (r: &'static str)
    requires
        d < 10,
    ensures
        r@ == seq![digit_char(d as nat)],
{
    let r = match d {
        0 => "0",
        1 => "1",
        2 => "2",
        3 => "3",
        4 => "4",
        5 => "5",
        6 => "6",
        7 => "7",
        8 => "8",
        _ => "9",
    };
    proof {
        reveal_strlit("0");
        reveal_strlit("1");
        reveal_strlit("2");
        reveal_strlit("3");
        reveal_strlit("4");
        reveal_strlit("5");
        reveal_strlit("6");
        reveal_strlit("7");
        reveal_strlit("8");
        reveal_strlit("9");
        assert(r@ =~= seq![digit_char(d as nat)]);
    }
    r
}

/// The decimal text of a natural number.
fn u64_text(x: u64) -> (r: String)
    ensures
        r@ == dec_digits(x as nat),
    decreases x,
{
    if x < 10 {
        digit_str(x).to_owned()
    } else {
        let mut s = u64_text(x / 10);
        s.append(digit_str(x % 10));
        s
    }
}

/// The decimal text of a signed integer.
fn i64_text(i: i64) -> (r: String)
    ensures
        r@ == int_text(i as int),
{
    if i >= 0 {
        u64_text(i as u64)
    } else {
        let mag: u64 = ((-(i + 1)) as u64) + 1;
        proof {
            assert(mag as int == -(i as int));
        }
        let mut s = "-".to_owned();
        let digits = u64_text(mag);
        s.append(digits.as_str());
        proof {
            reveal_strlit("-");
            assert("-"@ =~= seq!['-']);
        }
        s
    }
}

/// The JSON text of a document, in compact form: no spacing anywhere.
pub open spec fn json_text(m: JsonModel) -> Seq<char>
    decreases m,
{
    match m {
        JsonModel::Null => "null"@,
        JsonModel::Bool(b) => if b {
            "true"@
        } else {
            "false"@
        },
        JsonModel::Int(i) => int_text(i),
        JsonModel::Text(s) => json_text_of_string(s),
        JsonModel::Arr(es) => "["@ + elems_text(es) + "]"@,
        JsonModel::Obj(ps) => "{"@ + entries_text(ps) + "}"@,
    }
}

/// The comma-joined texts of an element run.
pub open spec fn elems_text(es: Seq<JsonModel>) -> Seq<char>
    decreases es,
{
    if es.len() == 0 {
        Seq::empty()
    } else {
        json_text(es.first()) + elems_text_tail(es.drop_first())
    }
}

/// The texts of the elements after the first: each with its leading comma.
pub open spec fn elems_text_tail(es: Seq<JsonModel>) -> Seq<char>
    decreases es,
{
    if es.len() == 0 {
        Seq::empty()
    } else {
        ","@ + json_text(es.first()) + elems_text_tail(es.drop_first())
    }
}

/// The text of one entry: escaped key, colon, value.
pub open spec fn entry_text(p: (Seq<char>, JsonModel)) -> Seq<char>
    decreases p,
{
    json_text_of_string(p.0) + ":"@ + json_text(p.1)
}

/// The comma-joined texts of an entry run.
pub open spec fn entries_text(ps: Seq<(Seq<char>, JsonModel)>) -> Seq<char>
    decreases ps,
{
    if ps.len() == 0 {
        Seq::empty()
    } else {
        entry_text(ps.first()) + entries_text_tail(ps.drop_first())
    }
}

/// The texts of the entries after the first: each with its leading comma.
pub open spec fn entries_text_tail(ps: Seq<(Seq<char>, JsonModel)>) -> Seq<char>
    decreases ps,
{
    if ps.len() == 0 {
        Seq::empty()
    } else {
        ","@ + entry_text(ps.first()) + entries_text_tail(ps.drop_first())
    }
}

/// Comma-led texts concatenate as the element runs do.
proof fn lemma_elems_text_tail_concat(a: Seq<JsonModel>, b: Seq<JsonModel>)
    ensures
        elems_text_tail(a + b) == elems_text_tail(a) + elems_text_tail(b),
    decreases a.len(),
{
    if a.len() == 0 {
        assert(a + b =~= b);
        assert(elems_text_tail(a) + elems_text_tail(b) =~= elems_text_tail(b));
    } else {
        assert((a + b).first() == a.first());
        assert((a + b).drop_first() =~= a.drop_first() + b);
        lemma_elems_text_tail_concat(a.drop_first(), b);
        assert(elems_text_tail(a + b) =~= elems_text_tail(a) + elems_text_tail(b));
    }
}

/// Joining a concatenation: the left run's join, then the right run's
/// comma-led texts; an empty left run contributes nothing.
proof fn lemma_elems_text_concat(a: Seq<JsonModel>, b: Seq<JsonModel>)
    ensures
        a.len() == 0 ==> elems_text(a + b) == elems_text(b),
        a.len() > 0 ==> elems_text(a + b) == elems_text(a) + elems_text_tail(b),
{
    if a.len() == 0 {
        assert(a + b =~= b);
    } else {
        assert((a + b).first() == a.first());
        assert((a + b).drop_first() =~= a.drop_first() + b);
        lemma_elems_text_tail_concat(a.drop_first(), b);
        assert(elems_text(a + b) =~= elems_text(a) + elems_text_tail(b));
    }
}

/// Comma-led texts concatenate as the entry runs do.
proof fn lemma_entries_text_tail_concat(
    a: Seq<(Seq<char>, JsonModel)>,
    b: Seq<(Seq<char>, JsonModel)>,
)
    ensures
        entries_text_tail(a + b) == entries_text_tail(a) + entries_text_tail(b),
    decreases a.len(),
{
    if a.len() == 0 {
        assert(a + b =~= b);
        assert(entries_text_tail(a) + entries_text_tail(b) =~= entries_text_tail(b));
    } else {
        assert((a + b).first() == a.first());
        assert((a + b).drop_first() =~= a.drop_first() + b);
        lemma_entries_text_tail_concat(a.drop_first(), b);
        assert(entries_text_tail(a + b) =~= entries_text_tail(a) + entries_text_tail(b));
    }
}

/// Joining a concatenation of entry runs.
proof fn lemma_entries_text_concat(a: Seq<(Seq<char>, JsonModel)>, b: Seq<(Seq<char>, JsonModel)>)
    ensures
        a.len() == 0 ==> entries_text(a + b) == entries_text(b),
        a.len() > 0 ==> entries_text(a + b) == entries_text(a) + entries_text_tail(b),
{
    if a.len() == 0 {
        assert(a + b =~= b);
    } else {
        assert((a + b).first() == a.first());
        assert((a + b).drop_first() =~= a.drop_first() + b);
        lemma_entries_text_tail_concat(a.drop_first(), b);
        assert(entries_text(a + b) =~= entries_text(a) + entries_text_tail(b));
    }
}

/// Appends one node's JSON text.
fn node_text(n: &Node, out: &mut String)
    ensures
        final(out)@ == old(out)@ + json_text(node_model(*n)),
    decreases *n,
{
    match n {
        Node::Leaf(Expr(v)) => match v {
            Value::Int(i) => {
                let s = i64_text(*i);
                out.append(s.as_str());
            },
            Value::Bool(b) => {
                if *b {
                    out.append("true");
                } else {
                    out.append("false");
                }
            },
            Value::Text(s) => {
                let t = json_string_text(s.as_str());
                out.append(t.as_str());
            },
        },
        Node::Null(Null) => {
            out.append("null");
        },
        Node::List(Array(c)) => {
            let ghost m0 = out@;
            out.append("[");
            items_text(c, out, false);
            out.append("]");
            proof {
                assert(out@ =~= m0 + json_text(node_model(*n)));
            }
        },
        Node::Object(MapContainer(e)) => {
            let ghost m0 = out@;
            out.append("{");
            entries_text_exec(e, out, false);
            out.append("}");
            proof {
                assert(out@ =~= m0 + json_text(node_model(*n)));
            }
        },
    }
}

/// Appends the comma-joined texts of an array chain's remaining elements.
/// `started` says whether an element was already written before this chain;
/// the return value says whether one has been written after it.
fn items_text(c: &Items, out: &mut String, started: bool) -> (r: bool)
    ensures
        r == (started || items_models(*c).len() > 0),
        started ==> final(out)@ == old(out)@ + elems_text_tail(items_models(*c)),
        !started ==> final(out)@ == old(out)@ + elems_text(items_models(*c)),
    decreases *c,
{
    match c {
        Items::Empty => started,
        Items::Slot(Option2::Spent) => started,
        Items::Slot(Option2::Filled(n)) => {
            let ghost m0 = out@;
            if started {
                out.append(",");
            }
            node_text(n, out);
            proof {
                let m = node_model(**n);
                assert(seq![m].drop_first() =~= Seq::<JsonModel>::empty());
                assert(elems_text_tail(Seq::<JsonModel>::empty()) =~= Seq::<char>::empty());
                if started {
                    assert(out@ =~= m0 + elems_text_tail(items_models(*c)));
                } else {
                    assert(out@ =~= m0 + elems_text(items_models(*c)));
                }
            }
            true
        },
        Items::Link(h) => {
            let s1 = items_text(&h.first, out, started);
            let s2 = items_text(&h.second, out, s1);
            proof {
                let va = items_models(*h.first);
                let vb = items_models(*h.second);
                crate::tree::lemma_items_models_len(*h.first);
                lemma_elems_text_tail_concat(va, vb);
                lemma_elems_text_concat(va, vb);
            }
            s2
        },
    }
}

/// Appends the comma-joined texts of an entry chain's unconsumed entries.
fn entries_text_exec(e: &Entries, out: &mut String, started: bool) -> (r: bool)
    ensures
        r == (started || entries_models(*e).len() > 0),
        started ==> final(out)@ == old(out)@ + entries_text_tail(entries_models(*e)),
        !started ==> final(out)@ == old(out)@ + entries_text(entries_models(*e)),
    decreases *e,
{
    match e {
        Entries::Empty => started,
        Entries::Slot(Option2::Spent) => started,
        Entries::Slot(Option2::Filled(KV::V(_))) => started,
        Entries::Slot(Option2::Filled(KV::Pair(k, v))) => {
            let ghost m0 = out@;
            if started {
                out.append(",");
            }
            let kt = json_string_text(k.as_str());
            out.append(kt.as_str());
            out.append(":");
            node_text(v, out);
            proof {
                let p = (k@, node_model(**v));
                assert(seq![p].drop_first() =~= Seq::<(Seq<char>, JsonModel)>::empty());
                assert(entries_text_tail(Seq::<(Seq<char>, JsonModel)>::empty())
                    =~= Seq::<char>::empty());
                assert(entry_text(p) == json_text_of_string(k@) + ":"@ + json_text(
                    node_model(**v),
                ));
                assert(entries_text_tail(seq![p]) =~= ","@ + entry_text(p));
                assert(entries_text(seq![p]) =~= entry_text(p));
                if started {
                    assert(out@ =~= m0 + entries_text_tail(entries_models(*e)));
                } else {
                    assert(out@ =~= m0 + entries_text(entries_models(*e)));
                }
            }
            true
        },
        Entries::Link(a, b) => {
            let s1 = entries_text_exec(a, out, started);
            let s2 = entries_text_exec(b, out, s1);
            proof {
                let va = entries_models(**a);
                let vb = entries_models(**b);
                lemma_entries_text_tail_concat(va, vb);
                lemma_entries_text_concat(va, vb);
            }
            s2
        },
    }
}

impl Node {
    /// This node's compact JSON text.
    pub fn to_json_string(&self) -> (r: String)
        ensures
            r@ == json_text(node_model(*self)),
    {
        let mut out = String::new();
        node_text(self, &mut out);
        proof {
            assert(Seq::<char>::empty() + json_text(node_model(*self)) =~= json_text(
                node_model(*self),
            ));
        }
        out
    }
}

impl Array {
    /// This array's compact JSON text.
    pub fn to_json_string(&self) -> (r: String)
        ensures
            r@ == json_text(JsonModel::Arr(items_models(self.0))),
    {
        let mut out = String::new();
        out.append("[");
        items_text(&self.0, &mut out, false);
        out.append("]");
        proof {
            assert(out@ =~= json_text(JsonModel::Arr(items_models(self.0))));
        }
        out
    }
}

impl MapContainer {
    /// This object's compact JSON text.
    pub fn to_json_string(&self) -> (r: String)
        ensures
            r@ == json_text(JsonModel::Obj(entries_models(self.0))),
    {
        let mut out = String::new();
        out.append("{");
        entries_text_exec(&self.0, &mut out, false);
        out.append("}");
        proof {
            assert(out@ =~= json_text(JsonModel::Obj(entries_models(self.0))));
        }
        out
    }
}

impl Expr {
    /// This scalar's compact JSON text.
    pub fn to_json_string(&self) -> (r: String)
        ensures
            r@ == json_text(scalar_model(self.0@)),
    {
        match &self.0 {
            Value::Int(i) => i64_text(*i),
            Value::Bool(b) => {
                if *b {
                    "true".to_owned()
                } else {
                    "false".to_owned()
                }
            },
            Value::Text(s) => json_string_text(s.as_str()),
        }
    }
}

impl Null {
    /// The null literal's JSON text.
    pub fn to_json_string(&self) -> (r: String)
        ensures
            r@ == json_text(JsonModel::Null),
    {
        "null".to_owned()
    }
}

} // verus!
