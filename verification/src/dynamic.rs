//! A conventional dynamic JSON tree, as the counterpart the typed literal
//! tree must be able to stand in for: pull-consuming a literal tree builds
//! one, and an independent decoder rebuilds one from an emitted token
//! stream.

use vstd::prelude::*;

use crate::errors::Error;
use crate::model::JsonModel;
use crate::scalar::Value;
use crate::tree::Array;
use crate::tree::Entries;
use crate::tree::Expr;
use crate::tree::Items;
use crate::tree::KV;
use crate::tree::HList;
use crate::tree::MapContainer;
use crate::tree::Node;
use crate::tree::Option2;
use crate::tree::entries_models;
use crate::tree::items_models;
use crate::tree::node_model;
use crate::pull::entries_ready;
use crate::pull::items_ready;
use crate::pull::node_ready;

verus! {

/// A dynamic, heap-allocated JSON value: what a literal tree decodes to.
#[derive(Debug)]
pub enum JsonValue {
    Null,
    Bool(bool),
    Int(i64),
    Text(String),
    Arr(Vec<JsonValue>),
    Obj(Vec<(String, JsonValue)>),
}

/// The document a dynamic value represents.
pub open spec fn jv_model(v: JsonValue) -> JsonModel
    decreases v,
{
    match v {
        JsonValue::Null => JsonModel::Null,
        JsonValue::Bool(b) => JsonModel::Bool(b),
        JsonValue::Int(i) => JsonModel::Int(i as int),
        JsonValue::Text(s) => JsonModel::Text(s@),
        JsonValue::Arr(es) => JsonModel::Arr(jv_models(es@)),
        JsonValue::Obj(ps) => JsonModel::Obj(jv_entry_models(ps@)),
    }
}

/// The documents a run of dynamic array elements represents.
pub open spec fn jv_models(s: Seq<JsonValue>) -> Seq<JsonModel>
    decreases s,
{
    if s.len() == 0 {
        Seq::empty()
    } else {
        seq![jv_model(s.first())] + jv_models(s.drop_first())
    }
}

/// The (key, document) pairs a run of dynamic object entries represents.
pub open spec fn jv_entry_models(s: Seq<(String, JsonValue)>) -> Seq<(Seq<char>, JsonModel)>
    decreases s,
{
    if s.len() == 0 {
        Seq::empty()
    } else {
        seq![(s.first().0@, jv_model(s.first().1))] + jv_entry_models(s.drop_first())
    }
}

impl View for JsonValue {
    type V = JsonModel;

    open spec fn view(&self) -> JsonModel {
        jv_model(*self)
    }
}

/// Element models concatenate as the element runs do.
pub proof fn lemma_jv_models_concat(a: Seq<JsonValue>, b: Seq<JsonValue>)
    ensures
        jv_models(a + b) == jv_models(a) + jv_models(b),
    decreases a.len(),
{
    if a.len() == 0 {
        assert(a + b =~= b);
        assert(jv_models(a) + jv_models(b) =~= jv_models(b));
    } else {
        assert((a + b).first() == a.first());
        assert((a + b).drop_first() =~= a.drop_first() + b);
        lemma_jv_models_concat(a.drop_first(), b);
        assert(jv_models(a + b) =~= jv_models(a) + jv_models(b));
    }
}

/// Entry models concatenate as the entry runs do.
pub proof fn lemma_jv_entry_models_concat(a: Seq<(String, JsonValue)>, b: Seq<(String, JsonValue)>)
    ensures
        jv_entry_models(a + b) == jv_entry_models(a) + jv_entry_models(b),
    decreases a.len(),
{
    if a.len() == 0 {
        assert(a + b =~= b);
        assert(jv_entry_models(a) + jv_entry_models(b) =~= jv_entry_models(b));
    } else {
        assert((a + b).first() == a.first());
        assert((a + b).drop_first() =~= a.drop_first() + b);
        lemma_jv_entry_models_concat(a.drop_first(), b);
        assert(jv_entry_models(a + b) =~= jv_entry_models(a) + jv_entry_models(b));
    }
}

/// Pull-consumes one node in full and builds the dynamic value it holds:
/// the leaf's scalar, "no value" for the null marker, and every remaining
/// element or (key, value) entry of a container, in declaration order,
/// exactly once each. A tree in which some key was already handed out but
/// its value was not cannot be re-entered: that is a protocol violation.
pub fn pull_node(n: Node) -> (r: Result<JsonValue, Error>)
    ensures
        node_ready(n) ==> (r matches Ok(v) && jv_model(v) == node_model(n)),
        !node_ready(n) ==> r == Result::<JsonValue, Error>::Err(Error::ProtocolViolation),
    decreases n,
{
    match n {
        Node::Leaf(Expr(v)) => match v {
            Value::Int(i) => Result::Ok(JsonValue::Int(i)),
            Value::Bool(b) => Result::Ok(JsonValue::Bool(b)),
            Value::Text(s) => Result::Ok(JsonValue::Text(s)),
        },
        Node::Null(_) => Result::Ok(JsonValue::Null),
        Node::List(Array(c)) => {
            let mut out: Vec<JsonValue> = Vec::new();
            proof {
                assert(jv_models(out@) =~= Seq::<JsonModel>::empty());
            }
            match pull_items(c, &mut out) {
                Result::Ok(()) => {
                    proof {
                        assert(Seq::<JsonModel>::empty() + items_models(c) =~= items_models(c));
                    }
                    Result::Ok(JsonValue::Arr(out))
                },
                Result::Err(er) => Result::Err(er),
            }
        },
        Node::Object(MapContainer(e)) => {
            let mut out: Vec<(String, JsonValue)> = Vec::new();
            proof {
                assert(jv_entry_models(out@) =~= Seq::<(Seq<char>, JsonModel)>::empty());
            }
            match pull_entries(e, &mut out) {
                Result::Ok(()) => {
                    proof {
                        assert(Seq::<(Seq<char>, JsonModel)>::empty() + entries_models(e)
                            =~= entries_models(e));
                    }
                    Result::Ok(JsonValue::Obj(out))
                },
                Result::Err(er) => Result::Err(er),
            }
        },
    }
}

/// Pull-consumes every remaining element of an array chain, in declaration
/// order, appending the dynamic values to `out`.
fn pull_items(c: Items, out: &mut Vec<JsonValue>) -> (r: Result<(), Error>)
    ensures
        r is Ok <==> items_ready(c),
        r is Ok ==> jv_models(final(out)@) == jv_models(old(out)@) + items_models(c),
        r is Err ==> r == Result::<(), Error>::Err(Error::ProtocolViolation),
    decreases c,
{
    let ghost m0 = jv_models(out@);
    match c {
        Items::Empty => {
            proof {
                assert(jv_models(out@) =~= m0 + items_models(c));
            }
            Result::Ok(())
        },
        Items::Slot(Option2::Spent) => {
            proof {
                assert(jv_models(out@) =~= m0 + items_models(c));
            }
            Result::Ok(())
        },
        Items::Slot(Option2::Filled(n)) => {
            let ghost nm = node_model(*n);
            match pull_node(*n) {
                Result::Ok(v) => {
                    out.push(v);
                    proof {
                        lemma_jv_models_concat(old(out)@, seq![v]);
                        assert(out@ =~= old(out)@ + seq![v]);
                        assert(seq![v].drop_first() =~= Seq::<JsonValue>::empty());
                        assert(jv_models(Seq::<JsonValue>::empty()) =~= Seq::<JsonModel>::empty());
                        assert(jv_models(seq![v]) =~= seq![nm]);
                        assert(jv_models(out@) =~= m0 + items_models(c));
                    }
                    Result::Ok(())
                },
                Result::Err(er) => Result::Err(er),
            }
        },
        Items::Link(h) => {
            let HList { first, second } = h;
            match pull_items(*first, out) {
                Result::Ok(()) => {
                    match pull_items(*second, out) {
                        Result::Ok(()) => {
                            proof {
                                assert(jv_models(out@) =~= m0 + items_models(c));
                            }
                            Result::Ok(())
                        },
                        Result::Err(er) => Result::Err(er),
                    }
                },
                Result::Err(er) => Result::Err(er),
            }
        },
    }
}

/// Pull-consumes every remaining entry of an entry chain, in declaration
/// order, appending the (key, dynamic value) pairs to `out`. An entry whose
/// key was already handed out is a protocol violation.
fn pull_entries(e: Entries, out: &mut Vec<(String, JsonValue)>) -> (r: Result<(), Error>)
    ensures
        r is Ok <==> entries_ready(e),
        r is Ok ==> jv_entry_models(final(out)@) == jv_entry_models(old(out)@) + entries_models(e),
        r is Err ==> r == Result::<(), Error>::Err(Error::ProtocolViolation),
    decreases e,
{
    let ghost m0 = jv_entry_models(out@);
    match e {
        Entries::Empty => {
            proof {
                assert(jv_entry_models(out@) =~= m0 + entries_models(e));
            }
            Result::Ok(())
        },
        Entries::Slot(Option2::Spent) => {
            proof {
                assert(jv_entry_models(out@) =~= m0 + entries_models(e));
            }
            Result::Ok(())
        },
        Entries::Slot(Option2::Filled(KV::Pair(k, v))) => {
            let ghost km = k@;
            let ghost nm = node_model(*v);
            match pull_node(*v) {
                Result::Ok(w) => {
                    out.push((k, w));
                    proof {
                        lemma_jv_entry_models_concat(old(out)@, seq![(k, w)]);
                        assert(out@ =~= old(out)@ + seq![(k, w)]);
                        assert(seq![(k, w)].drop_first() =~= Seq::<(String, JsonValue)>::empty());
                        assert(jv_entry_models(Seq::<(String, JsonValue)>::empty())
                            =~= Seq::<(Seq<char>, JsonModel)>::empty());
                        assert(jv_entry_models(seq![(k, w)]) =~= seq![(km, nm)]);
                        assert(jv_entry_models(out@) =~= m0 + entries_models(e));
                    }
                    Result::Ok(())
                },
                Result::Err(er) => Result::Err(er),
            }
        },
        Entries::Slot(Option2::Filled(KV::V(_))) => Result::Err(
            Error::ProtocolViolation,
        ),
        Entries::Link(a, b) => {
            match pull_entries(*a, out) {
                Result::Ok(()) => {
                    match pull_entries(*b, out) {
                        Result::Ok(()) => {
                            proof {
                                assert(jv_entry_models(out@) =~= m0 + entries_models(e));
                            }
                            Result::Ok(())
                        },
                        Result::Err(er) => Result::Err(er),
                    }
                },
                Result::Err(er) => Result::Err(er),
            }
        },
    }
}

/// A run of elements denotes one document per element, index for index.
pub proof fn lemma_jv_models_index(s: Seq<JsonValue>)
    ensures
        jv_models(s).len() == s.len(),
        forall|k: int| 0 <= k < s.len() ==> jv_models(s)[k] == jv_model(s[k]),
    decreases s.len(),
{
    if s.len() > 0 {
        lemma_jv_models_index(s.drop_first());
        assert forall|k: int| 0 <= k < s.len() implies jv_models(s)[k] == jv_model(s[k]) by {
            if k > 0 {
                assert(jv_models(s.drop_first())[k - 1] == jv_model(s.drop_first()[k - 1]));
            }
        }
    }
}

/// A run of entries denotes one (key, document) pair per entry, index for
/// index.
pub proof fn lemma_jv_entry_models_index(s: Seq<(String, JsonValue)>)
    ensures
        jv_entry_models(s).len() == s.len(),
        forall|k: int|
            0 <= k < s.len() ==> jv_entry_models(s)[k] == (s[k].0@, jv_model(s[k].1)),
    decreases s.len(),
{
    if s.len() > 0 {
        lemma_jv_entry_models_index(s.drop_first());
        assert forall|k: int|
            0 <= k < s.len() implies jv_entry_models(s)[k] == (s[k].0@, jv_model(s[k].1)) by {
            if k > 0 {
                assert(jv_entry_models(s.drop_first())[k - 1] == (
                    s.drop_first()[k - 1].0@,
                    jv_model(s.drop_first()[k - 1].1),
                ));
            }
        }
    }
}

impl JsonValue {
    /// Whether two dynamic values are structurally equal: they represent the
    /// same document.
    #[verifier::loop_isolation(false)]
    pub fn deep_eq(&self, other: &JsonValue) -> (r: bool)
        ensures
            r == (self@ == other@),
        decreases *self,
    {
        match (self, other) {
            (JsonValue::Null, JsonValue::Null) => true,
            (JsonValue::Bool(a), JsonValue::Bool(b)) => *a == *b,
            (JsonValue::Int(a), JsonValue::Int(b)) => *a == *b,
            (JsonValue::Text(a), JsonValue::Text(b)) => a.eq(b),
            (JsonValue::Arr(a), JsonValue::Arr(b)) => {
                proof {
                    lemma_jv_models_index(a@);
                    lemma_jv_models_index(b@);
                }
                if a.len() != b.len() {
                    return false;
                }
                let n = a.len();
                let mut k: usize = 0;
                while k < n
                    invariant
                        n == a@.len() == b@.len(),
                        0 <= k <= n,
                        forall|q: int| 0 <= q < k ==> jv_model(a@[q]) == jv_model(b@[q]),
                        jv_models(a@).len() == a@.len(),
                        jv_models(b@).len() == b@.len(),
                        forall|q: int| 0 <= q < n ==> jv_models(a@)[q] == jv_model(a@[q]),
                        forall|q: int| 0 <= q < n ==> jv_models(b@)[q] == jv_model(b@[q]),
                    decreases n - k,
                {
                    proof {
                        assert(decreases_to!(*self => (*self)->Arr_0));
                        assert((*self)->Arr_0 == *a);
                        assert(decreases_to!(*a => a@));
                        assert(decreases_to!(a@ => a@[k as int]));
                    }
                    let eq = a[k].deep_eq(&b[k]);
                    if !eq {
                        proof {
                            assert(jv_models(a@)[k as int] != jv_models(b@)[k as int]);
                        }
                        return false;
                    }
                    k = k + 1;
                }
                proof {
                    assert(jv_models(a@) =~= jv_models(b@));
                }
                true
            },
            (JsonValue::Obj(a), JsonValue::Obj(b)) => {
                proof {
                    lemma_jv_entry_models_index(a@);
                    lemma_jv_entry_models_index(b@);
                }
                if a.len() != b.len() {
                    return false;
                }
                let n = a.len();
                let mut k: usize = 0;
                while k < n
                    invariant
                        n == a@.len() == b@.len(),
                        0 <= k <= n,
                        forall|q: int|
                            0 <= q < k ==> (a@[q].0@, jv_model(a@[q].1)) == (
                                b@[q].0@,
                                jv_model(b@[q].1),
                            ),
                        jv_entry_models(a@).len() == a@.len(),
                        jv_entry_models(b@).len() == b@.len(),
                        forall|q: int|
                            0 <= q < n ==> jv_entry_models(a@)[q] == (a@[q].0@, jv_model(a@[q].1)),
                        forall|q: int|
                            0 <= q < n ==> jv_entry_models(b@)[q] == (b@[q].0@, jv_model(b@[q].1)),
                    decreases n - k,
                {
                    let keys_eq = a[k].0.eq(&b[k].0);
                    if !keys_eq {
                        proof {
                            assert(jv_entry_models(a@)[k as int] != jv_entry_models(b@)[k as int]);
                        }
                        return false;
                    }
                    proof {
                        assert(decreases_to!(*self => (*self)->Obj_0));
                        assert((*self)->Obj_0 == *a);
                        assert(decreases_to!(*a => a@));
                        assert(decreases_to!(a@ => a@[k as int]));
                        assert(decreases_to!(a@[k as int] => a@[k as int].1));
                    }
                    let vals_eq = a[k].1.deep_eq(&b[k].1);
                    if !vals_eq {
                        proof {
                            assert(jv_entry_models(a@)[k as int] != jv_entry_models(b@)[k as int]);
                        }
                        return false;
                    }
                    k = k + 1;
                }
                proof {
                    assert(jv_entry_models(a@) =~= jv_entry_models(b@));
                }
                true
            },
            _ => false,
        }
    }
}

impl Node {
    /// Resolves a numeric request against this node: only an integer leaf
    /// satisfies it; any other shape — including the null marker — is a
    /// decode mismatch.
    pub fn decode_int(self) -> (r: Result<i64, Error>)
        ensures
            match self {
                Node::Leaf(Expr(Value::Int(i))) => r == Result::<i64, Error>::Ok(i),
                _ => r == Result::<i64, Error>::Err(Error::DecodeMismatch),
            },
    {
        match self {
            Node::Leaf(Expr(Value::Int(i))) => Result::Ok(i),
            _ => Result::Err(Error::DecodeMismatch),
        }
    }

    /// Resolves a boolean request against this node.
    pub fn decode_bool(self) -> (r: Result<bool, Error>)
        ensures
            match self {
                Node::Leaf(Expr(Value::Bool(b))) => r == Result::<bool, Error>::Ok(b),
                _ => r == Result::<bool, Error>::Err(Error::DecodeMismatch),
            },
    {
        match self {
            Node::Leaf(Expr(Value::Bool(b))) => Result::Ok(b),
            _ => Result::Err(Error::DecodeMismatch),
        }
    }

    /// Resolves a string request against this node.
    pub fn decode_text(self) -> (r: Result<String, Error>)
        ensures
            match self {
                Node::Leaf(Expr(Value::Text(s))) => r == Result::<String, Error>::Ok(s),
                _ => r == Result::<String, Error>::Err(Error::DecodeMismatch),
            },
    {
        match self {
            Node::Leaf(Expr(Value::Text(s))) => Result::Ok(s),
            _ => Result::Err(Error::DecodeMismatch),
        }
    }

    /// Resolves an optional-value request against this node. The null
    /// marker deliberately decodes as "no value present" rather than as a
    /// distinct null-typed value: a consumer expecting an optional value
    /// sees null and an absent value identically. Anything else is handed
    /// back whole, to be decoded as the value that is present.
    pub fn decode_option(self) -> (r: Option<Node>)
        ensures
            self is Null ==> r is None,
            !(self is Null) ==> r == Option::Some(self),
    {
        match self {
            Node::Null(_) => Option::None,
            other => Option::Some(other),
        }
    }
}

} // verus!
