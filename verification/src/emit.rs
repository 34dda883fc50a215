//! Emission: the read-only, repeatable, depth-first walk of a tree that
//! writes one token per leaf, with each container region opened by a begin
//! token carrying its exact pre-computed element count.

use vstd::prelude::*;

use crate::model::JsonModel;
use crate::model::TokenModel;
use crate::model::elems_token_seq;
use crate::model::entries_token_seq;
use crate::model::lemma_elems_token_seq_concat;
use crate::model::lemma_entries_token_seq_concat;
use crate::model::token_seq;
use crate::scalar::Value;
use crate::tree::Array;
use crate::tree::Entries;
use crate::tree::Expr;
use crate::tree::Items;
use crate::tree::KV;
use crate::tree::MapContainer;
use crate::tree::Node;
use crate::tree::Null;
use crate::tree::Option2;
use crate::tree::entries_models;
use crate::tree::items_models;
use crate::tree::node_model;
use crate::tree::scalar_model;

verus! {

/// One token of the stream emission writes to its sink.
#[derive(Debug)]
pub enum Token {
    SeqBegin(usize),
    SeqEnd,
    MapBegin(usize),
    MapEnd,
    Int(i64),
    Bool(bool),
    Text(String),
    Null,
}

impl View for Token {
    type V = TokenModel;

    open spec fn view(&self) -> TokenModel {
        match self {
            Token::SeqBegin(n) => TokenModel::SeqBegin(*n as nat),
            Token::SeqEnd => TokenModel::SeqEnd,
            Token::MapBegin(n) => TokenModel::MapBegin(*n as nat),
            Token::MapEnd => TokenModel::MapEnd,
            Token::Int(i) => TokenModel::Int(*i as int),
            Token::Bool(b) => TokenModel::Bool(*b),
            Token::Text(s) => TokenModel::Text(s@),
            Token::Null => TokenModel::Null,
        }
    }
}

impl PartialEq for Token {
    fn eq(&self, other: &Token) -> (r: bool) {
        match (self, other) {
            (Token::SeqBegin(a), Token::SeqBegin(b)) => *a == *b,
            (Token::SeqEnd, Token::SeqEnd) => true,
            (Token::MapBegin(a), Token::MapBegin(b)) => *a == *b,
            (Token::MapEnd, Token::MapEnd) => true,
            (Token::Int(a), Token::Int(b)) => *a == *b,
            (Token::Bool(a), Token::Bool(b)) => *a == *b,
            (Token::Text(a), Token::Text(b)) => a.eq(b),
            (Token::Null, Token::Null) => true,
            _ => false,
        }
    }
}

impl vstd::std_specs::cmp::PartialEqSpecImpl for Token {
    open spec fn obeys_eq_spec() -> bool {
        true
    }

    open spec fn eq_spec(&self, other: &Token) -> bool {
        self@ == other@
    }
}

/// The models of an emitted token sequence.
pub open spec fn models_of(s: Seq<Token>) -> Seq<TokenModel> {
    s.map_values(|t: Token| t@)
}

/// Whether every container inside this node is small enough for its element
/// count to be computed as a `usize`.
pub open spec fn node_sizes_ok(n: Node) -> bool
    decreases n,
{
    match n {
        Node::Leaf(_) => true,
        Node::Null(_) => true,
        Node::List(Array(c)) => items_models(c).len() <= usize::MAX && items_sizes_ok(c),
        Node::Object(MapContainer(e)) => entries_models(e).len() <= usize::MAX
            && entries_sizes_ok(e),
    }
}

/// [`node_sizes_ok`], over every remaining occupant of an array chain.
pub open spec fn items_sizes_ok(c: Items) -> bool
    decreases c,
{
    match c {
        Items::Empty => true,
        Items::Slot(Option2::Spent) => true,
        Items::Slot(Option2::Filled(n)) => node_sizes_ok(*n),
        Items::Link(h) => items_sizes_ok(*h.first) && items_sizes_ok(*h.second),
    }
}

/// [`node_sizes_ok`], over every unconsumed value of an entry chain.
pub open spec fn entries_sizes_ok(e: Entries) -> bool
    decreases e,
{
    match e {
        Entries::Empty => true,
        Entries::Slot(Option2::Spent) => true,
        Entries::Slot(Option2::Filled(KV::Pair(_, v))) => node_sizes_ok(*v),
        Entries::Slot(Option2::Filled(KV::V(_))) => true,
        Entries::Link(a, b) => entries_sizes_ok(*a) && entries_sizes_ok(*b),
    }
}

/// The structural size of an array chain: one per remaining occupant,
/// computed with no length field anywhere.
fn items_len(c: &Items) -> (r: usize)
    requires
        items_models(*c).len() <= usize::MAX,
    ensures
        r == items_models(*c).len(),
    decreases *c,
{
    match c {
        Items::Empty => 0,
        Items::Slot(Option2::Spent) => 0,
        Items::Slot(Option2::Filled(_)) => 1,
        Items::Link(h) => {
            let a = items_len(&h.first);
            let b = items_len(&h.second);
            a + b
        },
    }
}

/// The structural size of an entry chain: one per unconsumed entry.
fn entries_len(e: &Entries) -> (r: usize)
    requires
        entries_models(*e).len() <= usize::MAX,
    ensures
        r == entries_models(*e).len(),
    decreases *e,
{
    match e {
        Entries::Empty => 0,
        Entries::Slot(Option2::Spent) => 0,
        Entries::Slot(Option2::Filled(KV::Pair(_, _))) => 1,
        Entries::Slot(Option2::Filled(KV::V(_))) => 0,
        Entries::Link(a, b) => {
            let x = entries_len(a);
            let y = entries_len(b);
            x + y
        },
    }
}

/// Appends one node's token stream to `out`.
fn emit_node_tokens(n: &Node, out: &mut Vec<Token>)
    requires
        node_sizes_ok(*n),
    ensures
        models_of(final(out)@) == models_of(old(out)@) + token_seq(node_model(*n)),
    decreases *n,
{
    let ghost m0 = models_of(out@);
    match n {
        Node::Leaf(Expr(v)) => {
            match v {
                Value::Int(i) => out.push(Token::Int(*i)),
                Value::Bool(b) => out.push(Token::Bool(*b)),
                Value::Text(s) => out.push(Token::Text(s.clone())),
            }
            proof {
                assert(models_of(out@) =~= m0 + token_seq(node_model(*n)));
            }
        },
        Node::Null(Null) => {
            out.push(Token::Null);
            proof {
                assert(models_of(out@) =~= m0 + token_seq(node_model(*n)));
            }
        },
        Node::List(Array(c)) => {
            let len = items_len(c);
            out.push(Token::SeqBegin(len));
            proof {
                assert(models_of(out@) =~= m0 + seq![TokenModel::SeqBegin(
                    items_models(*c).len(),
                )]);
            }
            emit_items_tokens(c, out);
            let ghost m2 = models_of(out@);
            out.push(Token::SeqEnd);
            proof {
                assert(models_of(out@) =~= m2 + seq![TokenModel::SeqEnd]);
                assert(models_of(out@) =~= m0 + token_seq(node_model(*n)));
            }
        },
        Node::Object(MapContainer(e)) => {
            let len = entries_len(e);
            out.push(Token::MapBegin(len));
            proof {
                assert(models_of(out@) =~= m0 + seq![TokenModel::MapBegin(
                    entries_models(*e).len(),
                )]);
            }
            emit_entries_tokens(e, out);
            let ghost m2 = models_of(out@);
            out.push(Token::MapEnd);
            proof {
                assert(models_of(out@) =~= m2 + seq![TokenModel::MapEnd]);
                assert(models_of(out@) =~= m0 + token_seq(node_model(*n)));
            }
        },
    }
}

/// Appends the token streams of an array chain's remaining elements, in
/// declaration order.
fn emit_items_tokens(c: &Items, out: &mut Vec<Token>)
    requires
        items_sizes_ok(*c),
    ensures
        models_of(final(out)@) == models_of(old(out)@) + elems_token_seq(items_models(*c)),
    decreases *c,
{
    let ghost m0 = models_of(out@);
    match c {
        Items::Empty => {
            proof {
                assert(models_of(out@) =~= m0 + elems_token_seq(items_models(*c)));
            }
        },
        Items::Slot(Option2::Spent) => {
            proof {
                assert(models_of(out@) =~= m0 + elems_token_seq(items_models(*c)));
            }
        },
        Items::Slot(Option2::Filled(n)) => {
            emit_node_tokens(n, out);
            proof {
                let m = node_model(**n);
                assert(seq![m].drop_first() =~= Seq::<JsonModel>::empty());
                assert(elems_token_seq(Seq::<JsonModel>::empty()) =~= Seq::<TokenModel>::empty());
                assert(elems_token_seq(seq![m]) =~= token_seq(m));
                assert(models_of(out@) =~= m0 + elems_token_seq(items_models(*c)));
            }
        },
        Items::Link(h) => {
            emit_items_tokens(&h.first, out);
            emit_items_tokens(&h.second, out);
            proof {
                lemma_elems_token_seq_concat(items_models(*h.first), items_models(*h.second));
                assert(models_of(out@) =~= m0 + elems_token_seq(items_models(*c)));
            }
        },
    }
}

/// Appends the token streams of an entry chain's unconsumed entries, each
/// one key token then the value's stream, strictly alternating. An entry
/// whose key was already handed out is skipped, as the denotation skips it.
fn emit_entries_tokens(e: &Entries, out: &mut Vec<Token>)
    requires
        entries_sizes_ok(*e),
    ensures
        models_of(final(out)@) == models_of(old(out)@) + entries_token_seq(entries_models(*e)),
    decreases *e,
{
    let ghost m0 = models_of(out@);
    match e {
        Entries::Empty => {
            proof {
                assert(models_of(out@) =~= m0 + entries_token_seq(entries_models(*e)));
            }
        },
        Entries::Slot(Option2::Spent) => {
            proof {
                assert(models_of(out@) =~= m0 + entries_token_seq(entries_models(*e)));
            }
        },
        Entries::Slot(Option2::Filled(KV::Pair(k, v))) => {
            out.push(Token::Text(k.clone()));
            proof {
                assert(models_of(out@) =~= m0 + seq![TokenModel::Text(k@)]);
            }
            emit_node_tokens(v, out);
            proof {
                let p = (k@, node_model(**v));
                assert(seq![p].drop_first() =~= Seq::<(Seq<char>, JsonModel)>::empty());
                assert(entries_token_seq(Seq::<(Seq<char>, JsonModel)>::empty())
                    =~= Seq::<TokenModel>::empty());
                assert(entries_token_seq(seq![p]) =~= seq![TokenModel::Text(k@)] + token_seq(p.1));
                assert(models_of(out@) =~= m0 + entries_token_seq(entries_models(*e)));
            }
        },
        Entries::Slot(Option2::Filled(KV::V(_))) => {
            proof {
                assert(models_of(out@) =~= m0 + entries_token_seq(entries_models(*e)));
            }
        },
        Entries::Link(a, b) => {
            emit_entries_tokens(a, out);
            emit_entries_tokens(b, out);
            proof {
                lemma_entries_token_seq_concat(entries_models(**a), entries_models(**b));
                assert(models_of(out@) =~= m0 + entries_token_seq(entries_models(*e)));
            }
        },
    }
}

impl Node {
    /// The token stream of this node: a single linear depth-first walk,
    /// every leaf written once, in declaration order.
    pub fn emit(&self) -> (r: Vec<Token>)
        requires
            node_sizes_ok(*self),
        ensures
            models_of(r@) == token_seq(node_model(*self)),
    {
        let mut out: Vec<Token> = Vec::new();
        proof {
            assert(models_of(Seq::<Token>::empty()) =~= Seq::<TokenModel>::empty());
        }
        emit_node_tokens(self, &mut out);
        proof {
            assert(Seq::<TokenModel>::empty() + token_seq(node_model(*self)) =~= token_seq(
                node_model(*self),
            ));
        }
        out
    }
}

impl Array {
    /// The structural size: how many elements remain, computed with no
    /// dynamic length field and no extra pass at emission time.
    pub fn len(&self) -> (r: usize)
        requires
            items_models(self.0).len() <= usize::MAX,
        ensures
            r == items_models(self.0).len(),
    {
        items_len(&self.0)
    }

    /// The token stream of this array: a begin token carrying the exact
    /// element count, the remaining elements' streams in declaration order,
    /// and the end token.
    pub fn emit(&self) -> (r: Vec<Token>)
        requires
            items_models(self.0).len() <= usize::MAX,
            items_sizes_ok(self.0),
        ensures
            models_of(r@) == token_seq(JsonModel::Arr(items_models(self.0))),
    {
        let mut out: Vec<Token> = Vec::new();
        let len = items_len(&self.0);
        out.push(Token::SeqBegin(len));
        proof {
            assert(models_of(out@) =~= seq![TokenModel::SeqBegin(items_models(self.0).len())]);
        }
        emit_items_tokens(&self.0, &mut out);
        let ghost m2 = models_of(out@);
        out.push(Token::SeqEnd);
        proof {
            assert(models_of(out@) =~= m2 + seq![TokenModel::SeqEnd]);
            assert(models_of(out@) =~= token_seq(JsonModel::Arr(items_models(self.0))));
        }
        out
    }
}

impl MapContainer {
    /// The structural size: how many unconsumed entries remain.
    pub fn len(&self) -> (r: usize)
        requires
            entries_models(self.0).len() <= usize::MAX,
        ensures
            r == entries_models(self.0).len(),
    {
        entries_len(&self.0)
    }

    /// The token stream of this object: a begin token carrying the exact
    /// entry count, then key and value strictly alternating in declaration
    /// order, and the end token.
    pub fn emit(&self) -> (r: Vec<Token>)
        requires
            entries_models(self.0).len() <= usize::MAX,
            entries_sizes_ok(self.0),
        ensures
            models_of(r@) == token_seq(JsonModel::Obj(entries_models(self.0))),
    {
        let mut out: Vec<Token> = Vec::new();
        let len = entries_len(&self.0);
        out.push(Token::MapBegin(len));
        proof {
            assert(models_of(out@) =~= seq![TokenModel::MapBegin(entries_models(self.0).len())]);
        }
        emit_entries_tokens(&self.0, &mut out);
        let ghost m2 = models_of(out@);
        out.push(Token::MapEnd);
        proof {
            assert(models_of(out@) =~= m2 + seq![TokenModel::MapEnd]);
            assert(models_of(out@) =~= token_seq(JsonModel::Obj(entries_models(self.0))));
        }
        out
    }
}

impl Expr {
    /// The token stream of a standalone scalar leaf: its one token.
    pub fn emit(&self) -> (r: Vec<Token>)
        ensures
            models_of(r@) == token_seq(scalar_model(self.0@)),
    {
        let mut out: Vec<Token> = Vec::new();
        match &self.0 {
            Value::Int(i) => out.push(Token::Int(*i)),
            Value::Bool(b) => out.push(Token::Bool(*b)),
            Value::Text(s) => out.push(Token::Text(s.clone())),
        }
        proof {
            assert(models_of(out@) =~= token_seq(scalar_model(self.0@)));
        }
        out
    }
}

impl Null {
    /// The token stream of a standalone null literal: the null primitive.
    pub fn emit(&self) -> (r: Vec<Token>)
        ensures
            models_of(r@) == token_seq(JsonModel::Null),
    {
        let mut out: Vec<Token> = Vec::new();
        out.push(Token::Null);
        proof {
            assert(models_of(out@) =~= token_seq(JsonModel::Null));
        }
        out
    }
}

/// Law: a literal array's structural size equals its element count, and its
/// token stream is the begin token carrying that count, the elements' token
/// streams in declaration order, and the end token — nothing reordered.
pub proof fn lemma_array_emission(c: Items)
    ensures
        items_models(c).len() == crate::tree::items_view(c).len(),
        token_seq(JsonModel::Arr(items_models(c))) == seq![TokenModel::SeqBegin(
            items_models(c).len(),
        )] + elems_token_seq(items_models(c)) + seq![TokenModel::SeqEnd],
{
    crate::tree::lemma_items_models_len(c);
}

/// Law: the null literal emits as the null primitive alone, standalone or
/// wherever it stands inside an array or object stream.
pub proof fn lemma_null_emission()
    ensures
        token_seq(JsonModel::Null) == seq![TokenModel::Null],
        forall|es: Seq<JsonModel>, i: int|
            0 <= i < es.len() && es[i] is Null ==> #[trigger] elems_token_seq(es.take(i + 1))
                == elems_token_seq(es.take(i)) + seq![TokenModel::Null],
{
    assert forall|es: Seq<JsonModel>, i: int|
        0 <= i < es.len() && es[i] is Null implies #[trigger] elems_token_seq(es.take(i + 1))
        == elems_token_seq(es.take(i)) + seq![TokenModel::Null] by {
        assert(es.take(i + 1) =~= es.take(i) + seq![es[i]]);
        lemma_elems_token_seq_concat(es.take(i), seq![es[i]]);
        assert(seq![es[i]].drop_first() =~= Seq::<JsonModel>::empty());
        assert(elems_token_seq(Seq::<JsonModel>::empty()) =~= Seq::<TokenModel>::empty());
        assert(token_seq(es[i]) == seq![TokenModel::Null]);
        assert(elems_token_seq(seq![es[i]]) =~= token_seq(seq![es[i]].first()) + elems_token_seq(
            seq![es[i]].drop_first(),
        ));
        assert(elems_token_seq(seq![es[i]]) =~= seq![TokenModel::Null]);
    }
}

} // verus!
