//! The mathematical model of a JSON document and of the token stream that
//! emission produces for it.

use vstd::prelude::*;

verus! {

/// A JSON document as a mathematical value: what a literal tree denotes.
pub ghost enum JsonModel {
    Null,
    Bool(bool),
    Int(int),
    Text(Seq<char>),
    Arr(Seq<JsonModel>),
    Obj(Seq<(Seq<char>, JsonModel)>),
}

/// One token of the linear stream that emission produces.
///
/// A sequence region is opened with its exact element count and closed
/// explicitly; a map region alternates key and value tokens.
pub ghost enum TokenModel {
    SeqBegin(nat),
    SeqEnd,
    MapBegin(nat),
    MapEnd,
    Int(int),
    Bool(bool),
    Text(Seq<char>),
    Null,
}

/// The token stream of one document: a single depth-first, left-to-right
/// walk, each leaf written once.
pub open spec fn token_seq(m: JsonModel) -> Seq<TokenModel>
    decreases m,
{
    match m {
        JsonModel::Null => seq![TokenModel::Null],
        JsonModel::Bool(b) => seq![TokenModel::Bool(b)],
        JsonModel::Int(i) => seq![TokenModel::Int(i)],
        JsonModel::Text(s) => seq![TokenModel::Text(s)],
        JsonModel::Arr(es) => seq![TokenModel::SeqBegin(es.len())] + elems_token_seq(es)
            + seq![TokenModel::SeqEnd],
        JsonModel::Obj(ps) => seq![TokenModel::MapBegin(ps.len())] + entries_token_seq(ps)
            + seq![TokenModel::MapEnd],
    }
}

/// The tokens of a run of array elements, in declaration order.
pub open spec fn elems_token_seq(es: Seq<JsonModel>) -> Seq<TokenModel>
    decreases es,
{
    if es.len() == 0 {
        Seq::empty()
    } else {
        token_seq(es.first()) + elems_token_seq(es.drop_first())
    }
}

/// The tokens of a run of map entries: key then value, strictly alternating.
pub open spec fn entries_token_seq(ps: Seq<(Seq<char>, JsonModel)>) -> Seq<TokenModel>
    decreases ps,
{
    if ps.len() == 0 {
        Seq::empty()
    } else {
        seq![TokenModel::Text(ps.first().0)] + token_seq(ps.first().1) + entries_token_seq(
            ps.drop_first(),
        )
    }
}

/// Element token streams concatenate as the element runs do.
pub proof fn lemma_elems_token_seq_concat(a: Seq<JsonModel>, b: Seq<JsonModel>)
    ensures
        elems_token_seq(a + b) == elems_token_seq(a) + elems_token_seq(b),
    decreases a.len(),
{
    if a.len() == 0 {
        assert(a + b =~= b);
        assert(elems_token_seq(a) + elems_token_seq(b) =~= elems_token_seq(b));
    } else {
        assert((a + b).first() == a.first());
        assert((a + b).drop_first() =~= a.drop_first() + b);
        lemma_elems_token_seq_concat(a.drop_first(), b);
        assert(elems_token_seq(a + b) =~= elems_token_seq(a) + elems_token_seq(b));
    }
}

/// Entry token streams concatenate as the entry runs do.
pub proof fn lemma_entries_token_seq_concat(a: Seq<(Seq<char>, JsonModel)>, b: Seq<(Seq<char>, JsonModel)>)
    ensures
        entries_token_seq(a + b) == entries_token_seq(a) + entries_token_seq(b),
    decreases a.len(),
{
    if a.len() == 0 {
        assert(a + b =~= b);
        assert(entries_token_seq(a) + entries_token_seq(b) =~= entries_token_seq(b));
    } else {
        assert((a + b).first() == a.first());
        assert((a + b).drop_first() =~= a.drop_first() + b);
        lemma_entries_token_seq_concat(a.drop_first(), b);
        assert(entries_token_seq(a + b) =~= entries_token_seq(a) + entries_token_seq(b));
    }
}

} // verus!
