//! Decoding an emitted token stream back into a dynamic tree, independently
//! of pull-consumption, and the round-trip law connecting the two.

use vstd::prelude::*;

use crate::dynamic::JsonValue;
use crate::dynamic::jv_entry_models;
use crate::dynamic::jv_model;
use crate::dynamic::jv_models;
use crate::dynamic::lemma_jv_entry_models_concat;
use crate::dynamic::lemma_jv_models_concat;
use crate::emit::Token;
use crate::emit::models_of;
use crate::errors::Error;
use crate::model::JsonModel;
use crate::model::TokenModel;
use crate::model::elems_token_seq;
use crate::model::entries_token_seq;
use crate::model::token_seq;

verus! {

/// Parses one document starting at position `i` of a token stream: the
/// specification the decoder is held to. Yields the document and the
/// position just past it, or nothing where the stream is not a document.
pub open spec fn parse_value_at(t: Seq<TokenModel>, i: nat) -> Option<(JsonModel, nat)>
    decreases t.len() - i, 0nat,
{
    if i >= t.len() {
        None
    } else {
        match t[i as int] {
            TokenModel::Null => Some((JsonModel::Null, (i + 1) as nat)),
            TokenModel::Bool(b) => Some((JsonModel::Bool(b), (i + 1) as nat)),
            TokenModel::Int(x) => Some((JsonModel::Int(x), (i + 1) as nat)),
            TokenModel::Text(s) => Some((JsonModel::Text(s), (i + 1) as nat)),
            TokenModel::SeqBegin(n) => match parse_elems_at(t, (i + 1) as nat, n) {
                Some((es, j)) => Some((JsonModel::Arr(es), j)),
                None => None,
            },
            TokenModel::MapBegin(n) => match parse_entries_at(t, (i + 1) as nat, n) {
                Some((ps, j)) => Some((JsonModel::Obj(ps), j)),
                None => None,
            },
            TokenModel::SeqEnd => None,
            TokenModel::MapEnd => None,
        }
    }
}

/// Parses exactly `n` array elements starting at `i`, then the closing
/// sequence token.
pub open spec fn parse_elems_at(t: Seq<TokenModel>, i: nat, n: nat) -> Option<
    (Seq<JsonModel>, nat),
>
    decreases t.len() - i, 1nat,
{
    if i >= t.len() {
        None
    } else if n == 0 {
        if t[i as int] is SeqEnd {
            Some((Seq::empty(), (i + 1) as nat))
        } else {
            None
        }
    } else {
        match parse_value_at(t, i) {
            Some((m, j)) => if i < j && j <= t.len() {
                match parse_elems_at(t, j, (n - 1) as nat) {
                    Some((es, k)) => Some((seq![m] + es, k)),
                    None => None,
                }
            } else {
                None
            },
            None => None,
        }
    }
}

/// Parses exactly `n` map entries — key token then value, strictly
/// alternating — starting at `i`, then the closing map token.
pub open spec fn parse_entries_at(t: Seq<TokenModel>, i: nat, n: nat) -> Option<
    (Seq<(Seq<char>, JsonModel)>, nat),
>
    decreases t.len() - i, 1nat,
{
    if i >= t.len() {
        None
    } else if n == 0 {
        if t[i as int] is MapEnd {
            Some((Seq::empty(), (i + 1) as nat))
        } else {
            None
        }
    } else {
        match t[i as int] {
            TokenModel::Text(k) => match parse_value_at(t, (i + 1) as nat) {
                Some((m, j)) => if i < j && j <= t.len() {
                    match parse_entries_at(t, j, (n - 1) as nat) {
                        Some((ps, k2)) => Some((seq![(k, m)] + ps, k2)),
                        None => None,
                    }
                } else {
                    None
                },
                None => None,
            },
            _ => None,
        }
    }
}

/// Parses a whole token stream as one document with nothing left over.
pub open spec fn parse_tokens(t: Seq<TokenModel>) -> Option<JsonModel> {
    match parse_value_at(t, 0) {
        Some((m, j)) => if j == t.len() {
            Some(m)
        } else {
            None
        },
        None => None,
    }
}

/// Every document's token stream holds at least one token.
pub proof fn lemma_token_seq_len_pos(m: JsonModel)
    ensures
        token_seq(m).len() >= 1,
{
}

/// Parsing the token stream of a document embedded in a larger stream
/// recovers exactly that document and stops just past it.
pub proof fn lemma_parse_value_token_seq(t: Seq<TokenModel>, i: nat, m: JsonModel)
    requires
        i + token_seq(m).len() <= t.len(),
        t.subrange(i as int, i + token_seq(m).len() as int) == token_seq(m),
    ensures
        parse_value_at(t, i) == Some((m, (i + token_seq(m).len()) as nat)),
    decreases m,
{
    let ts = token_seq(m);
    assert(t[i as int] == ts[0]);
    match m {
        JsonModel::Null => {},
        JsonModel::Bool(_) => {},
        JsonModel::Int(_) => {},
        JsonModel::Text(_) => {},
        JsonModel::Arr(es) => {
            let body = elems_token_seq(es);
            assert(ts == seq![TokenModel::SeqBegin(es.len())] + body + seq![TokenModel::SeqEnd]);
            assert(t[i as int] == TokenModel::SeqBegin(es.len()));
            assert(t.subrange(i as int + 1, i as int + 1 + body.len() as int) =~= body) by {
                assert forall|k: int| 0 <= k < body.len() implies t.subrange(
                    i as int + 1,
                    i as int + 1 + body.len() as int,
                )[k] == body[k] by {
                    assert(t.subrange(i as int, i + ts.len() as int)[k + 1] == ts[k + 1]);
                    assert(ts[k + 1] == body[k]);
                }
            }
            assert(t[i as int + 1 + body.len() as int] == TokenModel::SeqEnd) by {
                assert(t.subrange(i as int, i + ts.len() as int)[ts.len() - 1] == ts[ts.len() - 1]);
                assert(ts[ts.len() - 1] == TokenModel::SeqEnd);
            }
            lemma_parse_elems_token_seq(t, (i + 1) as nat, es);
        },
        JsonModel::Obj(ps) => {
            let body = entries_token_seq(ps);
            assert(ts == seq![TokenModel::MapBegin(ps.len())] + body + seq![TokenModel::MapEnd]);
            assert(t[i as int] == TokenModel::MapBegin(ps.len()));
            assert(t.subrange(i as int + 1, i as int + 1 + body.len() as int) =~= body) by {
                assert forall|k: int| 0 <= k < body.len() implies t.subrange(
                    i as int + 1,
                    i as int + 1 + body.len() as int,
                )[k] == body[k] by {
                    assert(t.subrange(i as int, i + ts.len() as int)[k + 1] == ts[k + 1]);
                    assert(ts[k + 1] == body[k]);
                }
            }
            assert(t[i as int + 1 + body.len() as int] == TokenModel::MapEnd) by {
                assert(t.subrange(i as int, i + ts.len() as int)[ts.len() - 1] == ts[ts.len() - 1]);
                assert(ts[ts.len() - 1] == TokenModel::MapEnd);
            }
            lemma_parse_entries_token_seq(t, (i + 1) as nat, ps);
        },
    }
}

/// Parsing the token stream of an element run followed by the closing token
/// recovers exactly those elements, in order.
pub proof fn lemma_parse_elems_token_seq(t: Seq<TokenModel>, i: nat, es: Seq<JsonModel>)
    requires
        i + elems_token_seq(es).len() + 1 <= t.len(),
        t.subrange(i as int, i + elems_token_seq(es).len() as int) == elems_token_seq(es),
        t[i + elems_token_seq(es).len() as int] == TokenModel::SeqEnd,
    ensures
        parse_elems_at(t, i, es.len()) == Some((es, (i + elems_token_seq(es).len() + 1) as nat)),
    decreases es,
{
    let body = elems_token_seq(es);
    if es.len() == 0 {
        assert(body.len() == 0);
        assert(t[i as int] is SeqEnd);
        assert(parse_elems_at(t, i, 0) == Some((Seq::<JsonModel>::empty(), (i + 1) as nat)));
        assert(Seq::<JsonModel>::empty() =~= es);
    } else {
        let e0 = es.first();
        let rest = es.drop_first();
        let ts0 = token_seq(e0);
        assert(body == ts0 + elems_token_seq(rest));
        assert(t.subrange(i as int, i + ts0.len() as int) =~= ts0) by {
            assert forall|k: int| 0 <= k < ts0.len() implies t.subrange(i as int, i + ts0.len() as int)[k]
                == ts0[k] by {
                assert(t.subrange(i as int, i + body.len() as int)[k] == body[k]);
                assert(body[k] == ts0[k]);
            }
        }
        lemma_parse_value_token_seq(t, i, e0);
        lemma_token_seq_len_pos(e0);
        let j = (i + ts0.len()) as nat;
        let rbody = elems_token_seq(rest);
        assert(t.subrange(j as int, j as int + rbody.len() as int) =~= rbody) by {
            assert forall|k: int| 0 <= k < rbody.len() implies t.subrange(
                j as int,
                j as int + rbody.len() as int,
            )[k] == rbody[k] by {
                assert(t.subrange(i as int, i + body.len() as int)[k + ts0.len()] == body[k + ts0.len() as int]);
                assert(body[k + ts0.len()] == rbody[k]);
            }
        }
        assert(t[j as int + rbody.len() as int] == TokenModel::SeqEnd);
        lemma_parse_elems_token_seq(t, j, rest);
        assert(seq![e0] + rest =~= es);
        assert(parse_elems_at(t, i, es.len()) == Some((
            es,
            (i + body.len() + 1) as nat,
        )));
    }
}

/// Parsing the token stream of an entry run followed by the closing token
/// recovers exactly those (key, value) entries, in order.
pub proof fn lemma_parse_entries_token_seq(
    t: Seq<TokenModel>,
    i: nat,
    ps: Seq<(Seq<char>, JsonModel)>,
)
    requires
        i + entries_token_seq(ps).len() + 1 <= t.len(),
        t.subrange(i as int, i + entries_token_seq(ps).len() as int) == entries_token_seq(ps),
        t[i + entries_token_seq(ps).len() as int] == TokenModel::MapEnd,
    ensures
        parse_entries_at(t, i, ps.len()) == Some((
            ps,
            (i + entries_token_seq(ps).len() + 1) as nat,
        )),
    decreases ps,
{
    let body = entries_token_seq(ps);
    if ps.len() == 0 {
        assert(body.len() == 0);
        assert(t[i as int] is MapEnd);
        assert(Seq::<(Seq<char>, JsonModel)>::empty() =~= ps);
    } else {
        let p0 = ps.first();
        let rest = ps.drop_first();
        let ts0 = token_seq(p0.1);
        assert(body == seq![TokenModel::Text(p0.0)] + ts0 + entries_token_seq(rest));
        assert(t[i as int] == body[0]);
        assert(body[0] == TokenModel::Text(p0.0));
        assert(t.subrange(i as int + 1, i as int + 1 + ts0.len() as int) =~= ts0) by {
            assert forall|k: int| 0 <= k < ts0.len() implies t.subrange(
                i as int + 1,
                i as int + 1 + ts0.len() as int,
            )[k] == ts0[k] by {
                assert(t.subrange(i as int, i + body.len() as int)[k + 1] == body[k + 1]);
                assert(body[k + 1] == ts0[k]);
            }
        }
        lemma_parse_value_token_seq(t, (i + 1) as nat, p0.1);
        lemma_token_seq_len_pos(p0.1);
        let j = (i + 1 + ts0.len()) as nat;
        let rbody = entries_token_seq(rest);
        assert(t.subrange(j as int, j as int + rbody.len() as int) =~= rbody) by {
            assert forall|k: int| 0 <= k < rbody.len() implies t.subrange(
                j as int,
                j as int + rbody.len() as int,
            )[k] == rbody[k] by {
                assert(t.subrange(i as int, i + body.len() as int)[k + 1 + ts0.len()] == body[
                    k + 1 + ts0.len() as int
                ]);
                assert(body[k + 1 + ts0.len()] == rbody[k]);
            }
        }
        assert(t[j as int + rbody.len() as int] == TokenModel::MapEnd);
        lemma_parse_entries_token_seq(t, j, rest);
        assert(seq![p0] + rest =~= ps);
        assert(parse_entries_at(t, i, ps.len()) == Some((
            ps,
            (i + body.len() + 1) as nat,
        )));
    }
}

/// Decodes one document starting at position `i` of an emitted token
/// stream, exactly as [`parse_value_at`] specifies.
fn decode_value_at(toks: &Vec<Token>, i: usize) -> (r: Option<(JsonValue, usize)>)
    requires
        i <= toks@.len(),
    ensures
        r matches Some((v, j)) ==> i < j <= toks@.len() && parse_value_at(
            models_of(toks@),
            i as nat,
        ) == Some((jv_model(v), j as nat)),
        r is None ==> parse_value_at(models_of(toks@), i as nat) is None,
    decreases toks@.len() - i, 0nat,
{
    let ghost t = models_of(toks@);
    if i >= toks.len() {
        Option::None
    } else {
        proof {
            assert(t[i as int] == toks@[i as int]@);
        }
        match &toks[i] {
            Token::Null => Option::Some((JsonValue::Null, i + 1)),
            Token::Bool(b) => Option::Some((JsonValue::Bool(*b), i + 1)),
            Token::Int(x) => Option::Some((JsonValue::Int(*x), i + 1)),
            Token::Text(s) => Option::Some((JsonValue::Text(s.clone()), i + 1)),
            Token::SeqBegin(n) => {
                let n = *n;
                match decode_elems_at(toks, i + 1, n) {
                    Option::Some((es, j)) => Option::Some((JsonValue::Arr(es), j)),
                    Option::None => Option::None,
                }
            },
            Token::MapBegin(n) => {
                let n = *n;
                match decode_entries_at(toks, i + 1, n) {
                    Option::Some((ps, j)) => Option::Some((JsonValue::Obj(ps), j)),
                    Option::None => Option::None,
                }
            },
            Token::SeqEnd => Option::None,
            Token::MapEnd => Option::None,
        }
    }
}

/// Decodes exactly `n` array elements starting at `i`, then the closing
/// sequence token, exactly as [`parse_elems_at`] specifies.
fn decode_elems_at(toks: &Vec<Token>, i: usize, n: usize) -> (r: Option<(Vec<JsonValue>, usize)>)
    requires
        i <= toks@.len(),
    ensures
        r matches Some((vs, j)) ==> i < j <= toks@.len() && parse_elems_at(
            models_of(toks@),
            i as nat,
            n as nat,
        ) == Some((jv_models(vs@), j as nat)),
        r is None ==> parse_elems_at(models_of(toks@), i as nat, n as nat) is None,
    decreases toks@.len() - i, 1nat,
{
    let ghost t = models_of(toks@);
    if i >= toks.len() {
        Option::None
    } else if n == 0 {
        proof {
            assert(t[i as int] == toks@[i as int]@);
        }
        if let Token::SeqEnd = &toks[i] {
            proof {
                assert(jv_models(Seq::<JsonValue>::empty()) =~= Seq::<JsonModel>::empty());
            }
            Option::Some((Vec::new(), i + 1))
        } else {
            Option::None
        }
    } else {
        match decode_value_at(toks, i) {
            Option::Some((v, j)) => {
                match decode_elems_at(toks, j, n - 1) {
                    Option::Some((rest, k)) => {
                        let mut out: Vec<JsonValue> = Vec::new();
                        out.push(v);
                        let mut rest = rest;
                        let ghost restview = rest@;
                        out.append(&mut rest);
                        proof {
                            assert(out@ =~= seq![v] + restview);
                            lemma_jv_models_concat(seq![v], restview);
                            assert(seq![v].drop_first() =~= Seq::<JsonValue>::empty());
                            assert(jv_models(Seq::<JsonValue>::empty())
                                =~= Seq::<JsonModel>::empty());
                            assert(jv_models(seq![v]) =~= seq![jv_model(v)]);
                            assert(jv_models(out@) =~= seq![jv_model(v)] + jv_models(restview));
                        }
                        Option::Some((out, k))
                    },
                    Option::None => Option::None,
                }
            },
            Option::None => Option::None,
        }
    }
}

/// Decodes exactly `n` map entries starting at `i`, then the closing map
/// token, exactly as [`parse_entries_at`] specifies.
fn decode_entries_at(toks: &Vec<Token>, i: usize, n: usize) -> (r: Option<
    (Vec<(String, JsonValue)>, usize),
>)
    requires
        i <= toks@.len(),
    ensures
        r matches Some((ps, j)) ==> i < j <= toks@.len() && parse_entries_at(
            models_of(toks@),
            i as nat,
            n as nat,
        ) == Some((jv_entry_models(ps@), j as nat)),
        r is None ==> parse_entries_at(models_of(toks@), i as nat, n as nat) is None,
    decreases toks@.len() - i, 1nat,
{
    let ghost t = models_of(toks@);
    if i >= toks.len() {
        Option::None
    } else if n == 0 {
        proof {
            assert(t[i as int] == toks@[i as int]@);
        }
        if let Token::MapEnd = &toks[i] {
            proof {
                assert(jv_entry_models(Seq::<(String, JsonValue)>::empty())
                    =~= Seq::<(Seq<char>, JsonModel)>::empty());
            }
            Option::Some((Vec::new(), i + 1))
        } else {
            Option::None
        }
    } else {
        proof {
            assert(t[i as int] == toks@[i as int]@);
        }
        match &toks[i] {
            Token::Text(k) => {
                match decode_value_at(toks, i + 1) {
                    Option::Some((v, j)) => {
                        match decode_entries_at(toks, j, n - 1) {
                            Option::Some((rest, k2)) => {
                                let key = k.clone();
                                let mut out: Vec<(String, JsonValue)> = Vec::new();
                                out.push((key, v));
                                let mut rest = rest;
                                let ghost restview = rest@;
                                let ghost head = out@[0];
                                out.append(&mut rest);
                                proof {
                                    assert(out@ =~= seq![head] + restview);
                                    lemma_jv_entry_models_concat(seq![head], restview);
                                    assert(seq![head].drop_first()
                                        =~= Seq::<(String, JsonValue)>::empty());
                                    assert(jv_entry_models(Seq::<(String, JsonValue)>::empty())
                                        =~= Seq::<(Seq<char>, JsonModel)>::empty());
                                    assert(jv_entry_models(seq![head]) =~= seq![
                                        (head.0@, jv_model(head.1)),
                                    ]);
                                    assert(jv_entry_models(out@) =~= seq![
                                        (head.0@, jv_model(head.1)),
                                    ] + jv_entry_models(restview));
                                }
                                Option::Some((out, k2))
                            },
                            Option::None => Option::None,
                        }
                    },
                    Option::None => Option::None,
                }
            },
            _ => Option::None,
        }
    }
}

/// The independent dynamic-tree decoder: rebuilds the document an emitted
/// token stream describes, with nothing left over, or reports that the
/// stream is not one well-formed document.
pub fn decode_tokens(toks: &Vec<Token>) -> (r: Result<JsonValue, Error>)
    ensures
        parse_tokens(models_of(toks@)) matches Some(m) ==> (r matches Ok(v) && jv_model(v) == m),
        parse_tokens(models_of(toks@)) is None ==> r == Result::<JsonValue, Error>::Err(
            Error::DecodeMismatch,
        ),
{
    match decode_value_at(toks, 0) {
        Option::Some((v, j)) => {
            if j == toks.len() {
                Result::Ok(v)
            } else {
                Result::Err(Error::DecodeMismatch)
            }
        },
        Option::None => Result::Err(Error::DecodeMismatch),
    }
}

/// Law: decoding a document's emitted token stream recovers exactly the
/// document — the same value that pull-consuming the tree yields.
pub proof fn lemma_round_trip(m: JsonModel)
    ensures
        parse_tokens(token_seq(m)) == Some(m),
{
    let t = token_seq(m);
    lemma_token_seq_len_pos(m);
    assert(t.subrange(0, t.len() as int) =~= t);
    lemma_parse_value_token_seq(t, 0, m);
}

} // verus!
