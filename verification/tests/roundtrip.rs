use typed_json::decode::decode_tokens;
use typed_json::dynamic::pull_node;
use typed_json::emit::Token;
use typed_json::errors::Error;
use typed_json::scalar::Value;
use typed_json::tree::{Array, Entries, Expr, HList, Items, KV, MapContainer, Node, Null, Option2};

fn leaf(v: Value) -> Box<Node> {
    Box::new(Node::Leaf(Expr(v)))
}

fn slot(n: Box<Node>) -> Items {
    Items::Slot(Option2::Filled(n))
}

fn pair(first: Items, second: Items) -> Items {
    Items::Link(HList {
        first: Box::new(first),
        second: Box::new(second),
    })
}

fn entry(key: &str, value: Box<Node>) -> Entries {
    Entries::Slot(Option2::Filled(KV::Pair(key.to_string(), value)))
}

fn sample_tree() -> Node {
    // {"a": [1, null, true], "b": {"c": "x\"y"}, "d": -7}
    let arr = Node::List(Array(pair(
        slot(leaf(Value::Int(1))),
        pair(slot(Box::new(Node::Null(Null))), slot(leaf(Value::Bool(true)))),
    )));
    let inner = Node::Object(MapContainer(entry(
        "c",
        leaf(Value::Text("x\"y".to_string())),
    )));
    Node::Object(MapContainer(Entries::Link(
        Box::new(entry("a", Box::new(arr))),
        Box::new(Entries::Link(
            Box::new(entry("b", Box::new(inner))),
            Box::new(entry("d", leaf(Value::Int(-7)))),
        )),
    )))
}

#[test]
fn round_trip_through_independent_decoder() {
    // Emitting a tree and decoding the emitted tokens through the
    // independent dynamic-tree decoder yields a value structurally equal to
    // pull-consuming the same tree directly.
    let emitted = sample_tree().emit();
    let decoded = decode_tokens(&emitted).unwrap();
    let pulled = pull_node(sample_tree()).unwrap();
    assert!(decoded.deep_eq(&pulled));
    assert!(pulled.deep_eq(&decoded));
}

#[test]
fn round_trip_of_scalars() {
    for tree in [
        Node::Null(Null),
        Node::Leaf(Expr(Value::Int(0))),
        Node::Leaf(Expr(Value::Bool(false))),
        Node::Leaf(Expr(Value::Text(String::new()))),
        Node::List(Array(Items::Empty)),
        Node::Object(MapContainer(Entries::Empty)),
    ] {
        let emitted = tree.emit();
        let decoded = decode_tokens(&emitted).unwrap();
        let pulled = pull_node(tree).unwrap();
        assert!(decoded.deep_eq(&pulled));
    }
}

#[test]
fn decoder_rejects_malformed_streams() {
    assert!(matches!(
        decode_tokens(&vec![Token::SeqEnd]),
        Err(Error::DecodeMismatch)
    ));
    assert!(matches!(
        decode_tokens(&vec![Token::SeqBegin(1), Token::SeqEnd]),
        Err(Error::DecodeMismatch)
    ));
    assert!(matches!(
        decode_tokens(&vec![Token::MapBegin(1), Token::Int(3), Token::Int(4), Token::MapEnd]),
        Err(Error::DecodeMismatch)
    ));
    assert!(matches!(
        decode_tokens(&vec![Token::Int(3), Token::Int(4)]),
        Err(Error::DecodeMismatch)
    ));
    assert!(matches!(decode_tokens(&vec![]), Err(Error::DecodeMismatch)));
}

#[test]
fn decoder_accepts_exact_streams() {
    let toks = vec![
        Token::MapBegin(1),
        Token::Text("foo".to_string()),
        Token::Int(123),
        Token::MapEnd,
    ];
    let v = decode_tokens(&toks).unwrap();
    let direct = pull_node(Node::Object(MapContainer(entry(
        "foo",
        leaf(Value::Int(123)),
    ))))
    .unwrap();
    assert!(v.deep_eq(&direct));
}

#[test]
fn pull_after_partial_consumption_is_protocol_violation() {
    // A tree whose key was handed out but whose value was not cannot be
    // pull-consumed as a whole any more.
    let mut m = MapContainer(entry("foo", leaf(Value::Int(1))));
    m.next_key().unwrap().unwrap();
    assert!(matches!(
        pull_node(Node::Object(m)),
        Err(Error::ProtocolViolation)
    ));
}

#[test]
fn deep_eq_distinguishes_values() {
    let a = pull_node(sample_tree()).unwrap();
    let b = pull_node(Node::Leaf(Expr(Value::Int(1)))).unwrap();
    assert!(!a.deep_eq(&b));
    let c = pull_node(Node::Leaf(Expr(Value::Int(2)))).unwrap();
    assert!(!b.deep_eq(&c));
}

#[test]
fn scalars_compare_by_value() {
    assert!(Value::Int(3).same(&Value::Int(3)));
    assert!(!Value::Int(3).same(&Value::Int(4)));
    assert!(Value::Text("a".to_string()).same(&Value::Text("a".to_string())));
    assert!(!Value::Text("a".to_string()).same(&Value::Bool(true)));
}
