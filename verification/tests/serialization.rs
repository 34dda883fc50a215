use typed_json::emit::Token;
use typed_json::scalar::Value;
use typed_json::tree::{Array, Entries, Expr, HList, Items, KV, MapContainer, Node, Null, Option2};

fn leaf(v: Value) -> Box<Node> {
    Box::new(Node::Leaf(Expr(v)))
}

fn int_leaf(i: i64) -> Box<Node> {
    leaf(Value::Int(i))
}

fn text_leaf(s: &str) -> Box<Node> {
    leaf(Value::Text(s.to_string()))
}

fn bool_leaf(b: bool) -> Box<Node> {
    leaf(Value::Bool(b))
}

fn null_node() -> Box<Node> {
    Box::new(Node::Null(Null))
}

fn slot(n: Box<Node>) -> Items {
    Items::Slot(Option2::Filled(n))
}

fn pair(first: Items, second: Items) -> Items {
    Items::Link(HList {
        first: Box::new(first),
        second: Box::new(second),
    })
}

fn entry(key: &str, value: Box<Node>) -> Entries {
    Entries::Slot(Option2::Filled(KV::Pair(key.to_string(), value)))
}

fn entries(a: Entries, b: Entries) -> Entries {
    Entries::Link(Box::new(a), Box::new(b))
}

#[test]
fn object_ser() {
    // {"foo": 123} emits as: map of one entry, key, value, end of map.
    let m = MapContainer(entry("foo", int_leaf(123)));
    let tokens = m.emit();
    assert_eq!(
        tokens,
        vec![
            Token::MapBegin(1),
            Token::Text("foo".to_string()),
            Token::Int(123),
            Token::MapEnd,
        ]
    );
}

#[test]
fn array_ser() {
    // [123, 456] emits as: sequence of two, the elements in order, end.
    let a = Array(pair(slot(int_leaf(123)), slot(int_leaf(456))));
    let tokens = a.emit();
    assert_eq!(
        tokens,
        vec![
            Token::SeqBegin(2),
            Token::Int(123),
            Token::Int(456),
            Token::SeqEnd,
        ]
    );
}

#[test]
fn complex_ser() {
    let value1 = 123;
    let value2 = 456;
    let value3 = format!("hello {}", "world");

    // {"codes": [123, 456], "message": "hello world"}
    let codes = Node::List(Array(pair(slot(int_leaf(value1)), slot(int_leaf(value2)))));
    let message = leaf(Value::Text(value3));
    let data = MapContainer(entries(
        entry("codes", Box::new(codes)),
        entry("message", message),
    ));

    assert_eq!(
        data.emit(),
        vec![
            Token::MapBegin(2),
            Token::Text("codes".to_string()),
            Token::SeqBegin(2),
            Token::Int(123),
            Token::Int(456),
            Token::SeqEnd,
            Token::Text("message".to_string()),
            Token::Text("hello world".to_string()),
            Token::MapEnd,
        ]
    );
}

#[test]
fn nested_depth_first_walk() {
    // {"a": [1, null, true]} emits as one linear depth-first walk with no
    // reordering anywhere.
    let inner = Node::List(Array(pair(
        slot(int_leaf(1)),
        pair(slot(null_node()), slot(bool_leaf(true))),
    )));
    let m = MapContainer(entry("a", Box::new(inner)));
    assert_eq!(
        m.emit(),
        vec![
            Token::MapBegin(1),
            Token::Text("a".to_string()),
            Token::SeqBegin(3),
            Token::Int(1),
            Token::Null,
            Token::Bool(true),
            Token::SeqEnd,
            Token::MapEnd,
        ]
    );
}

#[test]
fn null_emits_as_null_primitive() {
    assert_eq!(Null.emit(), vec![Token::Null]);
    let a = Array(slot(null_node()));
    assert_eq!(a.emit(), vec![Token::SeqBegin(1), Token::Null, Token::SeqEnd]);
}

#[test]
fn len_counts_elements() {
    let a = Array(pair(slot(int_leaf(1)), pair(slot(int_leaf(2)), slot(int_leaf(3)))));
    assert_eq!(a.len(), 3);
    let empty = Array(Items::Empty);
    assert_eq!(empty.len(), 0);
    let m = MapContainer(entries(entry("a", int_leaf(1)), entry("b", int_leaf(2))));
    assert_eq!(m.len(), 2);
}

#[test]
fn emission_is_repeatable() {
    let a = Array(pair(slot(int_leaf(1)), slot(int_leaf(2))));
    let first = a.emit();
    let second = a.emit();
    assert_eq!(first, second);
}

fn example_tree(input: i64) -> MapContainer {
    let deep = Node::List(Array(pair(
        slot(text_leaf("object")),
        pair(
            pair(slot(int_leaf(input)), slot(null_node())),
            pair(slot(bool_leaf(true)), slot(bool_leaf(false))),
        ),
    )));
    let really = Node::Object(MapContainer(entry("really", Box::new(
        Node::Object(MapContainer(entry("deep", Box::new(deep)))),
    ))));
    let a = Node::List(Array(pair(slot(int_leaf(input)), slot(Box::new(really)))));
    let this = Node::Object(MapContainer(entry("is", Box::new(
        Node::Object(MapContainer(entry("a", Box::new(a)))),
    ))));
    let baz = Node::Object(MapContainer(entries(
        entry("code", int_leaf(input)),
        entries(entry("extra", null_node()), entry("this", Box::new(this))),
    )));
    let bar = Node::List(Array(slot(int_leaf(input))));
    MapContainer(entries(
        entry("foo", int_leaf(input)),
        entries(entry("bar", Box::new(bar)), entry("baz", Box::new(baz))),
    ))
}

#[test]
fn example() {
    let input = 1;
    let data = example_tree(input);
    assert_eq!(data.to_json_string(), "{\"foo\":1,\"bar\":[1],\"baz\":{\"code\":1,\"extra\":null,\"this\":{\"is\":{\"a\":[1,{\"really\":{\"deep\":[\"object\",1,null,true,false]}}]}}}}");
}

#[test]
fn serialize_string() {
    let input = 1;
    let str = example_tree(input).to_json_string();

    assert_eq!(str, "{\"foo\":1,\"bar\":[1],\"baz\":{\"code\":1,\"extra\":null,\"this\":{\"is\":{\"a\":[1,{\"really\":{\"deep\":[\"object\",1,null,true,false]}}]}}}}")
}

#[test]
fn strings_are_json_escaped() {
    let e = Expr(Value::Text("a\"b\\c".to_string()));
    assert_eq!(e.to_json_string(), "\"a\\\"b\\\\c\"");
    let m = MapContainer(entry("ke\"y", text_leaf("v")));
    assert_eq!(m.to_json_string(), "{\"ke\\\"y\":\"v\"}");
}

#[test]
fn integer_text() {
    assert_eq!(Expr(Value::Int(0)).to_json_string(), "0");
    assert_eq!(Expr(Value::Int(-1)).to_json_string(), "-1");
    assert_eq!(Expr(Value::Int(9007199254740993)).to_json_string(), "9007199254740993");
    assert_eq!(Expr(Value::Int(i64::MIN)).to_json_string(), "-9223372036854775808");
    assert_eq!(Expr(Value::Int(i64::MAX)).to_json_string(), "9223372036854775807");
}

#[test]
fn scalar_and_null_text() {
    assert_eq!(Null.to_json_string(), "null");
    assert_eq!(Expr(Value::Bool(true)).to_json_string(), "true");
    assert_eq!(Expr(Value::Bool(false)).to_json_string(), "false");
    assert_eq!(Node::Null(Null).to_json_string(), "null");
}

#[test]
fn consumed_entries_are_skipped_by_emission() {
    // After one entry is fully consumed, emission sees one entry less; a
    // pending entry (key taken, value not) is skipped as well.
    let mut m = MapContainer(entries(entry("a", int_leaf(1)), entry("b", int_leaf(2))));
    m.next_key().unwrap().unwrap();
    assert_eq!(m.len(), 1);
    assert_eq!(
        m.emit(),
        vec![
            Token::MapBegin(1),
            Token::Text("b".to_string()),
            Token::Int(2),
            Token::MapEnd,
        ]
    );
    m.next_value().unwrap();
    m.next_key().unwrap().unwrap();
    m.next_value().unwrap();
    assert_eq!(m.len(), 0);
    assert_eq!(m.emit(), vec![Token::MapBegin(0), Token::MapEnd]);
}
