use typed_json::dynamic::{pull_node, JsonValue};
use typed_json::errors::Error;
use typed_json::scalar::Value;
use typed_json::tree::{Array, Entries, Expr, HList, Items, KV, MapContainer, Node, Null, Option2};

fn int_leaf(i: i64) -> Box<Node> {
    Box::new(Node::Leaf(Expr(Value::Int(i))))
}

fn entry(key: &str, value: Box<Node>) -> Entries {
    Entries::Slot(Option2::Filled(KV::Pair(key.to_string(), value)))
}

#[test]
fn object() {
    // {"foo": 123}, consumed once entry by entry and once as a whole map.
    let mut m = MapContainer(entry("foo", int_leaf(123)));
    let key = m.next_key().unwrap().unwrap();
    assert_eq!(key, "foo");
    let x = m.next_value().unwrap().decode_int().unwrap();
    assert_eq!(x, 123);
    assert!(matches!(m.next_key(), Ok(None)));

    let m2 = MapContainer(entry("foo", int_leaf(123)));
    let y = pull_node(Node::Object(m2)).unwrap();
    match y {
        JsonValue::Obj(entries) => {
            assert_eq!(entries.len(), 1);
            assert_eq!(entries[0].0, "foo");
            assert!(matches!(entries[0].1, JsonValue::Int(123)));
        }
        _ => panic!("expected an object"),
    }
}

#[test]
fn array() {
    // [123, 456], consumed once element by element and once as a whole.
    let chain = Items::Link(HList {
        first: Box::new(Items::Slot(Option2::Filled(int_leaf(123)))),
        second: Box::new(Items::Slot(Option2::Filled(int_leaf(456)))),
    });
    let mut a = Array(chain);
    let x0 = a.next_element().unwrap().decode_int().unwrap();
    let x1 = a.next_element().unwrap().decode_int().unwrap();
    assert_eq!(x0, 123);
    assert_eq!(x1, 456);
    assert!(a.next_element().is_none());

    let chain2 = Items::Link(HList {
        first: Box::new(Items::Slot(Option2::Filled(int_leaf(123)))),
        second: Box::new(Items::Slot(Option2::Filled(int_leaf(456)))),
    });
    let y = pull_node(Node::List(Array(chain2))).unwrap();
    match y {
        JsonValue::Arr(elems) => {
            assert_eq!(elems.len(), 2);
            assert!(matches!(elems[0], JsonValue::Int(123)));
            assert!(matches!(elems[1], JsonValue::Int(456)));
        }
        _ => panic!("expected an array"),
    }
}

#[test]
fn value_before_key_is_protocol_violation() {
    // A value request on a freshly built map is a protocol violation.
    let mut m = MapContainer(entry("foo", int_leaf(1)));
    assert!(matches!(m.next_value(), Err(Error::ProtocolViolation)));
}

#[test]
fn key_after_exhaustion_is_end_of_map() {
    // Once every entry is consumed, a key request answers "end of map".
    let mut m = MapContainer(entry("foo", int_leaf(1)));
    m.next_key().unwrap().unwrap();
    m.next_value().unwrap();
    assert!(matches!(m.next_key(), Ok(None)));
    // And again: exhaustion is stable, never an error.
    assert!(matches!(m.next_key(), Ok(None)));
}

#[test]
fn key_while_value_pending_is_protocol_violation() {
    let mut m = MapContainer(entry("foo", int_leaf(1)));
    m.next_key().unwrap().unwrap();
    assert!(matches!(m.next_key(), Err(Error::ProtocolViolation)));
}

#[test]
fn value_pairs_in_declaration_order() {
    // {"a": 1, "b": 2, "c": 3}: strictly alternating requests yield the
    // entries in declaration order, each value right after its key.
    let m = Entries::Link(
        Box::new(entry("a", int_leaf(1))),
        Box::new(Entries::Link(
            Box::new(entry("b", int_leaf(2))),
            Box::new(entry("c", int_leaf(3))),
        )),
    );
    let mut m = MapContainer(m);
    for (key, val) in [("a", 1i64), ("b", 2), ("c", 3)] {
        assert_eq!(m.next_key().unwrap().unwrap(), key);
        assert_eq!(m.next_value().unwrap().decode_int().unwrap(), val);
    }
    assert!(matches!(m.next_key(), Ok(None)));
}

#[test]
fn null_decodes_as_absent() {
    // Standalone null.
    assert!(Node::Null(Null).decode_option().is_none());
    // Null nested in an array.
    let chain = Items::Link(HList {
        first: Box::new(Items::Slot(Option2::Filled(int_leaf(1)))),
        second: Box::new(Items::Slot(Option2::Filled(Box::new(Node::Null(Null))))),
    });
    let mut a = Array(chain);
    assert!(a.next_element().unwrap().decode_option().is_some());
    assert!(a.next_element().unwrap().decode_option().is_none());
    // Null nested in an object.
    let mut m = MapContainer(entry("extra", Box::new(Node::Null(Null))));
    m.next_key().unwrap().unwrap();
    assert!(m.next_value().unwrap().decode_option().is_none());
}

#[test]
fn decode_mismatch_on_wrong_shape() {
    let t = Node::Leaf(Expr(Value::Bool(true)));
    assert!(matches!(t.decode_int(), Err(Error::DecodeMismatch)));
    let n = Node::Null(Null);
    assert!(matches!(n.decode_text(), Err(Error::DecodeMismatch)));
    let i = Node::Leaf(Expr(Value::Int(7)));
    assert!(matches!(i.decode_bool(), Err(Error::DecodeMismatch)));
}

#[test]
fn error_messages() {
    assert_eq!(Error::ProtocolViolation.message(), "protocol violation");
    assert_eq!(Error::DecodeMismatch.message(), "decode mismatch");
    assert_eq!(Error::BackendFailure.message(), "backend failure");
}

#[test]
fn io_error_stands_for_fmt_failure() {
    let e = typed_json::backend::io_error(std::fmt::Error);
    assert_eq!(e.kind(), std::io::ErrorKind::Other);
}

#[test]
fn slot_take_is_take_once() {
    let mut slot: Option2<i64> = Option2::Filled(5);
    assert!(!slot.is_done());
    assert_eq!(slot.take(), Some(5));
    assert!(slot.is_done());
    assert_eq!(slot.take(), None);
    assert!(slot.is_done());
}

#[test]
fn conrad_pls() {}

#[test]
fn conrad_pls_dont_do_it() {}
