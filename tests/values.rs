use drill::context::Context;
use drill::node::{yaml_to_json, Canonical, ConvertError, Node};

fn text(s: &str) -> Node {
    Node::Str(s.to_string())
}

#[test]
fn primitives_keep_their_value() {
    assert!(matches!(yaml_to_json(&Node::Boolean(true)), Ok(Canonical::Bool(true))));
    assert!(matches!(yaml_to_json(&Node::Integer(-42)), Ok(Canonical::Int(-42))));
    match yaml_to_json(&text("hello")) {
        Ok(Canonical::Str(s)) => assert_eq!(s, "hello"),
        _ => panic!("expected a string"),
    }
}

#[test]
fn sequences_keep_their_order() {
    let n = Node::Array(vec![Node::Integer(3), text("a"), Node::Array(vec![Node::Boolean(false)])]);
    match yaml_to_json(&n) {
        Ok(Canonical::Array(items)) => {
            assert_eq!(items.len(), 3);
            assert!(matches!(items[0], Canonical::Int(3)));
            assert!(matches!(&items[1], Canonical::Str(s) if s == "a"));
            assert!(matches!(&items[2], Canonical::Array(inner) if inner.len() == 1));
        },
        _ => panic!("expected a sequence"),
    }
}

#[test]
fn mappings_keep_first_occurrence() {
    let n = Node::Hash(vec![
        (text("b"), Node::Integer(1)),
        (text("a"), Node::Integer(2)),
        (text("b"), Node::Integer(3)),
    ]);
    match yaml_to_json(&n) {
        Ok(Canonical::Object(es)) => {
            assert_eq!(es.len(), 2);
            assert_eq!(es[0].0, "b");
            assert!(matches!(es[0].1, Canonical::Int(1)));
            assert_eq!(es[1].0, "a");
            assert!(matches!(es[1].1, Canonical::Int(2)));
        },
        _ => panic!("expected a mapping"),
    }
}

#[test]
fn unrepresentable_nodes() {
    assert_eq!(yaml_to_json(&Node::Null).err(), Some(ConvertError::Unrepresentable));
    assert_eq!(yaml_to_json(&Node::Real("1.5".to_string())).err(), Some(ConvertError::Unrepresentable));
    let n = Node::Hash(vec![(Node::Integer(1), text("x"))]);
    assert_eq!(yaml_to_json(&n).err(), Some(ConvertError::Unrepresentable));
    let n = Node::Array(vec![Node::Integer(1), Node::BadValue]);
    assert_eq!(yaml_to_json(&n).err(), Some(ConvertError::Unrepresentable));
}

#[test]
fn context_last_write_wins() {
    let mut c = Context::new();
    assert!(c.get("k").is_none());
    c.insert("k".to_string(), Canonical::Int(1));
    c.insert("j".to_string(), Canonical::Int(2));
    c.insert("k".to_string(), Canonical::Int(3));
    assert!(matches!(c.get("k"), Some(Canonical::Int(3))));
    assert!(matches!(c.get("j"), Some(Canonical::Int(2))));
}

#[test]
fn node_lookup_takes_first_key() {
    let n = Node::Hash(vec![(text("a"), Node::Integer(1)), (text("a"), Node::Integer(2))]);
    assert!(matches!(n.get("a"), Some(Node::Integer(1))));
    assert!(n.get("b").is_none());
    assert!(Node::Integer(1).get("a").is_none());
}
