use drill::context::Context;
use drill::node::{Canonical, Node};
use drill::one_csv_line::{csv_source, expand, is_that_you, payload_value, ExpandError, OneCsvLine, Outcome};
use yaml_rust::{Yaml, YamlLoader};

fn node_of(y: &Yaml) -> Node {
    match y {
        Yaml::Real(s) => Node::Real(s.clone()),
        Yaml::Integer(i) => Node::Integer(*i),
        Yaml::String(s) => Node::Str(s.clone()),
        Yaml::Boolean(b) => Node::Boolean(*b),
        Yaml::Array(a) => Node::Array(a.iter().map(node_of).collect()),
        Yaml::Hash(h) => Node::Hash(h.iter().map(|(k, v)| (node_of(k), node_of(v))).collect()),
        Yaml::Alias(a) => Node::Alias(*a),
        Yaml::Null => Node::Null,
        Yaml::BadValue => Node::BadValue,
    }
}

fn doc(text: &str) -> Node {
    let docs = YamlLoader::load_from_str(text).unwrap();
    node_of(&docs[0])
}

fn text(s: &str) -> Node {
    Node::Str(s.to_string())
}

fn row(id: &str, txn: &str) -> Node {
    Node::Hash(vec![(text("id"), text(id)), (text("txn"), text(txn))])
}

fn steps(template: &str, rows: Vec<Node>) -> Vec<OneCsvLine> {
    let mut list: Vec<OneCsvLine> = Vec::new();
    expand(&doc(template), &rows, &mut list).unwrap();
    list
}

fn worker(w: &str) -> Context {
    let mut c = Context::new();
    c.insert("concurrency".to_string(), Canonical::Str(w.to_string()));
    c
}

const ASSIGNED: &str = "name: foobar\nassign: user\nwith_one_item_from_csv: users.csv";

#[test]
fn expand_multi() {
    let text = "---\nname: foobar\nrequest:\n  url: /api/{{ item.id }}\nwith_one_item_from_csv: example/fixtures/users.csv";
    let doc = doc(text);
    let rows = vec![row("1", "{}"), row("2", "{}")];
    let mut list: Vec<OneCsvLine> = Vec::new();

    expand(&doc, &rows, &mut list).unwrap();

    assert_eq!(is_that_you(&doc), true);
    assert_eq!(list.len(), 2);
}

#[test]
fn expansion_numbers_rows() {
    let list = steps(ASSIGNED, vec![row("1", "{}"), row("2", "{}"), row("3", "{}")]);
    assert_eq!(list.len(), 3);
    for (i, step) in list.iter().enumerate() {
        assert_eq!(step.idx, i);
        assert_eq!(step.csv_rows_size, 3);
        assert_eq!(step.assigned_var_key.as_deref(), Some("user"));
        assert!(step.csv_line.is_some());
    }
}

#[test]
fn expansion_keeps_earlier_steps() {
    let mut list = steps(ASSIGNED, vec![row("1", "{}")]);
    expand(&doc(ASSIGNED), &vec![row("2", "{}"), row("3", "{}")], &mut list).unwrap();
    assert_eq!(list.len(), 3);
    assert_eq!(list[0].csv_rows_size, 1);
    assert_eq!(list[1].idx, 0);
    assert_eq!(list[2].idx, 1);
    assert_eq!(list[2].csv_rows_size, 2);
}

#[test]
fn expansion_of_no_rows() {
    assert_eq!(steps(ASSIGNED, vec![]).len(), 0);
}

#[test]
fn expansion_refuses_unrepresentable_row() {
    let mut list: Vec<OneCsvLine> = Vec::new();
    let r = expand(&doc(ASSIGNED), &vec![row("1", "{}"), Node::Null], &mut list);
    assert_eq!(r, Err(ExpandError::Unrepresentable));
    assert_eq!(list.len(), 0);
}

#[test]
fn expansion_without_assign_has_no_key() {
    let list = steps("name: foobar\nwith_one_item_from_csv: users.csv", vec![row("1", "{}")]);
    assert!(list[0].assigned_var_key.is_none());
    let mut c = worker("0");
    assert_eq!(list[0].execute(&mut c), Outcome::Skipped);
}

#[test]
fn directive_detection() {
    assert!(is_that_you(&doc("with_one_item_from_csv: users.csv")));
    assert!(is_that_you(&doc("with_one_item_from_csv:\n  file_name: users.csv")));
    assert!(!is_that_you(&doc("with_one_item_from_csv: 5")));
    assert!(!is_that_you(&doc("name: foobar")));
}

#[test]
fn source_of_bare_file_name() {
    let s = csv_source("benchmarks/bench.yml", &doc("with_one_item_from_csv: users.csv")).unwrap();
    assert_eq!(s.file_name, "benchmarks/users.csv");
    assert_eq!(s.quote_char, b'"');
    assert_eq!(s.csv_row, 0);
}

#[test]
fn source_relative_to_current_directory() {
    let s = csv_source("./", &doc("with_one_item_from_csv: example/fixtures/users.csv")).unwrap();
    assert_eq!(s.file_name, "./example/fixtures/users.csv");
}

#[test]
fn source_of_mapping() {
    let item = doc("with_one_item_from_csv:\n  file_name: data.csv\n  quote_char: \"'\"\n  csv-row-to-assign: 3");
    let s = csv_source("a/b.yml", &item).unwrap();
    assert_eq!(s.file_name, "a/data.csv");
    assert_eq!(s.quote_char, b'\'');
    assert_eq!(s.csv_row, 3);
}

#[test]
fn source_of_mapping_defaults() {
    let s = csv_source("b.yml", &doc("with_one_item_from_csv:\n  file_name: data.csv")).unwrap();
    assert_eq!(s.file_name, "data.csv");
    assert_eq!(s.quote_char, b'"');
    assert_eq!(s.csv_row, 0);
}

#[test]
fn source_errors() {
    assert_eq!(
        csv_source("b.yml", &doc("with_one_item_from_csv:\n  quote_char: x")).err(),
        Some(ExpandError::MissingFileName)
    );
    assert_eq!(
        csv_source("b.yml", &doc("with_one_item_from_csv:\n  file_name: d.csv\n  quote_char: ''")).err(),
        Some(ExpandError::InvalidQuoteChar)
    );
    assert_eq!(csv_source("b.yml", &doc("name: x")).err(), Some(ExpandError::MissingDirective));
    assert_eq!(csv_source("b.yml", &doc("with_one_item_from_csv: 4")).err(), Some(ExpandError::MissingDirective));
}

#[test]
fn quote_char_takes_first_byte() {
    let item = doc("with_one_item_from_csv:\n  file_name: d.csv\n  quote_char: \"\u{e9}\"");
    assert_eq!(csv_source("b.yml", &item).unwrap().quote_char, 0xC3);
    let item = doc("with_one_item_from_csv:\n  file_name: d.csv\n  quote_char: \"|x\"");
    assert_eq!(csv_source("b.yml", &item).unwrap().quote_char, b'|');
}

#[test]
fn each_worker_takes_its_own_row() {
    let list = steps(ASSIGNED, vec![row("1", "{\"a\": 1}"), row("2", "{\"a\": 2}")]);
    for w in 0..2usize {
        let mut c = worker(&w.to_string());
        let mut writers = Vec::new();
        for step in list.iter() {
            let out = step.execute(&mut c);
            if out == Outcome::Assigned {
                writers.push(step.idx);
            } else {
                assert_eq!(out, Outcome::NotMine);
            }
        }
        assert_eq!(writers, vec![w]);
        match c.get("user") {
            Some(Canonical::Parsed(v)) => assert_eq!(v["a"].as_i64(), Some(w as i64 + 1)),
            _ => panic!("no payload stored"),
        }
    }
}

#[test]
fn worker_equal_to_row_count_matches_nothing() {
    let list = steps(ASSIGNED, vec![row("1", "{}"), row("2", "{}")]);
    let mut c = worker("2");
    for step in list.iter() {
        assert_eq!(step.execute(&mut c), Outcome::NotMine);
    }
    assert!(c.get("user").is_none());
}

#[test]
fn worker_above_row_count_is_refused() {
    let list = steps(ASSIGNED, vec![row("1", "{}"), row("2", "{}")]);
    let mut c = worker("3");
    for step in list.iter() {
        assert_eq!(step.execute(&mut c), Outcome::TooManyUsers(3));
    }
}

#[test]
fn worker_with_plus_sign() {
    let list = steps(ASSIGNED, vec![row("1", "{}"), row("2", "{}")]);
    let mut c = worker("+1");
    assert_eq!(list[1].execute(&mut c), Outcome::Assigned);
}

#[test]
fn no_worker_identity_skips() {
    let list = steps(ASSIGNED, vec![row("1", "{}")]);
    let mut c = Context::new();
    assert_eq!(list[0].execute(&mut c), Outcome::Skipped);
}

#[test]
fn bad_worker_identity() {
    let list = steps(ASSIGNED, vec![row("1", "{}")]);
    let mut c = worker("one");
    assert_eq!(list[0].execute(&mut c), Outcome::BadConcurrency);
    let mut c = worker("-0");
    assert_eq!(list[0].execute(&mut c), Outcome::BadConcurrency);
    let mut c = Context::new();
    c.insert("concurrency".to_string(), Canonical::Int(0));
    assert_eq!(list[0].execute(&mut c), Outcome::BadConcurrency);
}

#[test]
fn row_without_payload() {
    let rows = vec![Node::Hash(vec![(text("id"), text("1"))])];
    let list = steps(ASSIGNED, rows);
    let mut c = worker("0");
    assert_eq!(list[0].execute(&mut c), Outcome::BadPayload);
    assert!(c.get("user").is_none());
}

#[test]
fn malformed_payload_stores_null() {
    let list = steps(ASSIGNED, vec![row("1", "{not json")]);
    let mut c = worker("0");
    assert_eq!(list[0].execute(&mut c), Outcome::Assigned);
    assert!(matches!(c.get("user"), Some(Canonical::Null)));
}

#[test]
fn payload_value_of_parse_result() {
    let ok = serde_json::from_str::<serde_json::Value>("[1, 2]");
    match payload_value(ok) {
        Canonical::Parsed(v) => assert_eq!(v.as_array().map(|a| a.len()), Some(2)),
        _ => panic!("expected a parsed payload"),
    }
    let err = serde_json::from_str::<serde_json::Value>("[1,");
    assert!(matches!(payload_value(err), Canonical::Null));
}

#[test]
fn step_without_row_skips() {
    let step = OneCsvLine::new(0, 1, &doc(ASSIGNED), None);
    let mut c = worker("0");
    assert_eq!(step.execute(&mut c), Outcome::Skipped);
    assert_eq!(step.assigned_var_key.as_deref(), Some("user"));
}

#[test]
fn users_csv_scenario() {
    let item = doc("name: foobar\nwith_one_item_from_csv: users.csv");
    assert!(is_that_you(&item));
    let rows = vec![row("1", "{}"), row("2", "{}")];
    let mut list: Vec<OneCsvLine> = Vec::new();
    expand(&item, &rows, &mut list).unwrap();
    assert_eq!(list.len(), 2);
}
