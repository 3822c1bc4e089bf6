use vstd::prelude::*;

verus! {

/// A node of a scenario template, in the shapes a YAML document can take.
pub enum Node {
    Real(String),
    Integer(i64),
    Str(String),
    Boolean(bool),
    Array(Vec<Node>),
    Hash(Vec<(Node, Node)>),
    Alias(usize),
    Null,
    BadValue,
}

/// A canonical runtime value. `Parsed` carries a structured payload as
/// parsed from its serialized text.
pub enum Canonical {
    Null,
    Bool(bool),
    Int(i64),
    Str(String),
    Object(Vec<(String, Canonical)>),
    Array(Vec<Canonical>),
    Parsed(serde_json::Value),
}

/// Why a node has no canonical value: somewhere in it stands a node of a
/// shape other than the five canonical ones, or a mapping key that is not a
/// string.
#[derive(PartialEq, Eq, Structural, Clone, Copy, Debug)]
pub enum ConvertError {
    Unrepresentable,
}

/// The two texts are equal.
pub fn same_text(a: &String, b: &str) -> (r: bool)
    ensures
        r == (a@ == b@),
{
    let owned = b.to_owned();
    a.eq(&owned)
}

/// The node is the string `key`.
pub open spec fn key_is(n: Node, key: Seq<char>) -> bool {
    n is Str && n->Str_0@ == key
}

/// Index `i` holds the first entry whose key is the string `key`.
pub open spec fn first_key_at(es: Seq<(Node, Node)>, key: Seq<char>, i: int) -> bool {
    0 <= i < es.len() && key_is(es[i].0, key) && forall|j: int| 0 <= j < i ==> !key_is(#[trigger] es[j].0, key)
}

impl Node {
    /// The value under the string key `key` of a mapping node (its first
    /// such entry); nothing for other nodes.
    pub open spec fn spec_get(self, key: Seq<char>) -> Option<Node> {
        match self {
            Node::Hash(es) => if exists|i: int| first_key_at(es@, key, i) {
                Some(es@[choose|i: int| first_key_at(es@, key, i)].1)
            } else {
                None
            },
            _ => None,
        }
    }

    /// The value under the string key `key`, as `spec_get` gives it.
    pub fn get(&self, key: &str) -> (r: Option<&Node>)
        ensures
            match r {
                Some(v) => self.spec_get(key@) == Some(*v),
                None => self.spec_get(key@) is None,
            },
    {
        match self {
            Node::Hash(es) => {
                let mut i: usize = 0;
                while i < es.len()
                    invariant
                        0 <= i <= es@.len(),
                        *self == Node::Hash(*es),
                        forall|j: int| 0 <= j < i ==> !key_is(#[trigger] es@[j].0, key@),
                    decreases es.len() - i,
                {
                    let found = match &es[i].0 {
                        Node::Str(k) => same_text(k, key),
                        _ => false,
                    };
                    if found {
                        proof {
                            assert(*self == Node::Hash(*es));
                            assert(first_key_at(es@, key@, i as int));
                            assert forall|c: int| #[trigger] first_key_at(es@, key@, c) implies c == i by {
                                if c < i {
                                    assert(!key_is(es@[c].0, key@));
                                } else if c > i {
                                    assert(!key_is(es@[i as int].0, key@));
                                }
                            }
                        }
                        return Some(&es[i].1);
                    }
                    i = i + 1;
                }
                None
            },
            _ => None,
        }
    }

    /// The node is a mapping.
    pub fn is_hash(&self) -> (r: bool)
        ensures
            r == (*self is Hash),
    {
        match self {
            Node::Hash(_) => true,
            _ => false,
        }
    }

    /// The value of an integer node.
    pub fn as_i64(&self) -> (r: Option<i64>)
        ensures
            r == (if *self is Integer { Some(self->Integer_0) } else { None::<i64> }),
    {
        match self {
            Node::Integer(i) => Some(*i),
            _ => None,
        }
    }
}

/// The node has a canonical value: it is a boolean, an integer or a string,
/// or a sequence or a string-keyed mapping whose members have one.
pub open spec fn convertible(n: Node) -> bool
    decreases n,
{
    match n {
        Node::Boolean(_) => true,
        Node::Integer(_) => true,
        Node::Str(_) => true,
        Node::Array(items) => forall|i: int|
            0 <= i < items@.len() ==> convertible(#[trigger] items@[i]),
        Node::Hash(es) => forall|i: int|
            0 <= i < es@.len() ==> (#[trigger] es@[i]).0 is Str && convertible(es@[i].1),
        _ => false,
    }
}

/// Some entry before index `k` has the string key `key`.
pub open spec fn key_seen(es: Seq<(Node, Node)>, k: int, key: Seq<char>) -> bool {
    exists|i: int| 0 <= i < k && #[trigger] key_is(es[i].0, key)
}

/// `v` is the canonical value of `n`.
pub open spec fn converts(n: Node, v: Canonical) -> bool
    decreases n, 0int,
{
    match n {
        Node::Boolean(b) => v == Canonical::Bool(b),
        Node::Integer(i) => v == Canonical::Int(i),
        Node::Str(s) => v is Str && v->Str_0@ == s@,
        Node::Array(items) => v is Array && v->Array_0@.len() == items@.len() && forall|i: int|
            0 <= i < items@.len() ==> converts(#[trigger] items@[i], v->Array_0@[i]),
        Node::Hash(es) => v is Object && converts_entries(es, es@.len() as int, v->Object_0@),
        _ => false,
    }
}

/// `out` is the canonical mapping of the first `k` entries of `es`: one
/// entry per distinct key, in the order of first occurrence, holding the
/// value of that first occurrence.
pub open spec fn converts_entries(es: Vec<(Node, Node)>, k: int, out: Seq<(String, Canonical)>) -> bool
    decreases es, k,
{
    if k <= 0 || k > es@.len() {
        k == 0 && out.len() == 0
    } else {
        let e = es@[k - 1];
        let key = e.0->Str_0@;
        if key_seen(es@, k - 1, key) {
            converts_entries(es, k - 1, out)
        } else {
            out.len() > 0 && out.last().0@ == key && converts(e.1, out.last().1)
                && converts_entries(es, k - 1, out.drop_last())
        }
    }
}

/// The mapping `out` holds the key `key`.
pub open spec fn out_has_key(out: Seq<(String, Canonical)>, key: Seq<char>) -> bool {
    exists|j: int| 0 <= j < out.len() && #[trigger] out[j].0@ == key
}

fn has_key(out: &Vec<(String, Canonical)>, key: &String) -> (r: bool)
    ensures
        r == out_has_key(out@, key@),
{
    let mut j: usize = 0;
    while j < out.len()
        invariant
            0 <= j <= out@.len(),
            forall|m: int| 0 <= m < j ==> out@[m].0@ != key@,
        decreases out.len() - j,
    {
        if out[j].0.eq(key) {
            return true;
        }
        j = j + 1;
    }
    false
}

/// Converts a template node into its canonical value. Booleans, integers
/// and strings keep their value; sequences keep their order; a mapping keeps
/// one entry per key, in the order of first occurrence, with the value of
/// that first occurrence. Any other node, or a mapping key that is not a
/// string, has no canonical value.
pub fn yaml_to_json(data: &Node) -> (r: Result<Canonical, ConvertError>)
    ensures
        r is Ok <==> convertible(*data),
        r is Ok ==> converts(*data, r->Ok_0),
    decreases data,
{
    match data {
        Node::Boolean(b) => Ok(Canonical::Bool(*b)),
        Node::Integer(i) => Ok(Canonical::Int(*i)),
        Node::Str(s) => Ok(Canonical::Str(s.clone())),
        Node::Hash(es) => {
            let mut out: Vec<(String, Canonical)> = Vec::new();
            let mut i: usize = 0;
            while i < es.len()
                invariant
                    0 <= i <= es@.len(),
                    *data == Node::Hash(*es),
                    forall|j: int| 0 <= j < i ==> (#[trigger] es@[j]).0 is Str && convertible(es@[j].1),
                    converts_entries(*es, i as int, out@),
                    forall|key: Seq<char>| key_seen(es@, i as int, key) <==> #[trigger] out_has_key(out@, key),
                decreases es.len() - i,
            {
                let key = match &es[i].0 {
                    Node::Str(k) => k,
                    _ => {
                        proof {
                            assert(!((es@[i as int]).0 is Str));
                        }
                        return Err(ConvertError::Unrepresentable);
                    },
                };
                proof {
                    assert(decreases_to!(*data => (*data)->Hash_0));
                    assert(decreases_to!((*data)->Hash_0 => (*data)->Hash_0[i as int]));
                    assert(decreases_to!((*data)->Hash_0[i as int] => (*data)->Hash_0[i as int].1));
                }
                let value = match yaml_to_json(&es[i].1) {
                    Ok(v) => v,
                    Err(e) => {
                        proof {
                            assert(!convertible((es@[i as int]).1));
                        }
                        return Err(e);
                    },
                };
                let ghost old_out = out@;
                if !has_key(&out, key) {
                    out.push((key.clone(), value));
                    proof {
                        assert(out@.drop_last() == old_out);
                        assert forall|k2: Seq<char>| key_seen(es@, i + 1, k2) <==> #[trigger] out_has_key(out@, k2) by {
                            if key_seen(es@, i + 1, k2) {
                                let w = choose|w: int| 0 <= w < i + 1 && #[trigger] key_is(es@[w].0, k2);
                                if w < i {
                                    assert(key_seen(es@, i as int, k2));
                                    assert(out_has_key(old_out, k2));
                                    let m = choose|m: int| 0 <= m < old_out.len() && #[trigger] old_out[m].0@ == k2;
                                    assert(out@[m].0@ == k2);
                                } else {
                                    assert(out@[old_out.len() as int].0@ == k2);
                                }
                            }
                            if out_has_key(out@, k2) {
                                let m = choose|m: int| 0 <= m < out@.len() && #[trigger] out@[m].0@ == k2;
                                if m < old_out.len() {
                                    assert(old_out[m].0@ == k2);
                                    assert(out_has_key(old_out, k2));
                                    let w = choose|w: int| 0 <= w < i && #[trigger] key_is(es@[w].0, k2);
                                    assert(key_is(es@[w].0, k2));
                                } else {
                                    assert(key_is(es@[i as int].0, k2));
                                }
                            }
                        }
                    }
                } else {
                    proof {
                        assert forall|k2: Seq<char>| key_seen(es@, i + 1, k2) <==> #[trigger] out_has_key(out@, k2) by {
                            if key_seen(es@, i + 1, k2) {
                                let w = choose|w: int| 0 <= w < i + 1 && #[trigger] key_is(es@[w].0, k2);
                                if w == i {
                                    assert(out_has_key(out@, key@));
                                } else {
                                    assert(key_seen(es@, i as int, k2));
                                }
                            }
                            if out_has_key(out@, k2) {
                                assert(key_seen(es@, i as int, k2));
                                let w = choose|w: int| 0 <= w < i && #[trigger] key_is(es@[w].0, k2);
                                assert(key_is(es@[w].0, k2));
                            }
                        }
                    }
                }
                i = i + 1;
            }
            Ok(Canonical::Object(out))
        },
        Node::Array(items) => {
            let mut out: Vec<Canonical> = Vec::new();
            let mut i: usize = 0;
            while i < items.len()
                invariant
                    0 <= i <= items@.len(),
                    *data == Node::Array(*items),
                    out@.len() == i,
                    forall|j: int| 0 <= j < i ==> convertible(#[trigger] items@[j]),
                    forall|j: int| 0 <= j < i ==> converts(#[trigger] items@[j], out@[j]),
                decreases items.len() - i,
            {
                proof {
                    assert(decreases_to!(*data => (*data)->Array_0));
                    assert(decreases_to!((*data)->Array_0 => (*data)->Array_0[i as int]));
                }
                let value = match yaml_to_json(&items[i]) {
                    Ok(v) => v,
                    Err(e) => {
                        proof {
                            assert(!convertible(items@[i as int]));
                        }
                        return Err(e);
                    },
                };
                out.push(value);
                i = i + 1;
            }
            Ok(Canonical::Array(out))
        },
        _ => Err(ConvertError::Unrepresentable),
    }
}

} // verus!
