//! TOML documents as plain values.
use crate::text::str_eq;
use vstd::prelude::*;

verus! {

/// The content of a TOML value. The entries of a table stand in the order in
/// which the table hands them out. Numbers and dates carry nothing.
pub enum TomlTree {
    Str(Seq<char>),
    Bool(bool),
    Array(Seq<TomlTree>),
    Table(Seq<(Seq<char>, TomlTree)>),
    Other,
}

/// A TOML value as plain data.
pub enum TomlValue {
    Str(String),
    Bool(bool),
    Array(Vec<TomlValue>),
    Table(Vec<(String, TomlValue)>),
    Other,
}

impl TomlValue {
    /// The content of the value.
    pub open spec fn tree(self) -> TomlTree
        decreases self,
    {
        match self {
            TomlValue::Str(s) => TomlTree::Str(s@),
            TomlValue::Bool(b) => TomlTree::Bool(b),
            TomlValue::Array(a) => TomlTree::Array(
                Seq::new(
                    a@.len(),
                    |i: int|
                        if 0 <= i < a@.len() {
                            a@[i].tree()
                        } else {
                            TomlTree::Other
                        },
                ),
            ),
            TomlValue::Table(t) => TomlTree::Table(
                Seq::new(
                    t@.len(),
                    |i: int|
                        if 0 <= i < t@.len() {
                            (t@[i].0@, t@[i].1.tree())
                        } else {
                            (Seq::empty(), TomlTree::Other)
                        },
                ),
            ),
            TomlValue::Other => TomlTree::Other,
        }
    }
}

/// The first entry of a table under `key`.
pub open spec fn entry(entries: Seq<(Seq<char>, TomlTree)>, key: Seq<char>) -> Option<TomlTree>
    decreases entries.len(),
{
    if entries.len() == 0 {
        None
    } else if entries[0].0 == key {
        Some(entries[0].1)
    } else {
        entry(entries.drop_first(), key)
    }
}

/// What a table holds under `key`; nothing for a value that is no table.
pub open spec fn lookup(t: TomlTree, key: Seq<char>) -> Option<TomlTree> {
    match t {
        TomlTree::Table(entries) => entry(entries, key),
        _ => None,
    }
}

/// The entries of an optional value that is a table, and none otherwise.
pub open spec fn table_entries(t: Option<TomlTree>) -> Seq<(Seq<char>, TomlTree)> {
    match t {
        Some(TomlTree::Table(entries)) => entries,
        _ => Seq::empty(),
    }
}

/// The content of an optional value.
pub open spec fn opt_tree(v: Option<&TomlValue>) -> Option<TomlTree> {
    match v {
        Some(v) => Some(v.tree()),
        None => None,
    }
}

impl TomlValue {
    /// What the table holds under `key`; nothing where the value is no table.
    pub fn get(&self, key: &str) -> (r: Option<&TomlValue>)
        ensures
            opt_tree(r) == lookup(self.tree(), key@),
    {
        match self {
            TomlValue::Table(t) => {
                let ghost es = self.tree()->Table_0;
                let mut i: usize = 0;
                proof {
                    assert(es.skip(0) =~= es);
                }
                while i < t.len()
                    invariant
                        i <= t@.len(),
                        self == TomlValue::Table(*t),
                        self.tree() == TomlTree::Table(es),
                        es.len() == t@.len(),
                        lookup(self.tree(), key@) == entry(es.skip(i as int), key@),
                    decreases t@.len() - i,
                {
                    proof {
                        assert(es[i as int] == (t@[i as int].0@, t@[i as int].1.tree()));
                        assert(es.skip(i as int).drop_first() =~= es.skip(i + 1));
                    }
                    if str_eq(t[i].0.as_str(), key) {
                        return Some(&t[i].1);
                    }
                    i = i + 1;
                }
                None
            },
            _ => None,
        }
    }
}

/// Declares `toml::Value`.
#[verifier::external_type_specification]
#[verifier::external_body]
pub struct ExTomlValue(toml::Value);

/// The content of a `toml::Value`.
pub uninterp spec fn value_tree(v: toml::Value) -> TomlTree;

/// What `toml::from_str` makes of a text: the content of the document, or
/// nothing where the text is no TOML document.
pub uninterp spec fn toml_document(text: Seq<char>) -> Option<TomlTree>;

/// The outermost layer of a `toml::Value`.
pub enum TomlNode {
    Str(String),
    Bool(bool),
    Array(Vec<toml::Value>),
    Table(Vec<(String, toml::Value)>),
    Other,
}

/// The content of a value of which one layer is open.
pub open spec fn node_tree(n: TomlNode) -> TomlTree {
    match n {
        TomlNode::Str(s) => TomlTree::Str(s@),
        TomlNode::Bool(b) => TomlTree::Bool(b),
        TomlNode::Array(a) => TomlTree::Array(a@.map_values(|v: toml::Value| value_tree(v))),
        TomlNode::Table(t) => TomlTree::Table(
            t@.map_values(|e: (String, toml::Value)| (e.0@, value_tree(e.1))),
        ),
        TomlNode::Other => TomlTree::Other,
    }
}

/// Calls `toml::from_str` for a `toml::Value`. The contract claims that what
/// comes back depends on the text alone, and names it `toml_document`.
#[verifier::external_body]
fn parse_document(text: &str) -> (r: Option<toml::Value>)
    ensures
        r is Some <==> toml_document(text@) is Some,
        r is Some ==> toml_document(text@) == Some(value_tree(r->0)),
{
    toml::from_str::<toml::Value>(text).ok()
}

/// Takes one layer off a `toml::Value`: its variant, and for a table the
/// entries that its `into_iter` hands out.
#[verifier::external_body]
fn open_value(v: toml::Value) -> (r: TomlNode)
    ensures
        node_tree(r) == value_tree(v),
{
    match v {
        toml::Value::String(s) => TomlNode::Str(s),
        toml::Value::Boolean(b) => TomlNode::Bool(b),
        toml::Value::Array(a) => TomlNode::Array(a),
        toml::Value::Table(t) => TomlNode::Table(t.into_iter().collect()),
        toml::Value::Integer(_) => TomlNode::Other,
        toml::Value::Float(_) => TomlNode::Other,
        toml::Value::Datetime(_) => TomlNode::Other,
    }
}

/// The value as plain data.
fn to_plain(v: toml::Value) -> (r: TomlValue)
    ensures
        r.tree() == value_tree(v),
    decreases value_tree(v),
{
    let ghost tree = value_tree(v);
    match open_value(v) {
        TomlNode::Str(s) => TomlValue::Str(s),
        TomlNode::Bool(b) => TomlValue::Bool(b),
        TomlNode::Other => TomlValue::Other,
        TomlNode::Array(items) => {
            let mut out: Vec<TomlValue> = Vec::new();
            let ghost inner = tree->Array_0;
            for item in it: items
                invariant
                    tree == value_tree(v),
                    tree == TomlTree::Array(inner),
                    it.seq().len() == inner.len(),
                    forall|i: int|
                        0 <= i < inner.len() ==> value_tree(#[trigger] it.seq()[i]) == inner[i],
                    out@.len() == it.index(),
                    forall|i: int| 0 <= i < out@.len() ==> (#[trigger] out@[i]).tree() == inner[i],
            {
                proof {
                    assert(decreases_to!(tree => tree->Array_0));
                    assert(decreases_to!(inner => inner[it.index() as int]));
                }
                out.push(to_plain(item));
            }
            let r = TomlValue::Array(out);
            proof {
                assert(r.tree()->Array_0 =~= inner);
            }
            r
        },
        TomlNode::Table(entries) => {
            let mut out: Vec<(String, TomlValue)> = Vec::new();
            let ghost inner = tree->Table_0;
            for entry in it: entries
                invariant
                    tree == value_tree(v),
                    tree == TomlTree::Table(inner),
                    it.seq().len() == inner.len(),
                    forall|i: int|
                        0 <= i < inner.len() ==> (
                        (#[trigger] it.seq()[i]).0@,
                        value_tree(it.seq()[i].1),
                    ) == inner[i],
                    out@.len() == it.index(),
                    forall|i: int|
                        0 <= i < out@.len() ==> ((#[trigger] out@[i]).0@, out@[i].1.tree())
                            == inner[i],
            {
                proof {
                    assert(decreases_to!(tree => tree->Table_0));
                    assert(decreases_to!(inner => inner[it.index() as int]));
                    assert(decreases_to!(inner[it.index() as int] => inner[it.index() as int].1));
                }
                out.push((entry.0, to_plain(entry.1)));
            }
            let r = TomlValue::Table(out);
            proof {
                assert(r.tree()->Table_0 =~= inner);
            }
            r
        },
    }
}

/// Parses a TOML document.
pub fn parse_toml(text: &str) -> (r: Option<TomlValue>)
    ensures
        r is Some <==> toml_document(text@) is Some,
        r is Some ==> toml_document(text@) == Some(r->0.tree()),
{
    match parse_document(text) {
        Some(v) => Some(to_plain(v)),
        None => None,
    }
}

/// The content of a value shows all of it: every item of an array and every entry
/// of a table, in its place.
pub proof fn law_content_shows_every_item(v: TomlValue)
    ensures
        match v {
            TomlValue::Str(s) => v.tree() == TomlTree::Str(s@),
            TomlValue::Bool(b) => v.tree() == TomlTree::Bool(b),
            TomlValue::Array(a) => v.tree() is Array && v.tree()->Array_0.len() == a@.len()
                && forall|i: int|
                0 <= i < a@.len() ==> #[trigger] v.tree()->Array_0[i] == a@[i].tree(),
            TomlValue::Table(t) => v.tree() is Table && v.tree()->Table_0.len() == t@.len()
                && forall|i: int|
                0 <= i < t@.len() ==> #[trigger] v.tree()->Table_0[i] == (t@[i].0@, t@[i].1.tree()),
            TomlValue::Other => v.tree() is Other,
        },
{
}

/// The content of a value of which one layer is open shows every item of an array
/// and every entry of a table, in its place.
pub proof fn law_open_layer_shows_every_item(n: TomlNode)
    ensures
        match n {
            TomlNode::Str(s) => node_tree(n) == TomlTree::Str(s@),
            TomlNode::Bool(b) => node_tree(n) == TomlTree::Bool(b),
            TomlNode::Array(a) => node_tree(n) is Array && node_tree(n)->Array_0.len() == a@.len()
                && forall|i: int|
                0 <= i < a@.len() ==> #[trigger] node_tree(n)->Array_0[i] == value_tree(a@[i]),
            TomlNode::Table(t) => node_tree(n) is Table && node_tree(n)->Table_0.len() == t@.len()
                && forall|i: int|
                0 <= i < t@.len() ==> #[trigger] node_tree(n)->Table_0[i] == (
                    t@[i].0@,
                    value_tree(t@[i].1),
                ),
            TomlNode::Other => node_tree(n) is Other,
        },
{
}

/// What a table holds under a key is its first entry under it, and there is
/// nothing where no entry has the key, or the value is no table.
pub proof fn law_lookup_finds_the_first(t: TomlTree, key: Seq<char>, i: int)
    ensures
        t !is Table ==> lookup(t, key) is None,
        t is Table && (forall|j: int| 0 <= j < t->Table_0.len() ==> (#[trigger] t->Table_0[j]).0
            != key) ==> lookup(t, key) is None,
        t is Table && 0 <= i < t->Table_0.len() && t->Table_0[i].0 == key && (forall|j: int|
            0 <= j < i ==> (#[trigger] t->Table_0[j]).0 != key) ==> lookup(t, key) == Some(
            t->Table_0[i].1,
        ),
    decreases t->Table_0.len(),
{
    if t is Table && t->Table_0.len() > 0 && t->Table_0[0].0 != key {
        let rest = TomlTree::Table(t->Table_0.drop_first());
        assert forall|j: int| 0 <= j < rest->Table_0.len() implies #[trigger] rest->Table_0[j]
            == t->Table_0[j + 1] by {}
        law_lookup_finds_the_first(rest, key, i - 1);
    }
}

} // verus!
