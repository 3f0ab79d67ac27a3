//! YAML documents as plain values, and lookups in them.
use vstd::prelude::*;
use vstd::string::StringExecFns;
use saphyr::{LoadableYamlNode, Scalar, Yaml};

verus! {

/// A node of a YAML document.
pub enum YamlNode {
    /// `null` or `~`.
    Null,
    /// A boolean.
    Bool(bool),
    /// An integer.
    Integer(i64),
    /// A floating-point number, as its decimal text.
    Real(String),
    /// A string.
    Str(String),
    /// A sequence of nodes.
    Sequence(Vec<YamlNode>),
    /// A mapping, as its key-value pairs in document order.
    Mapping(Vec<(YamlNode, YamlNode)>),
    /// Anything else (tagged nodes, aliases, unreadable nodes).
    Other,
}

/// The documents that the YAML text `text` holds, or the loader's error text where it is
/// not valid YAML.
pub uninterp spec fn yaml_docs(text: Seq<char>) -> Result<Seq<YamlNode>, Seq<char>>;

#[verifier::external_type_specification]
#[verifier::external_body]
pub struct ExYaml<'a>(Yaml<'a>);

/// One node of `saphyr`'s document tree as a `YamlNode`, variant by variant, children
/// converted the same way (floats become their `Display` text). This is the conversion
/// inside `parse_yaml` and carries no contract of its own: what is claimed of the
/// converted documents is `parse_yaml`'s contract.
#[verifier::external_body]
fn yaml_node(y: &Yaml) -> YamlNode {
    match y {
        Yaml::Value(Scalar::Null) => YamlNode::Null,
        Yaml::Value(Scalar::Boolean(b)) => YamlNode::Bool(*b),
        Yaml::Value(Scalar::Integer(i)) => YamlNode::Integer(*i),
        Yaml::Value(Scalar::FloatingPoint(f)) => YamlNode::Real(f.to_string()),
        Yaml::Value(Scalar::String(s)) => YamlNode::Str(s.to_string()),
        Yaml::Sequence(v) => YamlNode::Sequence(v.iter().map(yaml_node).collect()),
        Yaml::Mapping(m) => YamlNode::Mapping(m.iter().map(|(k, v)| (yaml_node(k), yaml_node(v))).collect()),
        _ => YamlNode::Other,
    }
}

/// Parses YAML text with `saphyr::Yaml::load_from_str` and converts every document.
/// Claimed: the result is `yaml_docs(text@)`, a function of the text alone: the documents,
/// or the `Display` text of `saphyr`'s scan error (invalid syntax, a repeated mapping key).
#[verifier::external_body]
pub fn parse_yaml(text: &str) -> (r: Result<Vec<YamlNode>, String>)
    ensures
        match r {
            Ok(v) => yaml_docs(text@) == Ok::<Seq<YamlNode>, Seq<char>>(v@),
            Err(e) => yaml_docs(text@) == Err::<Seq<YamlNode>, Seq<char>>(e@),
        },
{
    match Yaml::load_from_str(text) {
        Ok(docs) => Ok(docs.iter().map(yaml_node).collect()),
        Err(e) => Err(e.to_string()),
    }
}

/// `k` is the string key `key`.
pub open spec fn is_key(k: YamlNode, key: Seq<char>) -> bool {
    match k {
        YamlNode::Str(s) => s@ == key,
        _ => false,
    }
}

/// `i` is the first entry of `entries` whose key is the string `key`.
pub open spec fn is_first_key(entries: Seq<(YamlNode, YamlNode)>, key: Seq<char>, i: int) -> bool {
    &&& 0 <= i < entries.len()
    &&& is_key(entries[i].0, key)
    &&& forall|j: int| 0 <= j < i ==> !is_key(#[trigger] entries[j].0, key)
}

/// The value under the string key `key` of a mapping node; `None` for another node or
/// a missing key.
pub open spec fn map_lookup(n: YamlNode, key: Seq<char>) -> Option<YamlNode> {
    match n {
        YamlNode::Mapping(m) => if exists|i: int| is_first_key(m@, key, i) {
            Some(m@[choose|i: int| is_first_key(m@, key, i)].1)
        } else {
            None
        },
        _ => None,
    }
}

/// The strings among `items`, in order; other nodes are skipped.
pub open spec fn strings_of(items: Seq<YamlNode>) -> Seq<Seq<char>>
    decreases items.len(),
{
    if items.len() == 0 {
        Seq::empty()
    } else {
        let rest = strings_of(items.drop_last());
        match items.last() {
            YamlNode::Str(s) => rest.push(s@),
            _ => rest,
        }
    }
}

/// The value under the string key `key` of the mapping node `n`.
pub fn lookup<'a>(n: &'a YamlNode, key: &str) -> (r: Option<&'a YamlNode>)
    ensures
        r matches Some(v) ==> map_lookup(*n, key@) == Some(*v),
        r is None ==> map_lookup(*n, key@) is None,
{
    match n {
        YamlNode::Mapping(m) => {
            let k: String = String::from_str(key);
            let mut i: usize = 0;
            while i < m.len()
                invariant
                    i <= m.len(),
                    *n == YamlNode::Mapping(*m),
                    k@ == key@,
                    forall|j: int| 0 <= j < i ==> !is_key(#[trigger] m@[j].0, key@),
                decreases m.len() - i,
            {
                let hit: bool = match &m[i].0 {
                    YamlNode::Str(s) => *s == k,
                    _ => false,
                };
                if hit {
                    proof {
                        assert(is_key(m@[i as int].0, key@));
                        assert(is_first_key(m@, key@, i as int));
                        let c = choose|c: int| is_first_key(m@, key@, c);
                        assert(is_first_key(m@, key@, c));
                        if c < i {
                            assert(!is_key(m@[c].0, key@));
                        } else if c > i {
                            assert(!is_key(m@[i as int].0, key@));
                        }
                        assert(c == i);
                    }
                    return Some(&m[i].1);
                }
                i = i + 1;
            }
            proof {
                if exists|c: int| is_first_key(m@, key@, c) {
                    let c = choose|c: int| is_first_key(m@, key@, c);
                    assert(is_key(m@[c].0, key@));
                }
            }
            None
        },
        _ => None,
    }
}

/// Copies of the strings among `items`, in order.
pub fn strings_in(items: &Vec<YamlNode>) -> (v: Vec<String>)
    ensures
        v@.map_values(|s: String| s@) == strings_of(items@),
{
    let mut v: Vec<String> = Vec::new();
    let mut i: usize = 0;
    while i < items.len()
        invariant
            i <= items.len(),
            v@.map_values(|s: String| s@) == strings_of(items@.take(i as int)),
        decreases items.len() - i,
    {
        proof {
            assert(items@.take(i + 1).drop_last() =~= items@.take(i as int));
            assert(items@.take(i + 1).last() == items@[i as int]);
        }
        match &items[i] {
            YamlNode::Str(s) => {
                v.push(s.clone());
                proof {
                    assert(v@.map_values(|s: String| s@) =~= strings_of(items@.take(i as int)).push(s@));
                }
            },
            _ => {},
        }
        i = i + 1;
    }
    proof {
        assert(items@.take(items.len() as int) =~= items@);
    }
    v
}

} // verus!
