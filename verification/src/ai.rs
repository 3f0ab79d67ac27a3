//! Plain descriptions shared by the AI model layer, and model manifests.
use vstd::prelude::*;
use vstd::string::StringExecFns;
use crate::errors::AiError;
use crate::yaml::{YamlNode, map_lookup, lookup, parse_yaml, yaml_docs};

verus! {

/// Description of one control parameter of a model.
#[derive(Clone, Debug)]
pub struct ControlParameter {
    /// Parameter name.
    pub name: String,
    /// Parameter description.
    pub description: String,
    /// Index of the parameter in the control vector.
    pub index: usize,
}

/// How a tool loads the model it runs.
pub trait AiModel: Sized {
    /// Loads the model named `p_name`.
    fn load(p_name: &str) -> Self;
}

/// The text of a string node, else `default`.
pub open spec fn str_or(n: Option<YamlNode>, default: Seq<char>) -> Seq<char> {
    match n {
        Some(YamlNode::Str(s)) => s@,
        _ => default,
    }
}

/// The value of an integer node.
pub open spec fn int_of(n: Option<YamlNode>) -> Option<i64> {
    match n {
        Some(YamlNode::Integer(i)) => Some(i),
        _ => None,
    }
}

/// The decimal text of a floating-point node.
pub open spec fn real_text(n: Option<YamlNode>) -> Option<Seq<char>> {
    match n {
        Some(YamlNode::Real(t)) => Some(t@),
        _ => None,
    }
}

/// A node that is present and not null.
pub open spec fn given(n: Option<YamlNode>) -> bool {
    n matches Some(v) && !(v is Null)
}

/// The node that holds a manifest's tiling and scale entries: its `params` entry where
/// given, else the document itself.
pub open spec fn params_node(doc: YamlNode) -> YamlNode {
    if given(map_lookup(doc, "params"@)) {
        map_lookup(doc, "params"@).unwrap()
    } else {
        doc
    }
}

/// The decimal texts of the floating-point nodes among `items`, in order.
pub open spec fn reals_of(items: Seq<YamlNode>) -> Seq<Seq<char>>
    decreases items.len(),
{
    if items.len() == 0 {
        Seq::empty()
    } else {
        let rest = reals_of(items.drop_last());
        match items.last() {
            YamlNode::Real(t) => rest.push(t@),
            _ => rest,
        }
    }
}

/// A control parameter as `(name, description, index)`.
pub open spec fn parameter_view(p: ControlParameter) -> (Seq<char>, Seq<char>, usize) {
    (p.name@, p.description@, p.index)
}

/// The control parameter that a node describes: it needs a string `name` and an integer
/// `index`; the `description` defaults to the empty text.
pub open spec fn parameter_of(n: YamlNode) -> Option<(Seq<char>, Seq<char>, usize)> {
    match (map_lookup(n, "name"@), int_of(map_lookup(n, "index"@))) {
        (Some(YamlNode::Str(name)), Some(i)) => Some((name@, str_or(map_lookup(n, "description"@), ""@), i as usize)),
        _ => None,
    }
}

/// The control parameters that `items` describe, in order; other items are skipped.
pub open spec fn parameters_of(items: Seq<YamlNode>) -> Seq<(Seq<char>, Seq<char>, usize)>
    decreases items.len(),
{
    if items.len() == 0 {
        Seq::empty()
    } else {
        let rest = parameters_of(items.drop_last());
        match parameter_of(items.last()) {
            Some(p) => rest.push(p),
            None => rest,
        }
    }
}

/// The texts of an optional list of strings.
pub open spec fn opt_texts(v: Option<Vec<String>>) -> Option<Seq<Seq<char>>> {
    match v {
        Some(v) => Some(v@.map_values(|s: String| s@)),
        None => None,
    }
}

/// The `size` entry of a control node as a count (0 where absent).
pub open spec fn control_size_of(ctrl: YamlNode) -> usize {
    match int_of(map_lookup(ctrl, "size"@)) {
        Some(i) => i as usize,
        None => 0,
    }
}

/// The control part of a manifest as read from its `control` node.
pub struct ControlManifest {
    /// Number of control parameters.
    pub size: usize,
    /// The decimal texts of the `defaults` entry, where it is a sequence.
    pub default_texts: Option<Vec<String>>,
    /// The parameter descriptions.
    pub parameters: Vec<ControlParameter>,
}

/// What a model manifest document says, with floating-point entries kept as their
/// decimal texts.
pub struct ModelManifest {
    /// Human-readable name.
    pub name: String,
    /// What the model does.
    pub description: String,
    /// The decimal text of the `scale_factor` entry, where it is a floating-point number.
    pub scale_factor_text: Option<String>,
    /// Tile size in pixels.
    pub tile_size: u32,
    /// Tile overlap in pixels.
    pub tile_overlap: u32,
    /// The control input, when the manifest describes one with a positive size.
    pub control: Option<ControlManifest>,
}

/// `m` holds what the manifest document `doc` says: name and description (with their
/// defaults), the tiling entries of `params_node(doc)` (256 and 32 by default, an integer
/// entry cut to 32 bits), and the control input where `control` is given with a positive size.
pub open spec fn manifest_matches(m: ModelManifest, doc: YamlNode) -> bool {
    let p = params_node(doc);
    let c = map_lookup(doc, "control"@);
    &&& m.name@ == str_or(map_lookup(doc, "name"@), "Unknown Model"@)
    &&& m.description@ == str_or(map_lookup(doc, "description"@), "No description"@)
    &&& (match m.scale_factor_text {
        Some(t) => Some(t@),
        None => None::<Seq<char>>,
    }) == real_text(map_lookup(p, "scale_factor"@))
    &&& m.tile_size == (match int_of(map_lookup(p, "tile_size"@)) {
        Some(i) => i as u32,
        None => 256u32,
    })
    &&& m.tile_overlap == (match int_of(map_lookup(p, "tile_overlap"@)) {
        Some(i) => i as u32,
        None => 32u32,
    })
    &&& m.control is Some <==> (given(c) && control_size_of(c.unwrap()) > 0)
    &&& m.control matches Some(cm) ==> {
        &&& cm.size == control_size_of(c.unwrap())
        &&& opt_texts(cm.default_texts) == (match map_lookup(c.unwrap(), "defaults"@) {
            Some(YamlNode::Sequence(v)) => Some(reals_of(v@)),
            _ => None,
        })
        &&& cm.parameters@.map_values(|q: ControlParameter| parameter_view(q)) == (match map_lookup(c.unwrap(), "parameters"@) {
            Some(YamlNode::Sequence(v)) => parameters_of(v@),
            _ => Seq::empty(),
        })
    }
}

/// A copy of the text of a string node, else of `default`.
fn text_or(n: Option<&YamlNode>, default: &str) -> (s: String)
    ensures
        s@ == str_or(match n { Some(v) => Some(*v), None => None }, default@),
{
    match n {
        Some(YamlNode::Str(s)) => s.clone(),
        _ => String::from_str(default),
    }
}

/// The value of an integer node.
fn int_in(n: Option<&YamlNode>) -> (r: Option<i64>)
    ensures
        r == int_of(match n { Some(v) => Some(*v), None => None }),
{
    match n {
        Some(YamlNode::Integer(i)) => Some(*i),
        _ => None,
    }
}

/// Copies of the decimal texts of the floating-point nodes among `items`.
fn reals_in(items: &Vec<YamlNode>) -> (v: Vec<String>)
    ensures
        v@.map_values(|s: String| s@) == reals_of(items@),
{
    let mut v: Vec<String> = Vec::new();
    let mut i: usize = 0;
    while i < items.len()
        invariant
            i <= items.len(),
            v@.map_values(|s: String| s@) == reals_of(items@.take(i as int)),
        decreases items.len() - i,
    {
        proof {
            assert(items@.take(i + 1).drop_last() =~= items@.take(i as int));
            assert(items@.take(i + 1).last() == items@[i as int]);
        }
        match &items[i] {
            YamlNode::Real(t) => {
                v.push(t.clone());
                proof {
                    assert(v@.map_values(|s: String| s@) =~= reals_of(items@.take(i as int)).push(t@));
                }
            },
            _ => {},
        }
        i = i + 1;
    }
    proof {
        assert(items@.take(items.len() as int) =~= items@);
    }
    v
}

/// The control parameter that a node describes.
fn parameter_in(n: &YamlNode) -> (r: Option<ControlParameter>)
    ensures
        match r {
            Some(p) => parameter_of(*n) == Some(parameter_view(p)),
            None => parameter_of(*n) is None,
        },
{
    let name: &YamlNode = match lookup(n, "name") {
        Some(v) => v,
        None => return None,
    };
    let index: i64 = match int_in(lookup(n, "index")) {
        Some(i) => i,
        None => return None,
    };
    match name {
        YamlNode::Str(s) => Some(ControlParameter {
            name: s.clone(),
            description: text_or(lookup(n, "description"), ""),
            index: index as usize,
        }),
        _ => None,
    }
}

/// The control parameters that `items` describe, in order.
fn parameters_in(items: &Vec<YamlNode>) -> (v: Vec<ControlParameter>)
    ensures
        v@.map_values(|q: ControlParameter| parameter_view(q)) == parameters_of(items@),
{
    let mut v: Vec<ControlParameter> = Vec::new();
    let mut i: usize = 0;
    while i < items.len()
        invariant
            i <= items.len(),
            v@.map_values(|q: ControlParameter| parameter_view(q)) == parameters_of(items@.take(i as int)),
        decreases items.len() - i,
    {
        proof {
            assert(items@.take(i + 1).drop_last() =~= items@.take(i as int));
            assert(items@.take(i + 1).last() == items@[i as int]);
        }
        match parameter_in(&items[i]) {
            Some(p) => {
                let ghost pv = parameter_view(p);
                v.push(p);
                proof {
                    assert(v@.map_values(|q: ControlParameter| parameter_view(q)) =~= parameters_of(items@.take(i as int)).push(pv));
                }
            },
            None => {},
        }
        i = i + 1;
    }
    proof {
        assert(items@.take(items.len() as int) =~= items@);
    }
    v
}

impl ModelManifest {
    /// What the manifest document `doc` says.
    pub fn from_document(doc: &YamlNode) -> (m: ModelManifest)
        ensures
            manifest_matches(m, *doc),
    {
        let name: String = text_or(lookup(doc, "name"), "Unknown Model");
        let description: String = text_or(lookup(doc, "description"), "No description");
        let p: &YamlNode = match lookup(doc, "params") {
            Some(YamlNode::Null) => doc,
            Some(v) => v,
            None => doc,
        };
        let scale_factor_text: Option<String> = match lookup(p, "scale_factor") {
            Some(YamlNode::Real(t)) => Some(t.clone()),
            _ => None,
        };
        let tile_size: u32 = match int_in(lookup(p, "tile_size")) {
            Some(i) => i as u32,
            None => 256,
        };
        let tile_overlap: u32 = match int_in(lookup(p, "tile_overlap")) {
            Some(i) => i as u32,
            None => 32,
        };
        let control: Option<ControlManifest> = match lookup(doc, "control") {
            None => None,
            Some(YamlNode::Null) => None,
            Some(c) => {
                let size: usize = match int_in(lookup(c, "size")) {
                    Some(i) => i as usize,
                    None => 0,
                };
                if size > 0 {
                    let default_texts: Option<Vec<String>> = match lookup(c, "defaults") {
                        Some(YamlNode::Sequence(v)) => Some(reals_in(v)),
                        _ => None,
                    };
                    let parameters: Vec<ControlParameter> = match lookup(c, "parameters") {
                        Some(YamlNode::Sequence(v)) => parameters_in(v),
                        _ => Vec::new(),
                    };
                    Some(ControlManifest { size, default_texts, parameters })
                } else {
                    None
                }
            },
        };
        let m = ModelManifest { name, description, scale_factor_text, tile_size, tile_overlap, control };
        proof {
            let pp = params_node(*doc);
            let c = map_lookup(*doc, "control"@);
            assert(*p == pp);
            assert((match m.scale_factor_text { Some(t) => Some(t@), None => None::<Seq<char>> }) == real_text(map_lookup(pp, "scale_factor"@)));
            if m.control is Some {
                let cm = m.control.unwrap();
                assert(cm.size == control_size_of(c.unwrap()));
                assert(opt_texts(cm.default_texts) == (match map_lookup(c.unwrap(), "defaults"@) {
                    Some(YamlNode::Sequence(v)) => Some(reals_of(v@)),
                    _ => None,
                }));
                assert(cm.parameters@.map_values(|q: ControlParameter| parameter_view(q)) == (match map_lookup(c.unwrap(), "parameters"@) {
                    Some(YamlNode::Sequence(v)) => parameters_of(v@),
                    _ => Seq::empty(),
                }));
            }
        }
        m
    }

    /// What the manifest in the YAML text `text` says: that of its first document. An
    /// error, as the model failing to load, when the text is not valid YAML (`Invalid
    /// YAML: ` and the loader's error text) or holds no document.
    pub fn from_yaml(text: &str) -> (r: Result<ModelManifest, AiError>)
        ensures
            match yaml_docs(text@) {
                Err(msg) => r matches Err(AiError::ModelLoadFailed(e)) && e@ == "Invalid YAML: "@ + msg,
                Ok(d) => if d.len() == 0 {
                    r matches Err(AiError::ModelLoadFailed(e)) && e@ == "Empty YAML document"@
                } else {
                    r matches Ok(m) && manifest_matches(m, d[0])
                },
            },
    {
        match parse_yaml(text) {
            Err(e) => {
                let msg: String = String::from_str("Invalid YAML: ").concat(e.as_str());
                Err(AiError::model_load_failed(msg.as_str()))
            },
            Ok(docs) => {
                if docs.len() == 0 {
                    Err(AiError::model_load_failed("Empty YAML document"))
                } else {
                    Ok(ModelManifest::from_document(&docs[0]))
                }
            },
        }
    }
}

} // verus!
