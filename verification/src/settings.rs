//! Library-wide settings: GPU use and the directories searched for AI models.
use vstd::prelude::*;
use vstd::string::StringExecFns;
use crate::yaml::{YamlNode, map_lookup, strings_of, lookup, strings_in, parse_yaml, yaml_docs};

verus! {

/// The settings as read from a settings document.
pub struct YamlSettings {
    gpu_enabled: bool,
    api_model_paths: Vec<String>,
}

/// Library-wide settings.
pub struct Settings {
    settings: YamlSettings,
}

/// The texts of a sequence of strings.
pub open spec fn path_texts(v: Seq<String>) -> Seq<Seq<char>> {
    v.map_values(|s: String| s@)
}

/// The model directory used when a settings document names none.
pub open spec fn default_model_path() -> Seq<char> {
    "packages/ai/models"@
}

/// The `gpu.enabled` entry of a settings document, where it is a boolean.
pub open spec fn doc_gpu_enabled(doc: YamlNode) -> Option<bool> {
    match map_lookup(doc, "gpu"@) {
        Some(g) => match map_lookup(g, "enabled"@) {
            Some(YamlNode::Bool(b)) => Some(b),
            _ => None,
        },
        None => None,
    }
}

/// The string items of the `api.model_paths` entry of a settings document, where it is a
/// sequence.
pub open spec fn doc_model_paths(doc: YamlNode) -> Option<Seq<Seq<char>>> {
    match map_lookup(doc, "api"@) {
        Some(a) => match map_lookup(a, "model_paths"@) {
            Some(YamlNode::Sequence(v)) => Some(strings_of(v@)),
            _ => None,
        },
        None => None,
    }
}

/// The GPU setting that a settings document gives: its `gpu.enabled` entry, else enabled.
pub open spec fn gpu_setting(doc: YamlNode) -> bool {
    match doc_gpu_enabled(doc) {
        Some(b) => b,
        None => true,
    }
}

/// The model directories that a settings document gives: the strings of its
/// `api.model_paths` entry, else `packages/ai/models` alone.
pub open spec fn model_paths_setting(doc: YamlNode) -> Seq<Seq<char>> {
    match doc_model_paths(doc) {
        Some(p) => p,
        None => seq![default_model_path()],
    }
}

impl Settings {
    /// Whether GPU acceleration is enabled.
    pub closed spec fn spec_gpu_enabled(&self) -> bool {
        self.settings.gpu_enabled
    }

    /// The directories searched for AI models.
    pub closed spec fn spec_model_paths(&self) -> Seq<Seq<char>> {
        path_texts(self.settings.api_model_paths@)
    }

    /// The settings used when there is no settings document: GPU enabled, no model directories.
    pub fn default() -> (s: Settings)
        ensures
            s.spec_gpu_enabled(),
            s.spec_model_paths().len() == 0,
    {
        Settings { settings: YamlSettings { gpu_enabled: true, api_model_paths: Vec::new() } }
    }

    /// The settings of a settings document whose `gpu.enabled` entry reads `gpu_enabled`
    /// and whose `api.model_paths` entry reads `model_paths` (its string items); an
    /// absent GPU entry enables the GPU, an absent path list means `packages/ai/models`.
    pub fn from_document(gpu_enabled: Option<bool>, model_paths: Option<Vec<String>>) -> (s: Settings)
        ensures
            s.spec_gpu_enabled() == match gpu_enabled {
                Some(b) => b,
                None => true,
            },
            s.spec_model_paths() == match model_paths {
                Some(v) => path_texts(v@),
                None => seq![default_model_path()],
            },
    {
        let gpu: bool = match gpu_enabled {
            Some(b) => b,
            None => true,
        };
        let paths: Vec<String> = match model_paths {
            Some(v) => v,
            None => {
                let mut v: Vec<String> = Vec::new();
                proof {
                    reveal_strlit("packages/ai/models");
                }
                v.push(String::from_str("packages/ai/models"));
                proof {
                    assert(path_texts(v@) =~= seq![default_model_path()]);
                }
                v
            },
        };
        Settings { settings: YamlSettings { gpu_enabled: gpu, api_model_paths: paths } }
    }

    /// The settings that the first of the YAML documents `docs` gives; `None` when there
    /// is no document.
    pub fn from_documents(docs: &Vec<YamlNode>) -> (r: Option<Settings>)
        ensures
            r is Some <==> docs.len() > 0,
            r matches Some(s) ==> s.spec_gpu_enabled() == gpu_setting(docs@[0])
                && s.spec_model_paths() == model_paths_setting(docs@[0]),
    {
        if docs.len() == 0 {
            return None;
        }
        let doc: &YamlNode = &docs[0];
        let gpu: Option<bool> = match lookup(doc, "gpu") {
            Some(g) => match lookup(g, "enabled") {
                Some(YamlNode::Bool(b)) => Some(*b),
                _ => None,
            },
            None => None,
        };
        let paths: Option<Vec<String>> = match lookup(doc, "api") {
            Some(a) => match lookup(a, "model_paths") {
                Some(YamlNode::Sequence(v)) => Some(strings_in(v)),
                _ => None,
            },
            None => None,
        };
        proof {
            assert(gpu == doc_gpu_enabled(docs@[0]));
            if paths is Some {
                assert(path_texts(paths.unwrap()@) =~= doc_model_paths(docs@[0]).unwrap());
            }
        }
        Some(Settings::from_document(gpu, paths))
    }

    /// The settings that the YAML text `text` gives: those of its first document. `None`
    /// when the text is not valid YAML or holds no document.
    pub fn from_yaml(text: &str) -> (r: Option<Settings>)
        ensures
            r is Some <==> (yaml_docs(text@) matches Ok(d) && d.len() > 0),
            r matches Some(s) ==> s.spec_gpu_enabled() == gpu_setting(yaml_docs(text@)->Ok_0[0])
                && s.spec_model_paths() == model_paths_setting(yaml_docs(text@)->Ok_0[0]),
    {
        match parse_yaml(text) {
            Ok(docs) => Settings::from_documents(&docs),
            Err(_) => None,
        }
    }

    /// Whether GPU acceleration is enabled.
    pub fn gpu_enabled(&self) -> (b: bool)
        ensures
            b == self.spec_gpu_enabled(),
    {
        self.settings.gpu_enabled
    }

    /// Enables or disables GPU acceleration.
    pub fn set_gpu_enabled(&mut self, value: bool)
        ensures
            final(self).spec_gpu_enabled() == value,
            final(self).spec_model_paths() == old(self).spec_model_paths(),
    {
        self.settings.gpu_enabled = value;
    }

    /// A copy of the directories searched for AI models.
    pub fn api_model_paths(&self) -> (v: Vec<String>)
        ensures
            path_texts(v@) == self.spec_model_paths(),
    {
        let mut v: Vec<String> = Vec::new();
        let mut i: usize = 0;
        let n: usize = self.settings.api_model_paths.len();
        while i < n
            invariant
                n == self.settings.api_model_paths.len(),
                i <= n,
                v.len() == i,
                path_texts(v@) == self.spec_model_paths().take(i as int),
            decreases n - i,
        {
            let s: String = self.settings.api_model_paths[i].clone();
            let ghost before: Seq<String> = v@;
            v.push(s);
            proof {
                assert forall|j: int| 0 <= j < i + 1 implies #[trigger] path_texts(v@)[j]
                    == self.spec_model_paths().take(i + 1)[j] by {
                    if j < i {
                        assert(v@[j] == before[j]);
                        assert(path_texts(before)[j] == self.spec_model_paths().take(i as int)[j]);
                    }
                }
                assert(path_texts(v@) =~= self.spec_model_paths().take(i + 1));
            }
            i = i + 1;
        }
        proof {
            assert(self.spec_model_paths().take(n as int) =~= self.spec_model_paths());
        }
        v
    }

    /// Replaces the directories searched for AI models.
    pub fn set_api_model_paths(&mut self, value: Vec<String>)
        ensures
            final(self).spec_gpu_enabled() == old(self).spec_gpu_enabled(),
            final(self).spec_model_paths() == path_texts(value@),
    {
        self.settings.api_model_paths = value;
    }
}

} // verus!
