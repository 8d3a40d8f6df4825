//! `primer model`: choosing the inference target, and which files in the
//! models directory are models.

use vstd::prelude::*;
use crate::config::{Config, ConfigView};
use crate::init::{extension_of, path_extension};
use crate::text::{chars_of, copy_range, eq_str, starts_with, starts_with_str, to_string_v};

verus! {

/// The inference target that `primer model set` selects.
#[derive(Debug, PartialEq)]
pub enum ModelTarget {
    /// `ollama:<model>`: the named model on a local Ollama instance.
    Ollama(String),
    /// A local GGUF file.
    Local(String),
}

/// The mathematical value of a `ModelTarget`: whether it is Ollama, and
/// the model name or path.
pub open spec fn target_view(t: ModelTarget) -> (bool, Seq<char>) {
    match t {
        ModelTarget::Ollama(m) => (true, m@),
        ModelTarget::Local(p) => (false, p@),
    }
}

/// The target that `target` names: `ollama:<model>` selects Ollama, any
/// other text is a local path.
pub open spec fn target_spec(target: Seq<char>) -> (bool, Seq<char>) {
    if starts_with(target, "ollama:"@) {
        (true, target.skip("ollama:"@.len() as int))
    } else {
        (false, target)
    }
}

/// The target that `target` names.
pub fn model_target(target: &str) -> (r: ModelTarget)
    ensures
        target_view(r) == target_spec(target@),
{
    let t = chars_of(target);
    if starts_with_str(&t, "ollama:") {
        let k = chars_of("ollama:").len();
        let m = copy_range(&t, k, t.len());
        assert(m@ =~= t@.skip("ollama:"@.len() as int));
        ModelTarget::Ollama(to_string_v(&m))
    } else {
        ModelTarget::Local(String::from_str(target))
    }
}

impl ModelTarget {
    /// Makes this target the active one in `cfg`: the backend (`ollama` or
    /// `local`) and the model; the tokenizer is kept.
    pub fn apply(&self, cfg: &mut Config)
        ensures
            final(cfg)@ == (ConfigView {
                backend: Some(if target_view(*self).0 { "ollama"@ } else { "local"@ }),
                model: Some(target_view(*self).1),
                tokenizer: old(cfg)@.tokenizer,
                intercept_restore: old(cfg)@.intercept_restore,
            }),
    {
        match self {
            ModelTarget::Ollama(m) => {
                cfg.ai.backend = Some(String::from_str("ollama"));
                cfg.ai.model = Some(m.clone());
            },
            ModelTarget::Local(p) => {
                cfg.ai.backend = Some(String::from_str("local"));
                cfg.ai.model = Some(p.clone());
            },
        }
    }
}

/// Whether `path` names a model file: its extension is `gguf` or `json`.
pub fn is_model_file(path: &str) -> (r: bool)
    ensures
        r == (path_extension(path@) == Some("gguf"@) || path_extension(path@) == Some("json"@)),
{
    match extension_of(path) {
        Some(e) => {
            let ev = chars_of(e.as_str());
            eq_str(&ev, "gguf") || eq_str(&ev, "json")
        },
        None => false,
    }
}

/// `ollama:<model>` names the Ollama model `<model>`, whatever it is; a
/// text that does not start with `ollama:` names itself as a local path.
pub proof fn law_model_target_names(model: Seq<char>, path: Seq<char>)
    ensures
        target_spec(seq!['o', 'l', 'l', 'a', 'm', 'a', ':'] + model) == (true, model),
        !(path.len() >= 7 && path.take(7) == seq!['o', 'l', 'l', 'a', 'm', 'a', ':'])
            ==> target_spec(path) == (false, path),
{
    reveal_strlit("ollama:");
    let p = seq!['o', 'l', 'l', 'a', 'm', 'a', ':'];
    assert("ollama:"@ =~= p);
    assert((p + model).take(7) =~= p);
    assert((p + model).skip(7) =~= model);
}

} // verus!
