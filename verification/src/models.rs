//! Finding out which models a provider has, and with what key to ask it.
use vstd::prelude::*;
use vstd::string::*;

use crate::host::{AppHost, HostView};
use crate::interact::text_view;
use crate::settings::text_seq;
use crate::text::same;

verus! {

/// What is to be done before the models are shown.
#[derive(Debug, PartialEq)]
pub enum ModelsStep {
    /// Nothing: they are fixed, or known.
    Ready,
    /// Those of the demonstration are to be kept.
    Demo(String),
    /// The provider is to be asked.
    Ask(String),
}

/// The models of the demonstration.
pub open spec fn demo_view() -> Seq<Seq<char>> {
    seq!["deepseek-v4-flash"@, "deepseek-v4-pro"@]
}

/// The models of the demonstration.
pub fn demo_models() -> (r: Vec<String>)
    ensures
        text_seq(r@) == demo_view(),
{
    let mut v: Vec<String> = Vec::new();
    v.push("deepseek-v4-flash".to_owned());
    v.push("deepseek-v4-pro".to_owned());
    assert(text_seq(v@) =~= demo_view());
    v
}

impl AppHost {
    /// What is to be done before the models are shown: nothing where they are
    /// fixed or known.
    pub fn models_step(&self) -> (r: ModelsStep)
        requires
            self.wf(),
        ensures
            ({
                let id = self@.provider_for(self@.default_workspace()).id;
                let known = self.base.models is Some || self@.models_cache.dom().contains(id);
                match r {
                    ModelsStep::Ready => known,
                    ModelsStep::Demo(p) => !known && self.fake && p@ == id,
                    ModelsStep::Ask(p) => !known && !self.fake && p@ == id,
                }
            }),
    {
        if self.base.models.is_some() {
            return ModelsStep::Ready;
        }
        let provider = self.default_provider();
        if self.models_cache.contains(provider.id.as_str()) {
            return ModelsStep::Ready;
        }
        if self.fake {
            ModelsStep::Demo(provider.id)
        } else {
            ModelsStep::Ask(provider.id)
        }
    }

    /// Keeps what a provider named, unless it named nothing: then it is asked
    /// again another time.
    pub fn ensure_models(&mut self, provider_id: &str, fetched: Vec<String>)
        requires
            old(self).wf(),
        ensures
            final(self).wf(),
            final(self)@ == (if fetched@.len() == 0 {
                old(self)@
            } else {
                HostView {
                    models_cache: old(self)@.models_cache.insert(
                        provider_id@,
                        text_seq(fetched@),
                    ),
                    ..old(self)@
                }
            }),
    {
        if fetched.len() > 0 {
            self.remember_models(provider_id, fetched);
        }
    }

    /// Keeps what a provider named when it was asked anew, even where it named
    /// nothing. A host without providers has those of the demonstration for the
    /// provider of the default workspace.
    pub fn refresh_models(&mut self, provider_id: &str, fetched: Vec<String>) -> (r: Vec<String>)
        requires
            old(self).wf(),
        ensures
            final(self).wf(),
            text_seq(r@) == (if old(self).fake && provider_id@ == old(self)@.provider_for(
                old(self)@.default_workspace(),
            ).id {
                demo_view()
            } else {
                text_seq(fetched@)
            }),
            final(self)@ == (HostView {
                models_cache: old(self)@.models_cache.insert(provider_id@, text_seq(r@)),
                ..old(self)@
            }),
    {
        let default = self.default_provider();
        let list = if self.fake && same(provider_id, default.id.as_str()) {
            demo_models()
        } else {
            fetched
        };
        let kept = crate::settings::copy_strings(&list);
        self.remember_models(provider_id, kept);
        list
    }
}

/// The key to ask a provider with: the one that is given, unless it is empty,
/// else the one that the provider has.
pub fn billing_key(given: Option<String>, own: Option<String>) -> (r: Result<String, String>)
    ensures
        ({
            let chosen = match text_view(given) {
                Some(k) if k.len() > 0 => Some(k),
                _ => text_view(own),
            };
            match chosen {
                Some(k) => r is Ok && r->Ok_0@ == k,
                None => r is Err && r->Err_0@ == "凭据各级缺席,无法查询计费"@,
            }
        }),
{
    if let Some(k) = given {
        if !k.as_str().is_empty() {
            return Ok(k);
        }
    }
    match own {
        Some(k) => Ok(k),
        None => Err("凭据各级缺席,无法查询计费".to_owned()),
    }
}

} // verus!
