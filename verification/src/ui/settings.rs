//! The settings of the language model.
use crate::llm::{LlmSettings, LlmSettingsUpdate};
use crate::text::{decimal, is_blank, push_decimal, trim, trim_text};
use vstd::prelude::*;
use vstd::string::StringExecFns;

verus! {

/// What the user has typed into the settings.
#[derive(Debug, Clone, PartialEq)]
pub struct SettingsForm {
    pub enabled: bool,
    pub base_url: String,
    pub model: String,
    /// A new key; blank keeps the stored one.
    pub api_key: String,
}

impl SettingsForm {
    /// The settings in effect, with no key typed.
    pub fn load(settings: &LlmSettings) -> (r: SettingsForm)
        ensures
            r.enabled == settings.enabled,
            r.base_url == settings.base_url,
            r.model == settings.model,
            r.api_key@.len() == 0,
    {
        SettingsForm {
            enabled: settings.enabled,
            base_url: settings.base_url.clone(),
            model: settings.model.clone(),
            api_key: String::new(),
        }
    }

    /// The update that the form makes.
    pub fn update(&self) -> (r: LlmSettingsUpdate)
        ensures
            r.enabled == self.enabled,
            r.base_url == self.base_url,
            r.model == self.model,
            match r.api_key {
                Some(k) => trim(self.api_key@).len() > 0 && k@ == trim(self.api_key@),
                None => trim(self.api_key@).len() == 0,
            },
    {
        let api_key = if is_blank(self.api_key.as_str()) {
            None
        } else {
            Some(trim_text(self.api_key.as_str()))
        };
        LlmSettingsUpdate {
            enabled: self.enabled,
            base_url: self.base_url.clone(),
            model: self.model.clone(),
            api_key,
        }
    }
}

/// What the settings say of the models that an endpoint lists.
pub fn models_feedback(count: u64) -> (r: String)
    ensures
        r@ == decimal(count as nat) + " modèle(s)"@,
{
    let mut s = String::new();
    push_decimal(&mut s, count);
    s.append(" modèle(s)");
    proof {
        assert(s@ =~= decimal(count as nat) + " modèle(s)"@);
    }
    s
}

/// What the settings say of a request that failed.
pub fn failure_feedback(error: &str) -> (r: String)
    ensures
        r@ == "échec : "@ + error@,
{
    "échec : ".to_owned().concat(error)
}

} // verus!
