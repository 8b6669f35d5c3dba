//! Provider configuration and the selection of the active backend.
//!
//! The configuration file itself is read and written by the surrounding
//! program; this module holds the configuration data and the decision
//! logic: which backend a conversion run uses, with which credentials, and
//! when a selection must be refused.

use crate::error::NotedError;
use crate::strops::str_eq;
use vstd::prelude::*;

verus! {

/// The tool's configuration: the active provider and each provider's
/// settings, where configured.
pub struct Config {
    pub active_provider: Option<String>,
    pub gemini: Option<GeminiConfig>,
    pub ollama: Option<OllamaConfig>,
    pub claude: Option<ClaudeConfig>,
    pub openai: Option<OpenAIConfig>,
}

/// Anthropic settings.
pub struct ClaudeConfig {
    pub api_key: String,
    pub model: String,
}

/// Gemini settings.
pub struct GeminiConfig {
    pub api_key: String,
}

/// Ollama settings.
pub struct OllamaConfig {
    pub url: String,
    pub model: String,
}

/// OpenAI-compatible server settings.
pub struct OpenAIConfig {
    pub url: String,
    pub model: String,
    pub api_key: Option<String>,
}

/// The parameters of the backend a run will call.
#[derive(Debug)]
pub enum ProviderSelection {
    Gemini { api_key: String },
    Ollama { url: String, model: String },
    Claude { api_key: String, model: String },
    OpenAI { url: String, model: String, api_key: Option<String> },
}

/// Two optional strings with equal text.
pub open spec fn opt_str_eq(a: Option<String>, b: Option<String>) -> bool {
    match (a, b) {
        (Some(x), Some(y)) => x@ == y@,
        (None, None) => true,
        _ => false,
    }
}

/// A correct successful selection: the active provider's parameters, with a
/// command-line key overriding the configured one where the provider takes
/// one (Gemini and Anthropic).
pub open spec fn selection_ok(config: Config, api_key: Option<String>, sel: ProviderSelection) -> bool {
    match config.active_provider {
        Some(p) => if p@ == "gemini"@ {
            &&& sel matches ProviderSelection::Gemini { api_key: k }
            &&& match api_key {
                Some(o) => k@ == o@,
                None => config.gemini matches Some(g) && k@ == g.api_key@,
            }
        } else if p@ == "ollama"@ {
            &&& sel matches ProviderSelection::Ollama { url, model }
            &&& config.ollama matches Some(c) && url@ == c.url@ && model@ == c.model@
        } else if p@ == "anthropic"@ {
            &&& sel matches ProviderSelection::Claude { api_key: k, model }
            &&& config.claude matches Some(c) && model@ == c.model@ && (match api_key {
                Some(o) => k@ == o@,
                None => k@ == c.api_key@,
            })
        } else if p@ == "openai"@ {
            &&& sel matches ProviderSelection::OpenAI { url, model, api_key: k }
            &&& config.openai matches Some(c) && url@ == c.url@ && model@ == c.model@
                && opt_str_eq(k, c.api_key)
        } else {
            false
        },
        None => false,
    }
}

/// The error a failed selection must report: a missing section of the
/// active provider, or no (known) active provider at all.
pub open spec fn selection_err(config: Config, api_key: Option<String>, e: NotedError) -> bool {
    match config.active_provider {
        Some(p) => if p@ == "gemini"@ {
            e matches NotedError::GeminiNotConfigured && api_key is None && config.gemini is None
        } else if p@ == "ollama"@ {
            e matches NotedError::OllamaNotConfigured && config.ollama is None
        } else if p@ == "anthropic"@ {
            e matches NotedError::ClaudeNotConfigured && config.claude is None
        } else if p@ == "openai"@ {
            e matches NotedError::OpenAINotConfigured && config.openai is None
        } else {
            e matches NotedError::NoActiveProvider
        },
        None => e matches NotedError::NoActiveProvider,
    }
}

/// Choose the backend for a run from the configuration and an optional
/// command-line API key.
pub fn select_provider(config: &Config, api_key: Option<String>) -> (r: Result<
    ProviderSelection,
    NotedError,
>)
    ensures
        match r {
            Ok(sel) => selection_ok(*config, api_key, sel),
            Err(e) => selection_err(*config, api_key, e),
        },
{
    let provider = match &config.active_provider {
        Some(p) => p,
        None => {
            return Err(NotedError::NoActiveProvider);
        },
    };
    if str_eq(provider.as_str(), "gemini") {
        match api_key {
            Some(key) => Ok(ProviderSelection::Gemini { api_key: key }),
            None => match &config.gemini {
                Some(g) => Ok(ProviderSelection::Gemini { api_key: g.api_key.clone() }),
                None => Err(NotedError::GeminiNotConfigured),
            },
        }
    } else if str_eq(provider.as_str(), "ollama") {
        match &config.ollama {
            Some(c) => Ok(
                ProviderSelection::Ollama { url: c.url.clone(), model: c.model.clone() },
            ),
            None => Err(NotedError::OllamaNotConfigured),
        }
    } else if str_eq(provider.as_str(), "anthropic") {
        match &config.claude {
            Some(c) => {
                let key = match api_key {
                    Some(key) => key,
                    None => c.api_key.clone(),
                };
                Ok(ProviderSelection::Claude { api_key: key, model: c.model.clone() })
            },
            None => Err(NotedError::ClaudeNotConfigured),
        }
    } else if str_eq(provider.as_str(), "openai") {
        match &config.openai {
            Some(c) => {
                let key = match &c.api_key {
                    Some(k) => Some(k.clone()),
                    None => None,
                };
                Ok(
                    ProviderSelection::OpenAI {
                        url: c.url.clone(),
                        model: c.model.clone(),
                        api_key: key,
                    },
                )
            },
            None => Err(NotedError::OpenAINotConfigured),
        }
    } else {
        Err(NotedError::NoActiveProvider)
    }
}

/// Whether the named provider has a configuration section; none when the
/// name is not a known provider.
pub fn provider_configured(config: &Config, provider: &str) -> (r: Option<bool>)
    ensures
        r == (if provider@ == "gemini"@ {
            Some(config.gemini is Some)
        } else if provider@ == "anthropic"@ {
            Some(config.claude is Some)
        } else if provider@ == "ollama"@ {
            Some(config.ollama is Some)
        } else if provider@ == "openai"@ {
            Some(config.openai is Some)
        } else {
            None::<bool>
        }),
{
    if str_eq(provider, "gemini") {
        Some(config.gemini.is_some())
    } else if str_eq(provider, "anthropic") {
        Some(config.claude.is_some())
    } else if str_eq(provider, "ollama") {
        Some(config.ollama.is_some())
    } else if str_eq(provider, "openai") {
        Some(config.openai.is_some())
    } else {
        None
    }
}

} // verus!
