//! Choosing an embedding backend by name.
use vstd::prelude::*;
use crate::knowledge::embedding::backend::errors::{BackendError, BackendResult};
use crate::text::{ascii_lower, is_ascii_text, join2, lowercase, owned, str_eq, to_lowercase};

verus! {

/// Which backend to use.
#[derive(Debug, Clone)]
pub struct BackendConfig {
    /// Provider name, such as `bge-small` or `e5-base`.
    pub provider: String,
    /// Path of local model files, when there are any.
    pub model_path: Option<String>,
}

impl BackendConfig {
    /// The configuration for `provider`, without a model path.
    pub fn new(provider: &str) -> (r: Self)
        ensures
            r.provider@ == provider@,
            r.model_path is None,
    {
        BackendConfig { provider: owned(provider), model_path: None }
    }

    /// The configuration with its model path set to `path`.
    pub fn with_model_path(self, path: &str) -> (r: Self)
        ensures
            r.provider == self.provider,
            r.model_path matches Some(p) && p@ == path@,
    {
        let mut c = self;
        c.model_path = Some(owned(path));
        c
    }
}

impl Default for BackendConfig {
    /// The `bge-small` backend.
    fn default() -> (r: Self)
        ensures
            r.provider@ == "bge-small"@,
            r.model_path is None,
    {
        BackendConfig { provider: owned("bge-small"), model_path: None }
    }
}

/// The backends there are.
#[derive(Debug, Clone, Copy, PartialEq, Eq)]
pub enum BackendKind {
    BgeSmall,
    BgeBase,
    E5Small,
    E5Base,
    Nomic,
    Qwen,
    LocalHash,
}

/// The backend a lower-cased provider name selects, if any.
pub open spec fn kind_of(name: Seq<char>) -> Option<BackendKind> {
    if name == "bge-small"@ {
        Some(BackendKind::BgeSmall)
    } else if name == "bge-base"@ {
        Some(BackendKind::BgeBase)
    } else if name == "e5-small"@ {
        Some(BackendKind::E5Small)
    } else if name == "e5-base"@ {
        Some(BackendKind::E5Base)
    } else if name == "nomic"@ || name == "nomic-embed"@ {
        Some(BackendKind::Nomic)
    } else if name == "qwen"@ || name == "qwen-embed"@ {
        Some(BackendKind::Qwen)
    } else if name == "local-hash"@ || name == "local"@ || name == "hash"@ {
        Some(BackendKind::LocalHash)
    } else {
        None
    }
}

/// Information about a backend provider.
#[derive(Debug, Clone)]
pub struct ProviderInfo {
    pub name: String,
    pub dimension: usize,
    pub description: String,
    pub gpu_support: bool,
    pub cpu_support: bool,
}

/// The texts and figures of a [`ProviderInfo`].
pub struct ProviderInfoView {
    pub name: Seq<char>,
    pub dimension: usize,
    pub description: Seq<char>,
    pub gpu_support: bool,
    pub cpu_support: bool,
}

impl View for ProviderInfo {
    type V = ProviderInfoView;

    open spec fn view(&self) -> ProviderInfoView {
        ProviderInfoView {
            name: self.name@,
            dimension: self.dimension,
            description: self.description@,
            gpu_support: self.gpu_support,
            cpu_support: self.cpu_support,
        }
    }
}

/// What is known about each backend.
pub open spec fn kind_info(k: BackendKind) -> ProviderInfoView {
    match k {
        BackendKind::BgeSmall => ProviderInfoView {
            name: "bge-small"@,
            dimension: 384,
            description: "BAAI General Embedding Small (384-dim)"@,
            gpu_support: false,
            cpu_support: true,
        },
        BackendKind::BgeBase => ProviderInfoView {
            name: "bge-base"@,
            dimension: 768,
            description: "BAAI General Embedding Base (768-dim)"@,
            gpu_support: false,
            cpu_support: true,
        },
        BackendKind::E5Small => ProviderInfoView {
            name: "e5-small"@,
            dimension: 384,
            description: "E5 Small (384-dim)"@,
            gpu_support: false,
            cpu_support: true,
        },
        BackendKind::E5Base => ProviderInfoView {
            name: "e5-base"@,
            dimension: 768,
            description: "E5 Base (768-dim)"@,
            gpu_support: false,
            cpu_support: true,
        },
        BackendKind::Nomic => ProviderInfoView {
            name: "nomic"@,
            dimension: 768,
            description: "Nomic Embed (768-dim, long context)"@,
            gpu_support: false,
            cpu_support: true,
        },
        BackendKind::Qwen => ProviderInfoView {
            name: "qwen"@,
            dimension: 1024,
            description: "Qwen Text Embedding (1024-dim, multilingual)"@,
            gpu_support: true,
            cpu_support: true,
        },
        BackendKind::LocalHash => ProviderInfoView {
            name: "local-hash"@,
            dimension: 256,
            description: "Local Hash Embedding (256-dim fallback)"@,
            gpu_support: false,
            cpu_support: true,
        },
    }
}

/// The provider names the registry lists.
pub open spec fn provider_names() -> Seq<Seq<char>> {
    seq!["bge-small"@, "bge-base"@, "e5-small"@, "e5-base"@, "nomic"@, "qwen"@, "local-hash"@]
}

/// The backend a lower-cased name selects.
fn kind_by_name(name: &str) -> (r: Option<BackendKind>)
    ensures
        r == kind_of(name@),
{
    if str_eq(name, "bge-small") {
        Some(BackendKind::BgeSmall)
    } else if str_eq(name, "bge-base") {
        Some(BackendKind::BgeBase)
    } else if str_eq(name, "e5-small") {
        Some(BackendKind::E5Small)
    } else if str_eq(name, "e5-base") {
        Some(BackendKind::E5Base)
    } else if str_eq(name, "nomic") || str_eq(name, "nomic-embed") {
        Some(BackendKind::Nomic)
    } else if str_eq(name, "qwen") || str_eq(name, "qwen-embed") {
        Some(BackendKind::Qwen)
    } else if str_eq(name, "local-hash") || str_eq(name, "local") || str_eq(name, "hash") {
        Some(BackendKind::LocalHash)
    } else {
        None
    }
}

/// The information about backend `k`.
fn info_of(k: BackendKind) -> (r: ProviderInfo)
    ensures
        r@ == kind_info(k),
{
    match k {
        BackendKind::BgeSmall => ProviderInfo {
            name: owned("bge-small"),
            dimension: 384,
            description: owned("BAAI General Embedding Small (384-dim)"),
            gpu_support: false,
            cpu_support: true,
        },
        BackendKind::BgeBase => ProviderInfo {
            name: owned("bge-base"),
            dimension: 768,
            description: owned("BAAI General Embedding Base (768-dim)"),
            gpu_support: false,
            cpu_support: true,
        },
        BackendKind::E5Small => ProviderInfo {
            name: owned("e5-small"),
            dimension: 384,
            description: owned("E5 Small (384-dim)"),
            gpu_support: false,
            cpu_support: true,
        },
        BackendKind::E5Base => ProviderInfo {
            name: owned("e5-base"),
            dimension: 768,
            description: owned("E5 Base (768-dim)"),
            gpu_support: false,
            cpu_support: true,
        },
        BackendKind::Nomic => ProviderInfo {
            name: owned("nomic"),
            dimension: 768,
            description: owned("Nomic Embed (768-dim, long context)"),
            gpu_support: false,
            cpu_support: true,
        },
        BackendKind::Qwen => ProviderInfo {
            name: owned("qwen"),
            dimension: 1024,
            description: owned("Qwen Text Embedding (1024-dim, multilingual)"),
            gpu_support: true,
            cpu_support: true,
        },
        BackendKind::LocalHash => ProviderInfo {
            name: owned("local-hash"),
            dimension: 256,
            description: owned("Local Hash Embedding (256-dim fallback)"),
            gpu_support: false,
            cpu_support: true,
        },
    }
}

/// Chooses embedding backends by name.
#[derive(Debug, Clone, Copy)]
pub struct BackendRegistry;

impl BackendRegistry {
    /// The backend that `config` names (case-insensitively), or a configuration
    /// error naming the provider as given.
    pub fn select(config: &BackendConfig) -> (r: BackendResult<BackendKind>)
        ensures
            match kind_of(lowercase(config.provider@)) {
                Some(k) => r == Ok::<BackendKind, BackendError>(k),
                None => r matches Err(BackendError::ConfigurationError(m)) && m@ == "Unknown backend provider: "@
                    + config.provider@,
            },
            is_ascii_text(config.provider@) ==> match kind_of(ascii_lower(config.provider@)) {
                Some(k) => r == Ok::<BackendKind, BackendError>(k),
                None => r is Err,
            },
    {
        let provider = to_lowercase(config.provider.as_str());
        match kind_by_name(provider.as_str()) {
            Some(k) => Ok(k),
            None => Err(BackendError::ConfigurationError(join2("Unknown backend provider: ", config.provider.as_str()))),
        }
    }

    /// The provider names, in order.
    pub fn available_providers() -> (r: Vec<&'static str>)
        ensures
            r@.map_values(|s: &'static str| s@) == provider_names(),
    {
        let r = vec!["bge-small", "bge-base", "e5-small", "e5-base", "nomic", "qwen", "local-hash"];
        proof {
            assert(r@.map_values(|s: &'static str| s@) =~= provider_names());
        }
        r
    }

    /// Information about `provider` (case-insensitively), or a configuration
    /// error naming the lower-cased provider.
    pub fn provider_info(provider: &str) -> (r: BackendResult<ProviderInfo>)
        ensures
            match kind_of(lowercase(provider@)) {
                Some(k) => r matches Ok(info) && info@ == kind_info(k),
                None => r matches Err(BackendError::ConfigurationError(m)) && m@ == "Unknown provider: "@ + lowercase(
                    provider@,
                ),
            },
            is_ascii_text(provider@) ==> match kind_of(ascii_lower(provider@)) {
                Some(k) => r matches Ok(info) && info@ == kind_info(k),
                None => r matches Err(BackendError::ConfigurationError(m)) && m@ == "Unknown provider: "@ + ascii_lower(
                    provider@,
                ),
            },
    {
        let provider = to_lowercase(provider);
        match kind_by_name(provider.as_str()) {
            Some(k) => Ok(info_of(k)),
            None => Err(BackendError::ConfigurationError(join2("Unknown provider: ", provider.as_str()))),
        }
    }
}

/// Every listed provider name is lower-case ASCII and selects the backend whose
/// information bears that very name: asking for the information of a listed
/// provider succeeds and reports the name that was asked for.
pub proof fn lemma_listed_providers_resolve(q: Seq<char>)
    requires
        provider_names().contains(q),
    ensures
        is_ascii_text(q),
        ascii_lower(q) == q,
        kind_of(ascii_lower(q)) is Some,
        kind_info(kind_of(ascii_lower(q))->0).name == q,
{
    reveal_strlit("bge-small");
    reveal_strlit("bge-base");
    reveal_strlit("e5-small");
    reveal_strlit("e5-base");
    reveal_strlit("nomic");
    reveal_strlit("qwen");
    reveal_strlit("local-hash");
    reveal_strlit("nomic-embed");
    reveal_strlit("qwen-embed");
    reveal_strlit("local");
    reveal_strlit("hash");
    assert("bge-base"@[0] != "e5-small"@[0] && "nomic"@[0] != "local"@[0]);
    assert("qwen"@[0] != "hash"@[0] && "qwen-embed"@[0] != "local-hash"@[0]);
    let names = provider_names();
    let i = choose|i: int| 0 <= i < names.len() && names[i] == q;
    assert(ascii_lower(q) =~= q);
}

} // verus!
