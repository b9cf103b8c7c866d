//! WebAssembly plugins: which plugin provides each tool, where a call
//! goes, and the settings a module runs with. The modules themselves are
//! loaded and run outside the library.
use vstd::prelude::*;
use super::manager::{PluginConfig, PluginRecord};
use super::{named_insert, named_map, names_unique, register_spec, ToolRegistry};
use crate::error::WinxError;
use crate::text::{decimal, from_chars, owned, push_str, starts_with};

verus! {

/// Where a plugin module is pulled from.
#[derive(Debug, Clone)]
pub struct OciConfig {
    pub reference: String,
    pub registry: Option<String>,
    pub username: Option<String>,
    pub password: Option<String>,
    pub verify_signature: bool,
}

/// What a module is run with: its file, the hosts it may reach, its
/// memory limit (as the "memory" setting) and its time limit.
#[derive(Debug, Clone)]
pub struct ManifestSettings {
    pub wasm_path: String,
    pub allowed_hosts: Option<Vec<String>>,
    pub memory: Option<String>,
    pub timeout_ms: Option<u64>,
}

pub open spec fn opt_deep(o: Option<Vec<String>>) -> Option<Seq<Seq<char>>> {
    match o {
        Some(v) => Some(v.deep_view()),
        None => None,
    }
}

/// Manager of WebAssembly plugins.
#[derive(Debug)]
pub struct WasmPluginManager {
    plugins: Vec<(String, PluginRecord)>,
    tools: ToolRegistry,
    cache_dir: String,
    verify_signatures: bool,
}

impl WasmPluginManager {
    #[verifier::type_invariant]
    spec fn well_formed(self) -> bool {
        names_unique(self.plugins@)
    }

    /// The loaded plugins, by name.
    pub closed spec fn registered(self) -> Map<Seq<char>, PluginRecord> {
        named_map(self.plugins@)
    }

    /// The plugin providing each tool.
    pub closed spec fn providers(self) -> Map<Seq<char>, Seq<char>> {
        self.tools.providers()
    }

    pub closed spec fn cache(self) -> Seq<char> {
        self.cache_dir@
    }

    pub closed spec fn verifies(self) -> bool {
        self.verify_signatures
    }

    pub fn new(cache_dir: &str, verify_signatures: bool) -> (r: Self)
        ensures
            r.cache() == cache_dir@,
            r.verifies() == verify_signatures,
            r.registered() == Map::<Seq<char>, PluginRecord>::empty(),
            r.providers() == Map::<Seq<char>, Seq<char>>::empty(),
    {
        let r = WasmPluginManager {
            plugins: Vec::new(),
            tools: ToolRegistry::new(),
            cache_dir: owned(cache_dir),
            verify_signatures,
        };
        proof {
            assert(named_map(r.plugins@) =~= Map::<Seq<char>, PluginRecord>::empty());
        }
        r
    }

    /// Register the tools of a loaded plugin and record the plugin; refused
    /// at the first tool another plugin provides (the tools before it stay
    /// mapped).
    pub fn register_loaded(&mut self, config: PluginConfig, tools: Vec<String>) -> (r: Result<(), String>)
        ensures
            ({
                let (m, err) = register_spec(old(self).providers(), config.name@, tools@.map_values(|t: String| t@));
                &&& final(self).providers() == m
                &&& match r {
                    Ok(_) => err is None && final(self).registered() == old(self).registered().insert(
                        config.name@,
                        PluginRecord { config, tools },
                    ),
                    Err(e) => err == Some(e@) && final(self).registered() == old(self).registered(),
                }
            }),
            final(self).cache() == old(self).cache(),
            final(self).verifies() == old(self).verifies(),
    {
        proof {
            use_type_invariant(&*self);
        }
        let mut registry = ToolRegistry::new();
        std::mem::swap(&mut registry, &mut self.tools);
        let name = config.name.clone();
        let outcome = registry.register(name.as_str(), &tools);
        self.tools = registry;
        match outcome {
            Ok(()) => {
                let mut plugins: Vec<(String, PluginRecord)> = Vec::new();
                std::mem::swap(&mut plugins, &mut self.plugins);
                named_insert(&mut plugins, name, PluginRecord { config, tools });
                self.plugins = plugins;
                Ok(())
            },
            Err(e) => Err(e),
        }
    }

    /// The plugin that runs a call of `tool_name`.
    pub fn plugin_for_call(&self, tool_name: &str) -> (r: Result<String, WinxError>)
        ensures
            !self.providers().dom().contains(tool_name@) ==> (r matches Err(WinxError::Other(m)) && m@ == "Tool '"@
                + tool_name@ + "' not found"@),
            self.providers().dom().contains(tool_name@) ==> ({
                let p = self.providers()[tool_name@];
                if self.registered().dom().contains(p) {
                    r matches Ok(n) && n@ == p
                } else {
                    r matches Err(WinxError::Other(m)) && m@ == "Plugin '"@ + p + "' not found"@
                }
            }),
    {
        proof {
            use_type_invariant(self);
        }
        match self.tools.provider(tool_name) {
            None => {
                let mut v: Vec<char> = Vec::new();
                push_str(&mut v, "Tool '");
                push_str(&mut v, tool_name);
                push_str(&mut v, "' not found");
                Err(WinxError::Other(from_chars(v.as_slice())))
            },
            Some(p) => match super::name_position(&self.plugins, p.as_str()) {
                Some(i) => {
                    proof {
                        super::lemma_named_lookup(self.plugins@, i as int);
                    }
                    Ok(p)
                },
                None => {
                    let mut v: Vec<char> = Vec::new();
                    push_str(&mut v, "Plugin '");
                    push_str(&mut v, p.as_str());
                    push_str(&mut v, "' not found");
                    Err(WinxError::Other(from_chars(v.as_slice())))
                },
            },
        }
    }

    /// The settings a plugin's module runs with, from its configuration.
    /// Modules named by an "oci://" reference are not supported.
    pub fn manifest_settings(&self, config: &PluginConfig) -> (r: ManifestSettings)
        requires
            !starts_with(config.path@, "oci://"@),
        ensures
            r.wasm_path@ == config.path@,
            match config.runtime_config {
                Some(rc) => {
                    &&& opt_deep(r.allowed_hosts) == opt_deep(rc.allowed_hosts)
                    &&& match rc.memory_limit {
                        Some(m) => r.memory matches Some(t) && t@ == decimal(m as nat),
                        None => r.memory is None,
                    }
                    &&& r.timeout_ms == rc.timeout_ms
                },
                None => r.allowed_hosts is None && r.memory is None && r.timeout_ms is None,
            },
    {
        let mut r = ManifestSettings {
            wasm_path: config.path.clone(),
            allowed_hosts: None,
            memory: None,
            timeout_ms: None,
        };
        match &config.runtime_config {
            Some(rc) => {
                r.allowed_hosts = match &rc.allowed_hosts {
                    Some(h) => Some(crate::text::copy_texts(h)),
                    None => None,
                };
                r.memory = match rc.memory_limit {
                    Some(m) => Some(crate::text::usize_to_string(m)),
                    None => None,
                };
                r.timeout_ms = rc.timeout_ms;
            },
            None => {},
        }
        r
    }

    /// Pulling a module from an OCI registry needs a reference; pulling
    /// itself is not supported.
    pub fn load_from_oci(&self, config: &PluginConfig) -> (r: Result<Vec<u8>, WinxError>)
        requires
            config.oci_reference is None,
        ensures
            r matches Err(WinxError::InvalidArgument { message }) && message@ == "No OCI reference provided"@,
    {
        Err(WinxError::invalid_argument("No OCI reference provided"))
    }

    /// With signature checks off every plugin passes; the checks themselves
    /// are not supported.
    pub fn verify_plugin_signature(&self, _path: &str) -> (r: Result<bool, WinxError>)
        requires
            !self.verifies(),
        ensures
            r matches Ok(b) && b,
    {
        Ok(true)
    }
}

} // verus!
