//! The plugin manager: the configuration of plugins, the registration of
//! their tools, and where a call of a tool goes.
use vstd::prelude::*;
use super::wasm::WasmPluginManager;
use super::{named_insert, named_map, names_unique, register_spec, ToolRegistry};
use crate::error::McpCode;
use crate::lsp::utils::joined_path;
use crate::text::{from_chars, owned, push_str};

verus! {

/// Plugin configuration
#[derive(Debug, Clone)]
pub struct PluginConfig {
    pub name: String,
    pub path: String,
    pub runtime_config: Option<RuntimeConfig>,
    pub oci_reference: Option<String>,
    pub language: Option<String>,
    pub version: Option<String>,
    pub checksum: Option<String>,
    pub enabled: bool,
    pub plugin_type: PluginType,
}

/// How a plugin's code runs.
#[derive(Debug, Clone, Copy, PartialEq, Eq)]
pub enum PluginType {
    Wasm,
    Native,
    Remote,
}

impl Default for PluginType {
    fn default() -> (r: Self)
        ensures
            r == PluginType::Wasm,
    {
        PluginType::Wasm
    }
}

/// Limits and permissions of a plugin's runtime.
#[derive(Debug, Clone, Default)]
pub struct RuntimeConfig {
    pub allowed_hosts: Option<Vec<String>>,
    pub allowed_paths: Option<Vec<String>>,
    pub env_vars: Option<Vec<(String, String)>>,
    pub memory_limit: Option<usize>,
    pub timeout_ms: Option<u64>,
}

/// A registered plugin: its configuration and the names of its tools.
#[derive(Debug, Clone)]
pub struct PluginRecord {
    pub config: PluginConfig,
    pub tools: Vec<String>,
}

/// What became of a registration.
#[derive(Debug, Clone, Copy, PartialEq, Eq)]
pub enum Registration {
    /// The plugin is disabled: nothing was registered
    Skipped,
    /// The plugin and its tools are registered
    Registered,
    /// The plugin runs as WebAssembly: its module is to be loaded, and its
    /// tools registered with the WebAssembly manager
    LoadWasm,
}

/// Where a call of a tool goes.
#[derive(Debug, Clone)]
pub enum CallRoute {
    /// To the WebAssembly manager
    Wasm,
    /// Refused, with the error's code and message
    Refused(McpCode, String),
}

/// Manages the loading and execution of plugins
#[derive(Debug)]
pub struct PluginManager {
    plugins: Vec<(String, PluginRecord)>,
    tools: ToolRegistry,
    cache_dir: String,
    verify_signatures: bool,
    wasm_manager: WasmPluginManager,
}

/// The directory of cached plugin downloads under the system's cache
/// directory, or a local one when the system has none.
pub open spec fn cache_dir_for(base: Option<Seq<char>>) -> Seq<char> {
    match base {
        Some(d) => joined_path(joined_path(d, "winx-code-agent"@), "plugins"@),
        None => ".cache/plugins"@,
    }
}

/// `dirs::cache_dir`: the user's cache directory, read from the
/// environment; nothing is claimed of it.
#[verifier::external_body]
fn system_cache_dir() -> (r: Option<String>) {
    dirs::cache_dir().map(|d| d.to_string_lossy().into_owned())
}

impl PluginManager {
    #[verifier::type_invariant]
    spec fn well_formed(self) -> bool {
        names_unique(self.plugins@)
    }

    /// The registered plugins, by name.
    pub closed spec fn registered(self) -> Map<Seq<char>, PluginRecord> {
        named_map(self.plugins@)
    }

    /// The registered plugins in the order they were first registered.
    pub closed spec fn records(self) -> Seq<(String, PluginRecord)> {
        self.plugins@
    }

    /// The plugin providing each tool.
    pub closed spec fn providers(self) -> Map<Seq<char>, Seq<char>> {
        self.tools.providers()
    }

    pub closed spec fn cache(self) -> Seq<char> {
        self.cache_dir@
    }

    pub closed spec fn verifies(self) -> bool {
        self.verify_signatures
    }

    pub closed spec fn wasm(self) -> WasmPluginManager {
        self.wasm_manager
    }

    /// A manager caching plugins under the system's cache directory, that
    /// verifies signatures.
    pub fn new() -> (r: Self)
        ensures
            exists|base: Option<Seq<char>>| r.cache() == cache_dir_for(base),
            r.verifies(),
            r.registered() == Map::<Seq<char>, PluginRecord>::empty(),
            r.providers() == Map::<Seq<char>, Seq<char>>::empty(),
    {
        let base = system_cache_dir();
        let dir = match &base {
            Some(d) => {
                let app = crate::lsp::utils::to_absolute_path("winx-code-agent", d.as_str());
                crate::lsp::utils::to_absolute_path("plugins", app.as_str())
            },
            None => owned(".cache/plugins"),
        };
        proof {
            let b = match base {
                Some(d) => Some(d@),
                None => None,
            };
            assert(dir@ == cache_dir_for(b));
        }
        Self::with_settings(dir.as_str(), true)
    }

    /// A manager caching plugins in `cache_dir`.
    pub fn with_settings(cache_dir: &str, verify_signatures: bool) -> (r: Self)
        ensures
            r.cache() == cache_dir@,
            r.verifies() == verify_signatures,
            r.registered() == Map::<Seq<char>, PluginRecord>::empty(),
            r.providers() == Map::<Seq<char>, Seq<char>>::empty(),
            r.wasm().cache() == cache_dir@,
            r.wasm().verifies() == verify_signatures,
    {
        let r = PluginManager {
            plugins: Vec::new(),
            tools: ToolRegistry::new(),
            cache_dir: owned(cache_dir),
            verify_signatures,
            wasm_manager: WasmPluginManager::new(cache_dir, verify_signatures),
        };
        proof {
            assert(named_map(r.plugins@) =~= Map::<Seq<char>, PluginRecord>::empty());
        }
        r
    }

    /// Register a plugin and the tools it provides. A disabled plugin is
    /// skipped; a WebAssembly plugin is left to the WebAssembly manager; a
    /// native one has its tools mapped to it (refused at the first tool
    /// another plugin provides, the tools before it staying mapped) and is
    /// recorded. Remote plugins are not supported.
    pub fn register_plugin(&mut self, config: PluginConfig, tools: Vec<String>) -> (r: Result<Registration, String>)
        requires
            !(config.enabled && config.plugin_type == PluginType::Remote),
        ensures
            !config.enabled ==> r == Ok::<Registration, String>(Registration::Skipped) && final(self).registered()
                == old(self).registered() && final(self).providers() == old(self).providers(),
            config.enabled && config.plugin_type == PluginType::Wasm ==> r == Ok::<Registration, String>(
                Registration::LoadWasm,
            ) && final(self).registered() == old(self).registered() && final(self).providers()
                == old(self).providers(),
            config.enabled && config.plugin_type == PluginType::Native ==> ({
                let (m, err) = register_spec(
                    old(self).providers(),
                    config.name@,
                    tools@.map_values(|t: String| t@),
                );
                &&& final(self).providers() == m
                &&& match r {
                    Ok(g) => err is None && g == Registration::Registered && final(self).registered()
                        == old(self).registered().insert(config.name@, PluginRecord { config, tools }),
                    Err(e) => err == Some(e@) && final(self).registered() == old(self).registered(),
                }
            }),
            final(self).cache() == old(self).cache(),
            final(self).verifies() == old(self).verifies(),
            final(self).wasm() == old(self).wasm(),
    {
        proof {
            use_type_invariant(&*self);
        }
        if !config.enabled {
            return Ok(Registration::Skipped);
        }
        match config.plugin_type {
            PluginType::Wasm => Ok(Registration::LoadWasm),
            PluginType::Native => {
                let name = config.name.clone();
                let mut registry = ToolRegistry::new();
                std::mem::swap(&mut registry, &mut self.tools);
                let outcome = registry.register(name.as_str(), &tools);
                self.tools = registry;
                match outcome {
                    Ok(()) => {
                        let mut plugins: Vec<(String, PluginRecord)> = Vec::new();
                        std::mem::swap(&mut plugins, &mut self.plugins);
                        named_insert(&mut plugins, name, PluginRecord { config, tools });
                        self.plugins = plugins;
                        Ok(Registration::Registered)
                    },
                    Err(e) => Err(e),
                }
            },
            PluginType::Remote => Ok(Registration::Skipped),
        }
    }

    /// Register the tools of a WebAssembly plugin whose module was loaded;
    /// a refusal is reported as a failure to load the plugin.
    pub fn register_wasm_tools(&mut self, config: PluginConfig, tools: Vec<String>) -> (r: Result<(), String>)
        ensures
            ({
                let (m, err) = register_spec(
                    old(self).wasm().providers(),
                    config.name@,
                    tools@.map_values(|t: String| t@),
                );
                &&& final(self).wasm().providers() == m
                &&& match r {
                    Ok(_) => err is None && final(self).wasm().registered() == old(self).wasm().registered().insert(
                        config.name@,
                        PluginRecord { config, tools },
                    ),
                    Err(e) => (err matches Some(t) && e@ == "Failed to load WASM plugin: "@ + t)
                        && final(self).wasm().registered() == old(self).wasm().registered(),
                }
            }),
            final(self).registered() == old(self).registered(),
            final(self).providers() == old(self).providers(),
            final(self).cache() == old(self).cache(),
            final(self).verifies() == old(self).verifies(),
    {
        proof {
            use_type_invariant(&*self);
        }
        let mut wasm = WasmPluginManager::new("", false);
        std::mem::swap(&mut wasm, &mut self.wasm_manager);
        let outcome = wasm.register_loaded(config, tools);
        self.wasm_manager = wasm;
        match outcome {
            Ok(()) => Ok(()),
            Err(e) => {
                let mut v: Vec<char> = Vec::new();
                push_str(&mut v, "Failed to load WASM plugin: ");
                push_str(&mut v, e.as_str());
                Err(from_chars(v.as_slice()))
            },
        }
    }

    /// The names of all tools of the registered plugins, plugin by plugin.
    pub fn get_all_tools(&self) -> (r: Vec<String>)
        ensures
            r@.map_values(|t: String| t@) == all_tool_names(self.records()),
    {
        let mut r: Vec<String> = Vec::new();
        let mut i: usize = 0;
        while i < self.plugins.len()
            invariant
                i <= self.plugins.len(),
                r@.map_values(|t: String| t@) == all_tool_names(self.plugins@.take(i as int)),
            decreases self.plugins.len() - i,
        {
            let tools = &self.plugins[i].1.tools;
            let ghost before = r@;
            let mut j: usize = 0;
            while j < tools.len()
                invariant
                    j <= tools.len(),
                    r@ == before + tools@.take(j as int),
                decreases tools.len() - j,
            {
                r.push(tools[j].clone());
                proof {
                    assert(tools@.take(j + 1) =~= tools@.take(j as int).push(tools@[j as int]));
                }
                j += 1;
            }
            i += 1;
            proof {
                assert(tools@.take(tools.len() as int) =~= tools@);
                assert(self.plugins@.take(i as int).drop_last() =~= self.plugins@.take(i - 1));
                assert(r@.map_values(|t: String| t@) =~= all_tool_names(self.plugins@.take(i as int)));
            }
        }
        proof {
            assert(self.plugins@.take(self.plugins.len() as int) =~= self.plugins@);
        }
        r
    }

    /// Gets the plugin that provides a specific tool
    pub fn get_plugin_for_tool(&self, tool_name: &str) -> (r: Option<String>)
        ensures
            match r {
                Some(p) => self.providers().dom().contains(tool_name@) && p@ == self.providers()[tool_name@],
                None => !self.providers().dom().contains(tool_name@),
            },
    {
        self.tools.provider(tool_name)
    }

    /// Where a call of `tool_name` goes: a tool no plugin provides, or whose
    /// plugin is not registered, is refused as an invalid request; only
    /// WebAssembly plugins run calls.
    pub fn route_call(&self, tool_name: &str) -> (r: CallRoute)
        ensures
            !self.providers().dom().contains(tool_name@) ==> (r matches CallRoute::Refused(c, m) && c
                == McpCode::InvalidParams && m@ == "Tool '"@ + tool_name@ + "' not registered"@),
            self.providers().dom().contains(tool_name@) ==> ({
                let p = self.providers()[tool_name@];
                if !self.registered().dom().contains(p) {
                    r matches CallRoute::Refused(c, m) && c == McpCode::InvalidParams && m@ == "Plugin '"@ + p
                        + "' not found"@
                } else {
                    match self.registered()[p].config.plugin_type {
                        PluginType::Wasm => r is Wasm,
                        PluginType::Native => r matches CallRoute::Refused(c, m) && c == McpCode::InternalError
                            && m@ == "Native plugin execution not yet implemented"@,
                        PluginType::Remote => r matches CallRoute::Refused(c, m) && c == McpCode::InternalError
                            && m@ == "Remote plugin execution not yet implemented"@,
                    }
                }
            }),
    {
        proof {
            use_type_invariant(self);
        }
        match self.tools.provider(tool_name) {
            None => {
                let mut v: Vec<char> = Vec::new();
                push_str(&mut v, "Tool '");
                push_str(&mut v, tool_name);
                push_str(&mut v, "' not registered");
                CallRoute::Refused(McpCode::InvalidParams, from_chars(v.as_slice()))
            },
            Some(p) => match super::name_position(&self.plugins, p.as_str()) {
                None => {
                    let mut v: Vec<char> = Vec::new();
                    push_str(&mut v, "Plugin '");
                    push_str(&mut v, p.as_str());
                    push_str(&mut v, "' not found");
                    CallRoute::Refused(McpCode::InvalidParams, from_chars(v.as_slice()))
                },
                Some(i) => {
                    proof {
                        super::lemma_named_lookup(self.plugins@, i as int);
                    }
                    match self.plugins[i].1.config.plugin_type {
                        PluginType::Wasm => CallRoute::Wasm,
                        PluginType::Native => CallRoute::Refused(
                            McpCode::InternalError,
                            owned("Native plugin execution not yet implemented"),
                        ),
                        PluginType::Remote => CallRoute::Refused(
                            McpCode::InternalError,
                            owned("Remote plugin execution not yet implemented"),
                        ),
                    }
                },
            },
        }
    }

    /// The manager of WebAssembly plugins.
    pub fn wasm_manager(&self) -> (r: &WasmPluginManager)
        ensures
            *r == self.wasm(),
    {
        &self.wasm_manager
    }

    /// Gets whether signature verification is enabled
    pub fn verify_signatures(&self) -> (r: bool)
        ensures
            r == self.verifies(),
    {
        self.verify_signatures
    }

    /// Sets whether to verify plugin signatures
    pub fn set_verify_signatures(&mut self, verify: bool)
        ensures
            final(self).verifies() == verify,
            final(self).registered() == old(self).registered(),
            final(self).providers() == old(self).providers(),
            final(self).cache() == old(self).cache(),
    {
        proof {
            use_type_invariant(&*self);
        }
        self.verify_signatures = verify;
    }
}

/// The tool names of `records`, record by record.
pub open spec fn all_tool_names(records: Seq<(String, PluginRecord)>) -> Seq<Seq<char>>
    decreases records.len(),
{
    if records.len() == 0 {
        seq![]
    } else {
        all_tool_names(records.drop_last()) + records.last().1.tools@.map_values(|t: String| t@)
    }
}

} // verus!
