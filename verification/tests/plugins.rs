use winx_code_agent::error::McpCode;
use winx_code_agent::plugins::manager::{CallRoute, PluginConfig, PluginManager, PluginType, Registration, RuntimeConfig};
use winx_code_agent::plugins::wasm::WasmPluginManager;
use winx_code_agent::plugins::ToolRegistry;

fn config(name: &str, kind: PluginType, enabled: bool) -> PluginConfig {
    PluginConfig {
        name: name.to_string(),
        path: format!("{}.wasm", name),
        runtime_config: None,
        oci_reference: None,
        language: None,
        version: None,
        checksum: None,
        enabled,
        plugin_type: kind,
    }
}

fn names(v: &[&str]) -> Vec<String> {
    v.iter().map(|s| s.to_string()).collect()
}

#[test]
fn registered_tools_are_provided_by_their_plugin() {
    let mut r = ToolRegistry::new();
    assert_eq!(r.register("p", &names(&["a", "b"])), Ok(()));
    assert_eq!(r.provider("a"), Some("p".to_string()));
    assert_eq!(r.provider("b"), Some("p".to_string()));
    assert_eq!(r.provider("c"), None);
}

#[test]
fn a_tool_of_another_plugin_is_not_taken_over() {
    let mut r = ToolRegistry::new();
    r.register("p", &names(&["a"])).unwrap();
    let err = r.register("q", &names(&["x", "a", "y"])).unwrap_err();
    assert_eq!(err, "Tool name collision: 'a' is provided by both 'p' and 'q'");
    assert_eq!(r.provider("a"), Some("p".to_string()));
    // Tools before the collision stay registered, those after it are not.
    assert_eq!(r.provider("x"), Some("q".to_string()));
    assert_eq!(r.provider("y"), None);
}

#[test]
fn native_plugins_are_registered_and_refuse_calls() {
    let mut m = PluginManager::with_settings("/cache", true);
    assert_eq!(m.register_plugin(config("n", PluginType::Native, true), names(&["t1", "t2"])), Ok(Registration::Registered));
    assert_eq!(m.get_plugin_for_tool("t1"), Some("n".to_string()));
    assert_eq!(m.get_all_tools(), names(&["t1", "t2"]));
    match m.route_call("t1") {
        CallRoute::Refused(code, msg) => {
            assert_eq!(code, McpCode::InternalError);
            assert_eq!(msg, "Native plugin execution not yet implemented");
        }
        CallRoute::Wasm => panic!("native tools do not run"),
    }
    match m.route_call("nope") {
        CallRoute::Refused(code, msg) => {
            assert_eq!(code, McpCode::InvalidParams);
            assert_eq!(msg, "Tool 'nope' not registered");
        }
        CallRoute::Wasm => panic!("unknown tools do not run"),
    }
}

#[test]
fn disabled_and_wasm_plugins() {
    let mut m = PluginManager::with_settings("/cache", false);
    assert_eq!(m.register_plugin(config("off", PluginType::Native, false), names(&["t"])), Ok(Registration::Skipped));
    assert_eq!(m.get_plugin_for_tool("t"), None);
    assert_eq!(m.register_plugin(config("w", PluginType::Wasm, true), names(&["w1"])), Ok(Registration::LoadWasm));
    assert_eq!(m.register_wasm_tools(config("w", PluginType::Wasm, true), names(&["w1"])), Ok(()));
    assert_eq!(m.wasm_manager().plugin_for_call("w1").unwrap(), "w");
    assert!(!m.verify_signatures());
}

#[test]
fn wasm_calls_of_unknown_tools_are_refused() {
    let w = WasmPluginManager::new("/cache", false);
    let err = w.plugin_for_call("ghost").unwrap_err();
    assert_eq!(err.to_text().unwrap(), "Tool 'ghost' not found");
    assert_eq!(w.verify_plugin_signature("x.wasm").unwrap(), true);
}

#[test]
fn manifest_settings_follow_the_runtime_config() {
    let w = WasmPluginManager::new("/cache", true);
    let mut c = config("m", PluginType::Wasm, true);
    c.runtime_config = Some(RuntimeConfig {
        allowed_hosts: Some(names(&["example.com"])),
        allowed_paths: None,
        env_vars: None,
        memory_limit: Some(1024),
        timeout_ms: Some(500),
    });
    let s = w.manifest_settings(&c);
    assert_eq!(s.wasm_path, "m.wasm");
    assert_eq!(s.allowed_hosts, Some(names(&["example.com"])));
    assert_eq!(s.memory, Some("1024".to_string()));
    assert_eq!(s.timeout_ms, Some(500));
    let err = w.load_from_oci(&config("o", PluginType::Wasm, true)).unwrap_err();
    assert_eq!(err.to_text().unwrap(), "Invalid argument: No OCI reference provided");
}

#[test]
fn the_default_plugin_type_is_wasm() {
    assert_eq!(PluginType::default(), PluginType::Wasm);
    let m = PluginManager::new();
    assert!(m.verify_signatures());
}
