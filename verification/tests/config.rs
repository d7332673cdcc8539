use airpcez::cluster::NodeEntry;
use airpcez::config::{apply_cli_overrides, Config};
use airpcez::model::Role;

fn args(a: &[&str]) -> Vec<String> {
    a.iter().map(|s| s.to_string()).collect()
}

#[test]
fn rpc_binary_path_resolution() {
    let mut c = Config::default();
    c.rpc_binary = None;
    c.llama_dir = None;
    assert_eq!(c.rpc_binary_path(), "rpc-server");
    c.llama_dir = Some("/llama/build/bin/".to_string());
    assert_eq!(c.rpc_binary_path(), "/llama/build/bin/rpc-server");
    c.rpc_binary = Some("/custom/rpc-server".to_string());
    assert_eq!(c.rpc_binary_path(), "/custom/rpc-server");
}

#[test]
fn apply_cli_overrides_sets_known_fields() {
    let c = apply_cli_overrides(Config::default(), &args(&["--role", "host", "--ui-port", "9000", "--llama-dir", "/x"]));
    assert_eq!(c.role, Role::Host);
    assert_eq!(c.ui_port, 9000);
    assert_eq!(c.llama_dir, Some("/x".into()));
}

#[test]
fn apply_cli_overrides_invalid_port_leaves_default() {
    let c = apply_cli_overrides(Config::default(), &args(&["--ui-port", "abc"]));
    assert_eq!(c.ui_port, 8675);
}

#[test]
fn apply_cli_overrides_trailing_flag_no_panic() {
    let c = apply_cli_overrides(Config::default(), &args(&["--node-name"]));
    let _ = c.node_name;
}

#[test]
fn rpc_device_filter_explicit_override_wins() {
    let mut c = Config::default();
    c.rpc_device = Some("CUDA0".into());
    assert_eq!(c.rpc_device_filter(false), Some("CUDA0".to_string()));
    assert_eq!(c.rpc_device_filter(true), Some("CUDA0".to_string()));
}

#[test]
fn rpc_device_filter_default_platform_behavior() {
    let c = Config::default();
    assert_eq!(c.rpc_device_filter(true), Some("MTL0".to_string()));
    assert_eq!(c.rpc_device_filter(false), None);
}

#[test]
fn apply_cli_overrides_rpc_device() {
    let c = apply_cli_overrides(Config::default(), &args(&["--rpc-device", "CUDA0"]));
    assert_eq!(c.rpc_device, Some("CUDA0".into()));
}

#[test]
fn defaults_name_the_node_after_the_host() {
    let c = Config::defaults_for_host(Some("m2-pro".into()));
    assert_eq!(c.node_name, "m2-pro");
    assert_eq!((c.ui_port, c.rpc_port, c.llama_port), (8675, 50052, 8080));
    assert_eq!(c.role, Role::Worker);
    assert!(c.nodes.is_empty());
    let d = Config::defaults_for_host(None);
    assert_eq!(d.node_name, "airpcez-node");
}

#[test]
fn overrides_parse_every_port_and_keep_nodes() {
    let mut base = Config::defaults_for_host(Some("h".into()));
    base.nodes.push(NodeEntry { name: "w".into(), addr: "10.0.0.2:8675".into() });
    let c = apply_cli_overrides(
        base,
        &args(&[
            "--rpc-port", "+50053", "--llama-port", "70000", "--role", "worker", "--unknown", "--node-name",
            "box", "--hf-cache-dir", "/hf", "--rpc-binary", "/b/rpc",
        ]),
    );
    assert_eq!(c.rpc_port, 50053);
    assert_eq!(c.llama_port, 8080);
    assert_eq!(c.role, Role::Worker);
    assert_eq!(c.node_name, "box");
    assert_eq!(c.hf_cache_dir.as_deref(), Some("/hf"));
    assert_eq!(c.rpc_binary.as_deref(), Some("/b/rpc"));
    assert_eq!(c.nodes.len(), 1);
}

#[test]
fn invalid_port_value_is_read_as_next_flag() {
    let c = apply_cli_overrides(Config::defaults_for_host(None), &args(&["--ui-port", "--rpc-port", "1234"]));
    assert_eq!(c.ui_port, 8675);
    assert_eq!(c.rpc_port, 1234);
}

#[test]
fn rpc_binary_path_without_trailing_slash() {
    let mut c = Config::defaults_for_host(None);
    c.llama_dir = Some("/llama".into());
    assert_eq!(c.rpc_binary_path(), "/llama/rpc-server");
    c.llama_dir = Some("/llama///".into());
    assert_eq!(c.rpc_binary_path(), "/llama/rpc-server");
}

#[test]
fn applying_overrides_twice_equals_once() {
    let a = args(&["--ui-port", "9000", "--role", "host", "--llama-dir", "/x", "--rpc-port", "bad", "--node-name", "n"]);
    let once = apply_cli_overrides(Config::defaults_for_host(Some("h".into())), &a);
    let twice = apply_cli_overrides(once.clone(), &a);
    assert_eq!((twice.ui_port, twice.rpc_port, twice.role), (once.ui_port, once.rpc_port, once.role));
    assert_eq!((twice.llama_dir, twice.node_name), (once.llama_dir, once.node_name));
    let none = apply_cli_overrides(Config::defaults_for_host(Some("h".into())), &[]);
    assert_eq!(none.node_name, "h");
    assert_eq!(none.ui_port, 8675);
}
