use parc::error::ParcError;
use parc::guest::{
    event_reply, find_plugin, guest_alloc_region, guest_payload_len, host_log_line, log_level_name, render_reply,
    validation_reply, HostCall, PluginLimits, PluginState, MAX_PLUGIN_OUTPUT_BYTES,
};
use parc::plugin::{PluginCapabilities, PluginManifest, PluginMeta};

fn state() -> PluginState {
    let manifest = PluginManifest {
        plugin: PluginMeta { name: "echo".into(), version: "0.1.0".into(), description: "".into(), wasm: "echo.wasm".into() },
        capabilities: PluginCapabilities::default(),
    };
    PluginState::new(manifest, "/v/.parc".into(), "{}".into())
}

#[test]
fn output_is_capped_at_one_mebibyte() {
    let mut s = state();
    assert_eq!(s.replace_output(b"hello"), Some(5));
    assert_eq!(s.output_string().unwrap(), "hello");
    let big = vec![b'x'; MAX_PLUGIN_OUTPUT_BYTES + 1];
    assert_eq!(s.replace_output(&big), None);
    assert_eq!(s.output_buffer.len(), MAX_PLUGIN_OUTPUT_BYTES);
    assert!(s.output_truncated);
    assert!(matches!(s.output_string(), Err(ParcError::PluginError(m)) if m == "plugin output exceeded 1048576 bytes"));
    s.clear_output();
    assert!(s.append_output(b"ab"));
    assert!(!s.output_truncated);
    s.host_output(b"cd");
    assert_eq!(s.output_buffer, b"abcd".to_vec());
    assert_eq!(s.set_host_output(b"xyz"), 3);
    assert_eq!(s.output_buffer, b"xyz".to_vec());
}

#[test]
fn limits() {
    let l = PluginLimits;
    assert!(l.memory_growing(64 * 1024 * 1024));
    assert!(!l.memory_growing(64 * 1024 * 1024 + 1));
    assert!(l.table_growing(100_000));
    assert!(!l.table_growing(100_001));
}

#[test]
fn call_results_are_read() {
    let mut s = state();
    assert_eq!(event_reply(&s, 0).unwrap(), None);
    assert_eq!(event_reply(&s, 1).unwrap(), None);
    s.replace_output("{\"x\":1}".as_bytes());
    assert_eq!(event_reply(&s, 1).unwrap(), Some("{\"x\":1}".to_string()));
    assert_eq!(render_reply(&s).unwrap(), Some("{\"x\":1}".to_string()));
    let v = validation_reply(&s, 0).unwrap();
    assert!(v.valid && v.errors.is_empty());
    s.replace_output(b"bad title\r\nno status\n");
    let v = validation_reply(&s, 1).unwrap();
    assert!(!v.valid);
    assert_eq!(v.errors, vec!["bad title", "no status"]);
    s.clear_output();
    assert_eq!(validation_reply(&s, 1).unwrap().errors, vec!["validation failed"]);
}

#[test]
fn guest_memory_checks() {
    assert_eq!(guest_payload_len(10).unwrap(), 10);
    assert!(matches!(guest_payload_len(1usize << 31), Err(ParcError::PluginError(m)) if m == "payload too large for wasm32 plugin"));
    assert_eq!(guest_alloc_region(16, 8, 64).unwrap(), (16, 24));
    assert!(matches!(guest_alloc_region(60, 8, 64), Err(ParcError::PluginError(m)) if m == "parc_alloc returned out-of-bounds region: ptr=60 len=8 mem_size=64"));
    assert!(matches!(guest_alloc_region(-1, 0, 64), Err(ParcError::PluginError(m)) if m == "parc_alloc returned out-of-bounds region: ptr=-1 len=0 mem_size=64"));
    assert!(matches!(guest_alloc_region(-1, 8, 64), Err(ParcError::PluginError(m)) if m == "parc_alloc returned ptr+len overflow"));
}

#[test]
fn host_logging_and_lookup() {
    assert_eq!(log_level_name(2), "WARN");
    assert_eq!(log_level_name(9), "LOG");
    assert_eq!(host_log_line("echo", 1, "ready"), "[echo][INFO] ready");
    let names = vec!["a".to_string(), "b".to_string()];
    assert_eq!(find_plugin(&names, "b").unwrap(), 1);
    assert!(matches!(find_plugin(&names, "z"), Err(ParcError::PluginError(m)) if m == "plugin 'z' not found"));
}

#[test]
fn host_calls_follow_capabilities() {
    let mut s = state();
    assert!(s.permits(HostCall::Output));
    assert!(s.permits(HostCall::Log));
    assert!(!s.permits(HostCall::FragmentGet));
    assert!(!s.permits(HostCall::FragmentCreate));
    s.manifest.capabilities.read_fragments = true;
    assert!(s.permits(HostCall::FragmentSearch));
    assert!(s.permits(HostCall::FragmentList));
    assert!(!s.permits(HostCall::FragmentUpdate));
    s.manifest.capabilities.write_fragments = true;
    assert!(s.permits(HostCall::FragmentUpdate));
    assert_eq!(HostCall::FragmentGet.import_name(), "parc_host_fragment_get");
    assert_eq!(HostCall::Log.import_name(), "parc_host_log");
}

#[test]
fn host_output_is_capped_too() {
    let mut s = state();
    let big = vec![b'y'; MAX_PLUGIN_OUTPUT_BYTES + 10];
    assert_eq!(s.set_host_output(&big), -1);
    assert_eq!(s.output_buffer.len(), MAX_PLUGIN_OUTPUT_BYTES);
    assert!(s.output_truncated);
    assert_eq!(s.set_host_output(b"ok"), 2);
    assert!(!s.output_truncated);
    s.clear_output();
    s.host_output(&vec![b'z'; MAX_PLUGIN_OUTPUT_BYTES - 1]);
    assert!(!s.output_truncated);
    s.host_output(b"abc");
    assert_eq!(s.output_buffer.len(), MAX_PLUGIN_OUTPUT_BYTES);
    assert!(s.output_truncated);
    assert!(s.output_string().is_err());
}
