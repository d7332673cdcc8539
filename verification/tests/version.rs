use airpcez::version::parse_llama_version;

#[test]
fn parses_build_number() {
    assert_eq!(parse_llama_version("version: 9789 (abc1234)\nbuilt with ..."), Some("b9789".into()));
    assert_eq!(parse_llama_version("build: 9789 (abc)"), Some("b9789".into()));
    assert_eq!(parse_llama_version("garbage"), None);
}

#[test]
fn version_line_may_follow_other_output() {
    assert_eq!(parse_llama_version("load_backend: ok\n  version: 42 (x)\n"), Some("b42".into()));
    assert_eq!(parse_llama_version("version: abc\nbuild: 7\n"), Some("b7".into()));
    assert_eq!(parse_llama_version(""), None);
}
