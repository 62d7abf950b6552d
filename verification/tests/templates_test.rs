use cloudid::templates::{now_utc, substitute_variables, TemplateFormat};

#[test]
fn test_format_detection() {
    assert_eq!(TemplateFormat::from_filename("agent-runner.ign.json"), TemplateFormat::Ignition);
    assert_eq!(TemplateFormat::from_filename("base-server.ks"), TemplateFormat::Kickstart);
    assert_eq!(TemplateFormat::from_filename("base-server.yaml"), TemplateFormat::CloudConfig);
}

#[test]
fn test_substitute_variables() {
    let content = r#"{"hostname": "{{HOSTNAME}}", "short": "{{SHORT_HOSTNAME}}", "ip": "{{IP}}"}"#;
    let result = substitute_variables(
        content,
        "server1.g10.lo",
        "192.168.10.10",
        "server1",
        "gt",
        ".g10.lo",
        "agent-runner",
    );
    assert!(result.contains("server1.g10.lo"));
    assert!(result.contains("\"short\": \"server1\""));
    assert!(result.contains("192.168.10.10"));
}

#[test]
fn test_now_utc_format() {
    let ts = now_utc();
    assert!(ts.ends_with('Z'));
    assert_eq!(ts.len(), 20);
    assert_eq!(&ts[4..5], "-");
    assert_eq!(&ts[7..8], "-");
    assert_eq!(&ts[10..11], "T");
}
