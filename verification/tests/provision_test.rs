use cloudid::ignition::{generate_ignition, merge_ignition};
use cloudid::json::JsonValue;
use cloudid::model::{CloudConfig, CloudConfigUser, HostMetadata, PublicKeyEntry};
use cloudid::provision::{extract_image_type, generate_kickstart, merge_kickstart, parse_config_template_ref};
use serde_json::Value;

fn make_metadata() -> HostMetadata {
    HostMetadata {
        instance_id: "server1".to_string(),
        hostname: "server1.g10.lo".to_string(),
        local_hostname: "server1".to_string(),
        local_ipv4: "192.168.10.10".to_string(),
        availability_zone: "gt".to_string(),
        public_keys: vec![
            PublicKeyEntry {
                ssh_user: "core".to_string(),
                keys: vec!["ssh-rsa AAAA_TEST core-key".to_string()],
            },
            PublicKeyEntry {
                ssh_user: "root".to_string(),
                keys: vec!["ssh-rsa AAAA_TEST root-key".to_string()],
            },
        ],
        user_data: String::new(),
        cloud_config: CloudConfig {
            users: vec![CloudConfigUser {
                name: "gwest".to_string(),
                uid: "1000".to_string(),
                groups: vec!["wheel".to_string()],
                shell: "/bin/bash".to_string(),
                sudo: Some("ALL=(ALL) NOPASSWD:ALL".to_string()),
                ssh_authorized_keys: vec!["ssh-rsa AAAA_TEST gwest-key".to_string()],
            }],
        },
    }
}

fn s(text: &str) -> JsonValue {
    JsonValue::Str(text.to_string())
}

fn obj(members: Vec<(&str, JsonValue)>) -> JsonValue {
    JsonValue::Object(members.into_iter().map(|(k, v)| (k.to_string(), v)).collect())
}

#[test]
fn test_generate_ignition() {
    let meta = make_metadata();
    let output = generate_ignition(&meta);
    let parsed: Value = serde_json::from_str(&output).expect("valid JSON");

    assert_eq!(parsed["ignition"]["version"], "3.4.0");
    let users = parsed["passwd"]["users"].as_array().unwrap();
    assert!(users.iter().any(|u| u["name"] == "core"));
    assert!(users.iter().any(|u| u["name"] == "root"));
    assert!(users.iter().any(|u| u["name"] == "gwest"));

    let files = parsed["storage"]["files"].as_array().unwrap();
    assert!(files.iter().any(|f| f["path"] == "/etc/hostname"));
}

#[test]
fn test_merge_ignition() {
    let meta = make_metadata();
    let base = obj(vec![
        ("ignition", obj(vec![("version", s("3.4.0"))])),
        (
            "passwd",
            obj(vec![(
                "users",
                JsonValue::Array(vec![obj(vec![
                    ("name", s("core")),
                    ("sshAuthorizedKeys", JsonValue::Array(vec![s("ssh-rsa EXISTING_KEY existing")])),
                ])]),
            )]),
        ),
    ]);

    let output = merge_ignition(&base, &meta);
    let parsed: Value = serde_json::from_str(&output).expect("valid JSON");

    let users = parsed["passwd"]["users"].as_array().unwrap();
    let core_user = users.iter().find(|u| u["name"] == "core").unwrap();
    let core_keys = core_user["sshAuthorizedKeys"].as_array().unwrap();
    assert!(core_keys.len() >= 2);

    assert!(users.iter().any(|u| u["name"] == "gwest"));
}

#[test]
fn test_generate_kickstart() {
    let meta = make_metadata();
    let output = generate_kickstart(&meta);

    assert!(output.contains("#version=RHEL9"));
    assert!(output.contains("network --hostname=server1.g10.lo"));
    assert!(output.contains("sshkey --username=root"));
    assert!(output.contains("sshkey --username=core"));
    assert!(output.contains("user --name=gwest"));
    assert!(output.contains("%packages"));
}

#[test]
fn test_merge_kickstart() {
    let meta = make_metadata();
    let base = "#version=RHEL9\nlang en_US.UTF-8\n%packages\n@core\n%end\n";

    let output = merge_kickstart(base, &meta);

    assert!(output.contains("sshkey --username=root"));
    assert!(output.contains("user --name=gwest"));
    let ssh_pos = output.find("sshkey").unwrap();
    let pkg_pos = output.find("%packages").unwrap();
    assert!(ssh_pos < pkg_pos);
}

#[test]
fn test_extract_image_type() {
    assert_eq!(extract_image_type("fcos-44"), "fcos");
    assert_eq!(extract_image_type("fedora-9"), "fedora");
    assert_eq!(extract_image_type("ubuntu-24.04"), "ubuntu");
    assert_eq!(extract_image_type("fcos"), "fcos");
    assert_eq!(extract_image_type("my-custom-image-3"), "my-custom-image");
}

#[test]
fn test_parse_config_template_ref() {
    let (it, name) = parse_config_template_ref("fcos/agent-runner.ign.json");
    assert_eq!(it, "fcos");
    assert_eq!(name, "agent-runner.ign.json");

    let (it, name) = parse_config_template_ref("just-a-name");
    assert_eq!(it, "default");
    assert_eq!(name, "just-a-name");
}
