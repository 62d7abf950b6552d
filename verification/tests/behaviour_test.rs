use cloudid::agent::{has_keys, response_ok, home_dir, index_entries, index_for_user, keys_file, temp_keys_file};
use cloudid::cache::{
    bmh_hostname, bmh_ip_text, container_info, namespace_owner, watch_action, AppState, BmhState, WatchAction,
};
use cloudid::config::{
    keys_from_file, keys_from_files, AmoConfig, Config, MetadataConfig, MkubeConfig, ServerConfig, StaticHostAccessConfig,
    StaticUserConfig, TemplateAssignmentConfig, TemplatesConfig,
};
use cloudid::ignition::{build_ignition, build_ignition_users, is_mergeable, merge_ignition, url_encode};
use cloudid::imds::{
    identity_document, mac_address, meta_data_listing, public_key_text, public_keys_listing, subnet_cidr, token_ttl,
};
use cloudid::json::{to_pretty_string, JsonValue};
use cloudid::model::{
    BareMetalHost, BmhMeta, BmhSpec, BmhStatus, CloudConfig, CloudConfigUser, HostMetadata, PublicKeyEntry,
};
use cloudid::netcfg::{has_metadata_route, metadata_route, nat_action, router_target, NatAction, NatRule};
use cloudid::provision::{
    build_kickstart, finish_template, generate_kickstart, merge_kickstart, parse_template_ref, select_template,
    render_template, template_file_candidates, template_info_for, template_info_value, TemplateInfo, TemplateResult,
};
use cloudid::templates::{
    format_utc, join_path, sort_summaries, LoadedTemplate, summary_of, Assignment, AssignmentsFile, OneshotState, TemplateFormat,
    TemplateMode, TemplateStore,
};
use cloudid::text::parse_u32;
use serde_json::Value;

fn small_meta(users: Vec<CloudConfigUser>) -> HostMetadata {
    HostMetadata {
        instance_id: "node1".to_string(),
        hostname: "node1.lab".to_string(),
        local_hostname: "node1".to_string(),
        local_ipv4: "10.2.3.4".to_string(),
        availability_zone: "az1".to_string(),
        public_keys: vec![
            PublicKeyEntry { ssh_user: "core".to_string(), keys: vec!["k-core".to_string()] },
            PublicKeyEntry { ssh_user: "root".to_string(), keys: vec!["k-root".to_string()] },
        ],
        user_data: String::new(),
        cloud_config: CloudConfig { users },
    }
}

fn ann(uid: &str, sudo: bool) -> CloudConfigUser {
    CloudConfigUser {
        name: "ann".to_string(),
        uid: uid.to_string(),
        groups: vec![],
        shell: "/bin/zsh".to_string(),
        sudo: if sudo { Some("ALL=(ALL) NOPASSWD:ALL".to_string()) } else { None },
        ssh_authorized_keys: vec!["k-ann".to_string()],
    }
}

fn bmh(template: Option<&str>, image: &str) -> BareMetalHost {
    BareMetalHost {
        metadata: BmhMeta {
            name: "srv-obj".to_string(),
            namespace: "g10".to_string(),
            labels: vec![("tier".to_string(), "web".to_string())],
            annotations: vec![],
        },
        spec: BmhSpec {
            boot_mac_address: String::new(),
            online: None,
            image: image.to_string(),
            network: String::new(),
            ip: "10.0.0.7".to_string(),
            hostname: String::new(),
            bmc: None,
            template: template.map(|t| t.to_string()),
            ignition: None,
            kickstart: None,
        },
        status: None,
    }
}

fn s(text: &str) -> JsonValue {
    JsonValue::Str(text.to_string())
}

fn obj(members: Vec<(&str, JsonValue)>) -> JsonValue {
    JsonValue::Object(members.into_iter().map(|(k, v)| (k.to_string(), v)).collect())
}

fn test_config() -> Config {
    Config {
        server: ServerConfig { metadata_addr: "127.0.0.1:0".to_string() },
        amo: AmoConfig { nats_url: "nats://127.0.0.1:4222".to_string() },
        mkube: MkubeConfig { url: "http://127.0.0.1:8082".to_string() },
        metadata: MetadataConfig {
            domain_suffix: ".test.lo".to_string(),
            availability_zone: "test-az".to_string(),
            cache_rebuild_interval_secs: 30,
            dhcp_sources: vec![],
        },
        static_users: vec![],
        static_host_access: vec![],
        templates: TemplatesConfig::default(),
    }
}

#[test]
fn generated_kickstart_is_exact() {
    let meta = small_meta(vec![ann("1001", false)]);
    let expected = "#version=RHEL9\n# Generated by CloudID\n\nlang en_US.UTF-8\nkeyboard us\ntimezone UTC --utc\n\
network --hostname=node1.lab\nrootpw --lock\n\nsshkey --username=core \"k-core\"\nsshkey --username=root \"k-root\"\n\
user --name=ann --uid=1001 --shell=/bin/zsh\nsshkey --username=ann \"k-ann\"\n\nreboot\n\n%packages\n@core\n%end\n";
    assert_eq!(generate_kickstart(&meta), expected);
}

#[test]
fn merged_kickstart_is_exact() {
    let mut user = ann("1001", false);
    user.groups = vec!["wheel".to_string(), "dev".to_string()];
    let meta = small_meta(vec![user]);
    let base = "lang C\r\n%post\necho hi\n%end\n";
    let expected = "lang C\nnetwork --hostname=node1.lab\nsshkey --username=root \"k-root\"\n\
user --name=ann --uid=1001 --groups=wheel,dev  --shell=/bin/zsh\nsshkey --username=ann \"k-ann\"\n\n%post\necho hi\n%end";
    assert_eq!(merge_kickstart(base, &meta), expected);
}

#[test]
fn merged_kickstart_keeps_existing_hostname_and_appends_at_end() {
    let meta = small_meta(vec![]);
    let base = "network --bootproto=dhcp --hostname=x\nlang C";
    assert_eq!(merge_kickstart(base, &meta), "network --bootproto=dhcp --hostname=x\nlang C\nsshkey --username=root \"k-root\"\n");
}

#[test]
fn kickstart_from_bmh_base_or_generated() {
    let meta = small_meta(vec![]);
    let mut host = bmh(None, "fedora-9");
    assert_eq!(build_kickstart(&meta, Some(&host)), generate_kickstart(&meta));
    host.spec.kickstart = Some("%packages\n%end".to_string());
    assert_eq!(build_kickstart(&meta, Some(&host)), merge_kickstart("%packages\n%end", &meta));
    assert_eq!(build_kickstart(&meta, None), generate_kickstart(&meta));
}

#[test]
fn ignition_users_merge_system_and_identity_entries() {
    let mut meta = small_meta(vec![ann("1001", true)]);
    meta.cloud_config.users.push(CloudConfigUser {
        name: "root".to_string(),
        uid: "0".to_string(),
        groups: vec![],
        shell: "/bin/bash".to_string(),
        sudo: None,
        ssh_authorized_keys: vec!["k-root".to_string(), "k-extra".to_string()],
    });
    let users = build_ignition_users(&meta);
    assert_eq!(users.len(), 3);
    assert_eq!(users[0].name, "core");
    assert_eq!(users[0].uid, None);
    assert_eq!(users[1].name, "root");
    assert_eq!(users[1].ssh_authorized_keys, Some(vec!["k-root".to_string(), "k-extra".to_string()]));
    assert_eq!(users[1].uid, Some(0));
    assert_eq!(users[1].shell, Some("/bin/bash".to_string()));
    assert_eq!(users[2].name, "ann");
    assert_eq!(users[2].uid, Some(1001));
    assert_eq!(users[2].groups, Some(vec!["wheel".to_string()]));
    assert_eq!(users[2].password_hash, Some(String::new()));
}

#[test]
fn ignition_uid_that_is_not_a_number_is_left_out() {
    let meta = small_meta(vec![ann("abc", false)]);
    let users = build_ignition_users(&meta);
    assert_eq!(users[2].uid, None);
    assert_eq!(users[2].groups, None);
}

#[test]
fn merged_ignition_is_laid_out_like_serde_json() {
    let meta = small_meta(vec![ann("1001", false)]);
    let base = obj(vec![
        ("ignition", obj(vec![("version", s("3.4.0"))])),
        (
            "storage",
            obj(vec![(
                "files",
                JsonValue::Array(vec![obj(vec![
                    ("contents", obj(vec![("inline", s("a b#c"))])),
                    ("overwrite", JsonValue::Bool(true)),
                    ("path", s("/etc/motd")),
                ])]),
            )]),
        ),
    ]);
    let out = merge_ignition(&base, &meta);
    let parsed: Value = serde_json::from_str(&out).expect("valid JSON");
    assert_eq!(serde_json::to_string_pretty(&parsed).unwrap(), out);
    let files = parsed["storage"]["files"].as_array().unwrap();
    assert_eq!(files.len(), 2);
    assert_eq!(files[0]["contents"]["source"], "data:,a%20b%23c");
    assert!(files[0]["contents"].get("inline").is_none());
    assert_eq!(files[1]["path"], "/etc/hostname");
    assert_eq!(files[1]["contents"]["source"], "data:,node1.lab");
    assert_eq!(files[1]["mode"], 420);
    let users = parsed["passwd"]["users"].as_array().unwrap();
    assert_eq!(users.len(), 3);
    assert_eq!(users[2]["name"], "ann");
    assert_eq!(users[2]["uid"], 1001);
    assert_eq!(users[2]["passwordHash"], "");
}

#[test]
fn merged_ignition_does_not_repeat_keys_or_hostname_file() {
    let meta = small_meta(vec![]);
    let base = obj(vec![
        (
            "passwd",
            obj(vec![(
                "users",
                JsonValue::Array(vec![obj(vec![
                    ("name", s("root")),
                    ("sshAuthorizedKeys", JsonValue::Array(vec![s("k-root")])),
                ])]),
            )]),
        ),
        (
            "storage",
            obj(vec![("files", JsonValue::Array(vec![obj(vec![("path", s("/etc/hostname"))])]))]),
        ),
    ]);
    let parsed: Value = serde_json::from_str(&merge_ignition(&base, &meta)).unwrap();
    assert_eq!(parsed["ignition"]["version"], "3.4.0");
    let users = parsed["passwd"]["users"].as_array().unwrap();
    assert_eq!(users.len(), 2);
    assert_eq!(users[0]["sshAuthorizedKeys"].as_array().unwrap().len(), 1);
    assert_eq!(parsed["storage"]["files"].as_array().unwrap().len(), 1);
}

#[test]
fn mergeable_bases() {
    assert!(is_mergeable(&JsonValue::Null));
    assert!(is_mergeable(&obj(vec![("passwd", obj(vec![]))])));
    assert!(!is_mergeable(&obj(vec![("storage", JsonValue::Array(vec![]))])));
    assert!(!is_mergeable(&JsonValue::Array(vec![])));
}

#[test]
fn ignition_from_bmh_base() {
    let meta = small_meta(vec![]);
    let mut host = bmh(None, "fcos-44");
    host.spec.ignition = Some(JsonValue::Null);
    let parsed: Value = serde_json::from_str(&build_ignition(&meta, Some(&host))).unwrap();
    assert_eq!(parsed["ignition"]["version"], "3.4.0");
    assert_eq!(parsed["passwd"]["users"].as_array().unwrap().len(), 2);
}

#[test]
fn url_encoding_escapes_data_url_characters() {
    assert_eq!(url_encode("a b%c\n\r#d"), "a%20b%25c%0A%0D%23d");
}

#[test]
fn pretty_json_matches_serde_json() {
    let v = obj(vec![
        ("a", JsonValue::Array(vec![])),
        ("b", obj(vec![])),
        ("c", JsonValue::Array(vec![JsonValue::Number("1".to_string()), s("x\"y\u{1}")])),
    ]);
    let text = to_pretty_string(&v);
    let parsed: Value = serde_json::from_str(&text).unwrap();
    assert_eq!(serde_json::to_string_pretty(&parsed).unwrap(), text);
}

#[test]
fn parse_u32_follows_str_parse() {
    assert_eq!(parse_u32("+5"), Some(5));
    assert_eq!(parse_u32("4294967295"), Some(4294967295));
    assert_eq!(parse_u32("4294967296"), None);
    assert_eq!(parse_u32(""), None);
    assert_eq!(parse_u32("+"), None);
    assert_eq!(parse_u32("-1"), None);
    assert_eq!(parse_u32("12a"), None);
}

#[test]
fn template_resolution_priority() {
    let rules = vec![
        TemplateAssignmentConfig { hosts: vec!["other".to_string()], template: "x/other.ks".to_string() },
        TemplateAssignmentConfig { hosts: vec!["*".to_string()], template: "plain.yaml".to_string() },
    ];
    let mut assignments = AssignmentsFile::default();
    let oneshot = OneshotState::default();
    assert_eq!(
        select_template(&oneshot, "srv", None, &assignments, &rules),
        Some(("default".to_string(), "plain.yaml".to_string()))
    );
    assignments.assignments.push((
        "srv".to_string(),
        Assignment { image_type: "fcos".to_string(), template: "runner.ign.json".to_string() },
    ));
    assert_eq!(
        select_template(&oneshot, "srv", None, &assignments, &rules),
        Some(("fcos".to_string(), "runner.ign.json".to_string()))
    );
    let host = bmh(Some("agent.ign.json"), "fcos-44");
    assert_eq!(
        select_template(&oneshot, "srv", Some(&host), &assignments, &rules),
        Some(("fcos".to_string(), "agent.ign.json".to_string()))
    );
    let empty = bmh(Some(""), "fcos-44");
    assert_eq!(
        select_template(&oneshot, "srv", Some(&empty), &assignments, &rules),
        Some(("fcos".to_string(), "runner.ign.json".to_string()))
    );
    let mut done = OneshotState::default();
    done.completed.push(("srv".to_string(), "1700000000".to_string()));
    assert_eq!(select_template(&done, "srv", Some(&host), &assignments, &rules), None);
    assert_eq!(parse_template_ref("ubuntu/b.yaml", &host), ("ubuntu".to_string(), "b.yaml".to_string()));
}

#[test]
fn oneshot_mark_and_reset() {
    let mut state = AppState::new(test_config());
    state.bmh.ip_to_hostname.push(("10.0.0.7".to_string(), "srv".to_string()));
    let rules = vec![TemplateAssignmentConfig { hosts: vec!["srv".to_string()], template: "f/a.ks".to_string() }];
    state.config.templates.assignments = rules;
    assert!(!state.mark_provisioned("10.9.9.9", "1".to_string()));
    assert!(state.mark_provisioned("10.0.0.7", "1".to_string()));
    assert_eq!(
        select_template(&state.oneshot, "srv", None, &state.assignments, &state.config.templates.assignments),
        None
    );
    assert!(state.reset_oneshot("srv"));
    assert!(!state.reset_oneshot("srv"));
    assert_eq!(
        select_template(&state.oneshot, "srv", None, &state.assignments, &state.config.templates.assignments),
        Some(("f".to_string(), "a.ks".to_string()))
    );
    state.assign_template(
        "srv".to_string(),
        Assignment { image_type: "g".to_string(), template: "b.ks".to_string() },
    );
    assert_eq!(
        select_template(&state.oneshot, "srv", None, &state.assignments, &state.config.templates.assignments),
        Some(("g".to_string(), "b.ks".to_string()))
    );
    assert!(state.unassign_template("srv"));
    assert!(!state.unassign_template("srv"));
}

#[test]
fn template_info_reports_source() {
    let rules = vec![TemplateAssignmentConfig { hosts: vec!["*".to_string()], template: "plain.yaml".to_string() }];
    let mut assignments = AssignmentsFile::default();
    assignments.assignments.push((
        "srv".to_string(),
        Assignment { image_type: "fcos".to_string(), template: "runner.ign.json".to_string() },
    ));
    let oneshot = OneshotState::default();
    match template_info_for(Some("srv".to_string()), &oneshot, None, Some(&assignments), &rules) {
        TemplateInfo::Assigned { hostname, source, template } => {
            assert_eq!(hostname, "srv");
            assert_eq!(source, Some("rest_assignment".to_string()));
            assert_eq!(template, Some("fcos/runner.ign.json".to_string()));
        }
        other => panic!("unexpected {:?}", other),
    }
    match template_info_for(Some("srv".to_string()), &oneshot, None, None, &rules) {
        TemplateInfo::Assigned { source, template, .. } => {
            assert_eq!(source, Some("config".to_string()));
            assert_eq!(template, Some("plain.yaml".to_string()));
        }
        other => panic!("unexpected {:?}", other),
    }
    assert!(matches!(template_info_for(None, &oneshot, None, None, &rules), TemplateInfo::UnknownIp));
}

#[test]
fn template_candidates_try_known_extensions() {
    assert_eq!(
        template_file_candidates("runner"),
        vec!["runner", "runner.ign.json", "runner.ks", "runner.yaml"]
    );
}

#[test]
fn finished_templates_by_format() {
    let meta = small_meta(vec![]);
    match finish_template(TemplateFormat::CloudConfig, "#cloud-config\n".to_string(), None, &meta) {
        TemplateResult::Config { content, format } => {
            assert_eq!(content, "#cloud-config\n");
            assert_eq!(format, TemplateFormat::CloudConfig);
        }
        TemplateResult::NoTemplate => panic!("expected a config"),
    }
    match finish_template(TemplateFormat::Kickstart, "lang C".to_string(), None, &meta) {
        TemplateResult::Config { content, .. } => assert_eq!(content, merge_kickstart("lang C", &meta)),
        TemplateResult::NoTemplate => panic!("expected a config"),
    }
    match finish_template(TemplateFormat::Ignition, "not json".to_string(), None, &meta) {
        TemplateResult::Config { content, .. } => assert_eq!(content, "not json"),
        TemplateResult::NoTemplate => panic!("expected a config"),
    }
}

#[test]
fn bmh_state_updates() {
    let mut state = BmhState::default();
    let mut host = bmh(None, "fcos-44");
    host.status = Some(BmhStatus { phase: String::new(), powered_on: true, ip: "10.0.0.8".to_string() });
    assert_eq!(bmh_ip_text(&host), Some("10.0.0.8".to_string()));
    assert_eq!(bmh_hostname(&host), "srv-obj");
    state.apply_host(host, "10.0.0.8".to_string());
    assert_eq!(state.ip_to_hostname, vec![("10.0.0.8".to_string(), "srv-obj".to_string())]);
    assert_eq!(state.host_namespace, vec![("srv-obj".to_string(), "g10".to_string())]);
    assert!(!state.add_lease("10.0.0.8".to_string(), "other".to_string()));
    assert!(!state.add_lease("10.0.0.9".to_string(), String::new()));
    assert!(state.add_lease("10.0.0.9".to_string(), "leased".to_string()));
    state.remove_host("srv-obj");
    assert_eq!(state.ip_to_hostname, vec![("10.0.0.9".to_string(), "leased".to_string())]);
    assert!(state.hosts.is_empty());
    assert_eq!(watch_action("ADDED"), WatchAction::Apply);
    assert_eq!(watch_action("MODIFIED"), WatchAction::Apply);
    assert_eq!(watch_action("DELETED"), WatchAction::Remove);
    assert_eq!(watch_action("BOOKMARK"), WatchAction::Ignore);
}

#[test]
fn container_watcher_helpers() {
    assert_eq!(namespace_owner(&vec![("vkube.io/owner".to_string(), "gwest".to_string())]), Some("gwest".to_string()));
    assert_eq!(namespace_owner(&vec![("vkube.io/owner".to_string(), String::new())]), None);
    assert_eq!(namespace_owner(&vec![]), None);
    let info = container_info("prod", "myapp", None);
    assert_eq!(info.container_name, "main");
    assert_eq!(info.hostname, "main.myapp");
    assert_eq!(container_info("prod", "myapp", Some("web")).hostname, "web.myapp");
}

#[test]
fn imds_helpers() {
    let meta = small_meta(vec![]);
    assert!(meta_data_listing(true).ends_with("services/\nnetwork/\n"));
    assert!(meta_data_listing(false).ends_with("services/\n"));
    assert_eq!(mac_address(&meta, None), "02:00:10:2:3:4");
    let mut host = bmh(None, "fcos");
    host.spec.boot_mac_address = "ac:1f:6b:8a:a7:9c".to_string();
    assert_eq!(mac_address(&meta, Some(&host)), "ac:1f:6b:8a:a7:9c");
    assert_eq!(subnet_cidr("192.168.10.10"), "192.168.10.0/24");
    assert_eq!(subnet_cidr("fd00::1"), "fd00::1");
    assert_eq!(public_keys_listing(&meta), "0=core\n1=root\n");
    assert_eq!(public_key_text(&meta, 1), Some("k-root".to_string()));
    assert_eq!(public_key_text(&meta, 2), None);
    assert_eq!(token_ttl(None), 21600);
    assert_eq!(token_ttl(Some("300")), 300);
    assert_eq!(token_ttl(Some("99999")), 21600);
    assert_eq!(token_ttl(Some("soon")), 21600);
    let doc: Value = serde_json::from_str(&to_pretty_string(&identity_document(&meta))).unwrap();
    assert_eq!(doc["instanceId"], "node1");
    assert_eq!(doc["region"], "az1");
    assert_eq!(doc["privateIp"], "10.2.3.4");
}

fn nat_rule(chain: &str, to: &str) -> NatRule {
    NatRule {
        id: "*7".to_string(),
        chain: chain.to_string(),
        dst_address: "169.254.169.254".to_string(),
        protocol: "tcp".to_string(),
        dst_port: "80".to_string(),
        action: "dst-nat".to_string(),
        to_addresses: to.to_string(),
        to_ports: "8090".to_string(),
        comment: String::new(),
    }
}

#[test]
fn nat_rule_decisions() {
    assert!(matches!(nat_action(&vec![nat_rule("dstnat", "10.0.0.2")], "10.0.0.2", "8090"), NatAction::Keep));
    match nat_action(&vec![nat_rule("srcnat", "x"), nat_rule("dstnat", "10.0.0.3")], "10.0.0.2", "8090") {
        NatAction::Update { id, patch } => {
            assert_eq!(id, "*7");
            assert_eq!(patch.to_addresses, "10.0.0.2");
        }
        other => panic!("unexpected {:?}", other),
    }
    match nat_action(&vec![nat_rule("srcnat", "x")], "10.0.0.2", "8090") {
        NatAction::Create { rule } => {
            assert_eq!(rule.chain, "dstnat");
            assert_eq!(rule.to_ports, "8090");
            assert_eq!(rule.comment, "IMDS redirect to cloudid (managed)");
        }
        other => panic!("unexpected {:?}", other),
    }
    assert!(has_metadata_route(&vec!["0.0.0.0/0".to_string(), "169.254.169.254/32".to_string()]));
    assert!(!has_metadata_route(&vec!["0.0.0.0/0".to_string()]));
    assert_eq!(metadata_route("192.168.10.1").gateway, "192.168.10.1");
}

#[test]
fn agent_helpers() {
    let entries = index_entries("0=root\n1=core\n\nnoequals\n2=a=b\n");
    assert_eq!(
        entries,
        vec![
            ("0".to_string(), "root".to_string()),
            ("1".to_string(), "core".to_string()),
            ("2".to_string(), "a=b".to_string())
        ]
    );
    assert_eq!(index_for_user(&entries, "core"), Some("1".to_string()));
    assert_eq!(index_for_user(&entries, "nobody"), None);
    assert_eq!(home_dir("root"), "/root");
    assert_eq!(home_dir("gwest"), "/home/gwest");
    assert_eq!(keys_file("gwest"), "/home/gwest/.ssh/authorized_keys.d/cloudid");
    assert_eq!(temp_keys_file("root"), "/root/.ssh/authorized_keys.d/.cloudid.tmp");
}

#[test]
fn template_store_listing_helpers() {
    assert!(summary_of("fcos", "a.ign.json.meta.json", None).is_none());
    let a = summary_of("fcos", "b.ks", None).unwrap();
    assert_eq!(a.mode, TemplateMode::Forever);
    assert_eq!(a.format, TemplateFormat::Kickstart);
    let b = summary_of("fcos", "a.ign.json", Some(TemplateMode::Oneshot)).unwrap();
    let c = summary_of("alpine", "z.yaml", None).unwrap();
    let sorted = sort_summaries(vec![a, b, c]);
    let keys: Vec<(String, String)> = sorted.iter().map(|t| (t.image_type.clone(), t.name.clone())).collect();
    assert_eq!(
        keys,
        vec![
            ("alpine".to_string(), "z.yaml".to_string()),
            ("fcos".to_string(), "a.ign.json".to_string()),
            ("fcos".to_string(), "b.ks".to_string())
        ]
    );
    let store = TemplateStore::new("/var/lib/cloudid/");
    assert_eq!(store.template_path("fcos", "a.ks"), "/var/lib/cloudid/templates/fcos/a.ks");
    assert_eq!(store.meta_path("fcos", "a.ks"), "/var/lib/cloudid/templates/fcos/a.ks.meta.json");
    assert_eq!(store.assignments_path(), "/var/lib/cloudid/assignments.json");
    assert_eq!(join_path("/a", "/b"), "/b");
}

#[test]
fn utc_formatting() {
    assert_eq!(format_utc(0), "1970-01-01T00:00:00Z");
    assert_eq!(format_utc(1_700_000_000), "2023-11-14T22:13:20Z");
    assert_eq!(format_utc(951_782_400), "2000-02-29T00:00:00Z");
}

#[test]
fn static_identity_and_key_files() {
    assert_eq!(keys_from_file("ssh-ed25519 A a@b\n\n# comment\nssh-rsa B c@d\r\n"), vec!["ssh-ed25519 A a@b", "ssh-rsa B c@d"]);
    let mut config = test_config();
    config.static_users = vec![StaticUserConfig {
        name: "ops".to_string(),
        uid: 1000,
        gid: 1000,
        shell: "/bin/bash".to_string(),
        groups: vec!["wheel".to_string()],
        ssh_key_files: vec!["/etc/cloudid/ops.pub".to_string()],
        ssh_keys: vec!["ssh-ed25519 A a@b".to_string()],
    }];
    config.static_host_access = vec![StaticHostAccessConfig {
        ssh_users: vec!["root".to_string()],
        hosts: vec!["*".to_string()],
        users: vec!["ops".to_string()],
        sudo: true,
    }];
    let mut state = AppState::new(config);
    assert_eq!(state.identity.users.len(), 1);
    assert_eq!(state.identity.users[0].1.spec.ssh_public_keys[0].name, "static-0");
    assert_eq!(state.identity.host_access[0].0, "static-rule-0");
    state.bmh.ip_to_hostname.push(("10.0.0.1".to_string(), "anything".to_string()));
    state.rebuild_cache();
    let meta = state.get_metadata("10.0.0.1").unwrap();
    assert_eq!(meta.public_keys[0].keys, vec!["ssh-ed25519 A a@b"]);
}

#[test]
fn merged_users_keep_base_entries_and_gain_identity_keys() {
    let meta = small_meta(vec![ann("1001", false)]);
    let base = obj(vec![(
        "passwd",
        obj(vec![(
            "users",
            JsonValue::Array(vec![
                obj(vec![("name", s("core")), ("sshAuthorizedKeys", JsonValue::Array(vec![s("k-old")]))]),
                obj(vec![("name", s("root")), ("sshAuthorizedKeys", s("not-a-list"))]),
                obj(vec![("name", s("svc"))]),
            ]),
        )]),
    )]);
    let parsed: Value = serde_json::from_str(&merge_ignition(&base, &meta)).unwrap();
    let users = parsed["passwd"]["users"].as_array().unwrap();
    // Base entries stay in place, in order, under their names.
    assert_eq!(users[0]["name"], "core");
    assert_eq!(users[1]["name"], "root");
    assert_eq!(users[2]["name"], "svc");
    // The key already there stays first; the identity's key follows.
    let core_keys: Vec<&str> =
        users[0]["sshAuthorizedKeys"].as_array().unwrap().iter().map(|k| k.as_str().unwrap()).collect();
    assert_eq!(core_keys, vec!["k-old", "k-core"]);
    // A key list that is no list is left alone.
    assert_eq!(users[1]["sshAuthorizedKeys"], "not-a-list");
    // A base entry no identity user names is untouched.
    assert!(users[2].get("sshAuthorizedKeys").is_none());
    // The identity user the base lacks is appended in full.
    assert_eq!(users.len(), 4);
    assert_eq!(users[3]["name"], "ann");
    assert_eq!(users[3]["sshAuthorizedKeys"][0], "k-ann");
}

#[test]
fn issued_token_answers_until_it_expires() {
    let mut state = AppState::new(test_config());
    let token = state.generate_imds_token("10.0.0.9", 60, "n1", 1_000);
    assert_eq!(token, "cloudid-n1");
    assert_eq!(state.validate_imds_token(&token, 1_059), Some("10.0.0.9".to_string()));
    assert_eq!(state.validate_imds_token(&token, 1_060), None);
    // A second token leaves the first one as it was.
    let other = state.generate_imds_token("10.0.0.10", 600, "n2", 1_000);
    assert_eq!(state.validate_imds_token(&other, 1_100), Some("10.0.0.10".to_string()));
    assert_eq!(state.validate_imds_token(&token, 1_010), Some("10.0.0.9".to_string()));
    // The expiry saturates instead of wrapping.
    let late = state.generate_imds_token("10.0.0.11", 60, "n3", u64::MAX - 5);
    assert_eq!(state.validate_imds_token(&late, u64::MAX - 1), Some("10.0.0.11".to_string()));
}

#[test]
fn router_target_of_rest_urls() {
    assert_eq!(router_target("http://192.168.200.1/rest"), Some("192.168.200.1:80".to_string()));
    assert_eq!(router_target("https://router.lab/rest"), Some("router.lab:443".to_string()));
    assert_eq!(router_target("http://10.1.1.1:8728/rest"), Some("10.1.1.1:8728".to_string()));
    assert_eq!(router_target("not a url"), None);
    assert_eq!(router_target("unix:/run/router.sock"), None);
}

#[test]
fn agent_reads_back_the_listing_it_is_served() {
    let meta = small_meta(vec![]);
    let entries = index_entries(&public_keys_listing(&meta));
    assert_eq!(entries, vec![("0".to_string(), "core".to_string()), ("1".to_string(), "root".to_string())]);
    assert_eq!(index_for_user(&entries, "root"), Some("1".to_string()));
    assert_eq!(public_key_text(&meta, 1), Some("k-root".to_string()));
}

#[test]
fn state_well_formedness_is_checked() {
    let mut state = AppState::new(test_config());
    assert!(state.well_formed());
    state.bmh.ip_to_hostname.push(("10.0.0.1".to_string(), "a".to_string()));
    state.bmh.ip_to_hostname.push(("10.0.0.2".to_string(), "b".to_string()));
    assert!(state.well_formed());
    state.bmh.ip_to_hostname.push(("10.0.0.1".to_string(), "c".to_string()));
    assert!(!state.well_formed());
    assert!(cloudid::keyed::has_distinct_keys(&vec![("x".to_string(), 1), ("y".to_string(), 2)]));
    assert!(!cloudid::keyed::has_distinct_keys(&vec![("x".to_string(), 1), ("x".to_string(), 2)]));
}

#[test]
fn days_to_civil_dates() {
    assert_eq!(cloudid::templates::days_to_ymd(0), (1970, 1, 1));
    assert_eq!(cloudid::templates::days_to_ymd(19_675), (2023, 11, 14));
    assert_eq!(cloudid::templates::days_to_ymd(11_016), (2000, 2, 29));
    let (y, m, d) = cloudid::templates::days_to_ymd(u64::MAX - 719_468);
    assert!(y > 50_000_000_000_000 && (1..=12).contains(&m) && (1..=31).contains(&d));
}

#[test]
fn agent_answer_checks() {
    assert!(response_ok(200) && response_ok(204) && response_ok(299));
    assert!(!response_ok(199) && !response_ok(300) && !response_ok(404));
    assert!(has_keys("ssh-ed25519 AAAA x\n"));
    assert!(!has_keys(" \n\t"));
    assert!(!has_keys(""));
}

#[test]
fn url_encoding_examples() {
    assert_eq!(url_encode("a b#%\n"), "a%20b%23%25%0A");
    assert_eq!(url_encode("plain"), "plain");
}

fn loaded(name: &str, format: TemplateFormat, content: &str) -> LoadedTemplate {
    LoadedTemplate {
        image_type: "fcos".to_string(),
        name: name.to_string(),
        format,
        mode: TemplateMode::Forever,
        content: content.to_string(),
        created_at: String::new(),
        updated_at: String::new(),
    }
}

fn rendered(r: Option<TemplateResult>) -> (String, TemplateFormat) {
    match r {
        Some(TemplateResult::Config { content, format }) => (content, format),
        other => panic!("unexpected {:?}", other),
    }
}

#[test]
fn templates_render_by_format() {
    let meta = small_meta(vec![]);
    // Ignition text that is JSON gets the identity merged in.
    let (c, f) = rendered(render_template(
        &loaded("a.ign.json", TemplateFormat::Ignition, r#"{"ignition":{"version":"3.4.0"},"x":"{{SHORT_HOSTNAME}}"}"#),
        &meta,
        ".lab",
    ));
    assert_eq!(f, TemplateFormat::Ignition);
    let v: Value = serde_json::from_str(&c).unwrap();
    assert_eq!(v["x"], "node1");
    assert_eq!(v["passwd"]["users"][0]["name"], "core");
    assert_eq!(v["storage"]["files"][0]["path"], "/etc/hostname");
    // Ignition text that is no JSON is served as it is.
    let (c, _) = rendered(render_template(&loaded("b.ign.json", TemplateFormat::Ignition, "not {{IP}} json"), &meta, ""));
    assert_eq!(c, "not 10.2.3.4 json");
    // A cloud-config is served as it is, substituted.
    let (c, f) = rendered(render_template(&loaded("c.yaml", TemplateFormat::CloudConfig, "host: {{HOSTNAME}}"), &meta, ""));
    assert_eq!((c.as_str(), f), ("host: node1.lab", TemplateFormat::CloudConfig));
    // A kickstart gets the identity lines.
    let (c, _) = rendered(render_template(&loaded("d.ks", TemplateFormat::Kickstart, "%packages\n%end\n"), &meta, ""));
    assert!(c.find("sshkey --username=root").unwrap() < c.find("%packages").unwrap());
    // JSON that cannot take the users gives none.
    assert!(render_template(&loaded("e.ign.json", TemplateFormat::Ignition, r#"{"passwd":5}"#), &meta, "").is_none());
    assert!(render_template(&loaded("f.ign.json", TemplateFormat::Ignition, "[1,2]"), &meta, "").is_none());
}

#[test]
fn template_info_documents() {
    let doc = |info| serde_json::to_string(&cloudid_json(&template_info_value("10.0.0.5", info))).unwrap();
    assert_eq!(
        doc(TemplateInfo::UnknownIp),
        r#"{"hostname":null,"ip":"10.0.0.5","reason":"unknown IP","template":null}"#
    );
    assert_eq!(
        doc(TemplateInfo::OneshotCompleted { hostname: "srv".to_string() }),
        r#"{"hostname":"srv","ip":"10.0.0.5","reason":"oneshot completed","template":null}"#
    );
    assert_eq!(
        doc(TemplateInfo::Assigned { hostname: "srv".to_string(), source: Some("bmh".to_string()), template: None }),
        r#"{"hostname":"srv","ip":"10.0.0.5","oneshot_completed":false,"source":"bmh","template":null}"#
    );
}

fn cloudid_json(v: &JsonValue) -> Value {
    match v {
        JsonValue::Null => Value::Null,
        JsonValue::Bool(b) => Value::Bool(*b),
        JsonValue::Number(t) => serde_json::from_str(t).unwrap(),
        JsonValue::Str(s) => Value::String(s.clone()),
        JsonValue::Array(items) => Value::Array(items.iter().map(cloudid_json).collect()),
        JsonValue::Object(ms) => Value::Object(ms.iter().map(|(k, x)| (k.clone(), cloudid_json(x))).collect()),
    }
}

#[test]
fn static_keys_from_several_files() {
    let texts = vec!["# alice\nssh-ed25519 A1\n\nssh-ed25519 A2\n".to_string(), "ssh-rsa B1".to_string()];
    assert_eq!(keys_from_files(&texts), vec!["ssh-ed25519 A1", "ssh-ed25519 A2", "ssh-rsa B1"]);
    assert!(keys_from_files(&vec![]).is_empty());
}
