use cloudid::cache::IdentityState;
use cloudid::config::MetadataConfig;
use cloudid::model::{
    HostAccessSpec, HostAccessTargets, Resource, ResourceMeta, ResourceStatus, SshPublicKey, Subject, SubjectKind,
    UserSpec,
};
use cloudid::resolve::resolve_host;

fn meta_of(name: &str) -> ResourceMeta {
    ResourceMeta { name: name.to_string(), namespace: String::new(), labels: Vec::new(), annotations: Vec::new() }
}

fn make_identity() -> IdentityState {
    let mut state = IdentityState::default();
    state.users.push((
        "gwest".to_string(),
        Resource {
            kind: "User".to_string(),
            metadata: meta_of("gwest"),
            spec: UserSpec {
                display_name: "Glenn West".to_string(),
                email: Some("gwest@acme.lo".to_string()),
                org: "acme".to_string(),
                uid: 1000,
                gid: 1000,
                shell: "/bin/bash".to_string(),
                ssh_public_keys: vec![SshPublicKey {
                    name: "macbook".to_string(),
                    key: "ssh-rsa AAAA_TEST_KEY gwest@macbook".to_string(),
                }],
                groups: vec!["wheel".to_string(), "engineering".to_string()],
            },
            status: Some(ResourceStatus { enabled: true }),
        },
    ));
    state.host_access.push((
        "eng-servers".to_string(),
        Resource {
            kind: "HostAccess".to_string(),
            metadata: meta_of("eng-servers"),
            spec: HostAccessSpec {
                subjects: vec![Subject { kind: SubjectKind::User, name: "gwest".to_string() }],
                targets: HostAccessTargets {
                    hosts: vec!["server1".to_string()],
                    host_groups: vec![],
                    host_selectors: vec![],
                },
                ssh_users: vec!["root".to_string(), "core".to_string()],
                sudo: true,
            },
            status: None,
        },
    ));
    state
}

fn config() -> MetadataConfig {
    MetadataConfig {
        domain_suffix: ".g10.lo".to_string(),
        availability_zone: "gt".to_string(),
        cache_rebuild_interval_secs: 30,
        dhcp_sources: vec![],
    }
}

#[test]
fn test_resolve_known_host() {
    let identity = make_identity();
    let result = resolve_host("192.168.10.10", "server1", None, &identity, &config());
    assert!(result.is_some());

    let meta = result.unwrap();
    assert_eq!(meta.instance_id, "server1");
    assert_eq!(meta.hostname, "server1.g10.lo");
    assert_eq!(meta.local_ipv4, "192.168.10.10");
    assert_eq!(meta.public_keys.len(), 2);
    assert_eq!(meta.public_keys[0].ssh_user, "core");
    assert_eq!(meta.public_keys[1].ssh_user, "root");
    assert!(meta.public_keys[0].keys[0].contains("AAAA_TEST_KEY"));
}

#[test]
fn test_resolve_unknown_host() {
    let identity = make_identity();
    let result = resolve_host("192.168.10.99", "unknown-host", None, &identity, &config());
    assert!(result.is_none());
}

#[test]
fn test_disabled_user_excluded() {
    let mut identity = make_identity();
    identity.users[0].1.status = Some(ResourceStatus { enabled: false });
    let result = resolve_host("192.168.10.10", "server1", None, &identity, &config());
    assert!(result.is_none());
}
