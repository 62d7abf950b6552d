use cloudid::cache::{AppState, BmhState, ContainerInfo, ContainerState, IdentityState};
use cloudid::resolve::{expand_subjects, find_matching_rules, resolve_host};
use cloudid::config::{AmoConfig, Config, MetadataConfig, MkubeConfig, ServerConfig, TemplatesConfig};
use cloudid::model::{
    GroupResource, GroupSpec, HostAccessResource, HostAccessSpec, HostAccessTargets, HostGroupResource,
    HostGroupSpec, LabelMap, Resource, ResourceMeta, ResourceStatus, SshPublicKey, Subject, SubjectKind,
    UserResource, UserSpec,
};

fn test_config() -> Config {
    Config {
        server: ServerConfig { metadata_addr: "127.0.0.1:0".to_string() },
        amo: AmoConfig { nats_url: "nats://127.0.0.1:4222".to_string() },
        mkube: MkubeConfig { url: "http://127.0.0.1:8082".to_string() },
        metadata: MetadataConfig {
            domain_suffix: ".test.lo".to_string(),
            availability_zone: "test-az".to_string(),
            cache_rebuild_interval_secs: 30,
            dhcp_sources: vec![],
        },
        static_users: vec![],
        static_host_access: vec![],
        templates: TemplatesConfig::default(),
    }
}

fn meta_of(name: &str) -> ResourceMeta {
    ResourceMeta { name: name.to_string(), namespace: String::new(), labels: Vec::new(), annotations: Vec::new() }
}

fn make_user(name: &str, uid: u32, key: &str) -> UserResource {
    Resource {
        kind: "User".to_string(),
        metadata: meta_of(name),
        spec: UserSpec {
            display_name: name.to_string(),
            email: None,
            org: String::new(),
            uid,
            gid: uid,
            shell: "/bin/bash".to_string(),
            ssh_public_keys: vec![SshPublicKey { name: "test-key".to_string(), key: key.to_string() }],
            groups: vec!["wheel".to_string()],
        },
        status: Some(ResourceStatus { enabled: true }),
    }
}

fn access_rule(name: &str, subjects: Vec<Subject>, targets: HostAccessTargets, ssh_users: Vec<&str>, sudo: bool) -> HostAccessResource {
    Resource {
        kind: "HostAccess".to_string(),
        metadata: meta_of(name),
        spec: HostAccessSpec {
            subjects,
            targets,
            ssh_users: ssh_users.into_iter().map(|s| s.to_string()).collect(),
            sudo,
        },
        status: None,
    }
}

fn user_subjects(users: Vec<&str>) -> Vec<Subject> {
    users.into_iter().map(|u| Subject { kind: SubjectKind::User, name: u.to_string() }).collect()
}

fn make_host_access(name: &str, users: Vec<&str>, hosts: Vec<&str>, ssh_users: Vec<&str>, sudo: bool) -> HostAccessResource {
    access_rule(
        name,
        user_subjects(users),
        HostAccessTargets {
            hosts: hosts.into_iter().map(|h| h.to_string()).collect(),
            host_groups: vec![],
            host_selectors: vec![],
        },
        ssh_users,
        sudo,
    )
}

fn make_group_access(name: &str, groups: Vec<&str>, hosts: Vec<&str>, ssh_users: Vec<&str>, sudo: bool) -> HostAccessResource {
    access_rule(
        name,
        groups.into_iter().map(|g| Subject { kind: SubjectKind::Group, name: g.to_string() }).collect(),
        HostAccessTargets {
            hosts: hosts.into_iter().map(|h| h.to_string()).collect(),
            host_groups: vec![],
            host_selectors: vec![],
        },
        ssh_users,
        sudo,
    )
}

fn make_label_selector_access(name: &str, users: Vec<&str>, selectors: Vec<LabelMap>, ssh_users: Vec<&str>) -> HostAccessResource {
    access_rule(
        name,
        user_subjects(users),
        HostAccessTargets { hosts: vec![], host_groups: vec![], host_selectors: selectors },
        ssh_users,
        false,
    )
}

fn make_hostgroup_access(name: &str, users: Vec<&str>, host_groups: Vec<&str>, ssh_users: Vec<&str>) -> HostAccessResource {
    access_rule(
        name,
        user_subjects(users),
        HostAccessTargets {
            hosts: vec![],
            host_groups: host_groups.into_iter().map(|h| h.to_string()).collect(),
            host_selectors: vec![],
        },
        ssh_users,
        false,
    )
}

fn make_group(name: &str, members: Vec<&str>) -> GroupResource {
    Resource {
        kind: "Group".to_string(),
        metadata: meta_of(name),
        spec: GroupSpec {
            display_name: name.to_string(),
            gid: 0,
            members: members.into_iter().map(|m| m.to_string()).collect(),
            org: String::new(),
        },
        status: None,
    }
}

fn make_host_group(name: &str, hosts: Vec<&str>) -> HostGroupResource {
    Resource {
        kind: "HostGroup".to_string(),
        metadata: meta_of(name),
        spec: HostGroupSpec { hosts: hosts.into_iter().map(|h| h.to_string()).collect(), labels: Vec::new() },
        status: None,
    }
}

fn container(namespace: &str) -> ContainerInfo {
    ContainerInfo {
        namespace: namespace.to_string(),
        pod_name: "myapp".to_string(),
        container_name: "main".to_string(),
        hostname: "main.myapp".to_string(),
    }
}

fn build_state(identity: IdentityState, bmh: BmhState, containers: ContainerState) -> AppState {
    let mut state = AppState::new(test_config());
    state.identity = identity;
    state.bmh = bmh;
    state.containers = containers;
    state.rebuild_cache();
    state
}

fn bmh_with(entries: Vec<(&str, &str)>) -> BmhState {
    let mut bmh = BmhState::default();
    for (ip, host) in entries {
        bmh.ip_to_hostname.push((ip.to_string(), host.to_string()));
    }
    bmh
}

fn alice_identity(hosts: Vec<&str>, ssh_users: Vec<&str>, sudo: bool) -> IdentityState {
    let mut identity = IdentityState::default();
    identity.users.push(("alice".into(), make_user("alice", 1000, "ssh-ed25519 AAAA alice@test")));
    identity.host_access.push(("rule-1".into(), make_host_access("rule-1", vec!["alice"], hosts, ssh_users, sudo)));
    identity
}

#[test]
fn test_cache_rebuild_serves_known_host() {
    let identity = alice_identity(vec!["server1"], vec!["root", "core"], true);
    let state = build_state(identity, bmh_with(vec![("10.0.0.1", "server1")]), ContainerState::default());

    let meta = state.get_metadata("10.0.0.1");
    assert!(meta.is_some(), "known host should be in cache");
    let meta = meta.unwrap();
    assert_eq!(meta.instance_id, "server1");
    assert_eq!(meta.hostname, "server1.test.lo");
    assert_eq!(meta.local_ipv4, "10.0.0.1");
    assert_eq!(meta.availability_zone, "test-az");
    assert_eq!(meta.public_keys.len(), 2);
    assert_eq!(meta.public_keys[0].ssh_user, "core");
    assert_eq!(meta.public_keys[1].ssh_user, "root");
    assert_eq!(meta.public_keys[0].keys, vec!["ssh-ed25519 AAAA alice@test"]);
    assert_eq!(meta.public_keys[1].keys, vec!["ssh-ed25519 AAAA alice@test"]);
    assert_eq!(meta.cloud_config.users.len(), 1);
    assert_eq!(meta.cloud_config.users[0].name, "alice");
    assert!(meta.cloud_config.users[0].sudo.is_some());
}

#[test]
fn test_unknown_ip_returns_none() {
    let identity = alice_identity(vec!["server1"], vec!["root"], false);
    let state = build_state(identity, bmh_with(vec![("10.0.0.1", "server1")]), ContainerState::default());
    assert!(state.get_metadata("10.0.0.99").is_none());
    assert!(state.is_unknown_ip("10.0.0.99"));
}

#[test]
fn test_cache_rebuild_on_identity_change() {
    let identity = alice_identity(vec!["server1"], vec!["root"], false);
    let mut state = build_state(identity, bmh_with(vec![("10.0.0.1", "server1")]), ContainerState::default());

    let meta = state.get_metadata("10.0.0.1").unwrap();
    assert_eq!(meta.public_keys[0].keys.len(), 1);

    state.identity.users.push(("bob".into(), make_user("bob", 1001, "ssh-rsa BBBB bob@test")));
    state
        .identity
        .host_access
        .push(("rule-2".into(), make_host_access("rule-2", vec!["bob"], vec!["server1"], vec!["root"], false)));
    state.rebuild_cache();

    let meta = state.get_metadata("10.0.0.1").unwrap();
    let root_keys = meta.public_keys.iter().find(|pk| pk.ssh_user == "root").unwrap();
    assert_eq!(root_keys.keys.len(), 2);
    assert!(root_keys.keys.contains(&"ssh-ed25519 AAAA alice@test".to_string()));
    assert!(root_keys.keys.contains(&"ssh-rsa BBBB bob@test".to_string()));
    assert_eq!(meta.cloud_config.users.len(), 2);
}

#[test]
fn test_container_identity_via_namespace_owner() {
    let mut identity = IdentityState::default();
    identity.users.push(("gwest".into(), make_user("gwest", 1000, "ssh-ed25519 CCCC gwest@mac")));
    let mut containers = ContainerState::default();
    containers.ip_to_container.push(("10.1.0.50".to_string(), container("prod")));
    containers.namespace_owners.push(("prod".to_string(), "gwest".to_string()));

    let state = build_state(identity, BmhState::default(), containers);

    let meta = state.get_metadata("10.1.0.50");
    assert!(meta.is_some(), "container should be in cache");
    let meta = meta.unwrap();
    assert_eq!(meta.instance_id, "prod/myapp");
    assert_eq!(meta.hostname, "main.myapp.test.lo");
    assert_eq!(meta.local_ipv4, "10.1.0.50");
    assert_eq!(meta.public_keys.len(), 3);
    assert_eq!(meta.public_keys[0].ssh_user, "gwest");
    assert_eq!(meta.public_keys[1].ssh_user, "admin");
    assert_eq!(meta.public_keys[2].ssh_user, "root");
    assert_eq!(meta.cloud_config.users.len(), 2);
    assert_eq!(meta.cloud_config.users[0].name, "gwest");
    assert_eq!(meta.cloud_config.users[1].name, "root");
    assert!(meta.cloud_config.users[0].sudo.is_some());
}

#[test]
fn test_disabled_user_excluded_from_cache() {
    let mut identity = alice_identity(vec!["server1"], vec!["root"], false);
    identity.users[0].1.status = Some(ResourceStatus { enabled: false });
    let state = build_state(identity, bmh_with(vec![("10.0.0.1", "server1")]), ContainerState::default());
    assert!(state.get_metadata("10.0.0.1").is_none());
}

#[test]
fn test_group_expansion_in_host_access() {
    let mut identity = IdentityState::default();
    identity.users.push(("alice".into(), make_user("alice", 1000, "ssh-ed25519 AAAA alice@test")));
    identity.users.push(("bob".into(), make_user("bob", 1001, "ssh-rsa BBBB bob@test")));
    identity.groups.push(("engineering".into(), make_group("engineering", vec!["alice", "bob"])));
    identity.host_access.push((
        "eng-access".into(),
        make_group_access("eng-access", vec!["engineering"], vec!["server1"], vec!["core"], true),
    ));
    let state = build_state(identity, bmh_with(vec![("10.0.0.1", "server1")]), ContainerState::default());

    let meta = state.get_metadata("10.0.0.1").unwrap();
    let core_keys = meta.public_keys.iter().find(|pk| pk.ssh_user == "core").unwrap();
    assert_eq!(core_keys.keys.len(), 2);
    assert_eq!(meta.cloud_config.users.len(), 2);
    let names: Vec<&str> = meta.cloud_config.users.iter().map(|u| u.name.as_str()).collect();
    assert!(names.contains(&"alice"));
    assert!(names.contains(&"bob"));
}

#[test]
fn test_label_selector_matching() {
    let mut identity = IdentityState::default();
    identity.users.push(("alice".into(), make_user("alice", 1000, "ssh-ed25519 AAAA alice@test")));
    let selector: LabelMap = vec![("tier".to_string(), "web".to_string())];
    identity.host_access.push((
        "web-access".into(),
        make_label_selector_access("web-access", vec!["alice"], vec![selector], vec!["root"]),
    ));
    let mut bmh = bmh_with(vec![("10.0.0.1", "web-server")]);
    bmh.host_labels.push(("web-server".to_string(), vec![("tier".to_string(), "web".to_string())]));

    let state = build_state(identity, bmh, ContainerState::default());
    let meta = state.get_metadata("10.0.0.1");
    assert!(meta.is_some(), "label selector should match");
    assert_eq!(meta.unwrap().instance_id, "web-server");
}

#[test]
fn test_label_selector_no_match() {
    let mut identity = IdentityState::default();
    identity.users.push(("alice".into(), make_user("alice", 1000, "ssh-ed25519 AAAA alice@test")));
    let selector: LabelMap = vec![("tier".to_string(), "web".to_string())];
    identity.host_access.push((
        "web-access".into(),
        make_label_selector_access("web-access", vec!["alice"], vec![selector], vec!["root"]),
    ));
    let mut bmh = bmh_with(vec![("10.0.0.2", "db-server")]);
    bmh.host_labels.push(("db-server".to_string(), vec![("tier".to_string(), "database".to_string())]));

    let state = build_state(identity, bmh, ContainerState::default());
    assert!(state.get_metadata("10.0.0.2").is_none(), "label selector should not match");
}

#[test]
fn test_host_group_matching() {
    let mut identity = IdentityState::default();
    identity.users.push(("alice".into(), make_user("alice", 1000, "ssh-ed25519 AAAA alice@test")));
    identity.host_groups.push(("web-tier".into(), make_host_group("web-tier", vec!["web1", "web2", "web3"])));
    identity.host_access.push((
        "web-access".into(),
        make_hostgroup_access("web-access", vec!["alice"], vec!["web-tier"], vec!["root"]),
    ));
    let state = build_state(identity, bmh_with(vec![("10.0.0.1", "web2")]), ContainerState::default());
    let meta = state.get_metadata("10.0.0.1");
    assert!(meta.is_some(), "host group member should match");
    assert_eq!(meta.unwrap().instance_id, "web2");
}

#[test]
fn test_host_not_in_group_excluded() {
    let mut identity = IdentityState::default();
    identity.users.push(("alice".into(), make_user("alice", 1000, "ssh-ed25519 AAAA alice@test")));
    identity.host_groups.push(("web-tier".into(), make_host_group("web-tier", vec!["web1", "web2"])));
    identity.host_access.push((
        "web-access".into(),
        make_hostgroup_access("web-access", vec!["alice"], vec!["web-tier"], vec!["root"]),
    ));
    let state = build_state(identity, bmh_with(vec![("10.0.0.5", "db1")]), ContainerState::default());
    assert!(state.get_metadata("10.0.0.5").is_none(), "host not in group should not match");
}

#[test]
fn test_resolve_on_demand_fallback() {
    let identity = alice_identity(vec!["server1"], vec!["root"], false);
    let mut state = build_state(identity, bmh_with(vec![("10.0.0.1", "server1")]), ContainerState::default());

    state.metadata_cache.clear();
    assert!(state.get_metadata("10.0.0.1").is_none());

    let meta = state.resolve_on_demand("10.0.0.1");
    assert!(meta.is_some());
    assert_eq!(meta.unwrap().instance_id, "server1");
}

#[test]
fn test_multiple_rules_merge_keys() {
    let mut identity = IdentityState::default();
    identity.users.push(("alice".into(), make_user("alice", 1000, "ssh-ed25519 AAAA alice@test")));
    identity.users.push(("bob".into(), make_user("bob", 1001, "ssh-rsa BBBB bob@test")));
    identity.host_access.push((
        "rule-alice".into(),
        make_host_access("rule-alice", vec!["alice"], vec!["server1"], vec!["root"], true),
    ));
    identity.host_access.push((
        "rule-bob".into(),
        make_host_access("rule-bob", vec!["bob"], vec!["server1"], vec!["root"], false),
    ));
    let state = build_state(identity, bmh_with(vec![("10.0.0.1", "server1")]), ContainerState::default());

    let meta = state.get_metadata("10.0.0.1").unwrap();
    let root_keys = meta.public_keys.iter().find(|pk| pk.ssh_user == "root").unwrap();
    assert_eq!(root_keys.keys.len(), 2, "both users' keys should be merged for root");
}

#[test]
fn test_wildcard_matches_any_host() {
    let mut identity = IdentityState::default();
    identity.users.push(("admin".into(), make_user("admin", 0, "ssh-ed25519 ADMIN admin@infra")));
    identity.host_access.push((
        "admin-all".into(),
        make_host_access("admin-all", vec!["admin"], vec!["*"], vec!["root"], true),
    ));
    let state = build_state(
        identity,
        bmh_with(vec![("10.0.0.1", "server1"), ("10.0.0.2", "server2")]),
        ContainerState::default(),
    );

    assert!(state.get_metadata("10.0.0.1").is_some());
    assert!(state.get_metadata("10.0.0.2").is_some());
    assert_eq!(state.get_metadata("10.0.0.1").unwrap().instance_id, "server1");
    assert_eq!(state.get_metadata("10.0.0.2").unwrap().instance_id, "server2");
}

#[test]
fn test_container_disabled_owner_excluded() {
    let mut identity = IdentityState::default();
    let mut user = make_user("gwest", 1000, "ssh-ed25519 CCCC gwest@mac");
    user.status = Some(ResourceStatus { enabled: false });
    identity.users.push(("gwest".into(), user));
    let mut containers = ContainerState::default();
    containers.ip_to_container.push(("10.1.0.50".to_string(), container("prod")));
    containers.namespace_owners.push(("prod".to_string(), "gwest".to_string()));

    let state = build_state(identity, BmhState::default(), containers);
    assert!(state.get_metadata("10.1.0.50").is_none(), "disabled owner should not produce metadata");
}

#[test]
fn test_container_missing_owner_excluded() {
    let identity = IdentityState::default();
    let mut containers = ContainerState::default();
    containers.ip_to_container.push(("10.1.0.50".to_string(), container("prod")));
    containers.namespace_owners.push(("prod".to_string(), "nobody".to_string()));

    let state = build_state(identity, BmhState::default(), containers);
    assert!(state.get_metadata("10.1.0.50").is_none(), "missing owner should not produce metadata");
}

#[test]
fn test_container_no_namespace_owner() {
    let mut identity = IdentityState::default();
    identity.users.push(("gwest".into(), make_user("gwest", 1000, "ssh-ed25519 CCCC gwest@mac")));
    let mut containers = ContainerState::default();
    containers.ip_to_container.push(("10.1.0.50".to_string(), container("orphan")));

    let state = build_state(identity, BmhState::default(), containers);
    assert!(
        state.get_metadata("10.1.0.50").is_none(),
        "container without namespace owner should not produce metadata"
    );
}

#[test]
fn test_imds_token_lifecycle() {
    let mut state = build_state(IdentityState::default(), BmhState::default(), ContainerState::default());

    let token = state.generate_imds_token("10.0.0.1", 300, "3f9a1c", 1_000);
    assert!(token.starts_with("cloudid-"));
    let validated_ip = state.validate_imds_token(&token, 1_000);
    assert_eq!(validated_ip, Some("10.0.0.1".to_string()));
    assert!(state.validate_imds_token("bogus-token", 1_000).is_none());
}

#[test]
fn test_user_data_cloud_config_format() {
    let identity = alice_identity(vec!["server1"], vec!["root"], true);
    let state = build_state(identity, bmh_with(vec![("10.0.0.1", "server1")]), ContainerState::default());

    let meta = state.get_metadata("10.0.0.1").unwrap();
    assert!(meta.user_data.starts_with("#cloud-config\n"));
    assert!(meta.user_data.contains("alice"));
    assert!(meta.user_data.contains("ssh-ed25519 AAAA alice@test"));
}

#[test]
fn test_mixed_bmh_and_containers() {
    let identity = alice_identity(vec!["server1"], vec!["root"], false);
    let mut containers = ContainerState::default();
    containers.ip_to_container.push(("10.1.0.50".to_string(), container("prod")));
    containers.namespace_owners.push(("prod".to_string(), "alice".to_string()));

    let state = build_state(identity, bmh_with(vec![("10.0.0.1", "server1")]), containers);

    assert!(state.get_metadata("10.0.0.1").is_some());
    assert!(state.get_metadata("10.1.0.50").is_some());
    assert_eq!(state.get_metadata("10.0.0.1").unwrap().instance_id, "server1");
    assert_eq!(state.get_metadata("10.1.0.50").unwrap().instance_id, "prod/myapp");
}

#[test]
fn test_cache_survives_identity_clear() {
    let identity = alice_identity(vec!["server1"], vec!["root"], false);
    let mut state = build_state(identity, bmh_with(vec![("10.0.0.1", "server1")]), ContainerState::default());
    assert!(state.get_metadata("10.0.0.1").is_some());

    state.identity = IdentityState::default();

    let meta = state.get_metadata("10.0.0.1");
    assert!(meta.is_some(), "cache should survive identity clear without rebuild");
    assert_eq!(meta.unwrap().instance_id, "server1");
}

#[test]
fn test_cache_rebuild_with_empty_identity_clears_entries() {
    let identity = alice_identity(vec!["server1"], vec!["root"], false);
    let mut state = build_state(identity, bmh_with(vec![("10.0.0.1", "server1")]), ContainerState::default());
    assert!(state.get_metadata("10.0.0.1").is_some());

    state.identity = IdentityState::default();
    state.rebuild_cache();

    assert!(
        state.get_metadata("10.0.0.1").is_none(),
        "rebuild with empty identity should clear cache entries"
    );
}

#[test]
fn test_resolve_on_demand_with_stale_cache() {
    let identity = alice_identity(vec!["*"], vec!["root"], false);
    let mut state = build_state(identity, BmhState::default(), ContainerState::default());

    assert!(state.get_metadata("10.0.0.99").is_none());

    state.bmh.ip_to_hostname.push(("10.0.0.99".to_string(), "new-server".to_string()));

    let meta = state.resolve_on_demand("10.0.0.99");
    assert!(meta.is_some(), "on-demand resolve should find newly-added host");
    assert_eq!(meta.unwrap().instance_id, "new-server");
}

#[test]
fn test_bmh_state_survives_without_mkube() {
    let identity = alice_identity(vec!["*"], vec!["root"], false);
    let mut state = build_state(
        identity,
        bmh_with(vec![("10.0.0.1", "server1"), ("10.0.0.2", "server2")]),
        ContainerState::default(),
    );

    assert!(state.get_metadata("10.0.0.1").is_some());
    assert!(state.get_metadata("10.0.0.2").is_some());

    state.rebuild_cache();
    assert!(state.get_metadata("10.0.0.1").is_some());
    assert!(state.get_metadata("10.0.0.2").is_some());
}

#[test]
fn test_concurrent_reads_during_rebuild() {
    let identity = alice_identity(vec!["*"], vec!["root"], false);
    let mut bmh = BmhState::default();
    for i in 0..50 {
        bmh.ip_to_hostname.push((format!("10.0.0.{}", i + 1), format!("server{}", i + 1)));
    }
    let mut state = build_state(identity, bmh, ContainerState::default());

    for _ in 0..10 {
        state.rebuild_cache();
        for i in 0..50 {
            let _ = state.get_metadata(&format!("10.0.0.{}", (i % 50) + 1));
        }
    }

    for i in 0..50 {
        assert!(
            state.get_metadata(&format!("10.0.0.{}", i + 1)).is_some(),
            "server{} should be in cache after rebuild",
            i + 1
        );
    }
}

#[test]
fn test_large_dataset_rebuild() {
    let mut identity = IdentityState::default();
    for i in 0..100u32 {
        let name = format!("user{}", i);
        let key = format!("ssh-ed25519 KEY{:04} {}@test", i, name);
        identity.users.push((name.clone(), make_user(&name, 1000 + i, &key)));
    }
    let subjects: Vec<Subject> = identity
        .users
        .iter()
        .map(|(k, _)| Subject { kind: SubjectKind::User, name: k.clone() })
        .collect();
    identity.host_access.push((
        "all-access".into(),
        access_rule(
            "all-access",
            subjects,
            HostAccessTargets { hosts: vec!["*".to_string()], host_groups: vec![], host_selectors: vec![] },
            vec!["root"],
            false,
        ),
    ));

    let mut bmh = BmhState::default();
    for i in 0..200u32 {
        let ip = format!("10.{}.{}.{}", i / 65536, (i / 256) % 256, (i % 256) + 1);
        bmh.ip_to_hostname.push((ip, format!("host{}", i)));
    }

    let state = build_state(identity, bmh, ContainerState::default());
    assert_eq!(state.metadata_cache.len(), 200);

    let meta = state.get_metadata("10.0.0.1").unwrap();
    let root_keys = meta.public_keys.iter().find(|pk| pk.ssh_user == "root").unwrap();
    assert_eq!(root_keys.keys.len(), 100);
}

#[test]
fn subjects_expand_to_distinct_names_in_order() {
    let mut identity = IdentityState::default();
    identity.groups.push(("ops".to_string(), make_group("ops", vec!["bob", "alice", "carol"])));
    let subjects = vec![
        Subject { kind: SubjectKind::User, name: "alice".to_string() },
        Subject { kind: SubjectKind::Group, name: "ops".to_string() },
        Subject { kind: SubjectKind::Group, name: "nobody-knows".to_string() },
        Subject { kind: SubjectKind::User, name: "bob".to_string() },
    ];
    assert_eq!(expand_subjects(&subjects, &identity), vec!["alice", "bob", "carol"]);
}

#[test]
fn matching_rules_are_listed_by_position() {
    let mut identity = IdentityState::default();
    identity.host_access.push(("r0".to_string(), make_host_access("r0", vec!["a"], vec!["other"], vec!["root"], false)));
    identity.host_access.push(("r1".to_string(), make_host_access("r1", vec!["a"], vec!["*"], vec!["root"], false)));
    identity.host_access.push((
        "r2".to_string(),
        make_label_selector_access("r2", vec!["a"], vec![vec![("role".to_string(), "db".to_string())]], vec!["core"]),
    ));
    identity.host_access.push(("r3".to_string(), make_host_access("r3", vec!["a"], vec!["server1"], vec!["root"], false)));
    let labels: LabelMap = vec![("role".to_string(), "db".to_string())];
    assert_eq!(find_matching_rules("server1", Some(&labels), &identity), vec![1, 2, 3]);
    assert_eq!(find_matching_rules("server1", None, &identity), vec![1, 3]);
    assert_eq!(find_matching_rules("server9", None, &identity), vec![1]);
}

fn all_access_identity(users: u32, ssh_users: Vec<&str>) -> IdentityState {
    let mut identity = IdentityState::default();
    for i in 0..users {
        let name = format!("user{}", i);
        let key = format!("ssh-ed25519 KEY{:04} {}@test", i, name);
        identity.users.push((name.clone(), make_user(&name, 1000 + i, &key)));
    }
    let subjects: Vec<Subject> =
        (0..users).map(|i| Subject { kind: SubjectKind::User, name: format!("user{}", i) }).collect();
    identity.host_access.push((
        "all-access".into(),
        access_rule(
            "all-access",
            subjects,
            HostAccessTargets { hosts: vec!["*".to_string()], host_groups: vec![], host_selectors: vec![] },
            ssh_users,
            false,
        ),
    ));
    identity
}

fn hundred_hosts() -> BmhState {
    let mut bmh = BmhState::default();
    for i in 0..100u32 {
        bmh.ip_to_hostname.push((format!("10.0.{}.{}", i / 256, (i % 256) + 1), format!("host{}", i)));
    }
    bmh
}

#[test]
fn test_metadata_lookup_latency() {
    // Target: <5ms per lookup from the precomputed cache.
    let state = build_state(all_access_identity(20, vec!["root", "core"]), hundred_hosts(), ContainerState::default());

    let _ = state.get_metadata("10.0.0.1");

    let start = std::time::Instant::now();
    let iterations = 10_000;
    for i in 0..iterations {
        let ip = format!("10.0.0.{}", (i % 100) + 1);
        let _ = state.get_metadata(&ip);
    }
    let elapsed = start.elapsed();
    let per_lookup_us = (elapsed.as_nanos() / iterations as u128) as f64 / 1000.0;
    assert!(per_lookup_us < 5000.0, "metadata lookup too slow: {:.1}us per lookup (target <5000us)", per_lookup_us);
    println!("metadata lookup: {:.1}us/lookup ({} lookups in {:.1}ms)", per_lookup_us, iterations, elapsed.as_secs_f64() * 1000.0);
}

#[test]
fn test_cache_rebuild_latency() {
    let mut state = build_state(all_access_identity(10, vec!["root"]), hundred_hosts(), ContainerState::default());

    let start = std::time::Instant::now();
    let iterations = 100;
    for _ in 0..iterations {
        state.rebuild_cache();
    }
    let elapsed = start.elapsed();
    let per_rebuild_ms = elapsed.as_secs_f64() * 1000.0 / iterations as f64;
    assert!(per_rebuild_ms < 100.0, "cache rebuild too slow: {:.1}ms per rebuild (target <100ms)", per_rebuild_ms);
    println!("cache rebuild: {:.2}ms/rebuild ({} hosts, {} rebuilds in {:.1}ms)", per_rebuild_ms, 100, iterations, elapsed.as_secs_f64() * 1000.0);
}

#[test]
fn more_access_never_removes_keys() {
    let mut identity = alice_identity(vec!["server1"], vec!["root"], false);
    let config = test_config().metadata;
    let before = resolve_host("10.0.0.1", "server1", None, &identity, &config).unwrap();
    identity.users.push(("bob".into(), make_user("bob", 1001, "ssh-ed25519 BBBB bob@test")));
    identity.host_access.push(("rule-2".into(), make_host_access("rule-2", vec!["bob"], vec!["*"], vec!["root", "core"], false)));
    let after = resolve_host("10.0.0.1", "server1", None, &identity, &config).unwrap();
    for e in &before.public_keys {
        let f = after.public_keys.iter().find(|f| f.ssh_user == e.ssh_user).unwrap();
        for k in &e.keys {
            assert!(f.keys.contains(k));
        }
    }
    let root = after.public_keys.iter().find(|f| f.ssh_user == "root").unwrap();
    assert_eq!(root.keys, vec!["ssh-ed25519 AAAA alice@test", "ssh-ed25519 BBBB bob@test"]);
}

#[test]
fn rebuilding_unchanged_state_keeps_entries() {
    let mut state = build_state(all_access_identity(3, vec!["root"]), hundred_hosts(), ContainerState::default());
    let first: Vec<(String, String, Vec<String>)> = state
        .metadata_cache
        .iter()
        .map(|(ip, m)| (ip.clone(), m.user_data.clone(), m.public_keys.iter().flat_map(|p| p.keys.clone()).collect()))
        .collect();
    state.rebuild_cache();
    let second: Vec<(String, String, Vec<String>)> = state
        .metadata_cache
        .iter()
        .map(|(ip, m)| (ip.clone(), m.user_data.clone(), m.public_keys.iter().flat_map(|p| p.keys.clone()).collect()))
        .collect();
    assert_eq!(first, second);
    // On a cache miss, on-demand resolution gives what resolving the host gives.
    state.bmh.ip_to_hostname.push(("10.9.9.9".to_string(), "late".to_string()));
    let on_demand = state.resolve_on_demand("10.9.9.9").unwrap();
    let direct = resolve_host("10.9.9.9", "late", None, &state.identity, &state.config.metadata).unwrap();
    assert_eq!(on_demand.user_data, direct.user_data);
    assert_eq!(on_demand.instance_id, "late");
}
