use vstd::prelude::*;
use crate::config::{Config, StaticHostAccessConfig, StaticUserConfig};
use crate::keyed::{
    distinct_keys, find_key, key_pos, keys_of, lemma_key_pos, lemma_key_pos_at, lemma_lookup_push,
    lemma_put_entry_lookup, lemma_remove_entry_lookup, lookup, put_entry, put_result, remove_entry, remove_result,
};
use crate::model::{
    BareMetalHost, GroupResource, HostAccessResource, HostAccessSpec, HostAccessTargets,
    HostGroupResource, LabelMap, Resource, ResourceMeta, ResourceStatus, SshPublicKey, Subject,
    SubjectKind, UserResource, UserSpec, copy_strings, str_views,
};
use crate::model::HostMetadata;
use crate::resolve::{
    container_metadata_spec, container_owner, copy_metadata, dedup, host_grants, host_metadata_spec, resolve_container,
    resolve_host, same_metadata,
};
use crate::templates::{Assignment, AssignmentsFile, OneshotState};
use crate::text::decimal;

verus! {

/// Identity data from AMO (users, groups, host access, host groups), each
/// a list of (key, resource) entries.
#[derive(Debug)]
pub struct IdentityState {
    pub users: Vec<(String, UserResource)>,
    pub groups: Vec<(String, GroupResource)>,
    pub host_access: Vec<(String, HostAccessResource)>,
    pub host_groups: Vec<(String, HostGroupResource)>,
}

impl Default for IdentityState {
    fn default() -> (r: Self)
        ensures
            r.users@.len() == 0,
            r.groups@.len() == 0,
            r.host_access@.len() == 0,
            r.host_groups@.len() == 0,
    {
        IdentityState {
            users: Vec::new(),
            groups: Vec::new(),
            host_access: Vec::new(),
            host_groups: Vec::new(),
        }
    }
}

/// BMH state from mkube. IP addresses are held as their canonical text.
#[derive(Debug)]
pub struct BmhState {
    /// IP address -> short hostname
    pub ip_to_hostname: Vec<(String, String)>,
    /// Hostname -> BMH labels (for selector matching)
    pub host_labels: Vec<(String, LabelMap)>,
    /// Hostname -> namespace
    pub host_namespace: Vec<(String, String)>,
    /// Hostname -> full BareMetalHost data (for provisioning configs)
    pub hosts: Vec<(String, BareMetalHost)>,
}

impl Default for BmhState {
    fn default() -> (r: Self)
        ensures
            r.ip_to_hostname@.len() == 0,
            r.host_labels@.len() == 0,
            r.host_namespace@.len() == 0,
            r.hosts@.len() == 0,
    {
        BmhState {
            ip_to_hostname: Vec::new(),
            host_labels: Vec::new(),
            host_namespace: Vec::new(),
            hosts: Vec::new(),
        }
    }
}

/// A running container as mkube reports it.
#[derive(Debug)]
pub struct ContainerInfo {
    pub namespace: String,
    pub pod_name: String,
    pub container_name: String,
    pub hostname: String,
}

/// Container state from mkube: pod IP -> container, namespace -> owner.
#[derive(Debug)]
pub struct ContainerState {
    pub ip_to_container: Vec<(String, ContainerInfo)>,
    pub namespace_owners: Vec<(String, String)>,
}

impl Default for ContainerState {
    fn default() -> (r: Self)
        ensures
            r.ip_to_container@.len() == 0,
            r.namespace_owners@.len() == 0,
    {
        ContainerState { ip_to_container: Vec::new(), namespace_owners: Vec::new() }
    }
}


/// "static-" followed by the decimal form of `i`.
pub open spec fn static_key_name(i: nat) -> Seq<char> {
    "static-"@ + decimal(i)
}

/// "static-rule-" followed by the decimal form of `i`.
pub open spec fn static_rule_name(i: nat) -> Seq<char> {
    "static-rule-"@ + decimal(i)
}

/// `u` is the user record made from a static user entry: enabled, named
/// after the entry, with its keys named "static-0", "static-1", ...
pub open spec fn static_user_resource(u: UserResource, cfg: StaticUserConfig) -> bool {
    &&& u.kind@ == "User"@
    &&& u.metadata.name@ == cfg.name@
    &&& u.metadata.namespace@.len() == 0
    &&& u.metadata.labels@.len() == 0
    &&& u.metadata.annotations@.len() == 0
    &&& u.spec.display_name@ == cfg.name@
    &&& u.spec.email is None
    &&& u.spec.org@.len() == 0
    &&& u.spec.uid == cfg.uid
    &&& u.spec.gid == cfg.gid
    &&& u.spec.shell@ == cfg.shell@
    &&& u.spec.ssh_public_keys@.len() == cfg.ssh_keys@.len()
    &&& forall|k: int|
        0 <= k < cfg.ssh_keys@.len() ==> (#[trigger] u.spec.ssh_public_keys@[k]).name@ == static_key_name(
            k as nat,
        ) && u.spec.ssh_public_keys@[k].key@ == cfg.ssh_keys@[k]@
    &&& u.spec.groups@ == cfg.groups@
    &&& u.status matches Some(st) && st.enabled
}

/// `r` is the access rule made from the static rule entry number `i`.
pub open spec fn static_rule_resource(r: HostAccessResource, cfg: StaticHostAccessConfig, i: nat) -> bool {
    &&& r.kind@ == "HostAccess"@
    &&& r.metadata.name@ == static_rule_name(i)
    &&& r.metadata.namespace@.len() == 0
    &&& r.metadata.labels@.len() == 0
    &&& r.metadata.annotations@.len() == 0
    &&& r.spec.subjects@.len() == cfg.users@.len()
    &&& forall|k: int|
        0 <= k < cfg.users@.len() ==> (#[trigger] r.spec.subjects@[k]).kind == SubjectKind::User
            && r.spec.subjects@[k].name@ == cfg.users@[k]@
    &&& r.spec.targets.hosts@ == cfg.hosts@
    &&& r.spec.targets.host_groups@.len() == 0
    &&& r.spec.targets.host_selectors@.len() == 0
    &&& r.spec.ssh_users@ == cfg.ssh_users@
    &&& r.spec.sudo == cfg.sudo
    &&& r.status is None
}

/// The position of the last static user entry named `name` among the first `n`.
pub open spec fn last_named(cfgs: Seq<StaticUserConfig>, name: Seq<char>, n: int) -> int
    decreases n,
{
    if n <= 0 {
        -1
    } else if cfgs[n - 1].name@ == name {
        n - 1
    } else {
        last_named(cfgs, name, n - 1)
    }
}

/// The names of static user entries, in order.
pub open spec fn static_names(cfgs: Seq<StaticUserConfig>) -> Seq<Seq<char>> {
    cfgs.map_values(|c: StaticUserConfig| c.name@)
}

/// The identity that the static entries of a configuration describe: one
/// user per distinct name (in order of first appearance, made from the last
/// entry with that name, as map insertion leaves it), and one rule per static
/// rule entry.
pub open spec fn static_identity_spec(id: IdentityState, config: Config) -> bool {
    let cfgs = config.static_users@;
    &&& keys_of(id.users@) == dedup(static_names(cfgs))
    &&& forall|p: int|
        0 <= p < id.users@.len() ==> static_user_resource(
            #[trigger] id.users@[p].1,
            cfgs[last_named(cfgs, id.users@[p].0@, cfgs.len() as int)],
        )
    &&& id.groups@.len() == 0
    &&& id.host_groups@.len() == 0
    &&& id.host_access@.len() == config.static_host_access@.len()
    &&& forall|i: int|
        0 <= i < id.host_access@.len() ==> (#[trigger] id.host_access@[i]).0@ == static_rule_name(i as nat)
            && static_rule_resource(id.host_access@[i].1, config.static_host_access@[i], i as nat)
}

fn name_with_number(prefix: &str, i: usize) -> (s: String)
    ensures
        s@ == prefix@ + decimal(i as nat),
{
    let mut s = String::from_str(prefix);
    s.append(crate::text::decimal_string(i as u64).as_str());
    s
}

fn empty_meta(name: String) -> (m: ResourceMeta)
    ensures
        m.name@ == name@,
        m.namespace@.len() == 0,
        m.labels@.len() == 0,
        m.annotations@.len() == 0,
{
    ResourceMeta { name, namespace: String::new(), labels: Vec::new(), annotations: Vec::new() }
}

/// The user record of a static user entry.
fn static_user(cfg: &StaticUserConfig) -> (u: UserResource)
    ensures
        static_user_resource(u, *cfg),
{
    let mut keys: Vec<SshPublicKey> = Vec::new();
    let mut k: usize = 0;
    while k < cfg.ssh_keys.len()
        invariant
            k <= cfg.ssh_keys.len(),
            keys@.len() == k,
            forall|j: int|
                0 <= j < k ==> (#[trigger] keys@[j]).name@ == static_key_name(j as nat) && keys@[j].key@
                    == cfg.ssh_keys@[j]@,
        decreases cfg.ssh_keys.len() - k,
    {
        keys.push(SshPublicKey { name: name_with_number("static-", k), key: cfg.ssh_keys[k].clone() });
        k = k + 1;
    }
    Resource {
        kind: String::from_str("User"),
        metadata: empty_meta(cfg.name.clone()),
        spec: UserSpec {
            display_name: cfg.name.clone(),
            email: None,
            org: String::new(),
            uid: cfg.uid,
            gid: cfg.gid,
            shell: cfg.shell.clone(),
            ssh_public_keys: keys,
            groups: copy_strings(&cfg.groups),
        },
        status: Some(ResourceStatus { enabled: true }),
    }
}

/// The access rule of static rule entry number `i`.
fn static_rule(cfg: &StaticHostAccessConfig, i: usize) -> (r: HostAccessResource)
    ensures
        static_rule_resource(r, *cfg, i as nat),
{
    let mut subjects: Vec<Subject> = Vec::new();
    let mut k: usize = 0;
    while k < cfg.users.len()
        invariant
            k <= cfg.users.len(),
            subjects@.len() == k,
            forall|j: int|
                0 <= j < k ==> (#[trigger] subjects@[j]).kind == SubjectKind::User && subjects@[j].name@
                    == cfg.users@[j]@,
        decreases cfg.users.len() - k,
    {
        subjects.push(Subject { kind: SubjectKind::User, name: cfg.users[k].clone() });
        k = k + 1;
    }
    Resource {
        kind: String::from_str("HostAccess"),
        metadata: empty_meta(name_with_number("static-rule-", i)),
        spec: HostAccessSpec {
            subjects,
            targets: HostAccessTargets {
                hosts: copy_strings(&cfg.hosts),
                host_groups: Vec::new(),
                host_selectors: Vec::new(),
            },
            ssh_users: copy_strings(&cfg.ssh_users),
            sudo: cfg.sudo,
        },
        status: None,
    }
}

pub proof fn lemma_dedup_contains(s: Seq<Seq<char>>, x: Seq<char>)
    ensures
        dedup(s).contains(x) == s.contains(x),
    decreases s.len(),
{
    if s.len() > 0 {
        lemma_dedup_contains(s.drop_last(), x);
        if s.drop_last().contains(x) {
            let k = choose|k: int| 0 <= k < s.drop_last().len() && s.drop_last()[k] == x;
            assert(s[k] == x);
        }
        if s.contains(x) && x != s.last() {
            let k = choose|k: int| 0 <= k < s.len() && s[k] == x;
            assert(s.drop_last()[k] == x);
        }
        let d = dedup(s.drop_last());
        if !d.contains(s.last()) {
            assert(d.push(s.last())[d.len() as int] == s.last());
            if d.contains(x) {
                let k = choose|k: int| 0 <= k < d.len() && d[k] == x;
                assert(d.push(s.last())[k] == x);
            }
            if d.push(s.last()).contains(x) && x != s.last() {
                let k = choose|k: int| 0 <= k < d.len() + 1 && d.push(s.last())[k] == x;
                assert(d[k] == x);
            }
        }
    }
}

pub(crate) proof fn lemma_dedup_distinct(s: Seq<Seq<char>>)
    ensures
        forall|a: int, b: int| 0 <= a < b < dedup(s).len() ==> dedup(s)[a] != dedup(s)[b],
    decreases s.len(),
{
    if s.len() > 0 {
        lemma_dedup_distinct(s.drop_last());
        let d = dedup(s.drop_last());
        if !d.contains(s.last()) {
            assert forall|a: int, b: int| 0 <= a < b < d.push(s.last()).len() implies d.push(s.last())[a] != d.push(s.last())[b] by {
                if b == d.len() {
                    if d[a] == s.last() {
                        assert(d.contains(s.last()));
                    }
                }
            }
        }
    }
}

/// Convert static config entries into proper identity state entries.
#[verifier::spinoff_prover]
proof fn lemma_users_step(
    old_users: Seq<(String, UserResource)>,
    new_users: Seq<(String, UserResource)>,
    cfgs: Seq<StaticUserConfig>,
    i: int,
    gk: String,
    gu: UserResource,
)
    requires
        0 <= i < cfgs.len(),
        gk@ == cfgs[i].name@,
        static_user_resource(gu, cfgs[i]),
        new_users == crate::keyed::put_result(old_users, gk, gu),
        crate::keyed::distinct_keys(old_users),
        forall|p: int|
            0 <= p < old_users.len() ==> static_user_resource(
                #[trigger] old_users[p].1,
                cfgs[last_named(cfgs, old_users[p].0@, i)],
            ) && 0 <= last_named(cfgs, old_users[p].0@, i) < i,
    ensures
        forall|p: int|
            0 <= p < new_users.len() ==> static_user_resource(
                #[trigger] new_users[p].1,
                cfgs[last_named(cfgs, new_users[p].0@, i + 1)],
            ) && 0 <= last_named(cfgs, new_users[p].0@, i + 1) < i + 1,
{
    let name = cfgs[i].name@;
    crate::keyed::lemma_key_pos(old_users, name);
    let kp = key_pos(old_users, name);
    assert forall|p: int| 0 <= p < new_users.len() implies static_user_resource(
        #[trigger] new_users[p].1,
        cfgs[last_named(cfgs, new_users[p].0@, i + 1)],
    ) && 0 <= last_named(cfgs, new_users[p].0@, i + 1) < i + 1 by {
        if (kp < old_users.len() && p == kp) || (kp >= old_users.len() && p == old_users.len()) {
            assert(new_users[p] == (gk, gu));
            assert(last_named(cfgs, name, i + 1) == i);
        } else {
            assert(new_users[p] == old_users[p]);
            if kp < old_users.len() {
                assert(old_users[kp].0@ == name);
            }
            assert(old_users[p].0@ != name);
            assert(last_named(cfgs, old_users[p].0@, i + 1) == last_named(cfgs, old_users[p].0@, i));
        }
    }
}

pub fn load_static_identity(config: &Config) -> (id: IdentityState)
    ensures
        static_identity_spec(id, *config),
{
    let mut state = IdentityState::default();
    let cfgs = &config.static_users;
    let mut i: usize = 0;
    while i < cfgs.len()
        invariant
            cfgs == &config.static_users,
            i <= cfgs.len(),
            state.groups@.len() == 0,
            state.host_groups@.len() == 0,
            state.host_access@.len() == 0,
            keys_of(state.users@) == dedup(static_names(cfgs@).subrange(0, i as int)),
            forall|p: int|
                0 <= p < state.users@.len() ==> static_user_resource(
                    #[trigger] state.users@[p].1,
                    cfgs@[last_named(cfgs@, state.users@[p].0@, i as int)],
                ) && 0 <= last_named(cfgs@, state.users@[p].0@, i as int) < i,
        decreases cfgs.len() - i,
    {
        let ghost old_users = state.users@;
        let ghost pre = static_names(cfgs@).subrange(0, i as int);
        let ghost name = cfgs@[i as int].name@;
        assert(static_names(cfgs@).subrange(0, i + 1) =~= pre.push(name));
        assert(pre.push(name).drop_last() =~= pre);
        let u = static_user(&cfgs[i]);
        proof {
            crate::keyed::lemma_key_pos(old_users, name);
            lemma_dedup_contains(pre, name);
            lemma_dedup_distinct(pre);
        }
        let key = cfgs[i].name.clone();
        let ghost gk = key;
        let ghost gu = u;
        put_entry(&mut state.users, key, u);
        proof {
            let kp = key_pos(old_users, name);
            assert(gk@ == name);
            assert(static_user_resource(gu, cfgs@[i as int]));
            assert(state.users@ == (if kp < old_users.len() {
                old_users.update(kp, (gk, gu))
            } else {
                old_users.push((gk, gu))
            }));
            if kp < old_users.len() {
                assert(keys_of(old_users)[kp] == name);
                assert(dedup(pre).contains(name));
                assert(keys_of(state.users@) =~= keys_of(old_users));
            } else {
                assert(!keys_of(old_users).contains(name)) by {
                    if keys_of(old_users).contains(name) {
                        let k = choose|k: int| 0 <= k < old_users.len() && keys_of(old_users)[k] == name;
                        assert(old_users[k].0@ == name);
                    }
                }
                assert(keys_of(state.users@) =~= keys_of(old_users).push(name));
            }
            assert(crate::keyed::distinct_keys(old_users)) by {
                assert forall|a: int, b: int| 0 <= a < b < old_users.len() implies old_users[a].0@ != old_users[b].0@ by {
                    assert(keys_of(old_users)[a] == old_users[a].0@);
                    assert(keys_of(old_users)[b] == old_users[b].0@);
                }
            }
            lemma_users_step(old_users, state.users@, cfgs@, i as int, gk, gu);
        }
        i = i + 1;
    }
    assert(static_names(cfgs@).subrange(0, cfgs.len() as int) =~= static_names(cfgs@));
    let ghost users_done = state.users@;
    assert forall|p: int| 0 <= p < users_done.len() implies static_user_resource(
        #[trigger] users_done[p].1,
        config.static_users@[last_named(config.static_users@, users_done[p].0@, config.static_users@.len() as int)],
    ) by {}
    let rules = &config.static_host_access;
    let mut j: usize = 0;
    while j < rules.len()
        invariant
            rules == &config.static_host_access,
            j <= rules.len(),
            state.users@ == users_done,
            state.groups@.len() == 0,
            state.host_groups@.len() == 0,
            state.host_access@.len() == j,
            forall|q: int|
                0 <= q < j ==> (#[trigger] state.host_access@[q]).0@ == static_rule_name(q as nat)
                    && static_rule_resource(state.host_access@[q].1, rules@[q], q as nat),
        decreases rules.len() - j,
    {
        let r = static_rule(&rules[j], j);
        state.host_access.push((name_with_number("static-rule-", j), r));
        j = j + 1;
    }
    assert(state.users@ == users_done);
    state
}

/// The labels a BareMetalHost state holds for a host.
pub open spec fn bmh_labels(bmh: BmhState, hostname: Seq<char>) -> Option<Seq<(String, String)>> {
    match lookup(bmh.host_labels@, hostname) {
        Some(l) => Some(l@),
        None => None,
    }
}

/// The host name a BareMetalHost state maps an IP to.
pub open spec fn bmh_host_of(bmh: BmhState, ip: Seq<char>) -> Option<Seq<char>> {
    match lookup(bmh.ip_to_hostname@, ip) {
        Some(h) => Some(h@),
        None => None,
    }
}

/// An IP that maps to a host which some enabled user may reach.
pub open spec fn host_served(s: AppState, ip: Seq<char>) -> bool {
    match bmh_host_of(s.bmh, ip) {
        Some(h) => host_grants(s.identity, h, bmh_labels(s.bmh, h)).len() > 0,
        None => false,
    }
}

/// An IP of a container whose namespace has a known, enabled owner.
pub open spec fn container_served(s: AppState, ip: Seq<char>) -> bool {
    match lookup(s.containers.ip_to_container@, ip) {
        Some(info) => container_owner(info, s.containers, s.identity) is Some,
        None => false,
    }
}

/// `m` is what the state resolves for `ip`: the host's metadata for an IP
/// of a served host, else the container's metadata.
pub open spec fn metadata_for(s: AppState, ip: Seq<char>, m: HostMetadata) -> bool {
    if host_served(s, ip) {
        let h = bmh_host_of(s.bmh, ip).unwrap();
        host_metadata_spec(m, ip, h, s.identity, s.config.metadata, host_grants(s.identity, h, bmh_labels(s.bmh, h)))
    } else {
        let info = lookup(s.containers.ip_to_container@, ip).unwrap();
        container_metadata_spec(
            m,
            ip,
            info,
            container_owner(info, s.containers, s.identity).unwrap(),
            s.identity,
            s.config.metadata,
        )
    }
}

/// A metadata cache that matches the state: one entry for each served IP
/// (hosts first, then containers), holding what the state resolves for it.
pub open spec fn cache_matches(s: AppState, cache: Seq<(String, HostMetadata)>) -> bool {
    &&& distinct_keys(cache)
    &&& forall|ip: Seq<char>| #[trigger] lookup(cache, ip) is Some <==> (host_served(s, ip) || container_served(s, ip))
    &&& forall|ip: Seq<char>| #[trigger] lookup(cache, ip) matches Some(m) ==> metadata_for(s, ip, m)
}

/// Shared application state holding all caches. IP addresses are held as
/// their canonical text.
#[derive(Debug)]
pub struct AppState {
    /// Precomputed metadata cache: IP -> HostMetadata
    pub metadata_cache: Vec<(String, HostMetadata)>,
    /// AMO identity data
    pub identity: IdentityState,
    /// mkube BMH data
    pub bmh: BmhState,
    /// mkube container data
    pub containers: ContainerState,
    /// REST template assignments: hostname -> assignment
    pub assignments: AssignmentsFile,
    /// Oneshot completion state
    pub oneshot: OneshotState,
    /// Application config
    pub config: Config,
    /// IMDSv2 session tokens: token -> (IP it was issued to, expiry in Unix seconds)
    pub imds_tokens: Vec<(String, (String, u64))>,
}

impl AppState {
    /// IPs map to one host and one container each.
    pub open spec fn wf(&self) -> bool {
        &&& distinct_keys(self.bmh.ip_to_hostname@)
        &&& distinct_keys(self.containers.ip_to_container@)
    }

    /// Whether IPs map to one host and one container each.
    pub fn well_formed(&self) -> (r: bool)
        ensures
            r == self.wf(),
    {
        crate::keyed::has_distinct_keys(&self.bmh.ip_to_hostname) && crate::keyed::has_distinct_keys(
            &self.containers.ip_to_container,
        )
    }

    /// A state with the static identity of the config and nothing else.
    pub fn new(config: Config) -> (s: Self)
        ensures
            s.wf(),
            s.config == config,
            static_identity_spec(s.identity, config),
            s.metadata_cache@.len() == 0,
            s.bmh.ip_to_hostname@.len() == 0,
            s.bmh.host_labels@.len() == 0,
            s.bmh.host_namespace@.len() == 0,
            s.bmh.hosts@.len() == 0,
            s.containers.ip_to_container@.len() == 0,
            s.containers.namespace_owners@.len() == 0,
            s.assignments.assignments@.len() == 0,
            s.oneshot.completed@.len() == 0,
            s.imds_tokens@.len() == 0,
    {
        let identity = load_static_identity(&config);
        AppState {
            metadata_cache: Vec::new(),
            identity,
            bmh: BmhState::default(),
            containers: ContainerState::default(),
            assignments: AssignmentsFile::default(),
            oneshot: OneshotState::default(),
            config,
            imds_tokens: Vec::new(),
        }
    }

    /// The labels stored for a host, if any.
    pub fn labels_of(&self, hostname: &str) -> (r: Option<&LabelMap>)
        ensures
            crate::resolve::labels_view(r) == bmh_labels(self.bmh, hostname@),
    {
        proof {
            lemma_key_pos(self.bmh.host_labels@, hostname@);
        }
        match find_key(&self.bmh.host_labels, hostname) {
            Some(j) => Some(&self.bmh.host_labels[j].1),
            None => None,
        }
    }

    /// Rebuild the entire metadata cache from the current identity, BMH and
    /// container state.
    pub fn rebuild_cache(&mut self)
        requires
            old(self).wf(),
        ensures
            cache_matches(*old(self), final(self).metadata_cache@),
            final(self).identity == old(self).identity,
            final(self).bmh == old(self).bmh,
            final(self).containers == old(self).containers,
            final(self).assignments == old(self).assignments,
            final(self).oneshot == old(self).oneshot,
            final(self).config == old(self).config,
            final(self).imds_tokens == old(self).imds_tokens,
    {
        let ghost s0 = *self;
        let mut cache: Vec<(String, HostMetadata)> = Vec::new();
        let entries = &self.bmh.ip_to_hostname;
        let mut i: usize = 0;
        assert forall|ip: Seq<char>| #[trigger] lookup(cache@, ip) is Some <==> (key_pos(entries@, ip) < i
            && host_served(s0, ip)) by {
            lemma_key_pos(entries@, ip);
            lemma_key_pos(cache@, ip);
        }
        while i < entries.len()
            invariant
                s0 == *self,
                entries == &self.bmh.ip_to_hostname,
                self.wf(),
                i <= entries.len(),
                distinct_keys(cache@),
                forall|ip: Seq<char>|
                    #[trigger] lookup(cache@, ip) is Some <==> (key_pos(entries@, ip) < i && host_served(s0, ip)),
                forall|ip: Seq<char>| #[trigger] lookup(cache@, ip) matches Some(m) ==> metadata_for(s0, ip, m),
            decreases entries.len() - i,
        {
            let ip = &entries[i].0;
            let host = &entries[i].1;
            proof {
                lemma_key_pos_at(entries@, ip@, i as int);
            }
            let labels = self.labels_of(host.as_str());
            let r = resolve_host(ip.as_str(), host.as_str(), labels, &self.identity, &self.config.metadata);
            match r {
                Some(m) => {
                    let ghost before = cache@;
                    let key = ip.clone();
                    let ghost gm = m;
                    proof {
                        lemma_key_pos(before, ip@);
                        assert(lookup(before, ip@) is None);
                    }
                    cache.push((key, m));
                    proof {
                        assert forall|q: Seq<char>| #[trigger] lookup(cache@, q) is Some <==> (key_pos(entries@, q)
                            < i + 1 && host_served(s0, q)) by {
                            lemma_lookup_push(before, key, gm, q);
                            lemma_key_pos(entries@, q);
                            if q != ip@ && key_pos(entries@, q) == i {
                                assert(entries@[i as int].0@ == q);
                            }
                        }
                        assert forall|q: Seq<char>| #[trigger] lookup(cache@, q) is Some implies metadata_for(s0, q, lookup(cache@, q).unwrap()) by {
                            lemma_lookup_push(before, key, gm, q);
                        }
                        assert forall|a: int, b: int| 0 <= a < b < cache@.len() implies cache@[a].0@ != cache@[b].0@ by {
                            if b == before.len() {
                                assert(cache@[a] == before[a]);
                                assert(before[a].0@ != ip@);
                            } else {
                                assert(cache@[a] == before[a]);
                                assert(cache@[b] == before[b]);
                            }
                        }
                    }
                },
                None => {
                    proof {
                        assert forall|q: Seq<char>| #[trigger] lookup(cache@, q) is Some <==> (key_pos(entries@, q)
                            < i + 1 && host_served(s0, q)) by {
                            lemma_key_pos(entries@, q);
                            if key_pos(entries@, q) == i {
                                assert(entries@[i as int].0@ == q);
                            }
                        }
                    }
                },
            }
            i = i + 1;
        }
        proof {
            assert forall|ip: Seq<char>| #[trigger] lookup(cache@, ip) is Some <==> host_served(s0, ip) by {
                lemma_key_pos(entries@, ip);
            }
            assert forall|ip: Seq<char>| #[trigger] lookup(cache@, ip) is Some <==> (host_served(s0, ip) || (key_pos(
                self.containers.ip_to_container@,
                ip,
            ) < 0 && container_served(s0, ip))) by {
                lemma_key_pos(self.containers.ip_to_container@, ip);
            }
        }
        let centries = &self.containers.ip_to_container;
        let mut j: usize = 0;
        while j < centries.len()
            invariant
                s0 == *self,
                centries == &self.containers.ip_to_container,
                self.wf(),
                j <= centries.len(),
                distinct_keys(cache@),
                forall|ip: Seq<char>|
                    #[trigger] lookup(cache@, ip) is Some <==> (host_served(s0, ip) || (key_pos(centries@, ip) < j
                        && container_served(s0, ip))),
                forall|ip: Seq<char>| #[trigger] lookup(cache@, ip) matches Some(m) ==> metadata_for(s0, ip, m),
            decreases centries.len() - j,
        {
            let ip = &centries[j].0;
            let info = &centries[j].1;
            proof {
                lemma_key_pos_at(centries@, ip@, j as int);
                lemma_key_pos(cache@, ip@);
            }
            if find_key(&cache, ip.as_str()).is_none() {
                let r = resolve_container(ip.as_str(), info, &self.containers, &self.identity, &self.config.metadata);
                match r {
                    Some(m) => {
                        let ghost before = cache@;
                        let key = ip.clone();
                        let ghost gm = m;
                        cache.push((key, m));
                        proof {
                            assert forall|q: Seq<char>| #[trigger] lookup(cache@, q) is Some <==> (host_served(s0, q)
                                || (key_pos(centries@, q) < j + 1 && container_served(s0, q))) by {
                                lemma_lookup_push(before, key, gm, q);
                                lemma_key_pos(centries@, q);
                                if q != ip@ && key_pos(centries@, q) == j {
                                    assert(centries@[j as int].0@ == q);
                                }
                            }
                            assert forall|q: Seq<char>| #[trigger] lookup(cache@, q) is Some implies metadata_for(s0, q, lookup(cache@, q).unwrap()) by {
                                lemma_lookup_push(before, key, gm, q);
                            }
                            assert forall|a: int, b: int| 0 <= a < b < cache@.len() implies cache@[a].0@ != cache@[b].0@ by {
                                if b == before.len() {
                                    assert(cache@[a] == before[a]);
                                    assert(before[a].0@ != ip@);
                                } else {
                                    assert(cache@[a] == before[a]);
                                    assert(cache@[b] == before[b]);
                                }
                            }
                        }
                    },
                    None => {
                        proof {
                            assert forall|q: Seq<char>| #[trigger] lookup(cache@, q) is Some <==> (host_served(s0, q)
                                || (key_pos(centries@, q) < j + 1 && container_served(s0, q))) by {
                                lemma_key_pos(centries@, q);
                                if key_pos(centries@, q) == j {
                                    assert(centries@[j as int].0@ == q);
                                }
                            }
                        }
                    },
                }
            } else {
                proof {
                    assert forall|q: Seq<char>| #[trigger] lookup(cache@, q) is Some <==> (host_served(s0, q) || (
                    key_pos(centries@, q) < j + 1 && container_served(s0, q))) by {
                        lemma_key_pos(centries@, q);
                        if key_pos(centries@, q) == j {
                            assert(centries@[j as int].0@ == q);
                        }
                    }
                }
            }
            j = j + 1;
        }
        proof {
            assert forall|ip: Seq<char>| #[trigger] lookup(cache@, ip) is Some <==> (host_served(s0, ip)
                || container_served(s0, ip)) by {
                lemma_key_pos(centries@, ip);
            }
        }
        self.metadata_cache = cache;
    }
}

impl AppState {
    /// Look up precomputed metadata for a source IP (a copy of the entry).
    pub fn get_metadata(&self, ip: &str) -> (r: Option<HostMetadata>)
        ensures
            match lookup(self.metadata_cache@, ip@) {
                Some(m) => r matches Some(x) && same_metadata(x, m),
                None => r is None,
            },
    {
        proof {
            lemma_key_pos(self.metadata_cache@, ip@);
        }
        match find_key(&self.metadata_cache, ip) {
            Some(i) => Some(copy_metadata(&self.metadata_cache[i].1)),
            None => None,
        }
    }

    /// The host an IP maps to, if any.
    pub fn host_of_ip(&self, ip: &str) -> (r: Option<String>)
        ensures
            match r {
                Some(h) => bmh_host_of(self.bmh, ip@) == Some(h@),
                None => bmh_host_of(self.bmh, ip@) is None,
            },
    {
        proof {
            lemma_key_pos(self.bmh.ip_to_hostname@, ip@);
        }
        match find_key(&self.bmh.ip_to_hostname, ip) {
            Some(i) => Some(self.bmh.ip_to_hostname[i].1.clone()),
            None => None,
        }
    }

    /// On-demand resolve for a source IP: the cached entry when there is
    /// one, else the host the IP maps to resolved from the current state.
    pub fn resolve_on_demand(&self, ip: &str) -> (r: Option<HostMetadata>)
        ensures
            match lookup(self.metadata_cache@, ip@) {
                Some(m) => r matches Some(x) && same_metadata(x, m),
                None => match bmh_host_of(self.bmh, ip@) {
                    Some(h) => crate::resolve::resolves_host(
                        r,
                        ip@,
                        h,
                        bmh_labels(self.bmh, h),
                        self.identity,
                        self.config.metadata,
                    ),
                    None => r is None,
                },
            },
    {
        let cached = self.get_metadata(ip);
        if cached.is_some() {
            return cached;
        }
        match self.host_of_ip(ip) {
            Some(h) => {
                let labels = self.labels_of(h.as_str());
                resolve_host(ip, h.as_str(), labels, &self.identity, &self.config.metadata)
            },
            None => None,
        }
    }

    /// The full BareMetalHost data for a hostname.
    pub fn get_bmh(&self, hostname: &str) -> (r: Option<&BareMetalHost>)
        ensures
            match r {
                Some(b) => lookup(self.bmh.hosts@, hostname@) == Some(*b),
                None => lookup(self.bmh.hosts@, hostname@) is None,
            },
    {
        proof {
            lemma_key_pos(self.bmh.hosts@, hostname@);
        }
        match find_key(&self.bmh.hosts, hostname) {
            Some(i) => Some(&self.bmh.hosts[i].1),
            None => None,
        }
    }

    /// Whether a request comes from an IP the cache does not serve (a BMH
    /// refresh should then be triggered).
    pub fn is_unknown_ip(&self, ip: &str) -> (r: bool)
        ensures
            r == (lookup(self.metadata_cache@, ip@) is None),
    {
        proof {
            lemma_key_pos(self.metadata_cache@, ip@);
        }
        find_key(&self.metadata_cache, ip).is_none()
    }

    /// Record that the host at `ip` completed its oneshot template at time
    /// `ts`; false (and nothing changed) when the IP maps to no host.
    pub fn mark_provisioned(&mut self, ip: &str, ts: String) -> (r: bool)
        ensures
            r == (bmh_host_of(old(self).bmh, ip@) is Some),
            r ==> lookup(final(self).oneshot.completed@, bmh_host_of(old(self).bmh, ip@).unwrap()) == Some(ts),
            r ==> forall|k: Seq<char>|
                k != bmh_host_of(old(self).bmh, ip@).unwrap() ==> #[trigger] lookup(final(self).oneshot.completed@, k)
                    == lookup(old(self).oneshot.completed@, k),
            !r ==> final(self).oneshot == old(self).oneshot,
            distinct_keys(old(self).oneshot.completed@) ==> distinct_keys(final(self).oneshot.completed@),
            final(self).metadata_cache == old(self).metadata_cache,
            final(self).identity == old(self).identity,
            final(self).bmh == old(self).bmh,
            final(self).containers == old(self).containers,
            final(self).assignments == old(self).assignments,
            final(self).config == old(self).config,
            final(self).imds_tokens == old(self).imds_tokens,
    {
        match self.host_of_ip(ip) {
            Some(h) => {
                let ghost gh = h;
                let ghost gts = ts;
                let ghost before = self.oneshot.completed@;
                put_entry(&mut self.oneshot.completed, h, ts);
                proof {
                    assert forall|k: Seq<char>| k != gh@ implies #[trigger] lookup(self.oneshot.completed@, k) == lookup(
                        before,
                        k,
                    ) by {
                        lemma_put_entry_lookup(before, gh, gts, k);
                    }
                    lemma_put_entry_lookup(before, gh, gts, gh@);
                }
                true
            },
            None => false,
        }
    }

    /// Forget that a host completed its oneshot template, so that it is
    /// served again; false when it had not.
    pub fn reset_oneshot(&mut self, hostname: &str) -> (r: bool)
        ensures
            r == (lookup(old(self).oneshot.completed@, hostname@) is Some),
            final(self).oneshot.completed@ == remove_result(old(self).oneshot.completed@, hostname@),
            final(self).metadata_cache == old(self).metadata_cache,
            final(self).identity == old(self).identity,
            final(self).bmh == old(self).bmh,
            final(self).containers == old(self).containers,
            final(self).assignments == old(self).assignments,
            final(self).config == old(self).config,
            final(self).imds_tokens == old(self).imds_tokens,
    {
        remove_entry(&mut self.oneshot.completed, hostname)
    }

    /// Assign a template to a host (replacing its assignment, if any).
    pub fn assign_template(&mut self, hostname: String, a: Assignment)
        ensures
            final(self).assignments.assignments@ == put_result(old(self).assignments.assignments@, hostname, a),
            final(self).metadata_cache == old(self).metadata_cache,
            final(self).identity == old(self).identity,
            final(self).bmh == old(self).bmh,
            final(self).containers == old(self).containers,
            final(self).oneshot == old(self).oneshot,
            final(self).config == old(self).config,
            final(self).imds_tokens == old(self).imds_tokens,
    {
        put_entry(&mut self.assignments.assignments, hostname, a);
    }

    /// Remove the template assignment of a host; false when it had none.
    pub fn unassign_template(&mut self, hostname: &str) -> (r: bool)
        ensures
            r == (lookup(old(self).assignments.assignments@, hostname@) is Some),
            final(self).assignments.assignments@ == remove_result(old(self).assignments.assignments@, hostname@),
            final(self).metadata_cache == old(self).metadata_cache,
            final(self).identity == old(self).identity,
            final(self).bmh == old(self).bmh,
            final(self).containers == old(self).containers,
            final(self).oneshot == old(self).oneshot,
            final(self).config == old(self).config,
            final(self).imds_tokens == old(self).imds_tokens,
    {
        remove_entry(&mut self.assignments.assignments, hostname)
    }
}

/// The name a BareMetalHost is known by: its spec's host name, or its
/// object name when that is empty.
pub open spec fn bmh_name(host: BareMetalHost) -> Seq<char> {
    if host.spec.hostname@.len() == 0 {
        host.metadata.name@
    } else {
        host.spec.hostname@
    }
}

/// The IP text a BareMetalHost announces: its live status IP, else its
/// configured IP, when not empty.
pub open spec fn bmh_ip(host: BareMetalHost) -> Option<Seq<char>> {
    match host.status {
        Some(st) if st.ip@.len() > 0 => Some(st.ip@),
        _ => if host.spec.ip@.len() > 0 {
            Some(host.spec.ip@)
        } else {
            None
        },
    }
}

/// Where a BareMetalHost is found: at the live IP its status reports, when
/// it reports one; else at the IP its spec configures, when there is one;
/// else nowhere.
pub proof fn law_bmh_ip_prefers_live_ip(host: BareMetalHost)
    ensures
        (host.status matches Some(st) && st.ip@.len() > 0) ==> bmh_ip(host) == Some(host.status->0.ip@),
        !(host.status matches Some(st) && st.ip@.len() > 0) && host.spec.ip@.len() > 0 ==> bmh_ip(host) == Some(
            host.spec.ip@,
        ),
        !(host.status matches Some(st) && st.ip@.len() > 0) && host.spec.ip@.len() == 0 ==> bmh_ip(host) is None,
{
}

/// The name a BareMetalHost is known by.
pub fn bmh_hostname(host: &BareMetalHost) -> (r: String)
    ensures
        r@ == bmh_name(*host),
{
    if crate::text::chars_of(host.spec.hostname.as_str()).len() == 0 {
        host.metadata.name.clone()
    } else {
        host.spec.hostname.clone()
    }
}

/// The IP text of a BareMetalHost: `status.ip` preferred over `spec.ip`.
pub fn bmh_ip_text(host: &BareMetalHost) -> (r: Option<String>)
    ensures
        match r {
            Some(t) => bmh_ip(*host) == Some(t@),
            None => bmh_ip(*host) is None,
        },
{
    match &host.status {
        Some(st) => {
            if crate::text::chars_of(st.ip.as_str()).len() > 0 {
                return Some(st.ip.clone());
            }
        },
        None => {},
    }
    if crate::text::chars_of(host.spec.ip.as_str()).len() > 0 {
        Some(host.spec.ip.clone())
    } else {
        None
    }
}

/// A copy of a label map.
pub fn copy_labels(l: &LabelMap) -> (r: LabelMap)
    ensures
        r@ == l@,
{
    let mut r: LabelMap = Vec::new();
    let mut i: usize = 0;
    while i < l.len()
        invariant
            i <= l.len(),
            r@ == l@.subrange(0, i as int),
        decreases l.len() - i,
    {
        r.push((l[i].0.clone(), l[i].1.clone()));
        i = i + 1;
        assert(r@ =~= l@.subrange(0, i as int));
    }
    assert(l@.subrange(0, l.len() as int) =~= l@);
    r
}

/// The IP entries whose host is not `h`, in order.
pub open spec fn without_host(entries: Seq<(String, String)>, h: Seq<char>) -> Seq<(String, String)>
    decreases entries.len(),
{
    if entries.len() == 0 {
        Seq::empty()
    } else if entries.last().1@ == h {
        without_host(entries.drop_last(), h)
    } else {
        without_host(entries.drop_last(), h).push(entries.last())
    }
}

proof fn lemma_without_host(entries: Seq<(String, String)>, h: Seq<char>)
    ensures
        forall|i: int| 0 <= i < without_host(entries, h).len() ==> #[trigger] without_host(entries, h)[i].1@ != h,
        forall|i: int|
            0 <= i < without_host(entries, h).len() ==> entries.contains(#[trigger] without_host(entries, h)[i]),
        distinct_keys(entries) ==> distinct_keys(without_host(entries, h)),
    decreases entries.len(),
{
    if entries.len() > 0 {
        let prev = entries.drop_last();
        lemma_without_host(prev, h);
        let w = without_host(entries, h);
        let wp = without_host(prev, h);
        assert forall|i: int| 0 <= i < w.len() implies entries.contains(#[trigger] w[i]) by {
            if i < wp.len() {
                assert(w[i] == wp[i]);
                let k = choose|k: int| 0 <= k < prev.len() && prev[k] == wp[i];
                assert(entries[k] == prev[k]);
            } else {
                assert(w[i] == entries.last());
                assert(entries[entries.len() - 1] == entries.last());
            }
        }
        assert forall|i: int| 0 <= i < w.len() implies #[trigger] w[i].1@ != h by {
            if i < wp.len() {
                assert(w[i] == wp[i]);
            }
        }
        if distinct_keys(entries) {
            assert(distinct_keys(prev)) by {
                assert forall|a: int, b: int| 0 <= a < b < prev.len() implies prev[a].0@ != prev[b].0@ by {
                    assert(prev[a] == entries[a]);
                    assert(prev[b] == entries[b]);
                }
            }
            assert forall|a: int, b: int| 0 <= a < b < w.len() implies w[a].0@ != w[b].0@ by {
                if b < wp.len() {
                    assert(w[a] == wp[a]);
                    assert(w[b] == wp[b]);
                } else {
                    assert(w[a] == wp[a]);
                    assert(prev.contains(wp[a]));
                    let k = choose|k: int| 0 <= k < prev.len() && prev[k] == wp[a];
                    assert(entries[k] == prev[k]);
                    assert(w[b] == entries[entries.len() - 1]);
                }
            }
        }
    }
}

impl BmhState {
    /// Each map a distinct-key list.
    pub open spec fn wf(&self) -> bool {
        &&& distinct_keys(self.ip_to_hostname@)
        &&& distinct_keys(self.host_labels@)
        &&& distinct_keys(self.host_namespace@)
        &&& distinct_keys(self.hosts@)
    }

    /// Forget every host.
    pub fn clear(&mut self)
        ensures
            final(self).ip_to_hostname@.len() == 0,
            final(self).host_labels@.len() == 0,
            final(self).host_namespace@.len() == 0,
            final(self).hosts@.len() == 0,
            final(self).wf(),
    {
        self.ip_to_hostname = Vec::new();
        self.host_labels = Vec::new();
        self.host_namespace = Vec::new();
        self.hosts = Vec::new();
    }

    /// Record a BareMetalHost found at `ip` (canonical IP text): the IP maps
    /// to the host's name, and its labels, namespace and whole record are
    /// stored under that name.
    pub fn apply_host(&mut self, host: BareMetalHost, ip: String)
        ensures
            forall|q: Seq<char>|
                #[trigger] bmh_host_of(*final(self), q) == (if q == ip@ {
                    Some(bmh_name(host))
                } else {
                    bmh_host_of(*old(self), q)
                }),
            forall|h: Seq<char>|
                #[trigger] bmh_labels(*final(self), h) == (if h == bmh_name(host) {
                    Some(host.metadata.labels@)
                } else {
                    bmh_labels(*old(self), h)
                }),
            forall|h: Seq<char>|
                #[trigger] lookup(final(self).host_namespace@, h) matches Some(n) ==> (if h == bmh_name(host) {
                    n@ == host.metadata.namespace@
                } else {
                    lookup(old(self).host_namespace@, h) == Some(n)
                }),
            forall|h: Seq<char>|
                #[trigger] lookup(final(self).host_namespace@, h) is Some == (h == bmh_name(host) || lookup(
                    old(self).host_namespace@,
                    h,
                ) is Some),
            forall|h: Seq<char>|
                #[trigger] lookup(final(self).hosts@, h) == (if h == bmh_name(host) {
                    Some(host)
                } else {
                    lookup(old(self).hosts@, h)
                }),
            old(self).wf() ==> final(self).wf(),
    {
        let name = bmh_hostname(&host);
        let ghost gname = name;
        let ghost ghost_host = host;
        let ghost ip_before = self.ip_to_hostname@;
        let ghost labels_before = self.host_labels@;
        let ghost ns_before = self.host_namespace@;
        let ghost hosts_before = self.hosts@;
        let ghost gip = ip;
        let n1 = name.clone();
        put_entry(&mut self.ip_to_hostname, ip, n1);
        let labels = copy_labels(&host.metadata.labels);
        let ghost glabels = labels;
        put_entry(&mut self.host_labels, name.clone(), labels);
        let ns = host.metadata.namespace.clone();
        let ghost gns = ns;
        put_entry(&mut self.host_namespace, name.clone(), ns);
        put_entry(&mut self.hosts, name, host);
        proof {
            assert forall|q: Seq<char>| #[trigger] bmh_host_of(*self, q) == (if q == gip@ {
                Some(bmh_name(ghost_host))
            } else {
                bmh_host_of(*old(self), q)
            }) by {
                lemma_put_entry_lookup(ip_before, gip, gname, q);
            }
            assert forall|h: Seq<char>| #[trigger] bmh_labels(*self, h) == (if h == bmh_name(ghost_host) {
                Some(ghost_host.metadata.labels@)
            } else {
                bmh_labels(*old(self), h)
            }) by {
                lemma_put_entry_lookup(labels_before, gname, glabels, h);
            }
            assert forall|h: Seq<char>| #[trigger] lookup(self.host_namespace@, h) is Some == (h == bmh_name(ghost_host)
                || lookup(ns_before, h) is Some) by {
                lemma_put_entry_lookup(ns_before, gname, gns, h);
            }
            assert forall|h: Seq<char>| #[trigger] lookup(self.host_namespace@, h) matches Some(n) ==> (if h == bmh_name(
                ghost_host,
            ) {
                n@ == ghost_host.metadata.namespace@
            } else {
                lookup(ns_before, h) == Some(n)
            }) by {
                lemma_put_entry_lookup(ns_before, gname, gns, h);
            }
            assert forall|h: Seq<char>| #[trigger] lookup(self.hosts@, h) == (if h == bmh_name(ghost_host) {
                Some(ghost_host)
            } else {
                lookup(hosts_before, h)
            }) by {
                lemma_put_entry_lookup(hosts_before, gname, ghost_host, h);
            }
            lemma_put_entry_lookup(ip_before, gip, gname, gip@);
            lemma_put_entry_lookup(labels_before, gname, glabels, gname@);
            lemma_put_entry_lookup(ns_before, gname, gns, gname@);
            lemma_put_entry_lookup(hosts_before, gname, ghost_host, gname@);
        }
    }

    /// Forget a host: every IP mapped to it, and its labels, namespace and record.
    pub fn remove_host(&mut self, hostname: &str)
        ensures
            final(self).ip_to_hostname@ == without_host(old(self).ip_to_hostname@, hostname@),
            final(self).host_labels@ == remove_result(old(self).host_labels@, hostname@),
            final(self).host_namespace@ == remove_result(old(self).host_namespace@, hostname@),
            final(self).hosts@ == remove_result(old(self).hosts@, hostname@),
    {
        let mut kept: Vec<(String, String)> = Vec::new();
        let mut i: usize = 0;
        while i < self.ip_to_hostname.len()
            invariant
                i <= self.ip_to_hostname.len(),
                self.ip_to_hostname@ == old(self).ip_to_hostname@,
                kept@ == without_host(self.ip_to_hostname@.subrange(0, i as int), hostname@),
            decreases self.ip_to_hostname.len() - i,
        {
            let ghost sub = self.ip_to_hostname@.subrange(0, i + 1);
            assert(sub.drop_last() =~= self.ip_to_hostname@.subrange(0, i as int));
            if !crate::text::str_eq(self.ip_to_hostname[i].1.as_str(), hostname) {
                let e = (self.ip_to_hostname[i].0.clone(), self.ip_to_hostname[i].1.clone());
                kept.push(e);
            }
            i = i + 1;
        }
        assert(self.ip_to_hostname@.subrange(0, self.ip_to_hostname.len() as int) =~= self.ip_to_hostname@);
        self.ip_to_hostname = kept;
        remove_entry(&mut self.host_labels, hostname);
        remove_entry(&mut self.host_namespace, hostname);
        remove_entry(&mut self.hosts, hostname);
    }

    /// Record a DHCP lease (canonical IP text): only a lease with a host
    /// name, and only for an IP no BareMetalHost maps already. Tells whether
    /// it was recorded.
    pub fn add_lease(&mut self, ip: String, hostname: String) -> (r: bool)
        ensures
            r == (hostname@.len() > 0 && bmh_host_of(*old(self), ip@) is None),
            r ==> final(self).ip_to_hostname@ == old(self).ip_to_hostname@.push((ip, hostname)),
            !r ==> final(self).ip_to_hostname@ == old(self).ip_to_hostname@,
            final(self).host_labels == old(self).host_labels,
            final(self).host_namespace == old(self).host_namespace,
            final(self).hosts == old(self).hosts,
    {
        if crate::text::chars_of(hostname.as_str()).len() == 0 {
            return false;
        }
        proof {
            lemma_key_pos(self.ip_to_hostname@, ip@);
        }
        if find_key(&self.ip_to_hostname, ip.as_str()).is_some() {
            return false;
        }
        self.ip_to_hostname.push((ip, hostname));
        true
    }
}

/// A cache rebuilt from an identity with no users and no access rules
/// serves no IP: no host is granted to anyone and no container has a
/// known owner.
pub proof fn law_empty_identity_serves_nobody(s: AppState, cache: Seq<(String, HostMetadata)>)
    requires
        s.identity.users@.len() == 0,
        s.identity.host_access@.len() == 0,
        cache_matches(s, cache),
    ensures
        forall|ip: Seq<char>| #[trigger] lookup(cache, ip) is None,
{
    assert forall|ip: Seq<char>| #[trigger] lookup(cache, ip) is None by {
        match bmh_host_of(s.bmh, ip) {
            Some(h) => {
                let labels = bmh_labels(s.bmh, h);
                assert(crate::resolve::matching_rules(s.identity, h, labels, 0) =~= Seq::<int>::empty());
                assert(host_grants(s.identity, h, labels) =~= Seq::<(int, int)>::empty());
            },
            None => {},
        }
        match lookup(s.containers.ip_to_container@, ip) {
            Some(info) => {
                match lookup(s.containers.namespace_owners@, info.namespace@) {
                    Some(owner) => {
                        lemma_key_pos(s.identity.users@, owner@);
                    },
                    None => {},
                }
            },
            None => {},
        }
    }
}

/// After a host is removed, no IP maps to it any more.
pub proof fn law_removed_host_has_no_ip(entries: Seq<(String, String)>, h: Seq<char>, ip: Seq<char>)
    ensures
        lookup(without_host(entries, h), ip) matches Some(v) ==> v@ != h,
{
    lemma_without_host(entries, h);
    lemma_key_pos(without_host(entries, h), ip);
}

/// A lease never replaces the host an IP already maps to.
pub proof fn law_lease_keeps_known_ip(entries: Seq<(String, String)>, ip: String, hostname: String, q: Seq<char>)
    requires
        lookup(entries, ip@) is None,
    ensures
        lookup(entries.push((ip, hostname)), q) == (if q == ip@ { Some(hostname) } else { lookup(entries, q) }),
{
    crate::keyed::lemma_lookup_push(entries, ip, hostname, q);
    lemma_key_pos(entries, q);
    lemma_key_pos(entries, ip@);
}

/// What a BareMetalHost watch event asks for.
#[derive(Debug, Clone, Copy, PartialEq, Eq, Structural)]
pub enum WatchAction {
    /// ADDED or MODIFIED: record the host.
    Apply,
    /// DELETED: forget the host.
    Remove,
    /// Any other event type: nothing.
    Ignore,
}

/// The action for a watch event type.
pub fn watch_action(event_type: &str) -> (a: WatchAction)
    ensures
        a == (if event_type@ == "ADDED"@ || event_type@ == "MODIFIED"@ {
            WatchAction::Apply
        } else if event_type@ == "DELETED"@ {
            WatchAction::Remove
        } else {
            WatchAction::Ignore
        }),
{
    if crate::text::str_eq(event_type, "ADDED") || crate::text::str_eq(event_type, "MODIFIED") {
        WatchAction::Apply
    } else if crate::text::str_eq(event_type, "DELETED") {
        WatchAction::Remove
    } else {
        WatchAction::Ignore
    }
}

/// The owner a namespace's annotations name (`vkube.io/owner`, when not empty).
pub open spec fn owner_of(annotations: Seq<(String, String)>) -> Option<Seq<char>> {
    match lookup(annotations, "vkube.io/owner"@) {
        Some(v) => if v@.len() > 0 {
            Some(v@)
        } else {
            None
        },
        None => None,
    }
}

/// The owner of a namespace, from its annotations.
pub fn namespace_owner(annotations: &LabelMap) -> (r: Option<String>)
    ensures
        match r {
            Some(o) => owner_of(annotations@) == Some(o@),
            None => owner_of(annotations@) is None,
        },
{
    proof {
        lemma_key_pos(annotations@, "vkube.io/owner"@);
    }
    match find_key(annotations, "vkube.io/owner") {
        Some(i) => {
            let v = &annotations[i].1;
            if crate::text::chars_of(v.as_str()).len() > 0 {
                Some(v.clone())
            } else {
                None
            }
        },
        None => None,
    }
}

/// The container entry of a pod: its first container's name ("main" when
/// it reports none), and the host name `container.pod`.
pub fn container_info(namespace: &str, pod_name: &str, first_container: Option<&str>) -> (r: ContainerInfo)
    ensures
        r.namespace@ == namespace@,
        r.pod_name@ == pod_name@,
        r.container_name@ == (match first_container {
            Some(c) => c@,
            None => "main"@,
        }),
        r.hostname@ == r.container_name@ + "."@ + pod_name@,
{
    let container_name = match first_container {
        Some(c) => String::from_str(c),
        None => String::from_str("main"),
    };
    let mut hostname = container_name.clone();
    hostname.append(".");
    hostname.append(pod_name);
    ContainerInfo {
        namespace: String::from_str(namespace),
        pod_name: String::from_str(pod_name),
        container_name,
        hostname,
    }
}

/// The token issued for the nonce `nonce`.
pub open spec fn imds_token_text(nonce: Seq<char>) -> Seq<char> {
    "cloudid-"@ + nonce
}

/// The IP a session token answers with at `now`: the one it was issued to,
/// while it has not expired.
pub open spec fn token_ip(tokens: Seq<(String, (String, u64))>, token: Seq<char>, now: u64) -> Option<Seq<char>> {
    match lookup(tokens, token) {
        Some(e) => if now < e.1 {
            Some(e.0@)
        } else {
            None
        },
        None => None,
    }
}

/// When a token issued at `now` for `ttl` seconds expires (the latest
/// instant, when the sum does not fit).
pub open spec fn token_expiry(now: u64, ttl: u32) -> u64 {
    if now + ttl <= u64::MAX {
        (now + ttl) as u64
    } else {
        u64::MAX
    }
}

impl AppState {
    /// Issue an IMDSv2 session token to `ip`, valid for `ttl` seconds from
    /// `now`; `nonce` is the token's unpredictable part.
    pub fn generate_imds_token(&mut self, ip: &str, ttl: u32, nonce: &str, now: u64) -> (token: String)
        ensures
            token@ == imds_token_text(nonce@),
            lookup(final(self).imds_tokens@, token@) matches Some(e) && e.0@ == ip@ && e.1 == token_expiry(now, ttl),
            forall|t: u64|
                #[trigger] token_ip(final(self).imds_tokens@, token@, t) == (if t < token_expiry(now, ttl) {
                    Some(ip@)
                } else {
                    None
                }),
            forall|q: Seq<char>, t: u64|
                q != token@ ==> #[trigger] token_ip(final(self).imds_tokens@, q, t) == token_ip(
                    old(self).imds_tokens@,
                    q,
                    t,
                ),
            forall|t: Seq<char>|
                t != token@ ==> #[trigger] lookup(final(self).imds_tokens@, t) == lookup(old(self).imds_tokens@, t),
            final(self).metadata_cache == old(self).metadata_cache,
            final(self).identity == old(self).identity,
            final(self).bmh == old(self).bmh,
            final(self).containers == old(self).containers,
            final(self).assignments == old(self).assignments,
            final(self).oneshot == old(self).oneshot,
            final(self).config == old(self).config,
    {
        let mut token = String::from_str("cloudid-");
        token.append(nonce);
        let expires = now.saturating_add(ttl as u64);
        let entry = (String::from_str(ip), expires);
        let ghost ge = entry;
        let ghost before = self.imds_tokens@;
        let key = token.clone();
        assert(key@ == token@);
        let ghost gk = key;
        put_entry(&mut self.imds_tokens, key, entry);
        proof {
            lemma_put_entry_lookup(before, gk, ge, gk@);
            assert forall|t: Seq<char>| t != token@ implies #[trigger] lookup(self.imds_tokens@, t) == lookup(before, t) by {
                lemma_put_entry_lookup(before, gk, ge, t);
            }
        }
        token
    }

    /// The IP a session token was issued to, while it has not expired at `now`.
    pub fn validate_imds_token(&self, token: &str, now: u64) -> (r: Option<String>)
        ensures
            match r {
                Some(ip) => token_ip(self.imds_tokens@, token@, now) == Some(ip@),
                None => token_ip(self.imds_tokens@, token@, now) is None,
            },
    {
        proof {
            lemma_key_pos(self.imds_tokens@, token@);
        }
        match find_key(&self.imds_tokens, token) {
            Some(i) => {
                let e = &self.imds_tokens[i].1;
                if now < e.1 {
                    Some(e.0.clone())
                } else {
                    None
                }
            },
            None => None,
        }
    }
}

} // verus!
