use vstd::prelude::*;
use crate::json::JsonValue;

verus! {

/// A map from label name to label value, as a list of entries (the first
/// entry with a given name is the one that counts).
pub type LabelMap = Vec<(String, String)>;

/// SSH public key with a name identifier.
#[derive(Debug)]
pub struct SshPublicKey {
    pub name: String,
    pub key: String,
}

/// User as stored in AMO's NATS KV bucket (AMO_USERS).
#[derive(Debug)]
pub struct UserSpec {
    pub display_name: String,
    pub email: Option<String>,
    pub org: String,
    pub uid: u32,
    pub gid: u32,
    pub shell: String,
    pub ssh_public_keys: Vec<SshPublicKey>,
    pub groups: Vec<String>,
}

/// Group as stored in AMO's NATS KV bucket (AMO_GROUPS).
#[derive(Debug)]
pub struct GroupSpec {
    pub display_name: String,
    pub gid: u32,
    pub members: Vec<String>,
    pub org: String,
}

/// Subject reference in a HostAccess rule.
#[derive(Debug)]
pub struct Subject {
    pub kind: SubjectKind,
    pub name: String,
}

/// Whether a subject names a user or a group.
#[derive(Debug, Clone, Copy, PartialEq, Eq, Structural)]
pub enum SubjectKind {
    User,
    Group,
}

/// HostAccess targets specifying which hosts the rule applies to.
#[derive(Debug)]
pub struct HostAccessTargets {
    pub hosts: Vec<String>,
    pub host_groups: Vec<String>,
    pub host_selectors: Vec<LabelMap>,
}

/// HostAccess as stored in AMO's NATS KV bucket (AMO_HOSTACCESS).
#[derive(Debug)]
pub struct HostAccessSpec {
    pub subjects: Vec<Subject>,
    pub targets: HostAccessTargets,
    pub ssh_users: Vec<String>,
    pub sudo: bool,
}

/// HostGroup as stored in AMO's NATS KV bucket (AMO_HOSTGROUPS).
#[derive(Debug)]
pub struct HostGroupSpec {
    pub hosts: Vec<String>,
    pub labels: LabelMap,
}

/// Kubernetes-style object metadata of an AMO resource.
#[derive(Debug)]
pub struct ResourceMeta {
    pub name: String,
    pub namespace: String,
    pub labels: LabelMap,
    pub annotations: LabelMap,
}

/// Status of an AMO resource.
#[derive(Debug)]
pub struct ResourceStatus {
    pub enabled: bool,
}

/// An AMO resource: metadata, spec and optional status.
#[derive(Debug)]
pub struct Resource<T> {
    pub kind: String,
    pub metadata: ResourceMeta,
    pub spec: T,
    pub status: Option<ResourceStatus>,
}

pub type UserResource = Resource<UserSpec>;
pub type GroupResource = Resource<GroupSpec>;
pub type HostAccessResource = Resource<HostAccessSpec>;
pub type HostGroupResource = Resource<HostGroupSpec>;

/// Metadata of a BareMetalHost.
#[derive(Debug)]
pub struct BmhMeta {
    pub name: String,
    pub namespace: String,
    pub labels: LabelMap,
    pub annotations: LabelMap,
}

/// BMC settings of a BareMetalHost.
#[derive(Debug)]
pub struct BmhBmc {
    pub address: String,
    pub mac: String,
    pub hostname: String,
    pub network: String,
}

/// Spec of a BareMetalHost.
#[derive(Debug)]
pub struct BmhSpec {
    pub boot_mac_address: String,
    pub online: Option<bool>,
    pub image: String,
    pub network: String,
    pub ip: String,
    pub hostname: String,
    pub bmc: Option<BmhBmc>,
    /// Template assignment from BMH CRD (format: "image_type/name" or just "name").
    pub template: Option<String>,
    /// Base Ignition v3 config (from BMH CRD). CloudID merges SSH keys into this.
    pub ignition: Option<JsonValue>,
    /// Base kickstart config text (from BMH CRD). CloudID merges SSH keys into this.
    pub kickstart: Option<String>,
}

/// Status of a BareMetalHost.
#[derive(Debug)]
pub struct BmhStatus {
    pub phase: String,
    pub powered_on: bool,
    pub ip: String,
}

/// A BareMetalHost object from mkube.
#[derive(Debug)]
pub struct BareMetalHost {
    pub metadata: BmhMeta,
    pub spec: BmhSpec,
    pub status: Option<BmhStatus>,
}

/// A list of BareMetalHost objects.
#[derive(Debug)]
pub struct BareMetalHostList {
    pub items: Vec<BareMetalHost>,
}

/// One event of a BareMetalHost watch stream.
#[derive(Debug)]
pub struct WatchEvent {
    pub event_type: String,
    pub object: BareMetalHost,
}

/// A DHCP lease from MicroDNS.
#[derive(Debug)]
pub struct DhcpLease {
    pub ip: String,
    pub mac: String,
    pub hostname: String,
}

/// A set of SSH keys for a specific system user (e.g., root, core).
#[derive(Debug)]
pub struct PublicKeyEntry {
    pub ssh_user: String,
    pub keys: Vec<String>,
}

/// User account entry for cloud-config user-data.
#[derive(Debug)]
pub struct CloudConfigUser {
    pub name: String,
    pub uid: String,
    pub groups: Vec<String>,
    pub shell: String,
    pub sudo: Option<String>,
    pub ssh_authorized_keys: Vec<String>,
}

/// Structured cloud-config.
#[derive(Debug)]
pub struct CloudConfig {
    pub users: Vec<CloudConfigUser>,
}

/// Precomputed metadata for a single host, ready to serve.
#[derive(Debug)]
pub struct HostMetadata {
    pub instance_id: String,
    pub hostname: String,
    pub local_hostname: String,
    pub local_ipv4: String,
    pub availability_zone: String,
    pub public_keys: Vec<PublicKeyEntry>,
    pub user_data: String,
    /// Structured cloud-config for ignition/kickstart generation.
    pub cloud_config: CloudConfig,
}

/// The shell given to a user whose record names none.
pub fn default_shell() -> (s: String)
    ensures
        s@ == "/bin/bash"@,
{
    String::from_str("/bin/bash")
}

/// A resource without status is enabled.
pub fn default_enabled() -> (b: bool)
    ensures
        b,
{
    true
}

/// A user is enabled unless its status says otherwise.
pub open spec fn user_enabled(u: UserResource) -> bool {
    match u.status {
        Some(st) => st.enabled,
        None => true,
    }
}

/// The views of a list of strings.
pub open spec fn str_views(v: Seq<String>) -> Seq<Seq<char>> {
    crate::order::views(v)
}

/// The key texts of a user's SSH keys, in order.
pub open spec fn user_keys(u: UserResource) -> Seq<Seq<char>> {
    u.spec.ssh_public_keys@.map_values(|k: SshPublicKey| k.key@)
}

/// A copy of a list of strings.
pub fn copy_strings(v: &Vec<String>) -> (r: Vec<String>)
    ensures
        r@ == v@,
{
    let mut r: Vec<String> = Vec::new();
    let mut i: usize = 0;
    while i < v.len()
        invariant
            i <= v.len(),
            r@ == v@.subrange(0, i as int),
        decreases v.len() - i,
    {
        r.push(v[i].clone());
        i = i + 1;
        assert(r@ =~= v@.subrange(0, i as int));
    }
    assert(v@.subrange(0, v.len() as int) =~= v@);
    r
}

/// The key texts of a user's SSH keys, in order.
pub fn user_key_texts(u: &UserResource) -> (r: Vec<String>)
    ensures
        str_views(r@) == user_keys(*u),
{
    let keys = &u.spec.ssh_public_keys;
    let mut r: Vec<String> = Vec::new();
    let mut i: usize = 0;
    while i < keys.len()
        invariant
            i <= keys.len(),
            keys == &u.spec.ssh_public_keys,
            str_views(r@) == user_keys(*u).subrange(0, i as int),
        decreases keys.len() - i,
    {
        let ghost old_r = r@;
        let k = keys[i].key.clone();
        assert(k@ == user_keys(*u)[i as int]);
        r.push(k);
        assert(str_views(r@) =~= str_views(old_r).push(k@));
        i = i + 1;
        assert(str_views(r@) =~= user_keys(*u).subrange(0, i as int));
    }
    assert(user_keys(*u).subrange(0, keys.len() as int) =~= user_keys(*u));
    r
}

} // verus!
