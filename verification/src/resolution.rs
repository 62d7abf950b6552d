use vstd::prelude::*;
use crate::cache::{AppState, bmh_host_of, bmh_labels, cache_matches, container_served, host_served, metadata_for};
use crate::config::MetadataConfig;
use crate::cache::{ContainerInfo, IdentityState};
use crate::keyed::lookup;
use crate::model::{CloudConfig, CloudConfigUser, HostMetadata, PublicKeyEntry, UserResource, str_views, user_keys};
use crate::order::lemma_sorted_unique;
use crate::resolve::{
    cloud_config_doc, cloud_user_doc, cloud_user_names, cloud_user_of, cloud_users_spec, container_metadata_spec,
    entry_logins, first_grant, host_grants, host_metadata_spec, public_keys_spec, resolves_host, same_cloud_user,
    same_keys_entry, same_metadata, user_data_text,
};

verus! {

proof fn lemma_public_keys_unique(
    identity: IdentityState,
    gs: Seq<(int, int)>,
    a: Seq<PublicKeyEntry>,
    b: Seq<PublicKeyEntry>,
)
    requires
        public_keys_spec(identity, gs, a),
        public_keys_spec(identity, gs, b),
    ensures
        a.len() == b.len(),
        forall|i: int| 0 <= i < a.len() ==> same_keys_entry(#[trigger] a[i], b[i]),
{
    lemma_sorted_unique(entry_logins(a), entry_logins(b));
    assert(entry_logins(a).len() == a.len());
    assert forall|i: int| 0 <= i < a.len() implies same_keys_entry(#[trigger] a[i], b[i]) by {
        assert(entry_logins(a)[i] == a[i].ssh_user@);
        assert(entry_logins(b)[i] == b[i].ssh_user@);
        lemma_sorted_unique(str_views(a[i].keys@), str_views(b[i].keys@));
    }
}

proof fn lemma_cloud_user_same(a: CloudConfigUser, b: CloudConfigUser, name: Seq<char>, user: UserResource, sudo: bool)
    requires
        cloud_user_of(a, name, user, sudo),
        cloud_user_of(b, name, user, sudo),
    ensures
        same_cloud_user(a, b),
{
}

proof fn lemma_first_grant_unique(identity: IdentityState, gs: Seq<(int, int)>, name: Seq<char>, i: int, j: int)
    requires
        first_grant(identity, gs, name, i),
        first_grant(identity, gs, name, j),
    ensures
        i == j,
{
}

proof fn lemma_cloud_users_unique(
    identity: IdentityState,
    gs: Seq<(int, int)>,
    a: Seq<CloudConfigUser>,
    b: Seq<CloudConfigUser>,
)
    requires
        cloud_users_spec(identity, gs, a),
        cloud_users_spec(identity, gs, b),
    ensures
        a.len() == b.len(),
        forall|p: int| 0 <= p < a.len() ==> same_cloud_user(#[trigger] a[p], b[p]),
{
    lemma_sorted_unique(cloud_user_names(a), cloud_user_names(b));
    assert(cloud_user_names(a).len() == a.len());
    assert forall|p: int| 0 <= p < a.len() implies same_cloud_user(#[trigger] a[p], b[p]) by {
        assert(cloud_user_names(a)[p] == a[p].name@);
        assert(cloud_user_names(b)[p] == b[p].name@);
        let i = choose|i: int|
            first_grant(identity, gs, a[p].name@, i) && cloud_user_of(
                #[trigger] a[p],
                a[p].name@,
                crate::resolve::grant_user(identity, gs[i]),
                crate::resolve::grant_rule(identity, gs[i]).spec.sudo,
            );
        let j = choose|j: int|
            first_grant(identity, gs, b[p].name@, j) && cloud_user_of(
                #[trigger] b[p],
                b[p].name@,
                crate::resolve::grant_user(identity, gs[j]),
                crate::resolve::grant_rule(identity, gs[j]).spec.sudo,
            );
        lemma_first_grant_unique(identity, gs, a[p].name@, i, j);
        lemma_cloud_user_same(
            a[p],
            b[p],
            a[p].name@,
            crate::resolve::grant_user(identity, gs[i]),
            crate::resolve::grant_rule(identity, gs[i]).spec.sudo,
        );
    }
}

/// Cloud-configs whose users read the same give the same user-data.
proof fn lemma_user_data_same(a: CloudConfig, b: CloudConfig)
    requires
        a.users@.len() == b.users@.len(),
        forall|p: int| 0 <= p < a.users@.len() ==> same_cloud_user(#[trigger] a.users@[p], b.users@[p]),
    ensures
        user_data_text(a) == user_data_text(b),
{
    assert forall|p: int| 0 <= p < a.users@.len() implies cloud_user_doc(#[trigger] a.users@[p]) == cloud_user_doc(
        b.users@[p],
    ) by {
        let x = a.users@[p];
        let y = b.users@[p];
        assert(same_cloud_user(x, y));
        assert(x.groups@.len() == str_views(x.groups@).len());
        assert(y.groups@.len() == str_views(y.groups@).len());
        match (x.sudo, y.sudo) {
            (Some(s), Some(t)) => {
                assert(s@ == t@);
            },
            _ => {},
        }
    }
    assert(a.users@.map_values(|u: CloudConfigUser| cloud_user_doc(u)) =~= b.users@.map_values(
        |u: CloudConfigUser| cloud_user_doc(u),
    ));
    assert(cloud_config_doc(a) == cloud_config_doc(b));
}

/// The metadata of a host is fixed by the state it is resolved from: any
/// two records that fit the description read the same.
pub proof fn law_host_metadata_unique(
    a: HostMetadata,
    b: HostMetadata,
    ip: Seq<char>,
    hostname: Seq<char>,
    identity: IdentityState,
    config: MetadataConfig,
    gs: Seq<(int, int)>,
)
    requires
        host_metadata_spec(a, ip, hostname, identity, config, gs),
        host_metadata_spec(b, ip, hostname, identity, config, gs),
    ensures
        same_metadata(a, b),
{
    lemma_public_keys_unique(identity, gs, a.public_keys@, b.public_keys@);
    lemma_cloud_users_unique(identity, gs, a.cloud_config.users@, b.cloud_config.users@);
    lemma_user_data_same(a.cloud_config, b.cloud_config);
}

/// The metadata of a container is fixed by the state it is resolved from.
pub proof fn law_container_metadata_unique(
    a: HostMetadata,
    b: HostMetadata,
    ip: Seq<char>,
    info: ContainerInfo,
    owner: Seq<char>,
    identity: IdentityState,
    config: MetadataConfig,
)
    requires
        container_metadata_spec(a, ip, info, owner, identity, config),
        container_metadata_spec(b, ip, info, owner, identity, config),
    ensures
        same_metadata(a, b),
{
    let user = lookup(identity.users@, owner).unwrap();
    assert forall|i: int| 0 <= i < a.public_keys@.len() implies same_keys_entry(
        #[trigger] a.public_keys@[i],
        b.public_keys@[i],
    ) by {
        assert(str_views(a.public_keys@[i].keys@) == user_keys(user));
        assert(str_views(b.public_keys@[i].keys@) == user_keys(user));
    }
    lemma_cloud_user_same(a.cloud_config.users@[0], b.cloud_config.users@[0], owner, user, true);
    let ra = a.cloud_config.users@[1];
    let rb = b.cloud_config.users@[1];
    assert(str_views(ra.groups@) =~= str_views(rb.groups@));
    assert(same_cloud_user(ra, rb));
    assert forall|p: int| 0 <= p < a.cloud_config.users@.len() implies same_cloud_user(
        #[trigger] a.cloud_config.users@[p],
        b.cloud_config.users@[p],
    ) by {
        if p == 1 {
            assert(same_cloud_user(ra, rb));
        }
    }
    lemma_user_data_same(a.cloud_config, b.cloud_config);
}

/// Resolving a host gives one answer: any two results that fit
/// `resolve_host`'s contract for the same inputs are both absent, or read
/// the same.
pub proof fn law_resolve_host_deterministic(
    r1: Option<HostMetadata>,
    r2: Option<HostMetadata>,
    ip: Seq<char>,
    hostname: Seq<char>,
    labels: Option<Seq<(String, String)>>,
    identity: IdentityState,
    config: MetadataConfig,
)
    requires
        resolves_host(r1, ip, hostname, labels, identity, config),
        resolves_host(r2, ip, hostname, labels, identity, config),
    ensures
        r1 is None <==> r2 is None,
        r1 matches Some(a) ==> r2 matches Some(b) && same_metadata(a, b),
{
    match (r1, r2) {
        (Some(a), Some(b)) => {
            law_host_metadata_unique(a, b, ip, hostname, identity, config, host_grants(identity, hostname, labels));
        },
        _ => {},
    }
}

/// A rebuilt cache holds, for the IP of a BareMetalHost, what resolving the
/// host gives: its metadata when some user may reach it; otherwise an entry
/// only when the IP is also a served container's.
pub proof fn law_cache_is_resolution(
    s: AppState,
    cache: Seq<(String, HostMetadata)>,
    ip: Seq<char>,
    hostname: Seq<char>,
    r: Option<HostMetadata>,
)
    requires
        cache_matches(s, cache),
        bmh_host_of(s.bmh, ip) == Some(hostname),
        resolves_host(r, ip, hostname, bmh_labels(s.bmh, hostname), s.identity, s.config.metadata),
    ensures
        r matches Some(m) ==> lookup(cache, ip) matches Some(x) && same_metadata(x, m),
        r is None ==> (lookup(cache, ip) is Some <==> container_served(s, ip)),
{
    assert(lookup(cache, ip) is Some <==> (host_served(s, ip) || container_served(s, ip)));
    match r {
        Some(m) => {
            let x = lookup(cache, ip).unwrap();
            assert(metadata_for(s, ip, x));
            law_host_metadata_unique(
                x,
                m,
                ip,
                hostname,
                s.identity,
                s.config.metadata,
                host_grants(s.identity, hostname, bmh_labels(s.bmh, hostname)),
            );
        },
        None => {},
    }
}

/// Two caches built from states that agree on identity, hosts, containers
/// and configuration hold the same IPs, with entries that read the same:
/// rebuilding from unchanged data keeps the cache as it was.
pub proof fn law_rebuild_is_stable(
    s1: AppState,
    s2: AppState,
    c1: Seq<(String, HostMetadata)>,
    c2: Seq<(String, HostMetadata)>,
)
    requires
        s1.identity == s2.identity,
        s1.bmh == s2.bmh,
        s1.containers == s2.containers,
        s1.config == s2.config,
        cache_matches(s1, c1),
        cache_matches(s2, c2),
    ensures
        forall|ip: Seq<char>| #[trigger] lookup(c1, ip) is Some <==> lookup(c2, ip) is Some,
        forall|ip: Seq<char>|
            #[trigger] lookup(c1, ip) is Some ==> same_metadata(lookup(c1, ip).unwrap(), lookup(c2, ip).unwrap()),
{
    assert forall|ip: Seq<char>| #[trigger] lookup(c1, ip) is Some <==> lookup(c2, ip) is Some by {
        assert(host_served(s1, ip) == host_served(s2, ip));
        assert(container_served(s1, ip) == container_served(s2, ip));
    }
    assert forall|ip: Seq<char>| #[trigger] lookup(c1, ip) is Some implies same_metadata(
        lookup(c1, ip).unwrap(),
        lookup(c2, ip).unwrap(),
    ) by {
        let x = lookup(c1, ip).unwrap();
        assert(host_served(s1, ip) == host_served(s2, ip));
        assert(container_served(s1, ip) == container_served(s2, ip));
        assert(lookup(c2, ip) is Some);
        let y = lookup(c2, ip).unwrap();
        assert(metadata_for(s1, ip, x));
        assert(metadata_for(s2, ip, y));
        if host_served(s1, ip) {
            let h = bmh_host_of(s1.bmh, ip).unwrap();
            law_host_metadata_unique(
                x,
                y,
                ip,
                h,
                s1.identity,
                s1.config.metadata,
                host_grants(s1.identity, h, bmh_labels(s1.bmh, h)),
            );
        } else {
            let info = lookup(s1.containers.ip_to_container@, ip).unwrap();
            law_container_metadata_unique(
                x,
                y,
                ip,
                info,
                crate::resolve::container_owner(info, s1.containers, s1.identity).unwrap(),
                s1.identity,
                s1.config.metadata,
            );
        }
    }
}

} // verus!
