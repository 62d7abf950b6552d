use vstd::prelude::*;
use crate::cache::{AppState, ContainerInfo};
use crate::json::{
    JsonValue, JsonView, jv, jv_items, jv_members, push_member, set_member, set_member_exec, str_array,
    str_array_value,
};
use crate::keyed::keys_of;
use crate::model::{HostMetadata, PublicKeyEntry};
use crate::text::{decimal, decimal_string};

verus! {

/// A JSON number holding a count.
pub open spec fn count_json(n: nat) -> JsonView {
    JsonView::Number(decimal(n))
}

fn count_value(n: usize) -> (r: JsonValue)
    ensures
        jv(r) == count_json(n as nat),
{
    JsonValue::Number(decimal_string(n as u64))
}

/// One BMH mapping, as a JSON map.
pub open spec fn bmh_ip_doc(e: (String, String)) -> JsonView {
    JsonView::Object(seq![("hostname"@, JsonView::Str(e.1@)), ("ip"@, JsonView::Str(e.0@))])
}

/// One container mapping, as a JSON map.
pub open spec fn container_doc(e: (String, ContainerInfo)) -> JsonView {
    JsonView::Object(
        seq![
            ("container"@, JsonView::Str(e.1.container_name@)),
            ("hostname"@, JsonView::Str(e.1.hostname@)),
            ("ip"@, JsonView::Str(e.0@)),
            ("namespace"@, JsonView::Str(e.1.namespace@)),
            ("pod"@, JsonView::Str(e.1.pod_name@)),
        ],
    )
}

/// One key entry of a cache entry, as a JSON map (the keys counted).
pub open spec fn key_entry_doc(pk: PublicKeyEntry) -> JsonView {
    JsonView::Object(
        seq![("key_count"@, count_json(pk.keys@.len())), ("ssh_user"@, JsonView::Str(pk.ssh_user@))],
    )
}

/// One cache entry, as a JSON map.
pub open spec fn cache_entry_doc(e: (String, HostMetadata)) -> JsonView {
    JsonView::Object(
        seq![
            ("hostname"@, JsonView::Str(e.1.hostname@)),
            ("instance_id"@, JsonView::Str(e.1.instance_id@)),
            ("ip"@, JsonView::Str(e.0@)),
            (
                "public_keys"@,
                JsonView::Array(e.1.public_keys@.map_values(|pk: PublicKeyEntry| key_entry_doc(pk))),
            ),
        ],
    )
}

/// Namespace owners as a JSON map (keys in order, a later entry winning).
pub open spec fn owners_doc(entries: Seq<(String, String)>) -> Seq<(Seq<char>, JsonView)>
    decreases entries.len(),
{
    if entries.len() == 0 {
        Seq::empty()
    } else {
        set_member(owners_doc(entries.drop_last()), entries.last().0@, JsonView::Str(entries.last().1@))
    }
}

/// The diagnostic dump of the state: container mappings and namespace
/// owners, BMH mappings, identity names and cache entries, with their counts.
pub open spec fn debug_state_doc(s: AppState) -> JsonView {
    JsonView::Object(
        seq![
            ("bmh_ip_count"@, count_json(s.bmh.ip_to_hostname@.len())),
            ("bmh_ips"@, JsonView::Array(s.bmh.ip_to_hostname@.map_values(|e: (String, String)| bmh_ip_doc(e)))),
            (
                "cache_entries"@,
                JsonView::Array(
                    s.metadata_cache@.map_values(|e: (String, HostMetadata)| cache_entry_doc(e)),
                ),
            ),
            ("cache_entry_count"@, count_json(s.metadata_cache@.len())),
            ("container_ip_count"@, count_json(s.containers.ip_to_container@.len())),
            (
                "container_ips"@,
                JsonView::Array(
                    s.containers.ip_to_container@.map_values(|e: (String, ContainerInfo)| container_doc(e)),
                ),
            ),
            ("identity_host_access_rules"@, str_array(keys_of(s.identity.host_access@))),
            ("identity_users"@, str_array(keys_of(s.identity.users@))),
            ("namespace_owners"@, JsonView::Object(owners_doc(s.containers.namespace_owners@))),
        ],
    )
}

fn key_entry_value(pk: &PublicKeyEntry) -> (r: JsonValue)
    ensures
        jv(r) == key_entry_doc(*pk),
{
    let mut ms: Vec<(String, JsonValue)> = Vec::new();
    push_member(&mut ms, "key_count", count_value(pk.keys.len()));
    push_member(&mut ms, "ssh_user", JsonValue::Str(pk.ssh_user.clone()));
    assert(jv_members(ms@) =~= key_entry_doc(*pk)->Object_0);
    JsonValue::Object(ms)
}

fn cache_entry_value(e: &(String, HostMetadata)) -> (r: JsonValue)
    ensures
        jv(r) == cache_entry_doc(*e),
{
    let pks = &e.1.public_keys;
    let mut items: Vec<JsonValue> = Vec::new();
    let mut i: usize = 0;
    while i < pks.len()
        invariant
            i <= pks.len(),
            pks == &e.1.public_keys,
            jv_items(items@) == pks@.map_values(|pk: PublicKeyEntry| key_entry_doc(pk)).subrange(0, i as int),
        decreases pks.len() - i,
    {
        let ghost before = items@;
        items.push(key_entry_value(&pks[i]));
        assert(items@.drop_last() =~= before);
        i = i + 1;
        assert(jv_items(items@) =~= pks@.map_values(|pk: PublicKeyEntry| key_entry_doc(pk)).subrange(0, i as int));
    }
    assert(pks@.map_values(|pk: PublicKeyEntry| key_entry_doc(pk)).subrange(0, pks.len() as int) =~= pks@.map_values(
        |pk: PublicKeyEntry| key_entry_doc(pk),
    ));
    let mut ms: Vec<(String, JsonValue)> = Vec::new();
    push_member(&mut ms, "hostname", JsonValue::Str(e.1.hostname.clone()));
    push_member(&mut ms, "instance_id", JsonValue::Str(e.1.instance_id.clone()));
    push_member(&mut ms, "ip", JsonValue::Str(e.0.clone()));
    push_member(&mut ms, "public_keys", JsonValue::Array(items));
    assert(jv_members(ms@) =~= cache_entry_doc(*e)->Object_0);
    JsonValue::Object(ms)
}

fn bmh_ip_value(e: &(String, String)) -> (r: JsonValue)
    ensures
        jv(r) == bmh_ip_doc(*e),
{
    let mut ms: Vec<(String, JsonValue)> = Vec::new();
    push_member(&mut ms, "hostname", JsonValue::Str(e.1.clone()));
    push_member(&mut ms, "ip", JsonValue::Str(e.0.clone()));
    assert(jv_members(ms@) =~= bmh_ip_doc(*e)->Object_0);
    JsonValue::Object(ms)
}

fn container_value(e: &(String, ContainerInfo)) -> (r: JsonValue)
    ensures
        jv(r) == container_doc(*e),
{
    let mut ms: Vec<(String, JsonValue)> = Vec::new();
    push_member(&mut ms, "container", JsonValue::Str(e.1.container_name.clone()));
    push_member(&mut ms, "hostname", JsonValue::Str(e.1.hostname.clone()));
    push_member(&mut ms, "ip", JsonValue::Str(e.0.clone()));
    push_member(&mut ms, "namespace", JsonValue::Str(e.1.namespace.clone()));
    push_member(&mut ms, "pod", JsonValue::Str(e.1.pod_name.clone()));
    assert(jv_members(ms@) =~= container_doc(*e)->Object_0);
    JsonValue::Object(ms)
}

fn key_names<V>(entries: &Vec<(String, V)>) -> (r: Vec<String>)
    ensures
        crate::order::views(r@) == keys_of(entries@),
{
    let mut r: Vec<String> = Vec::new();
    let mut i: usize = 0;
    while i < entries.len()
        invariant
            i <= entries.len(),
            crate::order::views(r@) == keys_of(entries@).subrange(0, i as int),
        decreases entries.len() - i,
    {
        let ghost before = r@;
        r.push(entries[i].0.clone());
        assert(crate::order::views(r@) =~= crate::order::views(before).push(entries@[i as int].0@));
        i = i + 1;
        assert(crate::order::views(r@) =~= keys_of(entries@).subrange(0, i as int));
    }
    assert(keys_of(entries@).subrange(0, entries.len() as int) =~= keys_of(entries@));
    r
}

/// The diagnostic dump of the state.
pub fn debug_state(s: &AppState) -> (r: JsonValue)
    ensures
        jv(r) == debug_state_doc(*s),
{
    let bmh_entries = &s.bmh.ip_to_hostname;
    let mut bmh_items: Vec<JsonValue> = Vec::new();
    let mut i: usize = 0;
    while i < bmh_entries.len()
        invariant
            i <= bmh_entries.len(),
            bmh_entries == &s.bmh.ip_to_hostname,
            jv_items(bmh_items@) == bmh_entries@.map_values(|e: (String, String)| bmh_ip_doc(e)).subrange(0, i as int),
        decreases bmh_entries.len() - i,
    {
        let ghost before = bmh_items@;
        bmh_items.push(bmh_ip_value(&bmh_entries[i]));
        assert(bmh_items@.drop_last() =~= before);
        i = i + 1;
        assert(jv_items(bmh_items@) =~= bmh_entries@.map_values(|e: (String, String)| bmh_ip_doc(e)).subrange(
            0,
            i as int,
        ));
    }
    assert(bmh_entries@.map_values(|e: (String, String)| bmh_ip_doc(e)).subrange(0, bmh_entries.len() as int)
        =~= bmh_entries@.map_values(|e: (String, String)| bmh_ip_doc(e)));
    let cache = &s.metadata_cache;
    let mut cache_items: Vec<JsonValue> = Vec::new();
    let mut j: usize = 0;
    while j < cache.len()
        invariant
            j <= cache.len(),
            cache == &s.metadata_cache,
            jv_items(cache_items@) == cache@.map_values(|e: (String, HostMetadata)| cache_entry_doc(e)).subrange(
                0,
                j as int,
            ),
        decreases cache.len() - j,
    {
        let ghost before = cache_items@;
        cache_items.push(cache_entry_value(&cache[j]));
        assert(cache_items@.drop_last() =~= before);
        j = j + 1;
        assert(jv_items(cache_items@) =~= cache@.map_values(|e: (String, HostMetadata)| cache_entry_doc(e)).subrange(
            0,
            j as int,
        ));
    }
    assert(cache@.map_values(|e: (String, HostMetadata)| cache_entry_doc(e)).subrange(0, cache.len() as int)
        =~= cache@.map_values(|e: (String, HostMetadata)| cache_entry_doc(e)));
    let ctrs = &s.containers.ip_to_container;
    let mut ctr_items: Vec<JsonValue> = Vec::new();
    let mut k: usize = 0;
    while k < ctrs.len()
        invariant
            k <= ctrs.len(),
            ctrs == &s.containers.ip_to_container,
            jv_items(ctr_items@) == ctrs@.map_values(|e: (String, ContainerInfo)| container_doc(e)).subrange(
                0,
                k as int,
            ),
        decreases ctrs.len() - k,
    {
        let ghost before = ctr_items@;
        ctr_items.push(container_value(&ctrs[k]));
        assert(ctr_items@.drop_last() =~= before);
        k = k + 1;
        assert(jv_items(ctr_items@) =~= ctrs@.map_values(|e: (String, ContainerInfo)| container_doc(e)).subrange(
            0,
            k as int,
        ));
    }
    assert(ctrs@.map_values(|e: (String, ContainerInfo)| container_doc(e)).subrange(0, ctrs.len() as int)
        =~= ctrs@.map_values(|e: (String, ContainerInfo)| container_doc(e)));
    let owners = &s.containers.namespace_owners;
    let mut owner_members: Vec<(String, JsonValue)> = Vec::new();
    let mut q: usize = 0;
    while q < owners.len()
        invariant
            q <= owners.len(),
            owners == &s.containers.namespace_owners,
            jv_members(owner_members@) == owners_doc(owners@.subrange(0, q as int)),
        decreases owners.len() - q,
    {
        let ghost sub = owners@.subrange(0, q + 1);
        assert(sub.drop_last() =~= owners@.subrange(0, q as int));
        set_member_exec(&mut owner_members, owners[q].0.as_str(), JsonValue::Str(owners[q].1.clone()));
        q = q + 1;
    }
    assert(owners@.subrange(0, owners.len() as int) =~= owners@);
    let mut ms: Vec<(String, JsonValue)> = Vec::new();
    push_member(&mut ms, "bmh_ip_count", count_value(bmh_entries.len()));
    push_member(&mut ms, "bmh_ips", JsonValue::Array(bmh_items));
    push_member(&mut ms, "cache_entries", JsonValue::Array(cache_items));
    push_member(&mut ms, "cache_entry_count", count_value(cache.len()));
    push_member(&mut ms, "container_ip_count", count_value(ctrs.len()));
    push_member(&mut ms, "container_ips", JsonValue::Array(ctr_items));
    push_member(&mut ms, "identity_host_access_rules", str_array_value(&key_names(&s.identity.host_access)));
    push_member(&mut ms, "identity_users", str_array_value(&key_names(&s.identity.users)));
    push_member(&mut ms, "namespace_owners", JsonValue::Object(owner_members));
    assert(jv_members(ms@) =~= debug_state_doc(*s)->Object_0);
    JsonValue::Object(ms)
}

} // verus!
