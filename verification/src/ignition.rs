use vstd::prelude::*;
use crate::model::{BareMetalHost, CloudConfigUser, HostMetadata, PublicKeyEntry, copy_strings, str_views};
use crate::resolve::contains_str;
use crate::json::{
    JsonValue, JsonView, ensure_member, ensure_member_exec, find_member, get_member, jv, jv_items, jv_members,
    lemma_ensure_member_pos, lemma_get_member_ensure, lemma_get_member_update, lemma_jv_items_index, lemma_jv_members_index, member_pos, pretty, push_member,
    replace_item, replace_value, set_member, set_member_exec, str_array, str_array_value, to_pretty_string,
};
use crate::templates::{url_encode_simple, url_encoded};
use crate::text::{decimal, decimal_string, parse_u32, parse_u32_spec};

verus! {

/// An Ignition v3.4.0 config.
#[derive(Debug)]
pub struct IgnitionConfig {
    pub ignition: IgnitionMeta,
    pub passwd: Option<IgnitionPasswd>,
    pub storage: Option<IgnitionStorage>,
    pub systemd: Option<IgnitionSystemd>,
}

/// The `ignition` section: the config's version.
#[derive(Debug)]
pub struct IgnitionMeta {
    pub version: String,
}

/// The `passwd` section: the users to create or update.
#[derive(Debug)]
pub struct IgnitionPasswd {
    pub users: Vec<IgnitionUser>,
}

/// One user of the `passwd` section.
#[derive(Debug)]
pub struct IgnitionUser {
    pub name: String,
    pub uid: Option<u32>,
    pub groups: Option<Vec<String>>,
    pub shell: Option<String>,
    pub home_dir: Option<String>,
    pub ssh_authorized_keys: Option<Vec<String>>,
    pub password_hash: Option<String>,
}

/// The `storage` section: files to write.
#[derive(Debug)]
pub struct IgnitionStorage {
    pub files: Vec<IgnitionFile>,
}

/// One file of the `storage` section.
#[derive(Debug)]
pub struct IgnitionFile {
    pub path: String,
    pub mode: Option<u32>,
    pub overwrite: Option<bool>,
    pub contents: IgnitionFileContents,
}

/// Where a file's contents come from (a URL, usually a `data:` URL).
#[derive(Debug)]
pub struct IgnitionFileContents {
    pub source: String,
}

/// The `systemd` section: units to install.
#[derive(Debug)]
pub struct IgnitionSystemd {
    pub units: Vec<IgnitionUnit>,
}

/// One systemd unit.
#[derive(Debug)]
pub struct IgnitionUnit {
    pub name: String,
    pub enabled: Option<bool>,
    pub contents: Option<String>,
}

/// The content of an Ignition user entry.
pub struct IgnUserView {
    pub name: Seq<char>,
    pub uid: Option<u32>,
    pub groups: Option<Seq<Seq<char>>>,
    pub shell: Option<Seq<char>>,
    pub home_dir: Option<Seq<char>>,
    pub keys: Option<Seq<Seq<char>>>,
    pub password_hash: Option<Seq<char>>,
}

/// The content of an optional string.
pub open spec fn opt_text(o: Option<String>) -> Option<Seq<char>> {
    match o {
        Some(s) => Some(s@),
        None => None,
    }
}

/// The content of an optional list of strings.
pub open spec fn opt_texts(o: Option<Vec<String>>) -> Option<Seq<Seq<char>>> {
    match o {
        Some(v) => Some(str_views(v@)),
        None => None,
    }
}

impl View for IgnitionUser {
    type V = IgnUserView;

    open spec fn view(&self) -> IgnUserView {
        IgnUserView {
            name: self.name@,
            uid: self.uid,
            groups: opt_texts(self.groups),
            shell: opt_text(self.shell),
            home_dir: opt_text(self.home_dir),
            keys: opt_texts(self.ssh_authorized_keys),
            password_hash: opt_text(self.password_hash),
        }
    }
}

/// The contents of a list of Ignition users.
pub open spec fn ign_views(us: Seq<IgnitionUser>) -> Seq<IgnUserView> {
    us.map_values(|u: IgnitionUser| u@)
}

/// A system user of the host's key entries: a name and keys, nothing else.
pub open spec fn system_ign_user(pk: PublicKeyEntry) -> IgnUserView {
    IgnUserView {
        name: pk.ssh_user@,
        uid: None,
        groups: None,
        shell: None,
        home_dir: None,
        keys: Some(str_views(pk.keys@)),
        password_hash: None,
    }
}

/// `keys` with each of `added` appended that it does not hold yet, in order.
pub open spec fn add_new_keys(keys: Seq<Seq<char>>, added: Seq<Seq<char>>) -> Seq<Seq<char>>
    decreases added.len(),
{
    if added.len() == 0 {
        keys
    } else {
        let k = add_new_keys(keys, added.drop_last());
        if k.contains(added.last()) {
            k
        } else {
            k.push(added.last())
        }
    }
}

/// The groups of a new identity user: its own, and `wheel` for a sudoer
/// that lacks it.
pub open spec fn groups_with_wheel(cc: CloudConfigUser) -> Seq<Seq<char>> {
    let g = str_views(cc.groups@);
    if cc.sudo is Some && !g.contains("wheel"@) {
        g.push("wheel"@)
    } else {
        g
    }
}

/// The entry created for an identity user not yet in the list.
pub open spec fn new_ign_user(cc: CloudConfigUser) -> IgnUserView {
    IgnUserView {
        name: cc.name@,
        uid: parse_u32_spec(cc.uid@),
        groups: if groups_with_wheel(cc).len() == 0 {
            None
        } else {
            Some(groups_with_wheel(cc))
        },
        shell: Some(cc.shell@),
        home_dir: None,
        keys: Some(str_views(cc.ssh_authorized_keys@)),
        password_hash: Some(Seq::empty()),
    }
}

/// An entry already in the list, updated from an identity user of the same
/// name: its keys gain the user's new keys, and it takes the user's uid,
/// shell and (when there are any) groups.
pub open spec fn merged_ign_user(u: IgnUserView, cc: CloudConfigUser) -> IgnUserView {
    IgnUserView {
        name: u.name,
        uid: parse_u32_spec(cc.uid@),
        groups: if cc.groups.len() > 0 {
            Some(str_views(cc.groups@))
        } else {
            u.groups
        },
        shell: Some(cc.shell@),
        home_dir: u.home_dir,
        keys: match u.keys {
            Some(k) => Some(add_new_keys(k, str_views(cc.ssh_authorized_keys@))),
            None => None,
        },
        password_hash: u.password_hash,
    }
}

/// Position of the first entry named `name`, or the number of entries.
pub open spec fn ign_user_pos(us: Seq<IgnUserView>, name: Seq<char>) -> int
    decreases us.len(),
{
    if us.len() == 0 {
        0
    } else if us[0].name == name {
        0
    } else {
        1 + ign_user_pos(us.drop_first(), name)
    }
}

/// The list after one identity user: merged into the first entry of its
/// name, or appended.
pub open spec fn add_cc_user(us: Seq<IgnUserView>, cc: CloudConfigUser) -> Seq<IgnUserView> {
    let p = ign_user_pos(us, cc.name@);
    if p < us.len() {
        us.update(p, merged_ign_user(us[p], cc))
    } else {
        us.push(new_ign_user(cc))
    }
}

/// The list after the identity users, in order.
pub open spec fn add_cc_users(us: Seq<IgnUserView>, ccs: Seq<CloudConfigUser>) -> Seq<IgnUserView>
    decreases ccs.len(),
{
    if ccs.len() == 0 {
        us
    } else {
        add_cc_user(add_cc_users(us, ccs.drop_last()), ccs.last())
    }
}

/// The Ignition users of a host: one entry per key entry, then the
/// identity users merged in.
pub open spec fn ignition_users(meta: HostMetadata) -> Seq<IgnUserView> {
    add_cc_users(
        meta.public_keys@.map_values(|pk: PublicKeyEntry| system_ign_user(pk)),
        meta.cloud_config.users@,
    )
}

proof fn lemma_ign_user_pos(us: Seq<IgnUserView>, name: Seq<char>)
    ensures
        0 <= ign_user_pos(us, name) <= us.len(),
        forall|j: int| 0 <= j < ign_user_pos(us, name) ==> us[j].name != name,
        ign_user_pos(us, name) < us.len() ==> us[ign_user_pos(us, name)].name == name,
    decreases us.len(),
{
    if us.len() > 0 && us[0].name != name {
        lemma_ign_user_pos(us.drop_first(), name);
        assert forall|j: int| 0 <= j < ign_user_pos(us, name) implies us[j].name != name by {
            if j > 0 {
                assert(us[j] == us.drop_first()[j - 1]);
            }
        }
    }
}

proof fn lemma_name_stays_absent(us: Seq<IgnUserView>, ccs: Seq<CloudConfigUser>, n: Seq<char>)
    requires
        forall|a: int| 0 <= a < us.len() ==> us[a].name != n,
        forall|b: int| 0 <= b < ccs.len() ==> ccs[b].name@ != n,
    ensures
        forall|j: int| 0 <= j < add_cc_users(us, ccs).len() ==> add_cc_users(us, ccs)[j].name != n,
    decreases ccs.len(),
{
    if ccs.len() > 0 {
        let rest = ccs.drop_last();
        assert forall|b: int| 0 <= b < rest.len() implies rest[b].name@ != n by {
            assert(rest[b] == ccs[b]);
        }
        lemma_name_stays_absent(us, rest, n);
        let prev = add_cc_users(us, rest);
        let cc = ccs.last();
        lemma_ign_user_pos(prev, cc.name@);
        assert(cc.name@ != n);
        let r = add_cc_user(prev, cc);
        assert(add_cc_users(us, ccs) == r);
        assert forall|j: int| 0 <= j < r.len() implies r[j].name != n by {
            let p = ign_user_pos(prev, cc.name@);
            if p < prev.len() {
                if j == p {
                    assert(r[j].name == prev[p].name);
                } else {
                    assert(r[j] == prev[j]);
                }
            } else {
                if j < prev.len() {
                    assert(r[j] == prev[j]);
                } else {
                    assert(r[j].name == cc.name@);
                }
            }
        }
    }
}

/// A sudoer among the identity users who gets an Ignition entry of their own
/// (no key entry and no earlier identity user has that name) is in the
/// `wheel` group: the entry comes last, and its groups are the user's own
/// groups followed by `wheel`, which is added exactly when they lack it.
pub proof fn law_sudoer_is_in_wheel(meta: HostMetadata)
    requires
        meta.cloud_config.users.len() > 0,
        meta.cloud_config.users@.last().sudo is Some,
        forall|a: int|
            0 <= a < meta.public_keys.len() ==> #[trigger] meta.public_keys@[a].ssh_user@
                != meta.cloud_config.users@.last().name@,
        forall|b: int|
            0 <= b < meta.cloud_config.users.len() - 1 ==> #[trigger] meta.cloud_config.users@[b].name@
                != meta.cloud_config.users@.last().name@,
    ensures
        ({
            let us = ignition_users(meta);
            let cc = meta.cloud_config.users@.last();
            let own = str_views(cc.groups@);
            &&& us.len() > 0
            &&& us.last().name == cc.name@
            &&& us.last().groups matches Some(g) && g.contains("wheel"@)
                && g.subrange(0, own.len() as int) == own
                && g == (if own.contains("wheel"@) { own } else { own.push("wheel"@) })
        }),
{
    let ccs = meta.cloud_config.users@;
    let sys = meta.public_keys@.map_values(|pk: PublicKeyEntry| system_ign_user(pk));
    let cc = ccs.last();
    let rest = ccs.drop_last();
    assert forall|a: int| 0 <= a < sys.len() implies sys[a].name != cc.name@ by {
        assert(sys[a].name == meta.public_keys@[a].ssh_user@);
    }
    assert forall|b: int| 0 <= b < rest.len() implies rest[b].name@ != cc.name@ by {
        assert(rest[b] == ccs[b]);
    }
    lemma_name_stays_absent(sys, rest, cc.name@);
    let prev = add_cc_users(sys, rest);
    lemma_ign_user_pos(prev, cc.name@);
    assert(ign_user_pos(prev, cc.name@) == prev.len());
    let us = ignition_users(meta);
    assert(us == prev.push(new_ign_user(cc)));
    let own = str_views(cc.groups@);
    reveal_strlit("wheel");
    if own.contains("wheel"@) {
        assert(own.subrange(0, own.len() as int) =~= own);
    } else {
        assert(own.push("wheel"@)[own.len() as int] == "wheel"@);
        assert(own.push("wheel"@).subrange(0, own.len() as int) =~= own);
    }
}

fn find_ign_user(us: &Vec<IgnitionUser>, name: &str) -> (r: usize)
    ensures
        r == ign_user_pos(ign_views(us@), name@),
        r <= us.len(),
{
    let ghost w = ign_views(us@);
    proof {
        lemma_ign_user_pos(w, name@);
    }
    let mut i: usize = 0;
    while i < us.len()
        invariant
            i <= us.len(),
            w == ign_views(us@),
            forall|j: int| 0 <= j < i ==> w[j].name != name@,
            0 <= ign_user_pos(w, name@) <= w.len(),
            forall|j: int| 0 <= j < ign_user_pos(w, name@) ==> w[j].name != name@,
            ign_user_pos(w, name@) < w.len() ==> w[ign_user_pos(w, name@)].name == name@,
        decreases us.len() - i,
    {
        if crate::text::str_eq(us[i].name.as_str(), name) {
            assert(w[i as int].name == name@);
            return i;
        }
        i = i + 1;
    }
    i
}

fn add_keys_exec(keys: &mut Vec<String>, added: &Vec<String>)
    ensures
        str_views(final(keys)@) == add_new_keys(str_views(old(keys)@), str_views(added@)),
{
    let ghost start = str_views(keys@);
    let mut i: usize = 0;
    while i < added.len()
        invariant
            i <= added.len(),
            str_views(keys@) == add_new_keys(start, str_views(added@).subrange(0, i as int)),
        decreases added.len() - i,
    {
        assert(str_views(added@).subrange(0, i + 1).drop_last() =~= str_views(added@).subrange(0, i as int));
        if !contains_str(keys, added[i].as_str()) {
            let ghost before = keys@;
            keys.push(added[i].clone());
            assert(str_views(keys@) =~= str_views(before).push(added@[i as int]@));
        }
        i = i + 1;
    }
    assert(str_views(added@).subrange(0, added.len() as int) =~= str_views(added@));
}

fn merge_cc_user(u: IgnitionUser, cc: &CloudConfigUser) -> (r: IgnitionUser)
    ensures
        r@ == merged_ign_user(u@, *cc),
{
    let mut u = u;
    let keys = match u.ssh_authorized_keys {
        Some(k) => {
            let mut k = k;
            add_keys_exec(&mut k, &cc.ssh_authorized_keys);
            Some(k)
        },
        None => None,
    };
    let groups = if cc.groups.len() > 0 {
        Some(copy_strings(&cc.groups))
    } else {
        u.groups
    };
    IgnitionUser {
        name: u.name,
        uid: parse_u32(cc.uid.as_str()),
        groups,
        shell: Some(cc.shell.clone()),
        home_dir: u.home_dir,
        ssh_authorized_keys: keys,
        password_hash: u.password_hash,
    }
}

fn new_cc_user(cc: &CloudConfigUser) -> (r: IgnitionUser)
    ensures
        r@ == new_ign_user(*cc),
{
    let mut groups = copy_strings(&cc.groups);
    if cc.sudo.is_some() && !contains_str(&groups, "wheel") {
        let ghost before = groups@;
        groups.push(String::from_str("wheel"));
        assert(str_views(groups@) =~= str_views(before).push("wheel"@));
    }
    assert(str_views(groups@) == groups_with_wheel(*cc));
    let groups = if groups.len() == 0 {
        None
    } else {
        Some(groups)
    };
    IgnitionUser {
        name: cc.name.clone(),
        uid: parse_u32(cc.uid.as_str()),
        groups,
        shell: Some(cc.shell.clone()),
        home_dir: None,
        ssh_authorized_keys: Some(copy_strings(&cc.ssh_authorized_keys)),
        password_hash: Some(String::new()),
    }
}

/// Build Ignition user entries from HostMetadata: first one entry per key
/// entry (system users, keys only), then each identity user, merged into
/// the entry of the same name or added as a full user.
pub fn build_ignition_users(meta: &HostMetadata) -> (r: Vec<IgnitionUser>)
    ensures
        ign_views(r@) == ignition_users(*meta),
{
    let pks = &meta.public_keys;
    let ghost sys = pks@.map_values(|pk: PublicKeyEntry| system_ign_user(pk));
    let mut users: Vec<IgnitionUser> = Vec::new();
    let mut i: usize = 0;
    while i < pks.len()
        invariant
            i <= pks.len(),
            pks == &meta.public_keys,
            sys == pks@.map_values(|pk: PublicKeyEntry| system_ign_user(pk)),
            ign_views(users@) == sys.subrange(0, i as int),
        decreases pks.len() - i,
    {
        let pk = &pks[i];
        let u = IgnitionUser {
            name: pk.ssh_user.clone(),
            uid: None,
            groups: None,
            shell: None,
            home_dir: None,
            ssh_authorized_keys: Some(copy_strings(&pk.keys)),
            password_hash: None,
        };
        assert(u@ == system_ign_user(*pk));
        assert(sys[i as int] == system_ign_user(*pk));
        let ghost before = users@;
        users.push(u);
        assert(ign_views(users@) =~= ign_views(before).push(system_ign_user(*pk)));
        i = i + 1;
        assert(ign_views(users@) =~= sys.subrange(0, i as int));
    }
    assert(sys.subrange(0, pks.len() as int) =~= sys);
    let ccs = &meta.cloud_config.users;
    let mut k: usize = 0;
    while k < ccs.len()
        invariant
            k <= ccs.len(),
            ccs == &meta.cloud_config.users,
            ign_views(users@) == add_cc_users(sys, ccs@.subrange(0, k as int)),
        decreases ccs.len() - k,
    {
        let cc = &ccs[k];
        assert(ccs@.subrange(0, k + 1).drop_last() =~= ccs@.subrange(0, k as int));
        let p = find_ign_user(&users, cc.name.as_str());
        let ghost before = users@;
        if p < users.len() {
            let u = users.remove(p);
            let m = merge_cc_user(u, cc);
            users.insert(p, m);
            assert(users@ =~= before.update(p as int, m));
            assert(ign_views(users@) =~= ign_views(before).update(p as int, m@));
        } else {
            users.push(new_cc_user(cc));
            assert(ign_views(users@) =~= ign_views(before).push(users@.last()@));
        }
        k = k + 1;
    }
    assert(ccs@.subrange(0, ccs.len() as int) =~= ccs@);
    users
}

/// Minimal URL-encoding for data URIs (space, `%`, newline, carriage
/// return and `#`).
pub fn url_encode(s: &str) -> (r: String)
    ensures
        r@ == url_encoded(s@),
{
    url_encode_simple(s)
}

/// A JSON number holding `n`.
pub open spec fn u32_json(n: u32) -> JsonView {
    JsonView::Number(decimal(n as nat))
}

/// The member `k: v` when there is a value, nothing otherwise (a field
/// skipped when it is `None`).
pub open spec fn opt_field(k: Seq<char>, v: Option<JsonView>) -> Seq<(Seq<char>, JsonView)> {
    match v {
        Some(x) => seq![(k, x)],
        None => Seq::empty(),
    }
}

pub open spec fn opt_str_json(o: Option<Seq<char>>) -> Option<JsonView> {
    match o {
        Some(s) => Some(JsonView::Str(s)),
        None => None,
    }
}

pub open spec fn opt_strs_json(o: Option<Seq<Seq<char>>>) -> Option<JsonView> {
    match o {
        Some(s) => Some(str_array(s)),
        None => None,
    }
}

pub open spec fn opt_u32_json(o: Option<u32>) -> Option<JsonView> {
    match o {
        Some(n) => Some(u32_json(n)),
        None => None,
    }
}

pub open spec fn opt_bool_json(o: Option<bool>) -> Option<JsonView> {
    match o {
        Some(b) => Some(JsonView::Bool(b)),
        None => None,
    }
}

pub open spec fn opt_jv(o: Option<JsonValue>) -> Option<JsonView> {
    match o {
        Some(v) => Some(jv(v)),
        None => None,
    }
}

/// An Ignition user serialized as a struct: fields in declaration order,
/// camel-case names, `None` fields left out.
pub open spec fn user_json(u: IgnUserView) -> JsonView {
    JsonView::Object(
        seq![("name"@, JsonView::Str(u.name))] + opt_field("uid"@, opt_u32_json(u.uid)) + opt_field(
            "groups"@,
            opt_strs_json(u.groups),
        ) + opt_field("shell"@, opt_str_json(u.shell)) + opt_field("homeDir"@, opt_str_json(u.home_dir))
            + opt_field("sshAuthorizedKeys"@, opt_strs_json(u.keys)) + opt_field(
            "passwordHash"@,
            opt_str_json(u.password_hash),
        ),
    )
}

/// An Ignition user turned into a JSON map value: the same members as
/// `user_json`, in key order.
pub open spec fn user_map_json(u: IgnUserView) -> JsonView {
    JsonView::Object(
        opt_field("groups"@, opt_strs_json(u.groups)) + opt_field("homeDir"@, opt_str_json(u.home_dir))
            + seq![("name"@, JsonView::Str(u.name))] + opt_field(
            "passwordHash"@,
            opt_str_json(u.password_hash),
        ) + opt_field("shell"@, opt_str_json(u.shell)) + opt_field(
            "sshAuthorizedKeys"@,
            opt_strs_json(u.keys),
        ) + opt_field("uid"@, opt_u32_json(u.uid)),
    )
}

fn push_opt(members: &mut Vec<(String, JsonValue)>, key: &str, v: Option<JsonValue>)
    ensures
        jv_members(final(members)@) == jv_members(old(members)@) + opt_field(key@, opt_jv(v)),
{
    match v {
        Some(x) => {
            let ghost jx = jv(x);
            push_member(members, key, x);
            assert(jv_members(members@) =~= jv_members(old(members)@) + seq![(key@, jx)]);
        },
        None => {
            assert(jv_members(members@) =~= jv_members(old(members)@) + Seq::empty());
        },
    }
}

fn u32_value(n: u32) -> (r: JsonValue)
    ensures
        jv(r) == u32_json(n),
{
    JsonValue::Number(decimal_string(n as u64))
}

fn opt_u32_value(o: Option<u32>) -> (r: Option<JsonValue>)
    ensures
        opt_jv(r) == opt_u32_json(o),
{
    match o {
        Some(n) => Some(u32_value(n)),
        None => None,
    }
}

fn opt_bool_value(o: Option<bool>) -> (r: Option<JsonValue>)
    ensures
        opt_jv(r) == opt_bool_json(o),
{
    match o {
        Some(b) => Some(JsonValue::Bool(b)),
        None => None,
    }
}

fn opt_str_value(o: &Option<String>) -> (r: Option<JsonValue>)
    ensures
        opt_jv(r) == opt_str_json(opt_text(*o)),
{
    match o {
        Some(s) => Some(JsonValue::Str(s.clone())),
        None => None,
    }
}

fn opt_strs_value(o: &Option<Vec<String>>) -> (r: Option<JsonValue>)
    ensures
        opt_jv(r) == opt_strs_json(opt_texts(*o)),
{
    match o {
        Some(v) => Some(str_array_value(v)),
        None => None,
    }
}

impl IgnitionUser {
    /// This user serialized as a struct.
    pub fn to_json(&self) -> (r: JsonValue)
        ensures
            jv(r) == user_json(self@),
    {
        let mut ms: Vec<(String, JsonValue)> = Vec::new();
        push_member(&mut ms, "name", JsonValue::Str(self.name.clone()));
        push_opt(&mut ms, "uid", opt_u32_value(self.uid));
        push_opt(&mut ms, "groups", opt_strs_value(&self.groups));
        push_opt(&mut ms, "shell", opt_str_value(&self.shell));
        push_opt(&mut ms, "homeDir", opt_str_value(&self.home_dir));
        push_opt(&mut ms, "sshAuthorizedKeys", opt_strs_value(&self.ssh_authorized_keys));
        push_opt(&mut ms, "passwordHash", opt_str_value(&self.password_hash));
        assert(jv_members(ms@) =~= user_json(self@)->Object_0);
        JsonValue::Object(ms)
    }

    /// This user as a JSON map value (members in key order).
    pub fn to_map_json(&self) -> (r: JsonValue)
        ensures
            jv(r) == user_map_json(self@),
    {
        let mut ms: Vec<(String, JsonValue)> = Vec::new();
        push_opt(&mut ms, "groups", opt_strs_value(&self.groups));
        push_opt(&mut ms, "homeDir", opt_str_value(&self.home_dir));
        push_member(&mut ms, "name", JsonValue::Str(self.name.clone()));
        push_opt(&mut ms, "passwordHash", opt_str_value(&self.password_hash));
        push_opt(&mut ms, "shell", opt_str_value(&self.shell));
        push_opt(&mut ms, "sshAuthorizedKeys", opt_strs_value(&self.ssh_authorized_keys));
        push_opt(&mut ms, "uid", opt_u32_value(self.uid));
        assert(jv_members(ms@) =~= user_map_json(self@)->Object_0);
        JsonValue::Object(ms)
    }
}

impl IgnitionMeta {
    pub open spec fn json(self) -> JsonView {
        JsonView::Object(seq![("version"@, JsonView::Str(self.version@))])
    }

    /// This section serialized.
    pub fn to_json(&self) -> (r: JsonValue)
        ensures
            jv(r) == self.json(),
    {
        let mut ms: Vec<(String, JsonValue)> = Vec::new();
        push_member(&mut ms, "version", JsonValue::Str(self.version.clone()));
        assert(jv_members(ms@) =~= self.json()->Object_0);
        JsonValue::Object(ms)
    }
}

impl IgnitionPasswd {
    pub open spec fn json(self) -> JsonView {
        JsonView::Object(
            if self.users.len() == 0 {
                Seq::empty()
            } else {
                seq![("users"@, JsonView::Array(ign_views(self.users@).map_values(|u: IgnUserView| user_json(u))))]
            },
        )
    }

    /// This section serialized (an empty user list is left out).
    pub fn to_json(&self) -> (r: JsonValue)
        ensures
            jv(r) == self.json(),
    {
        let mut ms: Vec<(String, JsonValue)> = Vec::new();
        if self.users.len() > 0 {
            let mut items: Vec<JsonValue> = Vec::new();
            let mut i: usize = 0;
            while i < self.users.len()
                invariant
                    i <= self.users.len(),
                    jv_items(items@) == ign_views(self.users@).map_values(|u: IgnUserView| user_json(u)).subrange(
                        0,
                        i as int,
                    ),
                decreases self.users.len() - i,
            {
                let ghost before = items@;
                let e = self.users[i].to_json();
                items.push(e);
                assert(items@.drop_last() =~= before);
                i = i + 1;
                assert(jv_items(items@) =~= ign_views(self.users@).map_values(|u: IgnUserView| user_json(u)).subrange(
                    0,
                    i as int,
                ));
            }
            assert(ign_views(self.users@).map_values(|u: IgnUserView| user_json(u)).subrange(
                0,
                self.users.len() as int,
            ) =~= ign_views(self.users@).map_values(|u: IgnUserView| user_json(u)));
            push_member(&mut ms, "users", JsonValue::Array(items));
        }
        assert(jv_members(ms@) =~= self.json()->Object_0);
        JsonValue::Object(ms)
    }
}

impl IgnitionFileContents {
    pub open spec fn json(self) -> JsonView {
        JsonView::Object(seq![("source"@, JsonView::Str(self.source@))])
    }

    /// These contents serialized.
    pub fn to_json(&self) -> (r: JsonValue)
        ensures
            jv(r) == self.json(),
    {
        let mut ms: Vec<(String, JsonValue)> = Vec::new();
        push_member(&mut ms, "source", JsonValue::Str(self.source.clone()));
        assert(jv_members(ms@) =~= self.json()->Object_0);
        JsonValue::Object(ms)
    }
}

impl IgnitionFile {
    pub open spec fn json(self) -> JsonView {
        JsonView::Object(
            seq![("path"@, JsonView::Str(self.path@))] + opt_field("mode"@, opt_u32_json(self.mode))
                + opt_field("overwrite"@, opt_bool_json(self.overwrite)) + seq![
                ("contents"@, self.contents.json()),
            ],
        )
    }

    /// This file serialized.
    pub fn to_json(&self) -> (r: JsonValue)
        ensures
            jv(r) == self.json(),
    {
        let mut ms: Vec<(String, JsonValue)> = Vec::new();
        push_member(&mut ms, "path", JsonValue::Str(self.path.clone()));
        push_opt(&mut ms, "mode", opt_u32_value(self.mode));
        push_opt(&mut ms, "overwrite", opt_bool_value(self.overwrite));
        push_member(&mut ms, "contents", self.contents.to_json());
        assert(jv_members(ms@) =~= self.json()->Object_0);
        JsonValue::Object(ms)
    }
}

impl IgnitionStorage {
    pub open spec fn json(self) -> JsonView {
        JsonView::Object(
            if self.files.len() == 0 {
                Seq::empty()
            } else {
                seq![("files"@, JsonView::Array(self.files@.map_values(|f: IgnitionFile| f.json())))]
            },
        )
    }

    /// This section serialized (an empty file list is left out).
    pub fn to_json(&self) -> (r: JsonValue)
        ensures
            jv(r) == self.json(),
    {
        let mut ms: Vec<(String, JsonValue)> = Vec::new();
        if self.files.len() > 0 {
            let mut items: Vec<JsonValue> = Vec::new();
            let mut i: usize = 0;
            while i < self.files.len()
                invariant
                    i <= self.files.len(),
                    jv_items(items@) == self.files@.map_values(|f: IgnitionFile| f.json()).subrange(0, i as int),
                decreases self.files.len() - i,
            {
                let ghost before = items@;
                let e = self.files[i].to_json();
                items.push(e);
                assert(items@.drop_last() =~= before);
                i = i + 1;
                assert(jv_items(items@) =~= self.files@.map_values(|f: IgnitionFile| f.json()).subrange(
                    0,
                    i as int,
                ));
            }
            assert(self.files@.map_values(|f: IgnitionFile| f.json()).subrange(0, self.files.len() as int)
                =~= self.files@.map_values(|f: IgnitionFile| f.json()));
            push_member(&mut ms, "files", JsonValue::Array(items));
        }
        assert(jv_members(ms@) =~= self.json()->Object_0);
        JsonValue::Object(ms)
    }
}

impl IgnitionUnit {
    pub open spec fn json(self) -> JsonView {
        JsonView::Object(
            seq![("name"@, JsonView::Str(self.name@))] + opt_field("enabled"@, opt_bool_json(self.enabled))
                + opt_field("contents"@, opt_str_json(opt_text(self.contents))),
        )
    }

    /// This unit serialized.
    pub fn to_json(&self) -> (r: JsonValue)
        ensures
            jv(r) == self.json(),
    {
        let mut ms: Vec<(String, JsonValue)> = Vec::new();
        push_member(&mut ms, "name", JsonValue::Str(self.name.clone()));
        push_opt(&mut ms, "enabled", opt_bool_value(self.enabled));
        push_opt(&mut ms, "contents", opt_str_value(&self.contents));
        assert(jv_members(ms@) =~= self.json()->Object_0);
        JsonValue::Object(ms)
    }
}

impl IgnitionSystemd {
    pub open spec fn json(self) -> JsonView {
        JsonView::Object(
            if self.units.len() == 0 {
                Seq::empty()
            } else {
                seq![("units"@, JsonView::Array(self.units@.map_values(|u: IgnitionUnit| u.json())))]
            },
        )
    }

    /// This section serialized (an empty unit list is left out).
    pub fn to_json(&self) -> (r: JsonValue)
        ensures
            jv(r) == self.json(),
    {
        let mut ms: Vec<(String, JsonValue)> = Vec::new();
        if self.units.len() > 0 {
            let mut items: Vec<JsonValue> = Vec::new();
            let mut i: usize = 0;
            while i < self.units.len()
                invariant
                    i <= self.units.len(),
                    jv_items(items@) == self.units@.map_values(|u: IgnitionUnit| u.json()).subrange(0, i as int),
                decreases self.units.len() - i,
            {
                let ghost before = items@;
                let e = self.units[i].to_json();
                items.push(e);
                assert(items@.drop_last() =~= before);
                i = i + 1;
                assert(jv_items(items@) =~= self.units@.map_values(|u: IgnitionUnit| u.json()).subrange(
                    0,
                    i as int,
                ));
            }
            assert(self.units@.map_values(|u: IgnitionUnit| u.json()).subrange(0, self.units.len() as int)
                =~= self.units@.map_values(|u: IgnitionUnit| u.json()));
            push_member(&mut ms, "units", JsonValue::Array(items));
        }
        assert(jv_members(ms@) =~= self.json()->Object_0);
        JsonValue::Object(ms)
    }
}

impl IgnitionConfig {
    pub open spec fn json(self) -> JsonView {
        JsonView::Object(
            seq![("ignition"@, self.ignition.json())] + opt_field(
                "passwd"@,
                match self.passwd {
                    Some(p) => Some(p.json()),
                    None => None,
                },
            ) + opt_field(
                "storage"@,
                match self.storage {
                    Some(s) => Some(s.json()),
                    None => None,
                },
            ) + opt_field(
                "systemd"@,
                match self.systemd {
                    Some(s) => Some(s.json()),
                    None => None,
                },
            ),
        )
    }

    /// This config serialized as `serde_json` serializes the struct.
    pub fn to_json(&self) -> (r: JsonValue)
        ensures
            jv(r) == self.json(),
    {
        let mut ms: Vec<(String, JsonValue)> = Vec::new();
        push_member(&mut ms, "ignition", self.ignition.to_json());
        let p = match &self.passwd {
            Some(p) => Some(p.to_json()),
            None => None,
        };
        push_opt(&mut ms, "passwd", p);
        let st = match &self.storage {
            Some(s) => Some(s.to_json()),
            None => None,
        };
        push_opt(&mut ms, "storage", st);
        let sd = match &self.systemd {
            Some(s) => Some(s.to_json()),
            None => None,
        };
        push_opt(&mut ms, "systemd", sd);
        assert(jv_members(ms@) =~= self.json()->Object_0);
        JsonValue::Object(ms)
    }
}

/// `{"version": "3.4.0"}`.
pub open spec fn version_doc() -> JsonView {
    JsonView::Object(seq![("version"@, JsonView::Str("3.4.0"@))])
}

/// The `data:` URL of a file holding `text`.
pub open spec fn data_url(text: Seq<char>) -> Seq<char> {
    "data:,"@ + url_encoded(text)
}

/// The default Ignition config of a host: version 3.4.0, its users, and an
/// `/etc/hostname` file (mode 0644, overwritten) holding its host name.
pub open spec fn generated_ignition_doc(meta: HostMetadata) -> JsonView {
    let us = ignition_users(meta);
    JsonView::Object(
        seq![
            ("ignition"@, version_doc()),
            (
                "passwd"@,
                JsonView::Object(
                    if us.len() == 0 {
                        Seq::empty()
                    } else {
                        seq![("users"@, JsonView::Array(us.map_values(|u: IgnUserView| user_json(u))))]
                    },
                ),
            ),
            (
                "storage"@,
                JsonView::Object(
                    seq![
                        (
                            "files"@,
                            JsonView::Array(
                                seq![
                                    JsonView::Object(
                                        seq![
                                            ("path"@, JsonView::Str("/etc/hostname"@)),
                                            ("mode"@, u32_json(420)),
                                            ("overwrite"@, JsonView::Bool(true)),
                                            (
                                                "contents"@,
                                                JsonView::Object(
                                                    seq![("source"@, JsonView::Str(data_url(meta.hostname@)))],
                                                ),
                                            ),
                                        ],
                                    ),
                                ],
                            ),
                        ),
                    ],
                ),
            ),
        ],
    )
}

fn lit(s: &str) -> (r: String)
    ensures
        r@ == s@,
{
    String::from_str(s)
}

/// `"data:," + url_encode(text)`.
fn data_url_exec(text: &str) -> (r: String)
    ensures
        r@ == data_url(text@),
{
    let mut r = lit("data:,");
    r.append(url_encode(text).as_str());
    r
}

/// Generate a default Ignition v3.4.0 config from HostMetadata (no BMH base).
pub fn generate_ignition(meta: &HostMetadata) -> (r: String)
    ensures
        r@ == pretty(generated_ignition_doc(*meta), 0),
{
    let users = build_ignition_users(meta);
    let mut files: Vec<IgnitionFile> = Vec::new();
    files.push(
        IgnitionFile {
            path: lit("/etc/hostname"),
            mode: Some(420),
            overwrite: Some(true),
            contents: IgnitionFileContents { source: data_url_exec(meta.hostname.as_str()) },
        },
    );
    let config = IgnitionConfig {
        ignition: IgnitionMeta { version: lit("3.4.0") },
        passwd: Some(IgnitionPasswd { users }),
        storage: Some(IgnitionStorage { files }),
        systemd: None,
    };
    let doc = config.to_json();
    proof {
        let us = ignition_users(*meta);
        let f = config.storage.unwrap().files@[0];
        assert(config.ignition.json() == version_doc());
        assert(f.json()->Object_0 =~= generated_ignition_doc(*meta)->Object_0[2].1->Object_0[0].1->Array_0[0]->Object_0);
        assert(config.storage.unwrap().files@.map_values(|f: IgnitionFile| f.json()) =~= seq![f.json()]);
        assert(config.storage.unwrap().json()->Object_0 =~= generated_ignition_doc(*meta)->Object_0[2].1->Object_0);
        assert(ign_views(config.passwd.unwrap().users@).map_values(|u: IgnUserView| user_json(u)) =~= us.map_values(
            |u: IgnUserView| user_json(u),
        ));
        assert(config.passwd.unwrap().json()->Object_0 =~= generated_ignition_doc(*meta)->Object_0[1].1->Object_0);
        assert(config.json()->Object_0 =~= generated_ignition_doc(*meta)->Object_0);
    }
    to_pretty_string(&doc)
}

/// An element of a user list that is an object whose `name` is `name`.
pub open spec fn user_named(e: JsonView, name: Seq<char>) -> bool {
    match e {
        JsonView::Object(ms) => get_member(ms, "name"@) == Some(JsonView::Str(name)),
        _ => false,
    }
}

/// Some element of the list is a user named `name`.
pub open spec fn names_user(items: Seq<JsonView>, name: Seq<char>) -> bool {
    exists|i: int| 0 <= i < items.len() && user_named(#[trigger] items[i], name)
}

/// The list holds the string `k`.
pub open spec fn has_str(items: Seq<JsonView>, k: Seq<char>) -> bool {
    exists|i: int| 0 <= i < items.len() && #[trigger] items[i] == JsonView::Str(k)
}

/// The keys of `added` that `items` does not hold, in order, as strings
/// (a key repeated in `added` is added each time).
pub open spec fn new_key_items(items: Seq<JsonView>, added: Seq<Seq<char>>) -> Seq<JsonView>
    decreases added.len(),
{
    if added.len() == 0 {
        Seq::empty()
    } else {
        new_key_items(items, added.drop_last()) + if has_str(items, added.last()) {
            Seq::<JsonView>::empty()
        } else {
            seq![JsonView::Str(added.last())]
        }
    }
}

/// A user object with the given keys merged into its `sshAuthorizedKeys`
/// (created empty when missing; left alone when it is not an array).
pub open spec fn with_keys(e: JsonView, keys: Option<Seq<Seq<char>>>) -> JsonView {
    match keys {
        None => e,
        Some(nk) => match e {
            JsonView::Object(ms) => {
                let ms1 = ensure_member(ms, "sshAuthorizedKeys"@, JsonView::Array(Seq::empty()));
                let p = member_pos(ms1, "sshAuthorizedKeys"@);
                match ms1[p].1 {
                    JsonView::Array(items) => JsonView::Object(
                        ms1.update(p, ("sshAuthorizedKeys"@, JsonView::Array(items + new_key_items(items, nk)))),
                    ),
                    _ => JsonView::Object(ms1),
                }
            },
            _ => e,
        },
    }
}

/// Each user of the list named like `u` gets `u`'s keys.
pub open spec fn merge_named(items: Seq<JsonView>, u: IgnUserView) -> Seq<JsonView> {
    items.map_values(|e: JsonView| if user_named(e, u.name) { with_keys(e, u.keys) } else { e })
}

/// The base user list after the identity users: a user whose name the base
/// list holds has its keys merged there; any other is appended.
pub open spec fn merge_users(orig: Seq<JsonView>, us: Seq<IgnUserView>) -> Seq<JsonView>
    decreases us.len(),
{
    if us.len() == 0 {
        orig
    } else {
        let prev = merge_users(orig, us.drop_last());
        if names_user(orig, us.last().name) {
            merge_named(prev, us.last())
        } else {
            prev.push(user_map_json(us.last()))
        }
    }
}

/// The base config with an `ignition` section (`{"version": "3.4.0"}` when
/// it has none).
pub open spec fn with_ignition(c: JsonView) -> JsonView {
    match c {
        JsonView::Object(ms) => JsonView::Object(ensure_member(ms, "ignition"@, version_doc())),
        _ => JsonView::Object(seq![("ignition"@, version_doc())]),
    }
}

/// The config with the users merged into `passwd.users` (both created when
/// missing; left alone when `users` is not an array).
pub open spec fn with_users(c: JsonView, us: Seq<IgnUserView>) -> JsonView {
    match c {
        JsonView::Object(ms) => {
            let ms1 = ensure_member(ms, "passwd"@, JsonView::Object(Seq::empty()));
            let pp = member_pos(ms1, "passwd"@);
            match ms1[pp].1 {
                JsonView::Object(pms) => {
                    let pms1 = ensure_member(pms, "users"@, JsonView::Array(Seq::empty()));
                    let up = member_pos(pms1, "users"@);
                    let uv = match pms1[up].1 {
                        JsonView::Array(items) => JsonView::Array(merge_users(items, us)),
                        other => other,
                    };
                    JsonView::Object(ms1.update(pp, ("passwd"@, JsonView::Object(pms1.update(up, ("users"@, uv))))))
                },
                _ => JsonView::Object(ms1),
            }
        },
        _ => c,
    }
}

fn version_value() -> (r: JsonValue)
    ensures
        jv(r) == version_doc(),
{
    IgnitionMeta { version: lit("3.4.0") }.to_json()
}

fn with_ignition_exec(c: JsonValue) -> (r: JsonValue)
    ensures
        jv(r) == with_ignition(jv(c)),
{
    match c {
        JsonValue::Object(ms) => {
            let mut ms = ms;
            ensure_member_exec(&mut ms, "ignition", version_value());
            JsonValue::Object(ms)
        },
        _ => {
            let mut ms: Vec<(String, JsonValue)> = Vec::new();
            push_member(&mut ms, "ignition", version_value());
            assert(jv_members(ms@) =~= seq![("ignition"@, version_doc())]);
            JsonValue::Object(ms)
        },
    }
}

fn is_user_named(e: &JsonValue, name: &str) -> (r: bool)
    ensures
        r == user_named(jv(*e), name@),
{
    match e {
        JsonValue::Object(ms) => {
            let p = find_member(ms, "name");
            proof {
                lemma_jv_members_index(ms@);
            }
            if p < ms.len() {
                match &ms[p].1 {
                    JsonValue::Str(s) => crate::text::str_eq(s.as_str(), name),
                    _ => false,
                }
            } else {
                false
            }
        },
        _ => false,
    }
}

fn holds_str(items: &Vec<JsonValue>, k: &str) -> (r: bool)
    ensures
        r == has_str(jv_items(items@), k@),
{
    proof {
        lemma_jv_items_index(items@);
    }
    let mut i: usize = 0;
    while i < items.len()
        invariant
            i <= items.len(),
            jv_items(items@).len() == items.len(),
            forall|j: int| 0 <= j < items.len() ==> #[trigger] jv_items(items@)[j] == jv(items@[j]),
            forall|j: int| 0 <= j < i ==> jv_items(items@)[j] != JsonView::Str(k@),
        decreases items.len() - i,
    {
        let hit = match &items[i] {
            JsonValue::Str(s) => crate::text::str_eq(s.as_str(), k),
            _ => false,
        };
        if hit {
            assert(jv_items(items@)[i as int] == JsonView::Str(k@));
            return true;
        }
        i = i + 1;
    }
    false
}

/// Appends the keys the array does not hold yet (checked against the array
/// as it was before).
fn append_new_keys(items: &mut Vec<JsonValue>, added: &Vec<String>)
    ensures
        jv_items(final(items)@) == jv_items(old(items)@) + new_key_items(jv_items(old(items)@), str_views(added@)),
{
    let ghost orig = jv_items(items@);
    let mut fresh: Vec<bool> = Vec::new();
    let mut i: usize = 0;
    while i < added.len()
        invariant
            i <= added.len(),
            fresh.len() == i,
            orig == jv_items(items@),
            forall|j: int| 0 <= j < i ==> fresh@[j] == !has_str(orig, #[trigger] added@[j]@),
        decreases added.len() - i,
    {
        fresh.push(!holds_str(items, added[i].as_str()));
        i = i + 1;
    }
    let mut k: usize = 0;
    while k < added.len()
        invariant
            k <= added.len(),
            fresh.len() == added.len(),
            forall|j: int| 0 <= j < added.len() ==> fresh@[j] == !has_str(orig, #[trigger] added@[j]@),
            jv_items(items@) == orig + new_key_items(orig, str_views(added@).subrange(0, k as int)),
        decreases added.len() - k,
    {
        let ghost sub = str_views(added@).subrange(0, k + 1);
        assert(sub.drop_last() =~= str_views(added@).subrange(0, k as int));
        assert(sub.last() == added@[k as int]@);
        assert(fresh@[k as int] == !has_str(orig, added@[k as int]@));
        if fresh[k] {
            let ghost before = items@;
            let key = added[k].clone();
            assert(key@ == added@[k as int]@);
            let e = JsonValue::Str(key);
            assert(jv(e) == JsonView::Str(added@[k as int]@));
            items.push(e);
            assert(items@.drop_last() =~= before);
            assert(items@.last() == e);
            assert(jv_items(items@) == jv_items(before).push(JsonView::Str(added@[k as int]@)));
            assert(new_key_items(orig, sub) == new_key_items(orig, str_views(added@).subrange(0, k as int)) + seq![
                JsonView::Str(added@[k as int]@),
            ]);
            assert(jv_items(items@) =~= orig + new_key_items(orig, sub));
        } else {
            assert(new_key_items(orig, sub) =~= new_key_items(orig, str_views(added@).subrange(0, k as int)));
        }
        k = k + 1;
    }
    assert(str_views(added@).subrange(0, added.len() as int) =~= str_views(added@));
}

fn with_keys_exec(e: JsonValue, keys: &Option<Vec<String>>) -> (r: JsonValue)
    ensures
        jv(r) == with_keys(jv(e), opt_texts(*keys)),
{
    match keys {
        None => e,
        Some(nk) => match e {
            JsonValue::Object(ms) => {
                let mut ms = ms;
                let ghost ms0 = jv_members(ms@);
                proof {
                    lemma_ensure_member_pos(ms0, "sshAuthorizedKeys"@, JsonView::Array(Seq::empty()));
                }
                let p = ensure_member_exec(&mut ms, "sshAuthorizedKeys", JsonValue::Array(Vec::new()));
                let ghost ms1 = jv_members(ms@);
                proof {
                    lemma_jv_members_index(ms@);
                }
                let v = replace_value(&mut ms, p, JsonValue::Null);
                let v2 = match v {
                    JsonValue::Array(items) => {
                        let mut items = items;
                        append_new_keys(&mut items, nk);
                        JsonValue::Array(items)
                    },
                    other => other,
                };
                let ghost jv2 = jv(v2);
                replace_value(&mut ms, p, v2);
                assert(jv_members(ms@) =~= ms1.update(p as int, ("sshAuthorizedKeys"@, jv2)));
                proof {
                    if !(ms1[p as int].1 is Array) {
                        assert(jv_members(ms@) =~= ms1);
                    }
                }
                JsonValue::Object(ms)
            },
            other => other,
        },
    }
}

fn merge_named_exec(items: Vec<JsonValue>, u: &IgnitionUser) -> (r: Vec<JsonValue>)
    ensures
        jv_items(r@) == merge_named(jv_items(items@), u@),
{
    let ghost orig = items@;
    let mut items = items;
    let mut i: usize = 0;
    while i < items.len()
        invariant
            i <= items.len(),
            items.len() == orig.len(),
            forall|j: int| i <= j < items.len() ==> items@[j] == orig[j],
            forall|j: int|
                0 <= j < i ==> jv(#[trigger] items@[j]) == (if user_named(jv(orig[j]), u@.name) {
                    with_keys(jv(orig[j]), u@.keys)
                } else {
                    jv(orig[j])
                }),
        decreases items.len() - i,
    {
        let e = replace_item(&mut items, i, JsonValue::Null);
        let e2 = if is_user_named(&e, u.name.as_str()) {
            with_keys_exec(e, &u.ssh_authorized_keys)
        } else {
            e
        };
        replace_item(&mut items, i, e2);
        i = i + 1;
    }
    proof {
        lemma_jv_items_index(items@);
        lemma_jv_items_index(orig);
        assert(jv_items(items@) =~= merge_named(jv_items(orig), u@));
    }
    items
}

fn merge_users_exec(items: Vec<JsonValue>, users: &Vec<IgnitionUser>) -> (r: Vec<JsonValue>)
    ensures
        jv_items(r@) == merge_users(jv_items(items@), ign_views(users@)),
{
    let ghost orig = jv_items(items@);
    let mut known: Vec<bool> = Vec::new();
    let mut i: usize = 0;
    proof {
        lemma_jv_items_index(items@);
    }
    while i < users.len()
        invariant
            i <= users.len(),
            known.len() == i,
            orig == jv_items(items@),
            orig.len() == items.len(),
            forall|j: int| 0 <= j < items.len() ==> #[trigger] orig[j] == jv(items@[j]),
            forall|j: int| 0 <= j < i ==> known@[j] == names_user(orig, #[trigger] users@[j]@.name),
        decreases users.len() - i,
    {
        let mut found = false;
        let mut j: usize = 0;
        while j < items.len()
            invariant
                i < users.len(),
                j <= items.len(),
                orig.len() == items.len(),
                forall|q: int| 0 <= q < items.len() ==> #[trigger] orig[q] == jv(items@[q]),
                found == (exists|q: int| 0 <= q < j && user_named(#[trigger] orig[q], users@[i as int]@.name)),
            decreases items.len() - j,
        {
            if is_user_named(&items[j], users[i].name.as_str()) {
                found = true;
            }
            assert(orig[j as int] == jv(items@[j as int]));
            j = j + 1;
        }
        known.push(found);
        i = i + 1;
    }
    let mut items = items;
    let mut k: usize = 0;
    while k < users.len()
        invariant
            k <= users.len(),
            known.len() == users.len(),
            forall|j: int| 0 <= j < users.len() ==> known@[j] == names_user(orig, #[trigger] users@[j]@.name),
            jv_items(items@) == merge_users(orig, ign_views(users@).subrange(0, k as int)),
        decreases users.len() - k,
    {
        let ghost sub = ign_views(users@).subrange(0, k + 1);
        assert(sub.drop_last() =~= ign_views(users@).subrange(0, k as int));
        assert(sub.last() == users@[k as int]@);
        if known[k] {
            items = merge_named_exec(items, &users[k]);
        } else {
            let ghost before = items@;
            items.push(users[k].to_map_json());
            assert(items@.drop_last() =~= before);
        }
        k = k + 1;
    }
    assert(ign_views(users@).subrange(0, users.len() as int) =~= ign_views(users@));
    items
}

fn with_users_exec(c: JsonValue, users: &Vec<IgnitionUser>) -> (r: JsonValue)
    ensures
        jv(r) == with_users(jv(c), ign_views(users@)),
{
    match c {
        JsonValue::Object(ms) => {
            let mut ms = ms;
            proof {
                lemma_ensure_member_pos(jv_members(ms@), "passwd"@, JsonView::Object(Seq::empty()));
            }
            let pp = ensure_member_exec(&mut ms, "passwd", JsonValue::Object(Vec::new()));
            let ghost ms1 = jv_members(ms@);
            proof {
                lemma_jv_members_index(ms@);
            }
            let pv = replace_value(&mut ms, pp, JsonValue::Null);
            let pv2 = match pv {
                JsonValue::Object(pms) => {
                    let mut pms = pms;
                    proof {
                        lemma_ensure_member_pos(jv_members(pms@), "users"@, JsonView::Array(Seq::empty()));
                    }
                    let up = ensure_member_exec(&mut pms, "users", JsonValue::Array(Vec::new()));
                    let ghost pms1 = jv_members(pms@);
                    proof {
                        lemma_jv_members_index(pms@);
                    }
                    let uv = replace_value(&mut pms, up, JsonValue::Null);
                    let uv2 = match uv {
                        JsonValue::Array(items) => JsonValue::Array(merge_users_exec(items, users)),
                        other => other,
                    };
                    let ghost juv = jv(uv2);
                    replace_value(&mut pms, up, uv2);
                    assert(jv_members(pms@) =~= pms1.update(up as int, ("users"@, juv)));
                    JsonValue::Object(pms)
                },
                other => other,
            };
            let ghost jpv = jv(pv2);
            replace_value(&mut ms, pp, pv2);
            assert(jv_members(ms@) =~= ms1.update(pp as int, ("passwd"@, jpv)));
            proof {
                if !(ms1[pp as int].1 is Object) {
                    assert(jv_members(ms@) =~= ms1);
                }
            }
            JsonValue::Object(ms)
        },
        other => other,
    }
}

/// A file entry whose `path` is `p`.
pub open spec fn has_path(e: JsonView, p: Seq<char>) -> bool {
    match e {
        JsonView::Object(ms) => get_member(ms, "path"@) == Some(JsonView::Str(p)),
        _ => false,
    }
}

/// The `/etc/hostname` file entry as a JSON map (keys in order).
pub open spec fn hostname_file(fqdn: Seq<char>) -> JsonView {
    JsonView::Object(
        seq![
            ("contents"@, JsonView::Object(seq![("source"@, JsonView::Str(data_url(fqdn)))])),
            ("mode"@, u32_json(420)),
            ("overwrite"@, JsonView::Bool(true)),
            ("path"@, JsonView::Str("/etc/hostname"@)),
        ],
    )
}

/// The config with an `/etc/hostname` file in `storage.files` unless one
/// is there (both created when missing; left alone when `files` is not an
/// array).
pub open spec fn with_hostname(c: JsonView, fqdn: Seq<char>) -> JsonView {
    match c {
        JsonView::Object(ms) => {
            let ms1 = ensure_member(ms, "storage"@, JsonView::Object(Seq::empty()));
            let sp = member_pos(ms1, "storage"@);
            match ms1[sp].1 {
                JsonView::Object(sms) => {
                    let sms1 = ensure_member(sms, "files"@, JsonView::Array(Seq::empty()));
                    let fp = member_pos(sms1, "files"@);
                    let fv = match sms1[fp].1 {
                        JsonView::Array(items) => if (exists|i: int|
                            0 <= i < items.len() && has_path(#[trigger] items[i], "/etc/hostname"@)) {
                            JsonView::Array(items)
                        } else {
                            JsonView::Array(items.push(hostname_file(fqdn)))
                        },
                        other => other,
                    };
                    JsonView::Object(ms1.update(sp, ("storage"@, JsonView::Object(sms1.update(fp, ("files"@, fv))))))
                },
                _ => JsonView::Object(ms1),
            }
        },
        _ => c,
    }
}

fn hostname_file_value(fqdn: &str) -> (r: JsonValue)
    ensures
        jv(r) == hostname_file(fqdn@),
{
    let mut cs: Vec<(String, JsonValue)> = Vec::new();
    push_member(&mut cs, "source", JsonValue::Str(data_url_exec(fqdn)));
    let mut ms: Vec<(String, JsonValue)> = Vec::new();
    push_member(&mut ms, "contents", JsonValue::Object(cs));
    push_member(&mut ms, "mode", u32_value(420));
    push_member(&mut ms, "overwrite", JsonValue::Bool(true));
    push_member(&mut ms, "path", JsonValue::Str(lit("/etc/hostname")));
    assert(jv_members(ms@) =~= hostname_file(fqdn@)->Object_0);
    JsonValue::Object(ms)
}

fn has_hostname_file(items: &Vec<JsonValue>) -> (r: bool)
    ensures
        r == (exists|i: int| 0 <= i < items.len() && has_path(#[trigger] jv_items(items@)[i], "/etc/hostname"@)),
{
    proof {
        lemma_jv_items_index(items@);
    }
    let mut i: usize = 0;
    while i < items.len()
        invariant
            i <= items.len(),
            forall|j: int| 0 <= j < items.len() ==> #[trigger] jv_items(items@)[j] == jv(items@[j]),
            forall|j: int| 0 <= j < i ==> !has_path(#[trigger] jv_items(items@)[j], "/etc/hostname"@),
        decreases items.len() - i,
    {
        let hit = match &items[i] {
            JsonValue::Object(ms) => {
                let p = find_member(ms, "path");
                proof {
                    lemma_jv_members_index(ms@);
                }
                if p < ms.len() {
                    match &ms[p].1 {
                        JsonValue::Str(s) => crate::text::str_eq(s.as_str(), "/etc/hostname"),
                        _ => false,
                    }
                } else {
                    false
                }
            },
            _ => false,
        };
        assert(hit == has_path(jv_items(items@)[i as int], "/etc/hostname"@));
        if hit {
            return true;
        }
        i = i + 1;
    }
    false
}

fn with_hostname_exec(c: JsonValue, fqdn: &str) -> (r: JsonValue)
    ensures
        jv(r) == with_hostname(jv(c), fqdn@),
{
    match c {
        JsonValue::Object(ms) => {
            let mut ms = ms;
            proof {
                lemma_ensure_member_pos(jv_members(ms@), "storage"@, JsonView::Object(Seq::empty()));
            }
            let sp = ensure_member_exec(&mut ms, "storage", JsonValue::Object(Vec::new()));
            let ghost ms1 = jv_members(ms@);
            proof {
                lemma_jv_members_index(ms@);
            }
            let sv = replace_value(&mut ms, sp, JsonValue::Null);
            let sv2 = match sv {
                JsonValue::Object(sms) => {
                    let mut sms = sms;
                    proof {
                        lemma_ensure_member_pos(jv_members(sms@), "files"@, JsonView::Array(Seq::empty()));
                    }
                    let fp = ensure_member_exec(&mut sms, "files", JsonValue::Array(Vec::new()));
                    let ghost sms1 = jv_members(sms@);
                    proof {
                        lemma_jv_members_index(sms@);
                    }
                    let fv = replace_value(&mut sms, fp, JsonValue::Null);
                    let fv2 = match fv {
                        JsonValue::Array(items) => {
                            proof {
                                lemma_jv_items_index(items@);
                            }
                            if has_hostname_file(&items) {
                                JsonValue::Array(items)
                            } else {
                                let mut items = items;
                                let ghost before = items@;
                                let f = hostname_file_value(fqdn);
                                let ghost gf = f;
                                items.push(f);
                                assert(items@.drop_last() =~= before);
                                assert(items@.last() == gf);
                                JsonValue::Array(items)
                            }
                        },
                        other => other,
                    };
                    let ghost jfv = jv(fv2);
                    replace_value(&mut sms, fp, fv2);
                    assert(jv_members(sms@) =~= sms1.update(fp as int, ("files"@, jfv)));
                    JsonValue::Object(sms)
                },
                other => other,
            };
            let ghost jsv = jv(sv2);
            replace_value(&mut ms, sp, sv2);
            assert(jv_members(ms@) =~= ms1.update(sp as int, ("storage"@, jsv)));
            proof {
                if !(ms1[sp as int].1 is Object) {
                    assert(jv_members(ms@) =~= ms1);
                }
            }
            JsonValue::Object(ms)
        },
        other => other,
    }
}

/// File contents with an `inline` text turned into a `source` data URL
/// (`inline` removed; `source` set only when `inline` was a string).
pub open spec fn normalized_contents(ms: Seq<(Seq<char>, JsonView)>) -> Seq<(Seq<char>, JsonView)> {
    let ip = member_pos(ms, "inline"@);
    if ip < ms.len() {
        match ms[ip].1 {
            JsonView::Str(t) => set_member(ms.remove(ip), "source"@, JsonView::Str(data_url(t))),
            _ => ms.remove(ip),
        }
    } else {
        ms
    }
}

/// A file entry with its `contents` normalized (when it is an object).
pub open spec fn normalized_file(f: JsonView) -> JsonView {
    match f {
        JsonView::Object(ms) => {
            let cp = member_pos(ms, "contents"@);
            if cp < ms.len() {
                match ms[cp].1 {
                    JsonView::Object(cms) => JsonView::Object(
                        ms.update(cp, ("contents"@, JsonView::Object(normalized_contents(cms)))),
                    ),
                    _ => f,
                }
            } else {
                f
            }
        },
        _ => f,
    }
}

/// The config with each entry of `storage.files` normalized.
pub open spec fn normalized(c: JsonView) -> JsonView {
    match c {
        JsonView::Object(ms) => {
            let sp = member_pos(ms, "storage"@);
            if sp < ms.len() {
                match ms[sp].1 {
                    JsonView::Object(sms) => {
                        let fp = member_pos(sms, "files"@);
                        if fp < sms.len() {
                            match sms[fp].1 {
                                JsonView::Array(items) => JsonView::Object(
                                    ms.update(
                                        sp,
                                        (
                                            "storage"@,
                                            JsonView::Object(
                                                sms.update(
                                                    fp,
                                                    (
                                                        "files"@,
                                                        JsonView::Array(
                                                            items.map_values(|f: JsonView| normalized_file(f)),
                                                        ),
                                                    ),
                                                ),
                                            ),
                                        ),
                                    ),
                                ),
                                _ => c,
                            }
                        } else {
                            c
                        }
                    },
                    _ => c,
                }
            } else {
                c
            }
        },
        _ => c,
    }
}

fn normalize_contents_exec(cms: Vec<(String, JsonValue)>) -> (r: Vec<(String, JsonValue)>)
    ensures
        jv_members(r@) == normalized_contents(jv_members(cms@)),
{
    let mut cms = cms;
    let ghost c0 = cms@;
    let ip = find_member(&cms, "inline");
    proof {
        lemma_jv_members_index(cms@);
    }
    if ip < cms.len() {
        let (_k, iv) = cms.remove(ip);
        proof {
            crate::json::lemma_jv_members_remove(c0, ip as int);
        }
        match iv {
            JsonValue::Str(t) => {
                set_member_exec(&mut cms, "source", JsonValue::Str(data_url_exec(t.as_str())));
            },
            _ => {},
        }
    }
    cms
}

fn normalize_file_exec(f: JsonValue) -> (r: JsonValue)
    ensures
        jv(r) == normalized_file(jv(f)),
{
    match f {
        JsonValue::Object(ms) => {
            let mut ms = ms;
            let ghost m0 = jv_members(ms@);
            let cp = find_member(&ms, "contents");
            proof {
                lemma_jv_members_index(ms@);
                crate::json::lemma_member_pos(m0, "contents"@);
            }
            if cp < ms.len() {
                let cv = replace_value(&mut ms, cp, JsonValue::Null);
                let cv2 = match cv {
                    JsonValue::Object(cms) => JsonValue::Object(normalize_contents_exec(cms)),
                    other => other,
                };
                let ghost jcv = jv(cv2);
                replace_value(&mut ms, cp, cv2);
                assert(jv_members(ms@) =~= m0.update(cp as int, ("contents"@, jcv)));
                proof {
                    if !(m0[cp as int].1 is Object) {
                        assert(jv_members(ms@) =~= m0);
                    }
                }
            }
            JsonValue::Object(ms)
        },
        other => other,
    }
}

fn normalize_files_exec(items: Vec<JsonValue>) -> (r: Vec<JsonValue>)
    ensures
        jv_items(r@) == jv_items(items@).map_values(|f: JsonView| normalized_file(f)),
{
    let ghost orig = items@;
    let mut items = items;
    let mut i: usize = 0;
    while i < items.len()
        invariant
            i <= items.len(),
            items.len() == orig.len(),
            forall|j: int| i <= j < items.len() ==> items@[j] == orig[j],
            forall|j: int| 0 <= j < i ==> jv(#[trigger] items@[j]) == normalized_file(jv(orig[j])),
        decreases items.len() - i,
    {
        let e = replace_item(&mut items, i, JsonValue::Null);
        replace_item(&mut items, i, normalize_file_exec(e));
        i = i + 1;
    }
    proof {
        lemma_jv_items_index(items@);
        lemma_jv_items_index(orig);
        assert(jv_items(items@) =~= jv_items(orig).map_values(|f: JsonView| normalized_file(f)));
    }
    items
}

fn normalize_exec(c: JsonValue) -> (r: JsonValue)
    ensures
        jv(r) == normalized(jv(c)),
{
    match c {
        JsonValue::Object(ms) => {
            let mut ms = ms;
            let ghost m0 = jv_members(ms@);
            let sp = find_member(&ms, "storage");
            proof {
                lemma_jv_members_index(ms@);
                crate::json::lemma_member_pos(m0, "storage"@);
            }
            if sp < ms.len() {
                let sv = replace_value(&mut ms, sp, JsonValue::Null);
                let sv2 = match sv {
                    JsonValue::Object(sms) => {
                        let mut sms = sms;
                        let ghost s0 = jv_members(sms@);
                        let fp = find_member(&sms, "files");
                        proof {
                            lemma_jv_members_index(sms@);
                            crate::json::lemma_member_pos(s0, "files"@);
                        }
                        if fp < sms.len() {
                            let fv = replace_value(&mut sms, fp, JsonValue::Null);
                            let fv2 = match fv {
                                JsonValue::Array(items) => JsonValue::Array(normalize_files_exec(items)),
                                other => other,
                            };
                            let ghost jfv = jv(fv2);
                            replace_value(&mut sms, fp, fv2);
                            assert(jv_members(sms@) =~= s0.update(fp as int, ("files"@, jfv)));
                            proof {
                                if !(s0[fp as int].1 is Array) {
                                    assert(jv_members(sms@) =~= s0);
                                }
                            }
                        }
                        JsonValue::Object(sms)
                    },
                    other => other,
                };
                let ghost jsv = jv(sv2);
                replace_value(&mut ms, sp, sv2);
                assert(jv_members(ms@) =~= m0.update(sp as int, ("storage"@, jsv)));
                proof {
                    if jsv == m0[sp as int].1 {
                        assert(jv_members(ms@) =~= m0);
                    }
                }
            }
            JsonValue::Object(ms)
        },
        other => other,
    }
}

/// A base config that merging can take: an object (or null) whose
/// `passwd` and `storage`, where present, are objects.
pub open spec fn mergeable(base: JsonView) -> bool {
    match base {
        JsonView::Null => true,
        JsonView::Object(ms) => (match get_member(ms, "passwd"@) {
            Some(v) => v is Object,
            None => true,
        }) && (match get_member(ms, "storage"@) {
            Some(v) => v is Object,
            None => true,
        }),
        _ => false,
    }
}

/// Whether a base config can be merged into.
pub fn is_mergeable(base: &JsonValue) -> (r: bool)
    ensures
        r == mergeable(jv(*base)),
{
    match base {
        JsonValue::Null => true,
        JsonValue::Object(ms) => {
            proof {
                lemma_jv_members_index(ms@);
            }
            let pp = find_member(ms, "passwd");
            let passwd_ok = if pp < ms.len() {
                match &ms[pp].1 {
                    JsonValue::Object(_) => true,
                    _ => false,
                }
            } else {
                true
            };
            let sp = find_member(ms, "storage");
            let storage_ok = if sp < ms.len() {
                match &ms[sp].1 {
                    JsonValue::Object(_) => true,
                    _ => false,
                }
            } else {
                true
            };
            passwd_ok && storage_ok
        },
        _ => false,
    }
}

/// A base config with the host's identity merged in: an `ignition`
/// section, the users merged into `passwd.users`, an `/etc/hostname` file,
/// and inline file contents turned into data URLs.
pub open spec fn merged_ignition_doc(base: JsonView, meta: HostMetadata) -> JsonView {
    normalized(with_hostname(with_users(with_ignition(base), ignition_users(meta)), meta.hostname@))
}

proof fn lemma_steps_keep_storage(base: JsonView, us: Seq<IgnUserView>)
    requires
        mergeable(base),
    ensures
        with_users(with_ignition(base), us) is Object,
        match get_member(with_users(with_ignition(base), us)->Object_0, "storage"@) {
            Some(v) => v is Object,
            None => true,
        },
{
    reveal_strlit("ignition");
    reveal_strlit("storage");
    reveal_strlit("passwd");
    assert("ignition"@[0] != "storage"@[0]);
    assert("passwd"@[0] != "storage"@[0]);
    let c1 = with_ignition(base);
    match base {
        JsonView::Object(ms) => {
            lemma_get_member_ensure(ms, "ignition"@, version_doc(), "storage"@);
        },
        _ => {
            crate::json::lemma_member_pos_at(c1->Object_0, "storage"@, 1);
            assert(get_member(c1->Object_0, "storage"@) is None);
        },
    }
    let ms = c1->Object_0;
    let ms1 = ensure_member(ms, "passwd"@, JsonView::Object(Seq::empty()));
    lemma_get_member_ensure(ms, "passwd"@, JsonView::Object(Seq::empty()), "storage"@);
    lemma_ensure_member_pos(ms, "passwd"@, JsonView::Object(Seq::empty()));
    crate::json::lemma_member_pos(ms1, "passwd"@);
    let pp = member_pos(ms1, "passwd"@);
    match ms1[pp].1 {
        JsonView::Object(pms) => {
            let pms1 = ensure_member(pms, "users"@, JsonView::Array(Seq::empty()));
            let up = member_pos(pms1, "users"@);
            let uv = match pms1[up].1 {
                JsonView::Array(items) => JsonView::Array(merge_users(items, us)),
                other => other,
            };
            lemma_get_member_update(ms1, pp, "passwd"@, JsonView::Object(pms1.update(up, ("users"@, uv))), "storage"@);
        },
        _ => {},
    }
}

/// Merge SSH keys and users from the identity pipeline into a base
/// Ignition config.
pub fn merge_ignition(base: &JsonValue, meta: &HostMetadata) -> (r: String)
    requires
        mergeable(jv(*base)),
    ensures
        r@ == pretty(merged_ignition_doc(jv(*base), *meta), 0),
{
    let config = crate::json::copy_json(base);
    let c1 = with_ignition_exec(config);
    let users = build_ignition_users(meta);
    let c2 = with_users_exec(c1, &users);
    proof {
        lemma_steps_keep_storage(jv(*base), ign_views(users@));
    }
    let c3 = with_hostname_exec(c2, meta.hostname.as_str());
    let c4 = normalize_exec(c3);
    to_pretty_string(&c4)
}

/// The Ignition config served to a host: its BareMetalHost's base config
/// with the identity merged in, or a generated one when there is none.
pub open spec fn ignition_text(meta: HostMetadata, base: Option<JsonView>) -> Seq<char> {
    match base {
        Some(b) => pretty(merged_ignition_doc(b, meta), 0),
        None => pretty(generated_ignition_doc(meta), 0),
    }
}

/// The base Ignition config a BareMetalHost carries, if any.
pub open spec fn base_ignition(bmh: Option<&BareMetalHost>) -> Option<JsonView> {
    match bmh {
        Some(b) => match b.spec.ignition {
            Some(v) => Some(jv(v)),
            None => None,
        },
        None => None,
    }
}

/// Build the ignition config for a host.
pub fn build_ignition(meta: &HostMetadata, bmh: Option<&BareMetalHost>) -> (r: String)
    requires
        match base_ignition(bmh) {
            Some(b) => mergeable(b),
            None => true,
        },
    ensures
        r@ == ignition_text(*meta, base_ignition(bmh)),
{
    match bmh {
        Some(b) => match &b.spec.ignition {
            Some(base) => merge_ignition(base, meta),
            None => generate_ignition(meta),
        },
        None => generate_ignition(meta),
    }
}

} // verus!
