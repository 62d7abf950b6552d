use vstd::prelude::*;
use crate::ignition::{
    IgnUserView, has_str, ignition_users, merge_named, merge_users, merged_ignition_doc, mergeable, names_user,
    new_key_items, normalized, user_map_json, user_named, version_doc, with_hostname, with_ignition, with_keys,
    with_users,
};
use crate::model::HostMetadata;
use crate::json::{
    JsonView, ensure_member, get_member, lemma_ensure_member_pos, lemma_get_member_ensure, lemma_get_member_update,
    lemma_get_member_update_same, lemma_member_pos_at, member_pos,
};

verus! {

/// The `sshAuthorizedKeys` list of a user entry, when it has one.
pub open spec fn key_items(e: JsonView) -> Option<Seq<JsonView>> {
    match e {
        JsonView::Object(ms) => match get_member(ms, "sshAuthorizedKeys"@) {
            Some(JsonView::Array(items)) => Some(items),
            _ => None,
        },
        _ => None,
    }
}

/// A user entry that keys can be merged into: an object whose
/// `sshAuthorizedKeys` is a list or missing.
pub open spec fn takes_keys(e: JsonView) -> bool {
    match e {
        JsonView::Object(ms) => match get_member(ms, "sshAuthorizedKeys"@) {
            Some(JsonView::Array(_)) => true,
            None => true,
            _ => false,
        },
        _ => false,
    }
}

/// The keys a user brings (none when it has no key list).
pub open spec fn keys_of(u: IgnUserView) -> Seq<Seq<char>> {
    match u.keys {
        Some(k) => k,
        None => Seq::empty(),
    }
}

/// The entry's key list holds every key of the user.
pub open spec fn holds_keys(e: JsonView, u: IgnUserView) -> bool {
    forall|k: int|
        0 <= k < keys_of(u).len() ==> key_items(e) is Some && has_str(key_items(e)->0, #[trigger] keys_of(u)[k])
}

proof fn lemma_has_str_prefix(a: Seq<JsonView>, b: Seq<JsonView>, k: Seq<char>)
    requires
        has_str(a, k),
        a.is_prefix_of(b),
    ensures
        has_str(b, k),
{
    let i = choose|i: int| 0 <= i < a.len() && #[trigger] a[i] == JsonView::Str(k);
    assert(b[i] == a[i]);
}

/// Every key of `added` is in the list once the new ones are appended.
proof fn lemma_new_key_items(items: Seq<JsonView>, added: Seq<Seq<char>>)
    ensures
        forall|j: int| 0 <= j < added.len() ==> has_str(items + new_key_items(items, added), #[trigger] added[j]),
    decreases added.len(),
{
    if added.len() > 0 {
        let prev = added.drop_last();
        let k = added.last();
        lemma_new_key_items(items, prev);
        let a = items + new_key_items(items, prev);
        let b = items + new_key_items(items, added);
        assert(b.subrange(0, a.len() as int) =~= a);
        assert forall|j: int| 0 <= j < added.len() implies has_str(b, #[trigger] added[j]) by {
            if j < prev.len() {
                assert(added[j] == prev[j]);
                lemma_has_str_prefix(a, b, prev[j]);
            } else if has_str(items, k) {
                let i = choose|i: int| 0 <= i < items.len() && #[trigger] items[i] == JsonView::Str(k);
                assert(b[i] == items[i]);
            } else {
                assert(b[b.len() - 1] == JsonView::Str(k));
            }
        }
    }
}

/// Merging keys into a user entry keeps its name, keeps the keys it had
/// first, and leaves every merged key in its list.
proof fn lemma_with_keys(e: JsonView, keys: Option<Seq<Seq<char>>>)
    ensures
        forall|n: Seq<char>| #[trigger] user_named(with_keys(e, keys), n) == user_named(e, n),
        takes_keys(e) ==> takes_keys(with_keys(e, keys)),
        key_items(e) is Some ==> key_items(with_keys(e, keys)) is Some && key_items(e)->0.is_prefix_of(
            key_items(with_keys(e, keys))->0,
        ),
        keys is Some && takes_keys(e) ==> key_items(with_keys(e, keys)) is Some && forall|j: int|
            0 <= j < keys->0.len() ==> has_str(key_items(with_keys(e, keys))->0, #[trigger] keys->0[j]),
        forall|u: IgnUserView| u.keys == keys && takes_keys(e) ==> #[trigger] holds_keys(with_keys(e, keys), u),
{
    let kk = "sshAuthorizedKeys"@;
    reveal_strlit("sshAuthorizedKeys");
    reveal_strlit("name");
    assert(kk[0] != "name"@[0]);
    match keys {
        None => {},
        Some(nk) => match e {
            JsonView::Object(ms) => {
                let ms1 = ensure_member(ms, kk, JsonView::Array(Seq::empty()));
                lemma_ensure_member_pos(ms, kk, JsonView::Array(Seq::empty()));
                lemma_get_member_ensure(ms, kk, JsonView::Array(Seq::empty()), "name"@);
                crate::json::lemma_member_pos(ms1, kk);
                crate::json::lemma_member_pos(ms, kk);
                crate::json::lemma_sorted_pos(ms, kk);
                let p = member_pos(ms1, kk);
                if member_pos(ms, kk) == ms.len() {
                    assert(ms1[p] == (kk, JsonView::Array(Seq::empty())));
                }
                match ms1[p].1 {
                    JsonView::Array(items) => {
                        let x = JsonView::Array(items + new_key_items(items, nk));
                        lemma_get_member_update(ms1, p, kk, x, "name"@);
                        lemma_get_member_update_same(ms1, kk, x);
                        lemma_new_key_items(items, nk);
                        assert((items + new_key_items(items, nk)).subrange(0, items.len() as int) =~= items);
                        if member_pos(ms, kk) == ms.len() {
                            assert(items =~= Seq::<JsonView>::empty());
                        }
                    },
                    _ => {},
                }
            },
            _ => {},
        },
    }
}

/// Two names of one entry are the same name.
proof fn lemma_user_named_unique(e: JsonView, a: Seq<char>, b: Seq<char>)
    requires
        user_named(e, a),
        user_named(e, b),
    ensures
        a == b,
{
}

/// A new user entry is named after its user.
proof fn lemma_user_map_named(u: IgnUserView)
    ensures
        user_named(user_map_json(u), u.name),
{
    reveal_strlit("groups");
    reveal_strlit("homeDir");
    reveal_strlit("name");
    assert("groups"@[0] != "name"@[0]);
    assert("homeDir"@[0] != "name"@[0]);
    let a = crate::ignition::opt_field("groups"@, crate::ignition::opt_strs_json(u.groups))
        + crate::ignition::opt_field("homeDir"@, crate::ignition::opt_str_json(u.home_dir));
    let ms = user_map_json(u)->Object_0;
    assert(ms[a.len() as int] == ("name"@, JsonView::Str(u.name)));
    assert forall|j: int| 0 <= j < a.len() implies ms[j].0 != "name"@ by {
        assert(ms[j] == a[j]);
    }
    lemma_member_pos_at(ms, "name"@, a.len() as int);
}

/// Every base user whose name a user has, and no other entry, gets its keys.
proof fn lemma_merge_named(items: Seq<JsonView>, u: IgnUserView)
    ensures
        merge_named(items, u).len() == items.len(),
        forall|i: int|
            0 <= i < items.len() ==> #[trigger] merge_named(items, u)[i] == (if user_named(items[i], u.name) {
                with_keys(items[i], u.keys)
            } else {
                items[i]
            }),
{
}

/// Merging the identity's users into a base user list keeps the base
/// entries where they were, with their names and the keys they had; adds
/// every user's keys to each base entry of its name that can take keys;
/// and appends, in full, each user whose name no base entry has. Every
/// user's name is in the merged list.
pub proof fn law_merge_users(orig: Seq<JsonView>, us: Seq<IgnUserView>)
    ensures
        orig.len() <= merge_users(orig, us).len(),
        forall|i: int, n: Seq<char>|
            0 <= i < orig.len() ==> #[trigger] user_named(merge_users(orig, us)[i], n) == user_named(orig[i], n),
        forall|i: int|
            0 <= i < orig.len() && takes_keys(orig[i]) ==> #[trigger] takes_keys(merge_users(orig, us)[i]),
        forall|i: int|
            0 <= i < orig.len() && key_items(orig[i]) is Some ==> #[trigger] key_items(merge_users(orig, us)[i]) is Some
                && key_items(orig[i])->0.is_prefix_of(key_items(merge_users(orig, us)[i])->0),
        forall|j: int| 0 <= j < us.len() ==> names_user(merge_users(orig, us), #[trigger] us[j].name),
        forall|i: int, j: int|
            0 <= i < orig.len() && 0 <= j < us.len() && user_named(orig[i], us[j].name) && takes_keys(orig[i])
                ==> holds_keys(#[trigger] merge_users(orig, us)[i], #[trigger] us[j]),
        forall|j: int|
            0 <= j < us.len() && !names_user(orig, #[trigger] us[j].name) ==> exists|i: int|
                orig.len() <= i < merge_users(orig, us).len() && #[trigger] merge_users(orig, us)[i] == user_map_json(
                    us[j],
                ),
    decreases us.len(),
{
    if us.len() > 0 {
        let prev = us.drop_last();
        let u = us.last();
        law_merge_users(orig, prev);
        let pr = merge_users(orig, prev);
        let r = merge_users(orig, us);
        assert forall|j: int| 0 <= j < prev.len() implies prev[j] == us[j] by {}
        if names_user(orig, u.name) {
            lemma_merge_named(pr, u);
            assert(r == merge_named(pr, u));
            assert forall|i: int| 0 <= i < pr.len() implies {
                &&& forall|n: Seq<char>| #[trigger] user_named(r[i], n) == user_named(pr[i], n)
                &&& takes_keys(pr[i]) ==> takes_keys(r[i])
                &&& key_items(pr[i]) is Some ==> key_items(r[i]) is Some && key_items(pr[i])->0.is_prefix_of(
                    key_items(r[i])->0,
                )
            } by {
                lemma_with_keys(pr[i], u.keys);
                assert(r[i] == merge_named(pr, u)[i]);
            }
            assert forall|i: int, n: Seq<char>| 0 <= i < orig.len() implies #[trigger] user_named(r[i], n) == user_named(
                orig[i],
                n,
            ) by {
                assert(user_named(pr[i], n) == user_named(orig[i], n));
            }
            assert forall|j: int| 0 <= j < us.len() implies names_user(r, #[trigger] us[j].name) by {
                if j < prev.len() {
                    assert(names_user(pr, prev[j].name));
                    let i = choose|i: int| 0 <= i < pr.len() && user_named(#[trigger] pr[i], prev[j].name);
                    assert(user_named(r[i], prev[j].name));
                } else {
                    let i = choose|i: int| 0 <= i < orig.len() && user_named(#[trigger] orig[i], u.name);
                    assert(user_named(pr[i], u.name));
                    assert(user_named(r[i], u.name));
                }
            }
            assert forall|i: int, j: int|
                0 <= i < orig.len() && 0 <= j < us.len() && user_named(orig[i], us[j].name) && takes_keys(orig[i])
                    implies holds_keys(#[trigger] r[i], #[trigger] us[j]) by {
                lemma_with_keys(pr[i], u.keys);
                assert(r[i] == merge_named(pr, u)[i]);
                if j < prev.len() {
                    assert(prev[j] == us[j]);
                    assert(holds_keys(pr[i], prev[j]));
                    assert forall|k: int| 0 <= k < keys_of(us[j]).len() implies key_items(r[i]) is Some && has_str(
                        key_items(r[i])->0,
                        #[trigger] keys_of(us[j])[k],
                    ) by {
                        lemma_has_str_prefix(key_items(pr[i])->0, key_items(r[i])->0, keys_of(us[j])[k]);
                    }
                } else {
                    assert(user_named(pr[i], u.name));
                    assert(takes_keys(pr[i]));
                }
            }
            assert forall|j: int| 0 <= j < us.len() && !names_user(orig, #[trigger] us[j].name) implies exists|i: int|
                orig.len() <= i < r.len() && #[trigger] r[i] == user_map_json(us[j]) by {
                if j < prev.len() {
                    assert(prev[j] == us[j]);
                    let i = choose|i: int| orig.len() <= i < pr.len() && #[trigger] pr[i] == user_map_json(prev[j]);
                    lemma_user_map_named(us[j]);
                    if user_named(pr[i], u.name) {
                        lemma_user_named_unique(pr[i], u.name, us[j].name);
                    }
                    assert(r[i] == merge_named(pr, u)[i]);
                    assert(r[i] == pr[i]);
                }
            }
        } else {
            assert(r == pr.push(user_map_json(u)));
            lemma_user_map_named(u);
            assert forall|i: int| 0 <= i < pr.len() implies r[i] == pr[i] by {}
            assert forall|j: int| 0 <= j < us.len() implies names_user(r, #[trigger] us[j].name) by {
                if j < prev.len() {
                    assert(names_user(pr, prev[j].name));
                    let i = choose|i: int| 0 <= i < pr.len() && user_named(#[trigger] pr[i], prev[j].name);
                    assert(r[i] == pr[i]);
                } else {
                    assert(r[pr.len() as int] == user_map_json(u));
                }
            }
            assert forall|i: int, j: int|
                0 <= i < orig.len() && 0 <= j < us.len() && user_named(orig[i], us[j].name) && takes_keys(orig[i])
                    implies holds_keys(#[trigger] r[i], #[trigger] us[j]) by {
                assert(r[i] == pr[i]);
                if j < prev.len() {
                    assert(prev[j] == us[j]);
                    assert(holds_keys(pr[i], prev[j]));
                } else {
                    assert(user_named(orig[i], u.name));
                    assert(names_user(orig, u.name));
                }
            }
            assert forall|j: int| 0 <= j < us.len() && !names_user(orig, #[trigger] us[j].name) implies exists|i: int|
                orig.len() <= i < r.len() && #[trigger] r[i] == user_map_json(us[j]) by {
                if j < prev.len() {
                    assert(prev[j] == us[j]);
                    let i = choose|i: int| orig.len() <= i < pr.len() && #[trigger] pr[i] == user_map_json(prev[j]);
                    assert(r[i] == pr[i]);
                } else {
                    assert(r[pr.len() as int] == user_map_json(u));
                }
            }
        }
    }
}

/// The `passwd.users` list of a config, when there is one.
pub open spec fn users_of(c: JsonView) -> Option<Seq<JsonView>> {
    match c {
        JsonView::Object(ms) => match get_member(ms, "passwd"@) {
            Some(JsonView::Object(pms)) => match get_member(pms, "users"@) {
                Some(JsonView::Array(items)) => Some(items),
                _ => None,
            },
            _ => None,
        },
        _ => None,
    }
}

/// The user list that a base config brings to a merge: its `passwd.users`,
/// or an empty list when `passwd` or `users` is missing; none when it is
/// something else.
pub open spec fn base_users(base: JsonView) -> Option<Seq<JsonView>> {
    match base {
        JsonView::Null => Some(Seq::empty()),
        JsonView::Object(ms) => match get_member(ms, "passwd"@) {
            None => Some(Seq::empty()),
            Some(JsonView::Object(pms)) => match get_member(pms, "users"@) {
                None => Some(Seq::empty()),
                Some(JsonView::Array(items)) => Some(items),
                _ => None,
            },
            _ => None,
        },
        _ => None,
    }
}

/// The `passwd` member of a config (none for a config that is no object).
pub open spec fn passwd_of(c: JsonView) -> Option<JsonView> {
    match c {
        JsonView::Object(ms) => get_member(ms, "passwd"@),
        _ => None,
    }
}

proof fn lemma_with_ignition_passwd(base: JsonView)
    requires
        base is Null || base is Object,
    ensures
        with_ignition(base) is Object,
        passwd_of(with_ignition(base)) == passwd_of(base),
{
    reveal_strlit("ignition");
    reveal_strlit("passwd");
    assert("ignition"@[0] != "passwd"@[0]);
    match base {
        JsonView::Object(ms) => {
            lemma_get_member_ensure(ms, "ignition"@, version_doc(), "passwd"@);
        },
        _ => {
            let ms1 = with_ignition(base)->Object_0;
            lemma_member_pos_at(ms1, "passwd"@, 1);
        },
    }
}

proof fn lemma_with_users_list(c: JsonView, us: Seq<IgnUserView>)
    requires
        c is Object,
        base_users(c) is Some,
    ensures
        users_of(with_users(c, us)) == Some(merge_users(base_users(c)->0, us)),
{
    reveal_strlit("passwd");
    reveal_strlit("users");
    let ms = c->Object_0;
    let ms1 = ensure_member(ms, "passwd"@, JsonView::Object(Seq::empty()));
    lemma_ensure_member_pos(ms, "passwd"@, JsonView::Object(Seq::empty()));
    crate::json::lemma_member_pos(ms1, "passwd"@);
    crate::json::lemma_member_pos(ms, "passwd"@);
    crate::json::lemma_sorted_pos(ms, "passwd"@);
    let pp = member_pos(ms1, "passwd"@);
    if member_pos(ms, "passwd"@) == ms.len() {
        assert(ms1[pp] == ("passwd"@, JsonView::Object(Seq::empty())));
    }
    let pms = ms1[pp].1->Object_0;
    let pms1 = ensure_member(pms, "users"@, JsonView::Array(Seq::empty()));
    lemma_ensure_member_pos(pms, "users"@, JsonView::Array(Seq::empty()));
    crate::json::lemma_member_pos(pms1, "users"@);
    crate::json::lemma_member_pos(pms, "users"@);
    crate::json::lemma_sorted_pos(pms, "users"@);
    let up = member_pos(pms1, "users"@);
    if member_pos(pms, "users"@) == pms.len() {
        assert(pms1[up] == ("users"@, JsonView::Array(Seq::empty())));
    }
    let items = pms1[up].1->Array_0;
    assert(items == base_users(c)->0);
    let x = JsonView::Array(merge_users(items, us));
    lemma_get_member_update_same(pms1, "users"@, x);
    let np = JsonView::Object(pms1.update(up, ("users"@, x)));
    lemma_get_member_update_same(ms1, "passwd"@, np);
}

proof fn lemma_with_hostname_passwd(c: JsonView, fqdn: Seq<char>)
    requires
        c is Object,
    ensures
        with_hostname(c, fqdn) is Object,
        passwd_of(with_hostname(c, fqdn)) == passwd_of(c),
{
    reveal_strlit("storage");
    reveal_strlit("passwd");
    assert("storage"@[0] != "passwd"@[0]);
    let ms = c->Object_0;
    let ms1 = ensure_member(ms, "storage"@, JsonView::Object(Seq::empty()));
    lemma_ensure_member_pos(ms, "storage"@, JsonView::Object(Seq::empty()));
    crate::json::lemma_member_pos(ms1, "storage"@);
    lemma_get_member_ensure(ms, "storage"@, JsonView::Object(Seq::empty()), "passwd"@);
    let sp = member_pos(ms1, "storage"@);
    match ms1[sp].1 {
        JsonView::Object(sms) => {
            let sms1 = ensure_member(sms, "files"@, JsonView::Array(Seq::empty()));
            let fp = member_pos(sms1, "files"@);
            let fv = match sms1[fp].1 {
                JsonView::Array(items) => if (exists|i: int|
                    0 <= i < items.len() && crate::ignition::has_path(#[trigger] items[i], "/etc/hostname"@)) {
                    JsonView::Array(items)
                } else {
                    JsonView::Array(items.push(crate::ignition::hostname_file(fqdn)))
                },
                other => other,
            };
            lemma_get_member_update(
                ms1,
                sp,
                "storage"@,
                JsonView::Object(sms1.update(fp, ("files"@, fv))),
                "passwd"@,
            );
        },
        _ => {},
    }
}

proof fn lemma_normalized_passwd(c: JsonView)
    requires
        c is Object,
    ensures
        passwd_of(normalized(c)) == passwd_of(c),
{
    reveal_strlit("storage");
    reveal_strlit("passwd");
    assert("storage"@[0] != "passwd"@[0]);
    let ms = c->Object_0;
    crate::json::lemma_member_pos(ms, "storage"@);
    let sp = member_pos(ms, "storage"@);
    if sp < ms.len() {
        match ms[sp].1 {
            JsonView::Object(sms) => {
                let fp = member_pos(sms, "files"@);
                if fp < sms.len() {
                    match sms[fp].1 {
                        JsonView::Array(items) => {
                            let nf = JsonView::Object(
                                sms.update(
                                    fp,
                                    (
                                        "files"@,
                                        JsonView::Array(
                                            items.map_values(|f: JsonView| crate::ignition::normalized_file(f)),
                                        ),
                                    ),
                                ),
                            );
                            lemma_get_member_update(ms, sp, "storage"@, nf, "passwd"@);
                        },
                        _ => {},
                    }
                }
            },
            _ => {},
        }
    }
}

/// The users of a merged Ignition config are the base config's users with
/// the host's identity users merged in (see `law_merge_users`): the
/// `/etc/hostname` and file-content steps of the merge leave `passwd`
/// alone.
pub proof fn law_merged_users(base: JsonView, meta: HostMetadata)
    requires
        mergeable(base),
        base_users(base) is Some,
    ensures
        users_of(merged_ignition_doc(base, meta)) == Some(merge_users(base_users(base)->0, ignition_users(meta))),
{
    let us = ignition_users(meta);
    let c1 = with_ignition(base);
    lemma_with_ignition_passwd(base);
    assert(base_users(c1) == base_users(base));
    let c2 = with_users(c1, us);
    lemma_with_users_list(c1, us);
    assert(c2 is Object);
    let c3 = with_hostname(c2, meta.hostname@);
    lemma_with_hostname_passwd(c2, meta.hostname@);
    lemma_normalized_passwd(c3);
}

} // verus!
