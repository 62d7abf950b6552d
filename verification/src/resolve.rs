use vstd::prelude::*;
use crate::cache::{ContainerInfo, ContainerState, IdentityState};
use crate::keyed::{find_key, key_pos, lookup, lemma_key_pos};
use crate::json::{JsonValue, JsonView, jv, jv_items, jv_members, pretty, str_array, str_array_value, push_member, to_pretty_string};
use crate::model::{CloudConfig, CloudConfigUser, HostMetadata, copy_strings, HostAccessResource, LabelMap, PublicKeyEntry, Subject, SubjectKind, UserResource, str_views, user_keys, user_key_texts};
use crate::order::{insert_sorted, strictly_sorted, views};
use crate::text::str_eq;
use crate::config::MetadataConfig;

verus! {

/// A host list names `hostname`, directly or through the wildcard `"*"`.
pub open spec fn host_listed(hosts: Seq<String>, hostname: Seq<char>) -> bool {
    exists|i: int| 0 <= i < hosts.len() && (hosts[i]@ == hostname || hosts[i]@ == "*"@)
}

/// The host group `group` is known and lists `hostname`.
pub open spec fn group_contains(identity: IdentityState, group: Seq<char>, hostname: Seq<char>) -> bool {
    match lookup(identity.host_groups@, group) {
        Some(hg) => str_views(hg.spec.hosts@).contains(hostname),
        None => false,
    }
}

/// Every label that the selector asks for is present with the same value.
pub open spec fn selector_matches(sel: Seq<(String, String)>, labels: Seq<(String, String)>) -> bool {
    forall|k: int|
        0 <= k < sel.len() ==> match lookup(labels, #[trigger] sel[k].0@) {
            Some(v) => v@ == sel[k].1@,
            None => false,
        }
}

/// The labels of a host, when it has any, as a list of entries.
pub open spec fn labels_view(labels: Option<&LabelMap>) -> Option<Seq<(String, String)>> {
    match labels {
        Some(l) => Some(l@),
        None => None,
    }
}

/// A HostAccess rule applies to a host: by name (or wildcard), through a
/// host group, or through a label selector.
pub open spec fn rule_matches(
    rule: HostAccessResource,
    hostname: Seq<char>,
    labels: Option<Seq<(String, String)>>,
    identity: IdentityState,
) -> bool {
    let t = rule.spec.targets;
    ||| host_listed(t.hosts@, hostname)
    ||| exists|g: int| 0 <= g < t.host_groups.len() && group_contains(identity, t.host_groups@[g]@, hostname)
    ||| labels is Some && exists|s: int|
        0 <= s < t.host_selectors.len() && selector_matches(t.host_selectors@[s]@, labels->0)
}

/// Positions, in order, of the first `n` rules that apply to the host.
pub open spec fn matching_rules(
    identity: IdentityState,
    hostname: Seq<char>,
    labels: Option<Seq<(String, String)>>,
    n: int,
) -> Seq<int>
    decreases n,
{
    if n <= 0 {
        Seq::empty()
    } else {
        matching_rules(identity, hostname, labels, n - 1) + if rule_matches(
            identity.host_access@[n - 1].1,
            hostname,
            labels,
            identity,
        ) {
            seq![n - 1]
        } else {
            Seq::empty()
        }
    }
}

/// Whether a list of strings holds `s`.
pub fn contains_str(v: &Vec<String>, s: &str) -> (r: bool)
    ensures
        r == str_views(v@).contains(s@),
{
    let mut i: usize = 0;
    while i < v.len()
        invariant
            i <= v.len(),
            forall|j: int| 0 <= j < i ==> v@[j]@ != s@,
        decreases v.len() - i,
    {
        if str_eq(v[i].as_str(), s) {
            assert(str_views(v@)[i as int] == s@);
            return true;
        }
        i = i + 1;
    }
    assert(!str_views(v@).contains(s@)) by {
        if str_views(v@).contains(s@) {
            let j = choose|j: int| 0 <= j < v.len() && str_views(v@)[j] == s@;
            assert(v@[j]@ == s@);
        }
    }
    false
}

fn host_listed_exec(hosts: &Vec<String>, hostname: &str) -> (r: bool)
    ensures
        r == host_listed(hosts@, hostname@),
{
    let mut i: usize = 0;
    while i < hosts.len()
        invariant
            i <= hosts.len(),
            forall|j: int| 0 <= j < i ==> !(hosts@[j]@ == hostname@ || hosts@[j]@ == "*"@),
        decreases hosts.len() - i,
    {
        if str_eq(hosts[i].as_str(), hostname) || str_eq(hosts[i].as_str(), "*") {
            return true;
        }
        i = i + 1;
    }
    false
}

fn group_contains_exec(identity: &IdentityState, group: &str, hostname: &str) -> (r: bool)
    ensures
        r == group_contains(*identity, group@, hostname@),
{
    match find_key(&identity.host_groups, group) {
        Some(i) => contains_str(&identity.host_groups[i].1.spec.hosts, hostname),
        None => false,
    }
}

fn selector_matches_exec(sel: &LabelMap, labels: &LabelMap) -> (r: bool)
    ensures
        r == selector_matches(sel@, labels@),
{
    let mut k: usize = 0;
    while k < sel.len()
        invariant
            k <= sel.len(),
            forall|j: int|
                0 <= j < k ==> match lookup(labels@, #[trigger] sel@[j].0@) {
                    Some(v) => v@ == sel@[j].1@,
                    None => false,
                },
        decreases sel.len() - k,
    {
        let ok = match find_key(labels, sel[k].0.as_str()) {
            Some(p) => str_eq(labels[p].1.as_str(), sel[k].1.as_str()),
            None => false,
        };
        if !ok {
            return false;
        }
        k = k + 1;
    }
    true
}

fn rule_matches_exec(
    rule: &HostAccessResource,
    hostname: &str,
    host_labels: Option<&LabelMap>,
    identity: &IdentityState,
) -> (r: bool)
    ensures
        r == rule_matches(*rule, hostname@, labels_view(host_labels), *identity),
{
    let t = &rule.spec.targets;
    if host_listed_exec(&t.hosts, hostname) {
        return true;
    }
    let mut g: usize = 0;
    while g < t.host_groups.len()
        invariant
            t == &rule.spec.targets,
            g <= t.host_groups.len(),
            forall|j: int| 0 <= j < g ==> !group_contains(*identity, t.host_groups@[j]@, hostname@),
        decreases t.host_groups.len() - g,
    {
        if group_contains_exec(identity, t.host_groups[g].as_str(), hostname) {
            return true;
        }
        g = g + 1;
    }
    match host_labels {
        Some(labels) => {
            let mut s: usize = 0;
            while s < t.host_selectors.len()
                invariant
                    t == &rule.spec.targets,
                    host_labels == Some(labels),
                    s <= t.host_selectors.len(),
                    forall|j: int| 0 <= j < s ==> !selector_matches(t.host_selectors@[j]@, labels@),
                decreases t.host_selectors.len() - s,
            {
                if selector_matches_exec(&t.host_selectors[s], labels) {
                    assert(labels_view(host_labels) == Some(labels@));
                    assert(selector_matches(t.host_selectors@[s as int]@, labels_view(host_labels)->0));
                    return true;
                }
                s = s + 1;
            }
            false
        },
        None => false,
    }
}

/// Positions of all HostAccess rules that apply to a host, in order.
pub fn find_matching_rules(
    hostname: &str,
    host_labels: Option<&LabelMap>,
    identity: &IdentityState,
) -> (r: Vec<usize>)
    ensures
        r@.map_values(|i: usize| i as int) == matching_rules(
            *identity,
            hostname@,
            labels_view(host_labels),
            identity.host_access@.len() as int,
        ),
        forall|k: int| 0 <= k < r@.len() ==> r@[k] < identity.host_access@.len(),
{
    let mut r: Vec<usize> = Vec::new();
    let mut i: usize = 0;
    while i < identity.host_access.len()
        invariant
            i <= identity.host_access@.len(),
            r@.map_values(|i: usize| i as int) == matching_rules(
                *identity,
                hostname@,
                labels_view(host_labels),
                i as int,
            ),
            forall|k: int| 0 <= k < r@.len() ==> r@[k] < identity.host_access@.len(),
        decreases identity.host_access@.len() - i,
    {
        let ghost before = r@;
        if rule_matches_exec(&identity.host_access[i].1, hostname, host_labels, identity) {
            r.push(i);
            assert(r@.map_values(|i: usize| i as int) =~= before.map_values(|i: usize| i as int).push(
                i as int,
            ));
        } else {
            assert(r@.map_values(|i: usize| i as int) =~= before.map_values(|i: usize| i as int) + Seq::<int>::empty());
        }
        i = i + 1;
    }
    r
}

/// The user names a subject stands for: itself for a user, the members of
/// the group for a known group, none for an unknown group.
pub open spec fn subject_names(s: Subject, identity: IdentityState) -> Seq<Seq<char>> {
    match s.kind {
        SubjectKind::User => seq![s.name@],
        SubjectKind::Group => match lookup(identity.groups@, s.name@) {
            Some(g) => str_views(g.spec.members@),
            None => Seq::empty(),
        },
    }
}

/// The user names of a list of subjects, in order, repeats included.
pub open spec fn raw_names(subjects: Seq<Subject>, identity: IdentityState) -> Seq<Seq<char>>
    decreases subjects.len(),
{
    if subjects.len() == 0 {
        Seq::empty()
    } else {
        raw_names(subjects.drop_last(), identity) + subject_names(subjects.last(), identity)
    }
}

/// `s` with every repeat after the first occurrence left out.
pub open spec fn dedup(s: Seq<Seq<char>>) -> Seq<Seq<char>>
    decreases s.len(),
{
    if s.len() == 0 {
        Seq::empty()
    } else {
        let d = dedup(s.drop_last());
        if d.contains(s.last()) {
            d
        } else {
            d.push(s.last())
        }
    }
}

/// The distinct user names that a list of subjects stands for, in order of
/// first appearance.
pub open spec fn expand(subjects: Seq<Subject>, identity: IdentityState) -> Seq<Seq<char>> {
    dedup(raw_names(subjects, identity))
}

/// Expand subjects (users and groups) into a list of usernames.
pub fn expand_subjects(subjects: &Vec<Subject>, identity: &IdentityState) -> (r: Vec<String>)
    ensures
        str_views(r@) == expand(subjects@, *identity),
{
    let mut usernames: Vec<String> = Vec::new();
    let mut i: usize = 0;
    while i < subjects.len()
        invariant
            i <= subjects.len(),
            str_views(usernames@) == dedup(raw_names(subjects@.subrange(0, i as int), *identity)),
        decreases subjects.len() - i,
    {
        let ghost prefix = raw_names(subjects@.subrange(0, i as int), *identity);
        assert(subjects@.subrange(0, i + 1).drop_last() =~= subjects@.subrange(0, i as int));
        let subject = &subjects[i];
        match subject.kind {
            SubjectKind::User => {
                let ghost before = usernames@;
                assert(prefix + seq![subject.name@] =~= (prefix + seq![subject.name@]).drop_last().push(subject.name@));
                assert((prefix + seq![subject.name@]).drop_last() =~= prefix);
                if !contains_str(&usernames, subject.name.as_str()) {
                    usernames.push(subject.name.clone());
                    assert(str_views(usernames@) =~= str_views(before).push(subject.name@));
                }
            },
            SubjectKind::Group => {
                match find_key(&identity.groups, subject.name.as_str()) {
                    Some(gi) => {
                        let members = &identity.groups[gi].1.spec.members;
                        let mut j: usize = 0;
                        assert(prefix + str_views(members@).subrange(0, 0) =~= prefix);
                        while j < members.len()
                            invariant
                                j <= members.len(),
                                str_views(usernames@) == dedup(prefix + str_views(members@).subrange(0, j as int)),
                            decreases members.len() - j,
                        {
                            let ghost before = usernames@;
                            let ghost t = prefix + str_views(members@).subrange(0, j as int);
                            assert(prefix + str_views(members@).subrange(0, j + 1) =~= t.push(members@[j as int]@));
                            assert(t.push(members@[j as int]@).drop_last() =~= t);
                            if !contains_str(&usernames, members[j].as_str()) {
                                usernames.push(members[j].clone());
                                assert(str_views(usernames@) =~= str_views(before).push(members@[j as int]@));
                            }
                            j = j + 1;
                        }
                        assert(str_views(members@).subrange(0, members.len() as int) =~= str_views(members@));
                    },
                    None => {
                        assert(prefix + Seq::<Seq<char>>::empty() =~= prefix);
                    },
                }
            },
        }
        i = i + 1;
    }
    assert(subjects@.subrange(0, subjects.len() as int) =~= subjects@);
    usernames
}


/// The name is a known user who is enabled.
pub open spec fn grantable(identity: IdentityState, name: Seq<char>) -> bool {
    match lookup(identity.users@, name) {
        Some(u) => crate::model::user_enabled(u),
        None => false,
    }
}

/// The grants of rule `r` to the given names: (rule position, user position)
/// for each name that is a known, enabled user, in order.
pub open spec fn rule_grants(identity: IdentityState, r: int, names: Seq<Seq<char>>) -> Seq<(int, int)>
    decreases names.len(),
{
    if names.len() == 0 {
        Seq::empty()
    } else {
        rule_grants(identity, r, names.drop_last()) + if grantable(identity, names.last()) {
            seq![(r, key_pos(identity.users@, names.last()))]
        } else {
            Seq::empty()
        }
    }
}

/// The grants of a list of rules (given by position), in order.
pub open spec fn grants_of(identity: IdentityState, rules: Seq<int>) -> Seq<(int, int)>
    decreases rules.len(),
{
    if rules.len() == 0 {
        Seq::empty()
    } else {
        grants_of(identity, rules.drop_last()) + rule_grants(
            identity,
            rules.last(),
            expand(identity.host_access@[rules.last()].1.spec.subjects@, identity),
        )
    }
}

/// Every (rule, user) pair by which a user gets access to the host: for each
/// rule that applies to the host, each distinct user it names that is known
/// and enabled.
pub open spec fn host_grants(
    identity: IdentityState,
    hostname: Seq<char>,
    labels: Option<Seq<(String, String)>>,
) -> Seq<(int, int)> {
    grants_of(identity, matching_rules(identity, hostname, labels, identity.host_access@.len() as int))
}

/// Grants point at existing rules and users.
pub open spec fn grants_in_range(identity: IdentityState, g: Seq<(int, int)>) -> bool {
    forall|i: int|
        0 <= i < g.len() ==> 0 <= #[trigger] g[i].0 < identity.host_access@.len() && 0 <= g[i].1
            < identity.users@.len()
}

/// The grants of one rule to the names it expands to.
fn collect_rule_grants(
    identity: &IdentityState,
    r: usize,
    names: &Vec<String>,
    out: &mut Vec<(usize, usize)>,
)
    requires
        r < identity.host_access@.len(),
        grants_in_range(*identity, old(out)@.map_values(|g: (usize, usize)| (g.0 as int, g.1 as int))),
    ensures
        final(out)@.map_values(|g: (usize, usize)| (g.0 as int, g.1 as int)) == old(out)@.map_values(
            |g: (usize, usize)| (g.0 as int, g.1 as int),
        ) + rule_grants(*identity, r as int, str_views(names@)),
        grants_in_range(*identity, final(out)@.map_values(|g: (usize, usize)| (g.0 as int, g.1 as int))),
{
    let ghost base = old(out)@.map_values(|g: (usize, usize)| (g.0 as int, g.1 as int));
    let mut j: usize = 0;
    assert(str_views(names@).subrange(0, 0) =~= Seq::<Seq<char>>::empty());
    assert(base + Seq::<(int, int)>::empty() =~= base);
    while j < names.len()
        invariant
            r < identity.host_access@.len(),
            j <= names.len(),
            out@.map_values(|g: (usize, usize)| (g.0 as int, g.1 as int)) == base + rule_grants(
                *identity,
                r as int,
                str_views(names@).subrange(0, j as int),
            ),
            grants_in_range(*identity, out@.map_values(|g: (usize, usize)| (g.0 as int, g.1 as int))),
        decreases names.len() - j,
    {
        let ghost before = out@.map_values(|g: (usize, usize)| (g.0 as int, g.1 as int));
        let ghost pre = str_views(names@).subrange(0, j as int);
        assert(str_views(names@).subrange(0, j + 1) =~= pre.push(names@[j as int]@));
        assert(pre.push(names@[j as int]@).drop_last() =~= pre);
        proof { lemma_key_pos(identity.users@, names@[j as int]@); }
        match find_key(&identity.users, names[j].as_str()) {
            Some(u) => {
                let enabled = match &identity.users[u].1.status {
                    Some(st) => st.enabled,
                    None => true,
                };
                if enabled {
                    out.push((r, u));
                    assert(out@.map_values(|g: (usize, usize)| (g.0 as int, g.1 as int)) =~= before.push(
                        (r as int, u as int),
                    ));
                } else {
                    assert(before + Seq::<(int, int)>::empty() =~= before);
                }
            },
            None => {
                assert(before + Seq::<(int, int)>::empty() =~= before);
            },
        }
        j = j + 1;
    }
    assert(str_views(names@).subrange(0, names.len() as int) =~= str_views(names@));
}

/// All grants by which users get access to the host.
fn collect_grants(
    hostname: &str,
    host_labels: Option<&LabelMap>,
    identity: &IdentityState,
) -> (g: Vec<(usize, usize)>)
    ensures
        g@.map_values(|g: (usize, usize)| (g.0 as int, g.1 as int)) == host_grants(
            *identity,
            hostname@,
            labels_view(host_labels),
        ),
        grants_in_range(*identity, g@.map_values(|g: (usize, usize)| (g.0 as int, g.1 as int))),
{
    let rules = find_matching_rules(hostname, host_labels, identity);
    let ghost rs = rules@.map_values(|i: usize| i as int);
    let mut out: Vec<(usize, usize)> = Vec::new();
    let mut k: usize = 0;
    assert(rs.subrange(0, 0) =~= Seq::<int>::empty());
    assert(out@.map_values(|g: (usize, usize)| (g.0 as int, g.1 as int)) =~= Seq::<(int, int)>::empty());
    while k < rules.len()
        invariant
            k <= rules.len(),
            rs == rules@.map_values(|i: usize| i as int),
            forall|q: int| 0 <= q < rules@.len() ==> rules@[q] < identity.host_access@.len(),
            out@.map_values(|g: (usize, usize)| (g.0 as int, g.1 as int)) == grants_of(
                *identity,
                rs.subrange(0, k as int),
            ),
            grants_in_range(*identity, out@.map_values(|g: (usize, usize)| (g.0 as int, g.1 as int))),
        decreases rules.len() - k,
    {
        let r = rules[k];
        assert(rs.subrange(0, k + 1).drop_last() =~= rs.subrange(0, k as int));
        assert(rs.subrange(0, k + 1).last() == r as int);
        let names = expand_subjects(&identity.host_access[r].1.spec.subjects, identity);
        collect_rule_grants(identity, r, &names, &mut out);
        k = k + 1;
    }
    assert(rs.subrange(0, rules.len() as int) =~= rs);
    out
}


/// Grants as positions (the exec form with `usize`, read as integers).
pub open spec fn gseq(g: Seq<(usize, usize)>) -> Seq<(int, int)> {
    g.map_values(|g: (usize, usize)| (g.0 as int, g.1 as int))
}

/// The rule of a grant.
pub open spec fn grant_rule(identity: IdentityState, g: (int, int)) -> HostAccessResource {
    identity.host_access@[g.0].1
}

/// The user of a grant.
pub open spec fn grant_user(identity: IdentityState, g: (int, int)) -> UserResource {
    identity.users@[g.1].1
}

/// The name under which the user of a grant is known.
pub open spec fn grant_name(identity: IdentityState, g: (int, int)) -> Seq<char> {
    identity.users@[g.1].0@
}

/// The grant's rule lets its user log in as the system user `s`.
pub open spec fn grants_login(identity: IdentityState, g: (int, int), s: Seq<char>) -> bool {
    str_views(grant_rule(identity, g).spec.ssh_users@).contains(s)
}

/// The system users (root, core, ...) that some grant opens.
pub open spec fn granted_logins(identity: IdentityState, gs: Seq<(int, int)>) -> Set<Seq<char>> {
    Set::new(|s: Seq<char>| exists|i: int| 0 <= i < gs.len() && grants_login(identity, gs[i], s))
}

/// The keys of every user that some grant lets log in as the system user `s`.
pub open spec fn granted_keys(identity: IdentityState, gs: Seq<(int, int)>, s: Seq<char>) -> Set<Seq<char>> {
    Set::new(
        |k: Seq<char>|
            exists|i: int|
                0 <= i < gs.len() && grants_login(identity, gs[i], s) && user_keys(
                    grant_user(identity, gs[i]),
                ).contains(k),
    )
}

/// The sorted, distinct system users that the grants open.
fn login_names(identity: &IdentityState, g: &Vec<(usize, usize)>) -> (r: Vec<String>)
    requires
        grants_in_range(*identity, gseq(g@)),
    ensures
        strictly_sorted(views(r@)),
        views(r@).to_set() == granted_logins(*identity, gseq(g@)),
{
    let ghost gs = gseq(g@);
    let mut r: Vec<String> = Vec::new();
    let mut i: usize = 0;
    assert(views(r@).to_set() =~= granted_logins(*identity, gs.subrange(0, 0)));
    while i < g.len()
        invariant
            i <= g.len(),
            gs == gseq(g@),
            grants_in_range(*identity, gs),
            strictly_sorted(views(r@)),
            views(r@).to_set() == granted_logins(*identity, gs.subrange(0, i as int)),
        decreases g.len() - i,
    {
        assert(gs[i as int] == (g@[i as int].0 as int, g@[i as int].1 as int));
        let users = &identity.host_access[g[i].0].1.spec.ssh_users;
        let ghost base = granted_logins(*identity, gs.subrange(0, i as int));
        let mut j: usize = 0;
        assert(views(r@).to_set() =~= base.union(str_views(users@).subrange(0, 0).to_set()));
        while j < users.len()
            invariant
                j <= users.len(),
                strictly_sorted(views(r@)),
                views(r@).to_set() == base.union(str_views(users@).subrange(0, j as int).to_set()),
            decreases users.len() - j,
        {
            let ghost before = views(r@).to_set();
            insert_sorted(&mut r, users[j].clone());
            assert(str_views(users@).subrange(0, j + 1) =~= str_views(users@).subrange(0, j as int).push(users@[j as int]@));
            assert(views(r@).to_set() =~= base.union(str_views(users@).subrange(0, j + 1).to_set())) by {
                assert(str_views(users@).subrange(0, j + 1).to_set() =~= str_views(users@).subrange(0, j as int).to_set().insert(users@[j as int]@)) by {
                    let a = str_views(users@).subrange(0, j as int);
                    let b = str_views(users@).subrange(0, j + 1);
                    assert forall|x: Seq<char>| b.contains(x) implies a.to_set().insert(users@[j as int]@).contains(x) by {
                        let k = choose|k: int| 0 <= k < b.len() && b[k] == x;
                        if k < j {
                            assert(a[k] == x);
                        }
                    }
                    assert forall|x: Seq<char>| a.to_set().insert(users@[j as int]@).contains(x) implies b.contains(x) by {
                        if x == users@[j as int]@ {
                            assert(b[j as int] == x);
                        } else {
                            let k = choose|k: int| 0 <= k < a.len() && a[k] == x;
                            assert(b[k] == x);
                        }
                    }
                }
            }
            j = j + 1;
        }
        assert(str_views(users@).subrange(0, users.len() as int) =~= str_views(users@));
        assert(views(r@).to_set() =~= granted_logins(*identity, gs.subrange(0, i + 1))) by {
            let ghost nxt = gs.subrange(0, i + 1);
            assert forall|x: Seq<char>| views(r@).to_set().contains(x) implies granted_logins(*identity, nxt).contains(x) by {
                if base.contains(x) {
                    let k = choose|k: int| 0 <= k < i && grants_login(*identity, gs.subrange(0, i as int)[k], x);
                    assert(nxt[k] == gs.subrange(0, i as int)[k]);
                } else {
                    assert(str_views(users@).contains(x));
                    assert(nxt[i as int] == gs[i as int]);
                    assert(grants_login(*identity, nxt[i as int], x));
                }
            }
            assert forall|x: Seq<char>| granted_logins(*identity, nxt).contains(x) implies views(r@).to_set().contains(x) by {
                let k = choose|k: int| 0 <= k < nxt.len() && grants_login(*identity, nxt[k], x);
                if k < i {
                    assert(gs.subrange(0, i as int)[k] == nxt[k]);
                    assert(base.contains(x));
                } else {
                    assert(nxt[k] == gs[i as int]);
                    assert(str_views(users@).contains(x));
                }
            }
        }
        i = i + 1;
    }
    assert(gs.subrange(0, g.len() as int) =~= gs);
    r
}

/// The sorted, distinct keys of every user that some grant lets log in as `s`.
fn login_keys(identity: &IdentityState, g: &Vec<(usize, usize)>, s: &str) -> (r: Vec<String>)
    requires
        grants_in_range(*identity, gseq(g@)),
    ensures
        strictly_sorted(views(r@)),
        views(r@).to_set() == granted_keys(*identity, gseq(g@), s@),
{
    let ghost gs = gseq(g@);
    let mut r: Vec<String> = Vec::new();
    let mut i: usize = 0;
    assert(views(r@).to_set() =~= granted_keys(*identity, gs.subrange(0, 0), s@));
    while i < g.len()
        invariant
            i <= g.len(),
            gs == gseq(g@),
            grants_in_range(*identity, gs),
            strictly_sorted(views(r@)),
            views(r@).to_set() == granted_keys(*identity, gs.subrange(0, i as int), s@),
        decreases g.len() - i,
    {
        assert(gs[i as int] == (g@[i as int].0 as int, g@[i as int].1 as int));
        let ghost base = granted_keys(*identity, gs.subrange(0, i as int), s@);
        let ghost nxt = gs.subrange(0, i + 1);
        if contains_str(&identity.host_access[g[i].0].1.spec.ssh_users, s) {
            let keys = user_key_texts(&identity.users[g[i].1].1);
            let mut j: usize = 0;
            assert(views(r@).to_set() =~= base.union(views(keys@).subrange(0, 0).to_set()));
            while j < keys.len()
                invariant
                    j <= keys.len(),
                    strictly_sorted(views(r@)),
                    views(r@).to_set() == base.union(views(keys@).subrange(0, j as int).to_set()),
                decreases keys.len() - j,
            {
                insert_sorted(&mut r, keys[j].clone());
                assert(views(r@).to_set() =~= base.union(views(keys@).subrange(0, j + 1).to_set())) by {
                    let a = views(keys@).subrange(0, j as int);
                    let b = views(keys@).subrange(0, j + 1);
                    assert forall|x: Seq<char>| b.contains(x) implies a.to_set().insert(keys@[j as int]@).contains(x) by {
                        let k = choose|k: int| 0 <= k < b.len() && b[k] == x;
                        if k < j {
                            assert(a[k] == x);
                        }
                    }
                    assert forall|x: Seq<char>| a.to_set().insert(keys@[j as int]@).contains(x) implies b.contains(x) by {
                        if x == keys@[j as int]@ {
                            assert(b[j as int] == x);
                        } else {
                            let k = choose|k: int| 0 <= k < a.len() && a[k] == x;
                            assert(b[k] == x);
                        }
                    }
                    assert(b.to_set() =~= a.to_set().insert(keys@[j as int]@));
                }
                j = j + 1;
            }
            assert(views(keys@).subrange(0, keys.len() as int) =~= views(keys@));
            assert(views(r@).to_set() =~= granted_keys(*identity, nxt, s@)) by {
                assert forall|x: Seq<char>| views(r@).to_set().contains(x) implies granted_keys(*identity, nxt, s@).contains(x) by {
                    if base.contains(x) {
                        let k = choose|k: int| 0 <= k < i && grants_login(*identity, gs.subrange(0, i as int)[k], s@)
                            && user_keys(grant_user(*identity, gs.subrange(0, i as int)[k])).contains(x);
                        assert(nxt[k] == gs.subrange(0, i as int)[k]);
                    } else {
                        assert(views(keys@).contains(x));
                        assert(nxt[i as int] == gs[i as int]);
                    }
                }
                assert forall|x: Seq<char>| granted_keys(*identity, nxt, s@).contains(x) implies views(r@).to_set().contains(x) by {
                    let k = choose|k: int| 0 <= k < nxt.len() && grants_login(*identity, nxt[k], s@)
                        && user_keys(grant_user(*identity, nxt[k])).contains(x);
                    if k < i {
                        assert(gs.subrange(0, i as int)[k] == nxt[k]);
                        assert(base.contains(x));
                    } else {
                        assert(nxt[k] == gs[i as int]);
                        assert(views(keys@).contains(x));
                    }
                }
            }
        } else {
            assert(views(r@).to_set() =~= granted_keys(*identity, nxt, s@)) by {
                assert forall|x: Seq<char>| granted_keys(*identity, nxt, s@).contains(x) implies views(r@).to_set().contains(x) by {
                    let k = choose|k: int| 0 <= k < nxt.len() && grants_login(*identity, nxt[k], s@)
                        && user_keys(grant_user(*identity, nxt[k])).contains(x);
                    if k < i {
                        assert(gs.subrange(0, i as int)[k] == nxt[k]);
                        assert(base.contains(x));
                    } else {
                        assert(nxt[k] == gs[i as int]);
                    }
                }
                assert forall|x: Seq<char>| views(r@).to_set().contains(x) implies granted_keys(*identity, nxt, s@).contains(x) by {
                    let k = choose|k: int| 0 <= k < i && grants_login(*identity, gs.subrange(0, i as int)[k], s@)
                        && user_keys(grant_user(*identity, gs.subrange(0, i as int)[k])).contains(x);
                    assert(nxt[k] == gs.subrange(0, i as int)[k]);
                }
            }
        }
        i = i + 1;
    }
    assert(gs.subrange(0, g.len() as int) =~= gs);
    r
}

/// The system users of a list of key entries, in order.
pub open spec fn entry_logins(entries: Seq<PublicKeyEntry>) -> Seq<Seq<char>> {
    entries.map_values(|e: PublicKeyEntry| e.ssh_user@)
}

/// The key entries that the grants give: one per system user, in sorted
/// order, each with the sorted, distinct keys of the users let in as it.
pub open spec fn public_keys_spec(identity: IdentityState, gs: Seq<(int, int)>, entries: Seq<PublicKeyEntry>) -> bool {
    &&& strictly_sorted(entry_logins(entries))
    &&& entry_logins(entries).to_set() == granted_logins(identity, gs)
    &&& forall|p: int|
        0 <= p < entries.len() ==> strictly_sorted(str_views(#[trigger] entries[p].keys@))
            && str_views(entries[p].keys@).to_set() == granted_keys(identity, gs, entries[p].ssh_user@)
}

/// Collect SSH keys per system user, sorted and deduplicated.
fn build_public_keys(identity: &IdentityState, g: &Vec<(usize, usize)>) -> (r: Vec<PublicKeyEntry>)
    requires
        grants_in_range(*identity, gseq(g@)),
    ensures
        public_keys_spec(*identity, gseq(g@), r@),
{
    let logins = login_names(identity, g);
    let mut r: Vec<PublicKeyEntry> = Vec::new();
    let mut p: usize = 0;
    while p < logins.len()
        invariant
            p <= logins.len(),
            grants_in_range(*identity, gseq(g@)),
            entry_logins(r@) == views(logins@).subrange(0, p as int),
            forall|q: int|
                0 <= q < r@.len() ==> strictly_sorted(str_views(#[trigger] r@[q].keys@))
                    && str_views(r@[q].keys@).to_set() == granted_keys(*identity, gseq(g@), r@[q].ssh_user@),
        decreases logins.len() - p,
    {
        let keys = login_keys(identity, g, logins[p].as_str());
        let ghost before = r@;
        r.push(PublicKeyEntry { ssh_user: logins[p].clone(), keys });
        assert(entry_logins(r@) =~= entry_logins(before).push(logins@[p as int]@));
        p = p + 1;
        assert(entry_logins(r@) =~= views(logins@).subrange(0, p as int));
    }
    assert(views(logins@).subrange(0, logins.len() as int) =~= views(logins@));
    r
}


/// The sudo rule of users whose access rule grants sudo.
pub open spec fn sudo_all() -> Seq<char> {
    "ALL=(ALL) NOPASSWD:ALL"@
}

/// `u` is the cloud-config entry of user `user`, known as `name`, under a
/// rule whose sudo flag is `sudo`.
pub open spec fn cloud_user_of(u: CloudConfigUser, name: Seq<char>, user: UserResource, sudo: bool) -> bool {
    &&& u.name@ == name
    &&& u.uid@ == crate::text::decimal(user.spec.uid as nat)
    &&& u.groups@ == user.spec.groups@
    &&& u.shell@ == user.spec.shell@
    &&& match u.sudo {
        Some(t) => sudo && t@ == sudo_all(),
        None => !sudo,
    }
    &&& str_views(u.ssh_authorized_keys@) == user_keys(user)
}

/// `i` is the first grant to the user known as `name`.
pub open spec fn first_grant(identity: IdentityState, gs: Seq<(int, int)>, name: Seq<char>, i: int) -> bool {
    &&& 0 <= i < gs.len()
    &&& grant_name(identity, gs[i]) == name
    &&& forall|j: int| 0 <= j < i ==> grant_name(identity, #[trigger] gs[j]) != name
}

/// The names of the granted users.
pub open spec fn granted_names(identity: IdentityState, gs: Seq<(int, int)>) -> Set<Seq<char>> {
    Set::new(|n: Seq<char>| exists|i: int| 0 <= i < gs.len() && grant_name(identity, gs[i]) == n)
}

/// The names of cloud-config users, in order.
pub open spec fn cloud_user_names(users: Seq<CloudConfigUser>) -> Seq<Seq<char>> {
    users.map_values(|u: CloudConfigUser| u.name@)
}

/// One cloud-config entry per granted user, sorted by name, each made from
/// the user's record and the sudo flag of the first rule that grants it.
pub open spec fn cloud_users_spec(identity: IdentityState, gs: Seq<(int, int)>, users: Seq<CloudConfigUser>) -> bool {
    &&& strictly_sorted(cloud_user_names(users))
    &&& cloud_user_names(users).to_set() == granted_names(identity, gs)
    &&& forall|p: int|
        0 <= p < users.len() ==> exists|i: int|
            first_grant(identity, gs, users[p].name@, i) && cloud_user_of(
                #[trigger] users[p],
                users[p].name@,
                grant_user(identity, gs[i]),
                grant_rule(identity, gs[i]).spec.sudo,
            )
}

/// The sorted, distinct names of the granted users.
fn granted_name_list(identity: &IdentityState, g: &Vec<(usize, usize)>) -> (r: Vec<String>)
    requires
        grants_in_range(*identity, gseq(g@)),
    ensures
        strictly_sorted(views(r@)),
        views(r@).to_set() == granted_names(*identity, gseq(g@)),
{
    let ghost gs = gseq(g@);
    let mut r: Vec<String> = Vec::new();
    let mut i: usize = 0;
    assert(views(r@).to_set() =~= granted_names(*identity, gs.subrange(0, 0)));
    while i < g.len()
        invariant
            i <= g.len(),
            gs == gseq(g@),
            grants_in_range(*identity, gs),
            strictly_sorted(views(r@)),
            views(r@).to_set() == granted_names(*identity, gs.subrange(0, i as int)),
        decreases g.len() - i,
    {
        assert(gs[i as int] == (g@[i as int].0 as int, g@[i as int].1 as int));
        let ghost base = granted_names(*identity, gs.subrange(0, i as int));
        let ghost nxt = gs.subrange(0, i + 1);
        insert_sorted(&mut r, identity.users[g[i].1].0.clone());
        assert(views(r@).to_set() =~= granted_names(*identity, nxt)) by {
            assert forall|x: Seq<char>| views(r@).to_set().contains(x) implies granted_names(*identity, nxt).contains(x) by {
                if base.contains(x) {
                    let k = choose|k: int| 0 <= k < i && grant_name(*identity, gs.subrange(0, i as int)[k]) == x;
                    assert(nxt[k] == gs.subrange(0, i as int)[k]);
                } else {
                    assert(nxt[i as int] == gs[i as int]);
                }
            }
            assert forall|x: Seq<char>| granted_names(*identity, nxt).contains(x) implies views(r@).to_set().contains(x) by {
                let k = choose|k: int| 0 <= k < nxt.len() && grant_name(*identity, nxt[k]) == x;
                if k < i {
                    assert(gs.subrange(0, i as int)[k] == nxt[k]);
                    assert(base.contains(x));
                } else {
                    assert(nxt[k] == gs[i as int]);
                }
            }
        }
        i = i + 1;
    }
    assert(gs.subrange(0, g.len() as int) =~= gs);
    r
}

/// The cloud-config entry of a user under a rule.
fn make_cloud_user(name: &String, user: &UserResource, sudo: bool) -> (u: CloudConfigUser)
    ensures
        cloud_user_of(u, name@, *user, sudo),
{
    let keys = user_key_texts(user);
    CloudConfigUser {
        name: name.clone(),
        uid: crate::text::decimal_string(user.spec.uid as u64),
        groups: copy_strings(&user.spec.groups),
        shell: user.spec.shell.clone(),
        sudo: if sudo {
            Some(String::from_str("ALL=(ALL) NOPASSWD:ALL"))
        } else {
            None
        },
        ssh_authorized_keys: keys,
    }
}

/// The position of the first grant to the user known as `name`.
fn first_grant_index(identity: &IdentityState, g: &Vec<(usize, usize)>, name: &str) -> (i: usize)
    requires
        grants_in_range(*identity, gseq(g@)),
        granted_names(*identity, gseq(g@)).contains(name@),
    ensures
        i < g@.len(),
        first_grant(*identity, gseq(g@), name@, i as int),
{
    let ghost gs = gseq(g@);
    let mut i: usize = 0;
    while i < g.len()
        invariant
            i <= g.len(),
            gs == gseq(g@),
            grants_in_range(*identity, gs),
            granted_names(*identity, gs).contains(name@),
            forall|j: int| 0 <= j < i ==> grant_name(*identity, #[trigger] gs[j]) != name@,
        decreases g.len() - i,
    {
        assert(gs[i as int] == (g@[i as int].0 as int, g@[i as int].1 as int));
        if crate::text::str_eq(identity.users[g[i].1].0.as_str(), name) {
            return i;
        }
        i = i + 1;
    }
    proof {
        let k = choose|k: int| 0 <= k < gs.len() && grant_name(*identity, gs[k]) == name@;
        assert(grant_name(*identity, gs[k]) != name@);
    }
    i
}

/// Build the cloud-config user entries, one per granted user, sorted by name.
fn build_cloud_users(identity: &IdentityState, g: &Vec<(usize, usize)>) -> (r: Vec<CloudConfigUser>)
    requires
        grants_in_range(*identity, gseq(g@)),
    ensures
        cloud_users_spec(*identity, gseq(g@), r@),
{
    let ghost gs = gseq(g@);
    let names = granted_name_list(identity, g);
    let mut r: Vec<CloudConfigUser> = Vec::new();
    let mut p: usize = 0;
    while p < names.len()
        invariant
            p <= names.len(),
            gs == gseq(g@),
            grants_in_range(*identity, gs),
            views(names@).to_set() == granted_names(*identity, gs),
            cloud_user_names(r@) == views(names@).subrange(0, p as int),
            forall|q: int|
                0 <= q < r@.len() ==> exists|i: int|
                    first_grant(*identity, gs, r@[q].name@, i) && cloud_user_of(
                        #[trigger] r@[q],
                        r@[q].name@,
                        grant_user(*identity, gs[i]),
                        grant_rule(*identity, gs[i]).spec.sudo,
                    ),
        decreases names.len() - p,
    {
        assert(views(names@).to_set().contains(names@[p as int]@)) by {
            assert(views(names@)[p as int] == names@[p as int]@);
        }
        let i = first_grant_index(identity, g, names[p].as_str());
        assert(gs[i as int] == (g@[i as int].0 as int, g@[i as int].1 as int));
        let u = make_cloud_user(&names[p], &identity.users[g[i].1].1, identity.host_access[g[i].0].1.spec.sudo);
        assert(first_grant(*identity, gs, u.name@, i as int));
        let ghost before = r@;
        let ghost gu = u;
        assert(cloud_user_names(before).len() == p);
        assert(before.len() == p);
        r.push(u);
        assert(r@[p as int] == gu);
        assert(cloud_user_names(r@) =~= cloud_user_names(before).push(names@[p as int]@));
        p = p + 1;
        assert(cloud_user_names(r@) =~= views(names@).subrange(0, p as int));
    }
    assert(views(names@).subrange(0, names.len() as int) =~= views(names@));
    r
}


/// A cloud-config user as a JSON object (members in declaration order,
/// `groups` left out when empty and `sudo` when absent).
pub open spec fn cloud_user_doc(u: CloudConfigUser) -> JsonView {
    JsonView::Object(
        seq![("name"@, JsonView::Str(u.name@)), ("uid"@, JsonView::Str(u.uid@))]
            + (if u.groups@.len() == 0 {
            Seq::empty()
        } else {
            seq![("groups"@, str_array(str_views(u.groups@)))]
        }) + seq![("shell"@, JsonView::Str(u.shell@))] + match u.sudo {
            Some(t) => seq![("sudo"@, JsonView::Str(t@))],
            None => Seq::empty(),
        } + seq![("ssh_authorized_keys"@, str_array(str_views(u.ssh_authorized_keys@)))],
    )
}

/// A cloud-config as a JSON object.
pub open spec fn cloud_config_doc(c: CloudConfig) -> JsonView {
    JsonView::Object(
        seq![("users"@, JsonView::Array(c.users@.map_values(|u: CloudConfigUser| cloud_user_doc(u))))],
    )
}

/// The user-data served for a cloud-config: a `#cloud-config` line, then the
/// cloud-config as pretty JSON.
pub open spec fn user_data_text(c: CloudConfig) -> Seq<char> {
    "#cloud-config\n"@ + pretty(cloud_config_doc(c), 0)
}

fn cloud_user_value(u: &CloudConfigUser) -> (r: JsonValue)
    ensures
        jv(r) == cloud_user_doc(*u),
{
    let mut m: Vec<(String, JsonValue)> = Vec::new();
    push_member(&mut m, "name", JsonValue::Str(u.name.clone()));
    push_member(&mut m, "uid", JsonValue::Str(u.uid.clone()));
    let ghost a = jv_members(m@);
    if u.groups.len() > 0 {
        push_member(&mut m, "groups", str_array_value(&u.groups));
    }
    let ghost b = jv_members(m@);
    push_member(&mut m, "shell", JsonValue::Str(u.shell.clone()));
    let ghost c = jv_members(m@);
    match &u.sudo {
        Some(t) => {
            push_member(&mut m, "sudo", JsonValue::Str(t.clone()));
        },
        None => {},
    }
    let ghost d = jv_members(m@);
    push_member(&mut m, "ssh_authorized_keys", str_array_value(&u.ssh_authorized_keys));
    proof {
        assert(a =~= seq![("name"@, JsonView::Str(u.name@)), ("uid"@, JsonView::Str(u.uid@))]);
        assert(jv_members(m@) =~= seq![("name"@, JsonView::Str(u.name@)), ("uid"@, JsonView::Str(u.uid@))]
            + (if u.groups@.len() == 0 {
            Seq::empty()
        } else {
            seq![("groups"@, str_array(str_views(u.groups@)))]
        }) + seq![("shell"@, JsonView::Str(u.shell@))] + match u.sudo {
            Some(t) => seq![("sudo"@, JsonView::Str(t@))],
            None => Seq::empty(),
        } + seq![("ssh_authorized_keys"@, str_array(str_views(u.ssh_authorized_keys@)))]);
    }
    JsonValue::Object(m)
}

fn cloud_config_value(c: &CloudConfig) -> (r: JsonValue)
    ensures
        jv(r) == cloud_config_doc(*c),
{
    let mut items: Vec<JsonValue> = Vec::new();
    let mut i: usize = 0;
    while i < c.users.len()
        invariant
            i <= c.users.len(),
            jv_items(items@) == c.users@.subrange(0, i as int).map_values(|u: CloudConfigUser| cloud_user_doc(u)),
        decreases c.users.len() - i,
    {
        let ghost before = items@;
        let e = cloud_user_value(&c.users[i]);
        items.push(e);
        assert(items@.drop_last() =~= before);
        assert(jv_items(items@) == jv_items(before).push(jv(e)));
        i = i + 1;
        assert(jv_items(items@) =~= c.users@.subrange(0, i as int).map_values(|u: CloudConfigUser| cloud_user_doc(u)));
    }
    assert(c.users@.subrange(0, c.users.len() as int) =~= c.users@);
    let mut m: Vec<(String, JsonValue)> = Vec::new();
    push_member(&mut m, "users", JsonValue::Array(items));
    assert(jv_members(m@) =~= seq![("users"@, JsonView::Array(c.users@.map_values(|u: CloudConfigUser| cloud_user_doc(u))))]);
    JsonValue::Object(m)
}

/// Everything that the metadata of a host holds, given the grants that
/// reach it.
pub open spec fn host_metadata_spec(
    m: HostMetadata,
    ip: Seq<char>,
    hostname: Seq<char>,
    identity: IdentityState,
    config: MetadataConfig,
    gs: Seq<(int, int)>,
) -> bool {
    &&& m.instance_id@ == hostname
    &&& m.hostname@ == hostname + config.domain_suffix@
    &&& m.local_hostname@ == hostname
    &&& m.local_ipv4@ == ip
    &&& m.availability_zone@ == config.availability_zone@
    &&& public_keys_spec(identity, gs, m.public_keys@)
    &&& cloud_users_spec(identity, gs, m.cloud_config.users@)
    &&& m.user_data@ == user_data_text(m.cloud_config)
}

/// What resolving a host gives: nothing exactly when no enabled user may
/// reach it, else metadata as `host_metadata_spec` describes for its grants.
pub open spec fn resolves_host(
    r: Option<HostMetadata>,
    ip: Seq<char>,
    hostname: Seq<char>,
    labels: Option<Seq<(String, String)>>,
    identity: IdentityState,
    config: MetadataConfig,
) -> bool {
    &&& r is None <==> host_grants(identity, hostname, labels).len() == 0
    &&& r matches Some(m) ==> host_metadata_spec(m, ip, hostname, identity, config, host_grants(identity, hostname, labels))
}

/// Resolve metadata for a host given its IP (as canonical text) and hostname.
///
/// Pipeline:
///   1. hostname -> matching HostAccess rules
///   2. Expand subjects (users + groups) from matching rules
///   3. Collect SSH keys per ssh_user
///   4. Build HostMetadata with cloud-config
///
/// A host that no enabled user may reach gets no metadata.
pub fn resolve_host(
    ip: &str,
    hostname: &str,
    host_labels: Option<&LabelMap>,
    identity: &IdentityState,
    config: &MetadataConfig,
) -> (r: Option<HostMetadata>)
    ensures
        r is None <==> host_grants(*identity, hostname@, labels_view(host_labels)).len() == 0,
        r matches Some(m) ==> host_metadata_spec(
            m,
            ip@,
            hostname@,
            *identity,
            *config,
            host_grants(*identity, hostname@, labels_view(host_labels)),
        ),
        resolves_host(r, ip@, hostname@, labels_view(host_labels), *identity, *config),
{
    let g = collect_grants(hostname, host_labels, identity);
    if g.len() == 0 {
        return None;
    }
    let public_keys = build_public_keys(identity, &g);
    let users = build_cloud_users(identity, &g);
    let cloud_config = CloudConfig { users };
    let mut user_data = String::from_str("#cloud-config\n");
    user_data.append(to_pretty_string(&cloud_config_value(&cloud_config)).as_str());
    let mut fqdn = String::from_str(hostname);
    fqdn.append(config.domain_suffix.as_str());
    Some(HostMetadata {
        instance_id: String::from_str(hostname),
        hostname: fqdn,
        local_hostname: String::from_str(hostname),
        local_ipv4: String::from_str(ip),
        availability_zone: config.availability_zone.clone(),
        public_keys,
        user_data,
        cloud_config,
    })
}


/// The same text and keys in every field.
pub open spec fn same_keys_entry(a: PublicKeyEntry, b: PublicKeyEntry) -> bool {
    a.ssh_user@ == b.ssh_user@ && str_views(a.keys@) == str_views(b.keys@)
}

/// The same text in every field.
pub open spec fn same_cloud_user(a: CloudConfigUser, b: CloudConfigUser) -> bool {
    &&& a.name@ == b.name@
    &&& a.uid@ == b.uid@
    &&& str_views(a.groups@) == str_views(b.groups@)
    &&& a.shell@ == b.shell@
    &&& match (a.sudo, b.sudo) {
        (Some(x), Some(y)) => x@ == y@,
        (None, None) => true,
        _ => false,
    }
    &&& str_views(a.ssh_authorized_keys@) == str_views(b.ssh_authorized_keys@)
}

/// Two metadata records that read the same.
pub open spec fn same_metadata(a: HostMetadata, b: HostMetadata) -> bool {
    &&& a.instance_id@ == b.instance_id@
    &&& a.hostname@ == b.hostname@
    &&& a.local_hostname@ == b.local_hostname@
    &&& a.local_ipv4@ == b.local_ipv4@
    &&& a.availability_zone@ == b.availability_zone@
    &&& a.user_data@ == b.user_data@
    &&& a.public_keys@.len() == b.public_keys@.len()
    &&& forall|i: int| 0 <= i < a.public_keys@.len() ==> same_keys_entry(#[trigger] a.public_keys@[i], b.public_keys@[i])
    &&& a.cloud_config.users@.len() == b.cloud_config.users@.len()
    &&& forall|i: int|
        0 <= i < a.cloud_config.users@.len() ==> same_cloud_user(
            #[trigger] a.cloud_config.users@[i],
            b.cloud_config.users@[i],
        )
}

/// A copy of a metadata record.
pub fn copy_metadata(m: &HostMetadata) -> (r: HostMetadata)
    ensures
        same_metadata(r, *m),
{
    let mut pks: Vec<PublicKeyEntry> = Vec::new();
    let mut i: usize = 0;
    while i < m.public_keys.len()
        invariant
            i <= m.public_keys.len(),
            pks@.len() == i,
            forall|k: int| 0 <= k < i ==> same_keys_entry(#[trigger] pks@[k], m.public_keys@[k]),
        decreases m.public_keys.len() - i,
    {
        let e = &m.public_keys[i];
        pks.push(PublicKeyEntry { ssh_user: e.ssh_user.clone(), keys: copy_strings(&e.keys) });
        i = i + 1;
    }
    let mut users: Vec<CloudConfigUser> = Vec::new();
    let mut j: usize = 0;
    while j < m.cloud_config.users.len()
        invariant
            j <= m.cloud_config.users.len(),
            users@.len() == j,
            forall|k: int| 0 <= k < j ==> same_cloud_user(#[trigger] users@[k], m.cloud_config.users@[k]),
        decreases m.cloud_config.users.len() - j,
    {
        let u = &m.cloud_config.users[j];
        users.push(CloudConfigUser {
            name: u.name.clone(),
            uid: u.uid.clone(),
            groups: copy_strings(&u.groups),
            shell: u.shell.clone(),
            sudo: match &u.sudo {
                Some(t) => Some(t.clone()),
                None => None,
            },
            ssh_authorized_keys: copy_strings(&u.ssh_authorized_keys),
        });
        j = j + 1;
    }
    HostMetadata {
        instance_id: m.instance_id.clone(),
        hostname: m.hostname.clone(),
        local_hostname: m.local_hostname.clone(),
        local_ipv4: m.local_ipv4.clone(),
        availability_zone: m.availability_zone.clone(),
        public_keys: pks,
        user_data: m.user_data.clone(),
        cloud_config: CloudConfig { users },
    }
}

/// The user who owns the namespace of a container, when that user is known
/// and enabled.
pub open spec fn container_owner(
    info: ContainerInfo,
    containers: ContainerState,
    identity: IdentityState,
) -> Option<Seq<char>> {
    match lookup(containers.namespace_owners@, info.namespace@) {
        Some(owner) => if grantable(identity, owner@) {
            Some(owner@)
        } else {
            None
        },
        None => None,
    }
}

/// What the metadata of a container holds: the owner of its namespace logs
/// in as itself, as "admin" and as "root", all with the owner's keys; the
/// cloud-config has the owner (with sudo) and root.
pub open spec fn container_metadata_spec(
    m: HostMetadata,
    ip: Seq<char>,
    info: ContainerInfo,
    owner: Seq<char>,
    identity: IdentityState,
    config: MetadataConfig,
) -> bool {
    let user = lookup(identity.users@, owner).unwrap();
    &&& m.instance_id@ == info.namespace@ + "/"@ + info.pod_name@
    &&& m.hostname@ == info.hostname@ + config.domain_suffix@
    &&& m.local_hostname@ == info.hostname@
    &&& m.local_ipv4@ == ip
    &&& m.availability_zone@ == config.availability_zone@
    &&& m.public_keys@.len() == 3
    &&& m.public_keys@[0].ssh_user@ == owner
    &&& m.public_keys@[1].ssh_user@ == "admin"@
    &&& m.public_keys@[2].ssh_user@ == "root"@
    &&& forall|p: int| 0 <= p < 3 ==> str_views(#[trigger] m.public_keys@[p].keys@) == user_keys(user)
    &&& m.cloud_config.users@.len() == 2
    &&& cloud_user_of(m.cloud_config.users@[0], owner, user, true)
    &&& m.cloud_config.users@[1].name@ == "root"@
    &&& m.cloud_config.users@[1].uid@ == "0"@
    &&& m.cloud_config.users@[1].groups@.len() == 0
    &&& m.cloud_config.users@[1].shell@ == "/bin/bash"@
    &&& m.cloud_config.users@[1].sudo is None
    &&& str_views(m.cloud_config.users@[1].ssh_authorized_keys@) == user_keys(user)
    &&& m.user_data@ == user_data_text(m.cloud_config)
}

/// Resolve metadata for a container by the owner of its namespace, bypassing
/// HostAccess rules. A container whose namespace has no owner, or whose owner
/// is unknown or disabled, gets no metadata.
pub fn resolve_container(
    ip: &str,
    info: &ContainerInfo,
    containers: &ContainerState,
    identity: &IdentityState,
    config: &MetadataConfig,
) -> (r: Option<HostMetadata>)
    ensures
        r is None <==> container_owner(*info, *containers, *identity) is None,
        r matches Some(m) ==> container_metadata_spec(
            m,
            ip@,
            *info,
            container_owner(*info, *containers, *identity).unwrap(),
            *identity,
            *config,
        ),
{
    let oi = match find_key(&containers.namespace_owners, info.namespace.as_str()) {
        Some(oi) => oi,
        None => return None,
    };
    let owner = &containers.namespace_owners[oi].1;
    let ui = match find_key(&identity.users, owner.as_str()) {
        Some(ui) => ui,
        None => return None,
    };
    let user = &identity.users[ui].1;
    let enabled = match &user.status {
        Some(st) => st.enabled,
        None => true,
    };
    if !enabled {
        return None;
    }
    let mut public_keys: Vec<PublicKeyEntry> = Vec::new();
    public_keys.push(PublicKeyEntry { ssh_user: owner.clone(), keys: user_key_texts(user) });
    public_keys.push(PublicKeyEntry { ssh_user: String::from_str("admin"), keys: user_key_texts(user) });
    public_keys.push(PublicKeyEntry { ssh_user: String::from_str("root"), keys: user_key_texts(user) });
    let mut users: Vec<CloudConfigUser> = Vec::new();
    users.push(make_cloud_user(owner, user, true));
    users.push(CloudConfigUser {
        name: String::from_str("root"),
        uid: String::from_str("0"),
        groups: Vec::new(),
        shell: String::from_str("/bin/bash"),
        sudo: None,
        ssh_authorized_keys: user_key_texts(user),
    });
    let cloud_config = CloudConfig { users };
    let mut user_data = String::from_str("#cloud-config\n");
    user_data.append(to_pretty_string(&cloud_config_value(&cloud_config)).as_str());
    let mut instance_id = info.namespace.clone();
    instance_id.append("/");
    instance_id.append(info.pod_name.as_str());
    let mut fqdn = info.hostname.clone();
    fqdn.append(config.domain_suffix.as_str());
    Some(HostMetadata {
        instance_id,
        hostname: fqdn,
        local_hostname: info.hostname.clone(),
        local_ipv4: String::from_str(ip),
        availability_zone: config.availability_zone.clone(),
        public_keys,
        user_data,
        cloud_config,
    })
}

} // verus!
