use vstd::prelude::*;
use crate::cache::{IdentityState, lemma_dedup_contains};
use crate::config::MetadataConfig;
use crate::keyed::{key_pos, lemma_key_pos, lookup};
use crate::model::{HostMetadata, PublicKeyEntry, Subject, str_views};
use crate::resolve::{
    entry_logins, expand, grantable, granted_keys, granted_logins, grants_of, group_contains, host_grants,
    matching_rules, raw_names, resolves_host, rule_grants, rule_matches, subject_names,
};

verus! {

/// `a` is the first part of `b`: `b` holds every entry of `a`, in place.
pub open spec fn starts_with<V>(a: Seq<(String, V)>, b: Seq<(String, V)>) -> bool {
    a.len() <= b.len() && forall|i: int| 0 <= i < a.len() ==> #[trigger] b[i] == a[i]
}

/// `big` is `small` with entries added after its own: no user, group,
/// access rule or host group of `small` is changed or removed.
pub open spec fn extends(small: IdentityState, big: IdentityState) -> bool {
    &&& starts_with(small.users@, big.users@)
    &&& starts_with(small.groups@, big.groups@)
    &&& starts_with(small.host_access@, big.host_access@)
    &&& starts_with(small.host_groups@, big.host_groups@)
}

/// Entries added after a key's first entry leave its lookup and position alone.
proof fn lemma_lookup_extends<V>(a: Seq<(String, V)>, b: Seq<(String, V)>, k: Seq<char>)
    requires
        starts_with(a, b),
    ensures
        key_pos(a, k) < a.len() ==> key_pos(b, k) == key_pos(a, k) && lookup(b, k) == lookup(a, k),
{
    lemma_key_pos(a, k);
    lemma_key_pos(b, k);
    let p = key_pos(a, k);
    if p < a.len() {
        assert(b[p] == a[p]);
        if key_pos(b, k) < p {
            assert(b[key_pos(b, k)] == a[key_pos(b, k)]);
        }
    }
}

pub proof fn lemma_contains_concat<A>(a: Seq<A>, b: Seq<A>, x: A)
    ensures
        (a + b).contains(x) <==> a.contains(x) || b.contains(x),
{
    if a.contains(x) {
        let i = choose|i: int| 0 <= i < a.len() && a[i] == x;
        assert((a + b)[i] == x);
    }
    if b.contains(x) {
        let i = choose|i: int| 0 <= i < b.len() && b[i] == x;
        assert((a + b)[a.len() + i] == x);
    }
    if (a + b).contains(x) {
        let i = choose|i: int| 0 <= i < (a + b).len() && (a + b)[i] == x;
        if i < a.len() {
            assert(a[i] == x);
        } else {
            assert(b[i - a.len()] == x);
        }
    }
}

/// A grantable user stays grantable, at the same position, in a bigger identity.
proof fn lemma_grantable_extends(small: IdentityState, big: IdentityState, n: Seq<char>)
    requires
        extends(small, big),
        grantable(small, n),
    ensures
        grantable(big, n),
        key_pos(big.users@, n) == key_pos(small.users@, n),
        0 <= key_pos(small.users@, n) < small.users@.len(),
{
    lemma_key_pos(small.users@, n);
    lemma_lookup_extends(small.users@, big.users@, n);
}

/// A rule that applies to a host still applies with a bigger identity.
proof fn lemma_rule_matches_extends(
    small: IdentityState,
    big: IdentityState,
    r: int,
    h: Seq<char>,
    l: Option<Seq<(String, String)>>,
)
    requires
        extends(small, big),
        0 <= r < small.host_access@.len(),
        rule_matches(small.host_access@[r].1, h, l, small),
    ensures
        rule_matches(big.host_access@[r].1, h, l, big),
{
    let rule = small.host_access@[r].1;
    assert(big.host_access@[r] == small.host_access@[r]);
    let t = rule.spec.targets;
    if exists|g: int| 0 <= g < t.host_groups.len() && group_contains(small, t.host_groups@[g]@, h) {
        let g = choose|g: int| 0 <= g < t.host_groups.len() && group_contains(small, t.host_groups@[g]@, h);
        lemma_key_pos(small.host_groups@, t.host_groups@[g]@);
        lemma_lookup_extends(small.host_groups@, big.host_groups@, t.host_groups@[g]@);
        assert(group_contains(big, t.host_groups@[g]@, h));
    }
}

/// The rules listed for a host are those, among the first `n`, that apply to it.
proof fn lemma_matching_rules_members(i: IdentityState, h: Seq<char>, l: Option<Seq<(String, String)>>, n: int)
    requires
        0 <= n <= i.host_access@.len(),
    ensures
        forall|r: int|
            #[trigger] matching_rules(i, h, l, n).contains(r) <==> 0 <= r < n && rule_matches(
                i.host_access@[r].1,
                h,
                l,
                i,
            ),
    decreases n,
{
    if n > 0 {
        lemma_matching_rules_members(i, h, l, n - 1);
        let prev = matching_rules(i, h, l, n - 1);
        let add = if rule_matches(i.host_access@[n - 1].1, h, l, i) {
            seq![n - 1]
        } else {
            Seq::<int>::empty()
        };
        assert forall|r: int| #[trigger] matching_rules(i, h, l, n).contains(r) <==> 0 <= r < n && rule_matches(
            i.host_access@[r].1,
            h,
            l,
            i,
        ) by {
            lemma_contains_concat(prev, add, r);
            if add.contains(r) {
                assert(add[0] == r);
            }
            if r == n - 1 && rule_matches(i.host_access@[r].1, h, l, i) {
                assert(add[0] == r);
            }
        }
    }
}

/// The grants of a rule are those to the grantable names among `names`.
proof fn lemma_rule_grants_members(i: IdentityState, r: int, names: Seq<Seq<char>>)
    ensures
        forall|g: (int, int)|
            #[trigger] rule_grants(i, r, names).contains(g) <==> g.0 == r && exists|k: int|
                0 <= k < names.len() && grantable(i, #[trigger] names[k]) && g.1 == key_pos(i.users@, names[k]),
    decreases names.len(),
{
    if names.len() > 0 {
        let prev_names = names.drop_last();
        lemma_rule_grants_members(i, r, prev_names);
        let prev = rule_grants(i, r, prev_names);
        let last = names.last();
        let add = if grantable(i, last) {
            seq![(r, key_pos(i.users@, last))]
        } else {
            Seq::<(int, int)>::empty()
        };
        assert forall|g: (int, int)| #[trigger] rule_grants(i, r, names).contains(g) <==> g.0 == r && exists|k: int|
            0 <= k < names.len() && grantable(i, #[trigger] names[k]) && g.1 == key_pos(i.users@, names[k]) by {
            lemma_contains_concat(prev, add, g);
            if add.contains(g) {
                assert(add[0] == g);
                assert(names[names.len() - 1] == last);
            }
            if g.0 == r && exists|k: int|
                0 <= k < names.len() && grantable(i, #[trigger] names[k]) && g.1 == key_pos(i.users@, names[k]) {
                let k = choose|k: int|
                    0 <= k < names.len() && grantable(i, #[trigger] names[k]) && g.1 == key_pos(i.users@, names[k]);
                if k < prev_names.len() {
                    assert(prev_names[k] == names[k]);
                } else {
                    assert(add[0] == g);
                }
            }
            if prev.contains(g) {
                let k = choose|k: int|
                    0 <= k < prev_names.len() && grantable(i, #[trigger] prev_names[k]) && g.1 == key_pos(
                        i.users@,
                        prev_names[k],
                    );
                assert(names[k] == prev_names[k]);
            }
        }
    }
}

/// The grants of a list of rules are those of its rules.
proof fn lemma_grants_of_members(i: IdentityState, rules: Seq<int>)
    ensures
        forall|g: (int, int)|
            #[trigger] grants_of(i, rules).contains(g) <==> exists|k: int|
                0 <= k < rules.len() && #[trigger] rule_grants(
                    i,
                    rules[k],
                    expand(i.host_access@[rules[k]].1.spec.subjects@, i),
                ).contains(g),
    decreases rules.len(),
{
    if rules.len() > 0 {
        let pr = rules.drop_last();
        lemma_grants_of_members(i, pr);
        let prev = grants_of(i, pr);
        let add = rule_grants(i, rules.last(), expand(i.host_access@[rules.last()].1.spec.subjects@, i));
        assert forall|g: (int, int)| #[trigger] grants_of(i, rules).contains(g) <==> exists|k: int|
            0 <= k < rules.len() && #[trigger] rule_grants(
                i,
                rules[k],
                expand(i.host_access@[rules[k]].1.spec.subjects@, i),
            ).contains(g) by {
            lemma_contains_concat(prev, add, g);
            if add.contains(g) {
                assert(rules[rules.len() - 1] == rules.last());
            }
            if prev.contains(g) {
                let k = choose|k: int|
                    0 <= k < pr.len() && #[trigger] rule_grants(
                        i,
                        pr[k],
                        expand(i.host_access@[pr[k]].1.spec.subjects@, i),
                    ).contains(g);
                assert(rules[k] == pr[k]);
            }
            if exists|k: int|
                0 <= k < rules.len() && #[trigger] rule_grants(
                    i,
                    rules[k],
                    expand(i.host_access@[rules[k]].1.spec.subjects@, i),
                ).contains(g) {
                let k = choose|k: int|
                    0 <= k < rules.len() && #[trigger] rule_grants(
                        i,
                        rules[k],
                        expand(i.host_access@[rules[k]].1.spec.subjects@, i),
                    ).contains(g);
                if k < pr.len() {
                    assert(pr[k] == rules[k]);
                }
            }
        }
    }
}

/// A subject stands for at least the names it stood for, in a bigger identity.
proof fn lemma_raw_names_extends(subjects: Seq<Subject>, small: IdentityState, big: IdentityState, x: Seq<char>)
    requires
        extends(small, big),
        raw_names(subjects, small).contains(x),
    ensures
        raw_names(subjects, big).contains(x),
    decreases subjects.len(),
{
    if subjects.len() > 0 {
        let pr = subjects.drop_last();
        let last = subjects.last();
        lemma_contains_concat(raw_names(pr, small), subject_names(last, small), x);
        lemma_contains_concat(raw_names(pr, big), subject_names(last, big), x);
        if raw_names(pr, small).contains(x) {
            lemma_raw_names_extends(pr, small, big, x);
        } else {
            lemma_key_pos(small.groups@, last.name@);
            lemma_lookup_extends(small.groups@, big.groups@, last.name@);
            assert(subject_names(last, big) == subject_names(last, small));
        }
    }
}

/// Every grant that reaches a host still reaches it in a bigger identity,
/// and points at a rule and a user of the smaller one.
proof fn lemma_host_grants_extends(
    small: IdentityState,
    big: IdentityState,
    h: Seq<char>,
    l: Option<Seq<(String, String)>>,
    g: (int, int),
)
    requires
        extends(small, big),
        host_grants(small, h, l).contains(g),
    ensures
        host_grants(big, h, l).contains(g),
        0 <= g.0 < small.host_access@.len(),
        0 <= g.1 < small.users@.len(),
{
    let ns = small.host_access@.len() as int;
    let nb = big.host_access@.len() as int;
    let ms = matching_rules(small, h, l, ns);
    let mb = matching_rules(big, h, l, nb);
    lemma_matching_rules_members(small, h, l, ns);
    lemma_matching_rules_members(big, h, l, nb);
    lemma_grants_of_members(small, ms);
    lemma_grants_of_members(big, mb);
    let k = choose|k: int|
        0 <= k < ms.len() && #[trigger] rule_grants(
            small,
            ms[k],
            expand(small.host_access@[ms[k]].1.spec.subjects@, small),
        ).contains(g);
    let r = ms[k];
    assert(ms.contains(r));
    lemma_rule_matches_extends(small, big, r, h, l);
    assert(big.host_access@[r] == small.host_access@[r]);
    assert(mb.contains(r));
    let k2 = choose|k2: int| 0 <= k2 < mb.len() && mb[k2] == r;
    let subj = small.host_access@[r].1.spec.subjects@;
    let es = expand(subj, small);
    let eb = expand(subj, big);
    lemma_rule_grants_members(small, r, es);
    lemma_rule_grants_members(big, r, eb);
    let j = choose|j: int| 0 <= j < es.len() && grantable(small, #[trigger] es[j]) && g.1 == key_pos(small.users@, es[j]);
    let n = es[j];
    assert(es.contains(n));
    lemma_dedup_contains(raw_names(subj, small), n);
    lemma_raw_names_extends(subj, small, big, n);
    lemma_dedup_contains(raw_names(subj, big), n);
    assert(eb.contains(n));
    let j2 = choose|j2: int| 0 <= j2 < eb.len() && eb[j2] == n;
    lemma_grantable_extends(small, big, n);
    assert(g.1 == key_pos(small.users@, n));
    assert(0 <= g.1 < small.users@.len());
    assert(0 <= r < ns);
    assert(g.0 == r);
    assert(grantable(big, eb[j2]) && g.1 == key_pos(big.users@, eb[j2]));
    assert(rule_grants(big, r, eb).contains(g));
    assert(rule_grants(big, mb[k2], expand(big.host_access@[mb[k2]].1.spec.subjects@, big)).contains(g));
}

/// The key entry `f` is for the same system user as `e` and holds every
/// key of `e`.
pub open spec fn covers(f: PublicKeyEntry, e: PublicKeyEntry) -> bool {
    &&& f.ssh_user@ == e.ssh_user@
    &&& forall|k: Seq<char>| #[trigger] str_views(e.keys@).contains(k) ==> str_views(f.keys@).contains(k)
}

/// Some key entry of `b` covers `e`.
pub open spec fn covered(b: HostMetadata, e: PublicKeyEntry) -> bool {
    exists|q: int| 0 <= q < b.public_keys@.len() && covers(#[trigger] b.public_keys@[q], e)
}

/// Every key entry of `a` is covered by one of `b`.
pub open spec fn keeps_keys(a: HostMetadata, b: HostMetadata) -> bool {
    forall|p: int| 0 <= p < a.public_keys@.len() ==> covered(b, #[trigger] a.public_keys@[p])
}

/// Granting more access never takes a key away: with users, groups,
/// access rules or host groups added (none changed or removed), a host
/// that got metadata still gets it, and each system user it listed is
/// still listed, with at least the keys it had.
pub proof fn law_more_access_keeps_keys(
    r1: Option<HostMetadata>,
    r2: Option<HostMetadata>,
    ip: Seq<char>,
    h: Seq<char>,
    l: Option<Seq<(String, String)>>,
    small: IdentityState,
    big: IdentityState,
    config: MetadataConfig,
)
    requires
        extends(small, big),
        resolves_host(r1, ip, h, l, small, config),
        resolves_host(r2, ip, h, l, big, config),
    ensures
        r1 is Some ==> r2 is Some,
        r1 matches Some(m1) ==> r2 matches Some(m2) && keeps_keys(m1, m2),
{
    let gs = host_grants(small, h, l);
    let gb = host_grants(big, h, l);
    if let Some(m1) = r1 {
        assert(gs.len() > 0);
        assert(gs.contains(gs[0]));
        lemma_host_grants_extends(small, big, h, l, gs[0]);
        assert(gb.len() > 0);
        let m2 = r2.unwrap();
        assert forall|p: int| 0 <= p < m1.public_keys@.len() implies covered(m2, #[trigger] m1.public_keys@[p]) by {
            let login = m1.public_keys@[p].ssh_user@;
            assert(entry_logins(m1.public_keys@)[p] == login);
            assert(entry_logins(m1.public_keys@).to_set().contains(login));
            assert(granted_logins(small, gs).contains(login));
            let i = choose|i: int| 0 <= i < gs.len() && crate::resolve::grants_login(small, gs[i], login);
            assert(gs.contains(gs[i]));
            lemma_host_grants_extends(small, big, h, l, gs[i]);
            let ib = choose|ib: int| 0 <= ib < gb.len() && gb[ib] == gs[i];
            assert(big.host_access@[gs[i].0] == small.host_access@[gs[i].0]);
            assert(crate::resolve::grants_login(big, gb[ib], login));
            assert(granted_logins(big, gb).contains(login));
            assert(entry_logins(m2.public_keys@).to_set().contains(login));
            let q = choose|q: int| 0 <= q < entry_logins(m2.public_keys@).len() && entry_logins(m2.public_keys@)[q] == login;
            assert(entry_logins(m2.public_keys@).len() == m2.public_keys@.len());
            assert(0 <= q < m2.public_keys@.len());
            assert(m2.public_keys@[q].ssh_user@ == login);
            assert forall|k: Seq<char>| #[trigger] str_views(m1.public_keys@[p].keys@).contains(k) implies str_views(
                m2.public_keys@[q].keys@,
            ).contains(k) by {
                assert(str_views(m1.public_keys@[p].keys@).to_set().contains(k));
                assert(granted_keys(small, gs, login).contains(k));
                let i2 = choose|i2: int|
                    0 <= i2 < gs.len() && crate::resolve::grants_login(small, gs[i2], login)
                        && crate::model::user_keys(crate::resolve::grant_user(small, gs[i2])).contains(k);
                assert(gs.contains(gs[i2]));
                lemma_host_grants_extends(small, big, h, l, gs[i2]);
                let ib2 = choose|ib2: int| 0 <= ib2 < gb.len() && gb[ib2] == gs[i2];
                assert(big.host_access@[gs[i2].0] == small.host_access@[gs[i2].0]);
                assert(big.users@[gs[i2].1] == small.users@[gs[i2].1]);
                assert(crate::resolve::grants_login(big, gb[ib2], login));
                assert(granted_keys(big, gb, login).contains(k));
                assert(str_views(m2.public_keys@[q].keys@).to_set().contains(k));
            }
            assert(covers(m2.public_keys@[q], m1.public_keys@[p]));
        }
        assert(keeps_keys(m1, m2));
    }
}

proof fn lemma_raw_names_has_subject(subjects: Seq<Subject>, identity: IdentityState, i: int, x: Seq<char>)
    requires
        0 <= i < subjects.len(),
        subject_names(subjects[i], identity).contains(x),
    ensures
        raw_names(subjects, identity).contains(x),
    decreases subjects.len(),
{
    let pr = subjects.drop_last();
    if i < subjects.len() - 1 {
        assert(pr[i] == subjects[i]);
        lemma_raw_names_has_subject(pr, identity, i, x);
    }
    lemma_contains_concat(raw_names(pr, identity), subject_names(subjects.last(), identity), x);
}

/// Expanding a rule's subjects names each user subject, and each member of
/// each group subject whose group is known, once: the names are distinct.
pub proof fn law_expand_names_users_and_members(subjects: Seq<Subject>, identity: IdentityState)
    ensures
        forall|i: int|
            0 <= i < subjects.len() && (#[trigger] subjects[i]).kind == crate::model::SubjectKind::User
                ==> expand(subjects, identity).contains(subjects[i].name@),
        forall|i: int, j: int|
            0 <= i < subjects.len() && subjects[i].kind == crate::model::SubjectKind::Group && (lookup(
                identity.groups@,
                subjects[i].name@,
            ) matches Some(g) && 0 <= j < g.spec.members@.len()) ==> expand(subjects, identity).contains(
                #[trigger] lookup(identity.groups@, subjects[i].name@)->0.spec.members@[j]@,
            ),
        forall|a: int, b: int|
            0 <= a < b < expand(subjects, identity).len() ==> expand(subjects, identity)[a] != expand(
                subjects,
                identity,
            )[b],
{
    crate::cache::lemma_dedup_distinct(raw_names(subjects, identity));
    assert forall|i: int|
        0 <= i < subjects.len() && (#[trigger] subjects[i]).kind == crate::model::SubjectKind::User
            implies expand(subjects, identity).contains(subjects[i].name@) by {
        assert(subject_names(subjects[i], identity)[0] == subjects[i].name@);
        lemma_raw_names_has_subject(subjects, identity, i, subjects[i].name@);
        lemma_dedup_contains(raw_names(subjects, identity), subjects[i].name@);
    }
    assert forall|i: int, j: int|
        0 <= i < subjects.len() && subjects[i].kind == crate::model::SubjectKind::Group && (lookup(
            identity.groups@,
            subjects[i].name@,
        ) matches Some(g) && 0 <= j < g.spec.members@.len()) implies expand(subjects, identity).contains(
        #[trigger] lookup(identity.groups@, subjects[i].name@)->0.spec.members@[j]@,
    ) by {
        let g = lookup(identity.groups@, subjects[i].name@)->0;
        let x = g.spec.members@[j]@;
        assert(subject_names(subjects[i], identity)[j] == x);
        lemma_raw_names_has_subject(subjects, identity, i, x);
        lemma_dedup_contains(raw_names(subjects, identity), x);
    }
}

/// A rule applies to every host that its host list names, and to every
/// host at all when that list holds `*`.
pub proof fn law_rule_reaches_listed_hosts(
    rule: crate::model::HostAccessResource,
    h: Seq<char>,
    labels: Option<Seq<(String, String)>>,
    identity: IdentityState,
    i: int,
)
    requires
        0 <= i < rule.spec.targets.hosts@.len(),
        rule.spec.targets.hosts@[i]@ == h || rule.spec.targets.hosts@[i]@ == "*"@,
    ensures
        rule_matches(rule, h, labels, identity),
{
    assert(crate::resolve::host_listed(rule.spec.targets.hosts@, h));
}

/// A rule applies to every host listed by a host group that it targets.
pub proof fn law_rule_reaches_group_members(
    rule: crate::model::HostAccessResource,
    h: Seq<char>,
    labels: Option<Seq<(String, String)>>,
    identity: IdentityState,
    g: int,
    j: int,
)
    requires
        0 <= g < rule.spec.targets.host_groups@.len(),
        lookup(identity.host_groups@, rule.spec.targets.host_groups@[g]@) matches Some(hg) && 0 <= j
            < hg.spec.hosts@.len() && hg.spec.hosts@[j]@ == h,
    ensures
        rule_matches(rule, h, labels, identity),
{
    let hg = lookup(identity.host_groups@, rule.spec.targets.host_groups@[g]@)->0;
    assert(str_views(hg.spec.hosts@)[j] == h);
    assert(group_contains(identity, rule.spec.targets.host_groups@[g]@, h));
}

/// A rule reaches a host through one of its label selectors exactly when
/// every (key, value) pair of that selector is among the host's labels with
/// that value: a selector whose pairs all hold lets the rule apply.
pub proof fn law_selector_with_all_labels_applies(
    rule: crate::model::HostAccessResource,
    h: Seq<char>,
    labels: Seq<(String, String)>,
    identity: IdentityState,
    s: int,
)
    requires
        0 <= s < rule.spec.targets.host_selectors@.len(),
        forall|k: int|
            0 <= k < rule.spec.targets.host_selectors@[s]@.len() ==> (lookup(
                labels,
                #[trigger] rule.spec.targets.host_selectors@[s]@[k].0@,
            ) matches Some(v) && v@ == rule.spec.targets.host_selectors@[s]@[k].1@),
    ensures
        rule_matches(rule, h, Some(labels), identity),
{
    let sel = rule.spec.targets.host_selectors@[s]@;
    assert forall|k: int| 0 <= k < sel.len() implies match lookup(labels, #[trigger] sel[k].0@) {
        Some(v) => v@ == sel[k].1@,
        None => false,
    } by {
        assert(sel[k] == rule.spec.targets.host_selectors@[s]@[k]);
    }
    assert(crate::resolve::selector_matches(sel, labels));
}

/// A rule that names neither the host (nor `*`) nor a host group holding
/// it does not apply when each of its selectors has a pair that the host's
/// labels lack or hold with another value (or when it has no labels).
pub proof fn law_selector_missing_a_label_does_not_apply(
    rule: crate::model::HostAccessResource,
    h: Seq<char>,
    labels: Option<Seq<(String, String)>>,
    identity: IdentityState,
)
    requires
        !crate::resolve::host_listed(rule.spec.targets.hosts@, h),
        forall|g: int|
            0 <= g < rule.spec.targets.host_groups@.len() ==> !group_contains(
                identity,
                #[trigger] rule.spec.targets.host_groups@[g]@,
                h,
            ),
        labels matches Some(ls) ==> forall|s: int|
            #![trigger rule.spec.targets.host_selectors@[s]]
            0 <= s < rule.spec.targets.host_selectors@.len() ==> exists|k: int|
                0 <= k < rule.spec.targets.host_selectors@[s]@.len() && !(lookup(
                    ls,
                    #[trigger] rule.spec.targets.host_selectors@[s]@[k].0@,
                ) matches Some(v) && v@ == rule.spec.targets.host_selectors@[s]@[k].1@),
    ensures
        !rule_matches(rule, h, labels, identity),
{
    let t = rule.spec.targets;
    if let Some(ls) = labels {
        assert forall|s: int| 0 <= s < t.host_selectors.len() implies !crate::resolve::selector_matches(
            #[trigger] t.host_selectors@[s]@,
            ls,
        ) by {
            let k = choose|k: int|
                0 <= k < t.host_selectors@[s]@.len() && !(lookup(ls, #[trigger] t.host_selectors@[s]@[k].0@) matches Some(
                    v,
                ) && v@ == t.host_selectors@[s]@[k].1@);
            assert(t.host_selectors@[s]@[k] == t.host_selectors@[s]@[k]);
        }
    }
}

} // verus!
