use vstd::prelude::*;
use crate::model::{BareMetalHost, CloudConfigUser, HostMetadata, PublicKeyEntry, str_views};
use crate::order::views;
use crate::resolve::contains_str;
use crate::config::TemplateAssignmentConfig;
use crate::ignition::{base_ignition, build_ignition, ignition_text, is_mergeable, merge_ignition, merged_ignition_doc, mergeable};
use crate::json::{JsonValue, JsonView, json_document, jv, jv_members, parse_json, pretty, push_member};
use crate::keyed::{distinct_keys, find_key, key_pos, lemma_put_entry_lookup, lemma_remove_entry_lookup, lookup, put_result, remove_result};
use crate::templates::{
    Assignment, AssignmentsFile, LoadedTemplate, OneshotState, TemplateFormat, content_type_of, substitute_variables,
    substituted,
};
use crate::text::{
    chars_of, first_pos, has_infix, has_prefix, is_digit, join, join_strings, last_pos, lines, lines_of,
    str_contains, str_starts_with, sub_string,
};

verus! {

/// `sshkey --username=USER "KEY"`.
pub open spec fn sshkey_line(user: Seq<char>, key: Seq<char>) -> Seq<char> {
    "sshkey --username="@ + user + " \""@ + key + "\""@
}

/// One `sshkey` line per key.
pub open spec fn key_lines(user: Seq<char>, keys: Seq<Seq<char>>) -> Seq<Seq<char>> {
    keys.map_values(|k: Seq<char>| sshkey_line(user, k))
}

/// ` --groups=a,b` for a non-empty group list, nothing otherwise.
pub open spec fn groups_option(groups: Seq<Seq<char>>) -> Seq<char> {
    if groups.len() == 0 {
        Seq::empty()
    } else {
        " --groups="@ + join(groups, ","@)
    }
}

/// `user --name=N --uid=U[ --groups=G]SEP--shell=S`.
pub open spec fn user_line(u: CloudConfigUser, sep: Seq<char>) -> Seq<char> {
    "user --name="@ + u.name@ + " --uid="@ + u.uid@ + groups_option(str_views(u.groups@)) + sep + "--shell="@
        + u.shell@
}

/// The system user of a key entry gets `sshkey` lines: always when
/// `all` holds, else only for root and for users that are also created.
pub open spec fn keys_included(pk: PublicKeyEntry, all: bool, created: Seq<Seq<char>>) -> bool {
    all || pk.ssh_user@ == "root"@ || created.contains(pk.ssh_user@)
}

/// The `sshkey` lines of the system users.
pub open spec fn system_key_lines(pks: Seq<PublicKeyEntry>, all: bool, created: Seq<Seq<char>>) -> Seq<Seq<char>>
    decreases pks.len(),
{
    if pks.len() == 0 {
        Seq::empty()
    } else {
        system_key_lines(pks.drop_last(), all, created) + if keys_included(pks.last(), all, created) {
            key_lines(pks.last().ssh_user@, str_views(pks.last().keys@))
        } else {
            Seq::empty()
        }
    }
}

/// A `user` line and the `sshkey` lines of each identity user.
pub open spec fn user_block_lines(users: Seq<CloudConfigUser>, sep: Seq<char>) -> Seq<Seq<char>>
    decreases users.len(),
{
    if users.len() == 0 {
        Seq::empty()
    } else {
        user_block_lines(users.drop_last(), sep) + seq![user_line(users.last(), sep)] + key_lines(
            users.last().name@,
            str_views(users.last().ssh_authorized_keys@),
        )
    }
}

/// The names of the identity users of a host.
pub open spec fn identity_user_names(meta: HostMetadata) -> Seq<Seq<char>> {
    crate::resolve::cloud_user_names(meta.cloud_config.users@)
}

/// The lines of the kickstart generated for a host without a base config.
pub open spec fn generated_kickstart_lines(meta: HostMetadata) -> Seq<Seq<char>> {
    seq![
        "#version=RHEL9"@,
        "# Generated by CloudID"@,
        Seq::<char>::empty(),
        "lang en_US.UTF-8"@,
        "keyboard us"@,
        "timezone UTC --utc"@,
        "network --hostname="@ + meta.hostname@,
        "rootpw --lock"@,
        Seq::<char>::empty(),
    ] + system_key_lines(meta.public_keys@, true, Seq::empty()) + user_block_lines(
        meta.cloud_config.users@,
        " "@,
    ) + seq![
        Seq::<char>::empty(),
        "reboot"@,
        Seq::<char>::empty(),
        "%packages"@,
        "@core"@,
        "%end"@,
    ]
}

fn lit(s: &str) -> (r: String)
    ensures
        r@ == s@,
{
    String::from_str(s)
}

fn push_line(out: &mut Vec<String>, line: String)
    ensures
        views(final(out)@) == views(old(out)@).push(line@),
{
    let ghost before = out@;
    out.push(line);
    assert(views(out@) =~= views(before).push(line@));
}

fn sshkey_line_exec(user: &str, key: &str) -> (r: String)
    ensures
        r@ == sshkey_line(user@, key@),
{
    let mut s = lit("sshkey --username=");
    s.append(user);
    s.append(" \"");
    s.append(key);
    s.append("\"");
    s
}

fn push_key_lines(out: &mut Vec<String>, user: &str, keys: &Vec<String>)
    ensures
        views(final(out)@) == views(old(out)@) + key_lines(user@, views(keys@)),
{
    let ghost start = views(out@);
    let mut i: usize = 0;
    while i < keys.len()
        invariant
            i <= keys.len(),
            views(out@) == start + key_lines(user@, views(keys@).subrange(0, i as int)),
        decreases keys.len() - i,
    {
        push_line(out, sshkey_line_exec(user, keys[i].as_str()));
        i = i + 1;
        assert(key_lines(user@, views(keys@).subrange(0, i as int)) =~= key_lines(
            user@,
            views(keys@).subrange(0, i - 1),
        ).push(sshkey_line(user@, keys@[i - 1]@)));
    }
    assert(views(keys@).subrange(0, keys.len() as int) =~= views(keys@));
}

fn user_line_exec(u: &CloudConfigUser, sep: &str) -> (r: String)
    ensures
        r@ == user_line(*u, sep@),
{
    let mut s = lit("user --name=");
    s.append(u.name.as_str());
    s.append(" --uid=");
    s.append(u.uid.as_str());
    if u.groups.len() > 0 {
        s.append(" --groups=");
        s.append(join_strings(&u.groups, ",").as_str());
    }
    s.append(sep);
    s.append("--shell=");
    s.append(u.shell.as_str());
    s
}

fn push_system_key_lines(out: &mut Vec<String>, pks: &Vec<PublicKeyEntry>, all: bool, created: &Vec<String>)
    ensures
        views(final(out)@) == views(old(out)@) + system_key_lines(pks@, all, views(created@)),
{
    let ghost start = views(out@);
    let mut i: usize = 0;
    while i < pks.len()
        invariant
            i <= pks.len(),
            views(out@) == start + system_key_lines(pks@.subrange(0, i as int), all, views(created@)),
        decreases pks.len() - i,
    {
        let pk = &pks[i];
        assert(pks@.subrange(0, i + 1).drop_last() =~= pks@.subrange(0, i as int));
        let wanted = all || crate::text::str_eq(pk.ssh_user.as_str(), "root") || contains_str(
            created,
            pk.ssh_user.as_str(),
        );
        if wanted {
            push_key_lines(out, pk.ssh_user.as_str(), &pk.keys);
        }
        i = i + 1;
        assert(views(out@) =~= start + system_key_lines(pks@.subrange(0, i as int), all, views(created@)));
    }
    assert(pks@.subrange(0, pks.len() as int) =~= pks@);
}

fn push_user_blocks(out: &mut Vec<String>, users: &Vec<CloudConfigUser>, sep: &str)
    ensures
        views(final(out)@) == views(old(out)@) + user_block_lines(users@, sep@),
{
    let ghost start = views(out@);
    let mut i: usize = 0;
    while i < users.len()
        invariant
            i <= users.len(),
            views(out@) == start + user_block_lines(users@.subrange(0, i as int), sep@),
        decreases users.len() - i,
    {
        let u = &users[i];
        assert(users@.subrange(0, i + 1).drop_last() =~= users@.subrange(0, i as int));
        push_line(out, user_line_exec(u, sep));
        push_key_lines(out, u.name.as_str(), &u.ssh_authorized_keys);
        i = i + 1;
        assert(views(out@) =~= start + user_block_lines(users@.subrange(0, i as int), sep@));
    }
    assert(users@.subrange(0, users.len() as int) =~= users@);
}

/// The names of the identity users of a host, as strings.
fn identity_names(meta: &HostMetadata) -> (r: Vec<String>)
    ensures
        views(r@) == identity_user_names(*meta),
{
    let users = &meta.cloud_config.users;
    let mut r: Vec<String> = Vec::new();
    let mut i: usize = 0;
    while i < users.len()
        invariant
            i <= users.len(),
            users == &meta.cloud_config.users,
            views(r@) == identity_user_names(*meta).subrange(0, i as int),
        decreases users.len() - i,
    {
        push_line(&mut r, users[i].name.clone());
        i = i + 1;
        assert(views(r@) =~= identity_user_names(*meta).subrange(0, i as int));
    }
    assert(identity_user_names(*meta).subrange(0, users.len() as int) =~= identity_user_names(*meta));
    r
}

/// Generate a default kickstart config from HostMetadata (no BMH base).
pub fn generate_kickstart(meta: &HostMetadata) -> (ks: String)
    ensures
        ks@ == join(generated_kickstart_lines(*meta), "\n"@) + "\n"@,
{
    let mut out: Vec<String> = Vec::new();
    push_line(&mut out, lit("#version=RHEL9"));
    push_line(&mut out, lit("# Generated by CloudID"));
    push_line(&mut out, String::new());
    push_line(&mut out, lit("lang en_US.UTF-8"));
    push_line(&mut out, lit("keyboard us"));
    push_line(&mut out, lit("timezone UTC --utc"));
    let mut net = lit("network --hostname=");
    net.append(meta.hostname.as_str());
    push_line(&mut out, net);
    push_line(&mut out, lit("rootpw --lock"));
    push_line(&mut out, String::new());
    let ghost head = views(out@);
    let none: Vec<String> = Vec::new();
    push_system_key_lines(&mut out, &meta.public_keys, true, &none);
    proof {
        assert(views(none@) =~= Seq::<Seq<char>>::empty());
    }
    push_user_blocks(&mut out, &meta.cloud_config.users, " ");
    push_line(&mut out, String::new());
    push_line(&mut out, lit("reboot"));
    push_line(&mut out, String::new());
    push_line(&mut out, lit("%packages"));
    push_line(&mut out, lit("@core"));
    push_line(&mut out, lit("%end"));
    assert(views(out@) =~= generated_kickstart_lines(*meta));
    let mut ks = join_strings(&out, "\n");
    ks.append("\n");
    ks
}

/// A line that opens the `%packages` or `%post` section.
pub open spec fn opens_section(l: Seq<char>) -> bool {
    has_prefix(l, "%packages"@) || has_prefix(l, "%post"@)
}

/// The index of the first line that opens a `%packages` or `%post`
/// section, or the number of lines when none does.
pub open spec fn section_pos(ls: Seq<Seq<char>>) -> int
    decreases ls.len(),
{
    if ls.len() == 0 {
        0
    } else if opens_section(ls[0]) {
        0
    } else {
        1 + section_pos(ls.drop_first())
    }
}

/// Some line already sets the host name on a `network` line.
pub open spec fn sets_hostname(ls: Seq<Seq<char>>) -> bool {
    exists|i: int| 0 <= i < ls.len() && has_prefix(#[trigger] ls[i], "network"@) && has_infix(ls[i], "--hostname"@)
}

/// The lines that merging adds to a base kickstart: the host name unless
/// the base sets it, the keys of root and of system users that are also
/// created, then each identity user with its keys.
pub open spec fn merge_extra_lines(meta: HostMetadata, ls: Seq<Seq<char>>) -> Seq<Seq<char>> {
    (if sets_hostname(ls) {
        Seq::<Seq<char>>::empty()
    } else {
        seq!["network --hostname="@ + meta.hostname@]
    }) + system_key_lines(meta.public_keys@, false, identity_user_names(meta)) + user_block_lines(
        meta.cloud_config.users@,
        "  "@,
    )
}

/// The lines of a base kickstart with the identity lines merged in: the
/// added lines and a blank line stand just before the first `%packages`
/// or `%post` line (at the end when there is none).
pub open spec fn merged_kickstart_lines(base: Seq<char>, meta: HostMetadata) -> Seq<Seq<char>> {
    let ls = lines(base);
    let extra = merge_extra_lines(meta, ls);
    if extra.len() == 0 {
        ls
    } else {
        ls.take(section_pos(ls)) + extra.push(Seq::<char>::empty()) + ls.skip(section_pos(ls))
    }
}

proof fn lemma_section_pos(ls: Seq<Seq<char>>, i: int)
    requires
        0 <= i <= ls.len(),
        forall|j: int| 0 <= j < i ==> !opens_section(#[trigger] ls[j]),
        i == ls.len() || opens_section(ls[i]),
    ensures
        section_pos(ls) == i,
    decreases i,
{
    if i > 0 {
        assert forall|j: int| 0 <= j < i - 1 implies !opens_section(#[trigger] ls.drop_first()[j]) by {
            assert(ls.drop_first()[j] == ls[j + 1]);
        }
        assert(!opens_section(ls[0]));
        lemma_section_pos(ls.drop_first(), i - 1);
    }
}

fn find_section(ls: &Vec<String>) -> (pos: usize)
    ensures
        pos == section_pos(views(ls@)),
        pos <= ls.len(),
{
    let mut i: usize = 0;
    while i < ls.len()
        invariant
            i <= ls.len(),
            forall|j: int| 0 <= j < i ==> !opens_section(#[trigger] views(ls@)[j]),
        decreases ls.len() - i,
    {
        let l = ls[i].as_str();
        if str_starts_with(l, "%packages") || str_starts_with(l, "%post") {
            proof {
                lemma_section_pos(views(ls@), i as int);
            }
            return i;
        }
        i = i + 1;
    }
    proof {
        lemma_section_pos(views(ls@), i as int);
    }
    i
}

fn has_hostname_line(ls: &Vec<String>) -> (r: bool)
    ensures
        r == sets_hostname(views(ls@)),
{
    let mut i: usize = 0;
    while i < ls.len()
        invariant
            i <= ls.len(),
            forall|j: int|
                0 <= j < i ==> !(has_prefix(#[trigger] views(ls@)[j], "network"@) && has_infix(
                    views(ls@)[j],
                    "--hostname"@,
                )),
        decreases ls.len() - i,
    {
        let l = ls[i].as_str();
        if str_starts_with(l, "network") && str_contains(l, "--hostname") {
            assert(has_prefix(views(ls@)[i as int], "network"@));
            return true;
        }
        i = i + 1;
    }
    false
}

/// Merge SSH keys and users into a base kickstart config.
pub fn merge_kickstart(base: &str, meta: &HostMetadata) -> (r: String)
    ensures
        r@ == join(merged_kickstart_lines(base@, *meta), "\n"@),
{
    let ls = lines_of(base);
    let pos = find_section(&ls);
    let mut extra: Vec<String> = Vec::new();
    if !has_hostname_line(&ls) {
        let mut net = lit("network --hostname=");
        net.append(meta.hostname.as_str());
        push_line(&mut extra, net);
    }
    let created = identity_names(meta);
    push_system_key_lines(&mut extra, &meta.public_keys, false, &created);
    push_user_blocks(&mut extra, &meta.cloud_config.users, "  ");
    assert(views(extra@) =~= merge_extra_lines(*meta, lines(base@)));
    if extra.len() == 0 {
        return join_strings(&ls, "\n");
    }
    push_line(&mut extra, String::new());
    let mut out: Vec<String> = Vec::new();
    let mut i: usize = 0;
    while i < pos
        invariant
            pos == section_pos(views(ls@)),
            pos <= ls.len(),
            i <= pos,
            views(out@) == views(ls@).take(i as int),
        decreases pos - i,
    {
        push_line(&mut out, ls[i].clone());
        i = i + 1;
        assert(views(out@) =~= views(ls@).take(i as int));
    }
    let mut k: usize = 0;
    while k < extra.len()
        invariant
            k <= extra.len(),
            views(out@) == views(ls@).take(pos as int) + views(extra@).take(k as int),
        decreases extra.len() - k,
    {
        push_line(&mut out, extra[k].clone());
        k = k + 1;
        assert(views(out@) =~= views(ls@).take(pos as int) + views(extra@).take(k as int));
    }
    let mut j: usize = pos;
    while j < ls.len()
        invariant
            pos <= j <= ls.len(),
            views(out@) == views(ls@).take(pos as int) + views(extra@) + views(ls@).subrange(pos as int, j as int),
        decreases ls.len() - j,
    {
        push_line(&mut out, ls[j].clone());
        j = j + 1;
        assert(views(out@) =~= views(ls@).take(pos as int) + views(extra@) + views(ls@).subrange(
            pos as int,
            j as int,
        ));
    }
    assert(views(extra@).take(extra.len() as int) =~= views(extra@));
    assert(views(ls@).subrange(pos as int, ls.len() as int) =~= views(ls@).skip(pos as int));
    assert(views(out@) =~= merged_kickstart_lines(base@, *meta));
    join_strings(&out, "\n")
}

/// The kickstart served to a host: its BareMetalHost's base kickstart with
/// the identity lines merged in, or a generated one when there is none.
pub open spec fn kickstart_text(meta: HostMetadata, base: Option<Seq<char>>) -> Seq<char> {
    match base {
        Some(b) => join(merged_kickstart_lines(b, meta), "\n"@),
        None => join(generated_kickstart_lines(meta), "\n"@) + "\n"@,
    }
}

/// The base kickstart a BareMetalHost carries, if any.
pub open spec fn base_kickstart(bmh: Option<&BareMetalHost>) -> Option<Seq<char>> {
    match bmh {
        Some(b) => match b.spec.kickstart {
            Some(k) => Some(k@),
            None => None,
        },
        None => None,
    }
}

/// Build the kickstart config for a host.
pub fn build_kickstart(meta: &HostMetadata, bmh: Option<&BareMetalHost>) -> (r: String)
    ensures
        r@ == kickstart_text(*meta, base_kickstart(bmh)),
{
    match bmh {
        Some(b) => match &b.spec.kickstart {
            Some(k) => merge_kickstart(k.as_str(), meta),
            None => generate_kickstart(meta),
        },
        None => generate_kickstart(meta),
    }
}

/// The two halves of a template reference around its first `/`, if it has one.
pub open spec fn split_ref(r: Seq<char>) -> Option<(Seq<char>, Seq<char>)> {
    let p = first_pos(r, '/');
    if p < r.len() {
        Some((r.subrange(0, p), r.subrange(p + 1, r.len() as int)))
    } else {
        None
    }
}

/// The base image type of an image name: the name without a last `-`
/// part that starts with a digit ("fcos-44" is "fcos").
pub open spec fn image_type_of(image: Seq<char>) -> Seq<char> {
    let p = last_pos(image, '-');
    if p >= 0 && p + 1 < image.len() && is_digit(image[p + 1]) {
        image.subrange(0, p)
    } else {
        image
    }
}

/// A BareMetalHost's template reference as (image type, file name): the
/// parts around the first `/`, or the host's image type and the whole reference.
pub open spec fn template_ref_of(r: Seq<char>, image: Seq<char>) -> (Seq<char>, Seq<char>) {
    match split_ref(r) {
        Some(pair) => pair,
        None => (image_type_of(image), r),
    }
}

/// A configured template reference as (image type, file name): the parts
/// around the first `/`, or "default" and the whole reference.
pub open spec fn config_template_ref_of(r: Seq<char>) -> (Seq<char>, Seq<char>) {
    match split_ref(r) {
        Some(pair) => pair,
        None => ("default"@, r),
    }
}

fn split_ref_exec(r: &str) -> (out: Option<(String, String)>)
    ensures
        match out {
            Some(p) => split_ref(r@) == Some((p.0@, p.1@)),
            None => split_ref(r@) is None,
        },
{
    let cs = chars_of(r);
    match crate::text::find_char(&cs, '/') {
        Some(pos) => Some((sub_string(&cs, 0, pos), sub_string(&cs, pos + 1, cs.len()))),
        None => None,
    }
}

/// Extract the base image type from a BMH image string.
/// e.g., "fcos-44" -> "fcos", "fedora-9" -> "fedora", "ubuntu-24.04" -> "ubuntu"
pub fn extract_image_type(image: &str) -> (r: String)
    ensures
        r@ == image_type_of(image@),
{
    let cs = chars_of(image);
    match crate::text::rfind_char(&cs, '-') {
        Some(pos) => {
            if pos + 1 < cs.len() && '0' <= cs[pos + 1] && cs[pos + 1] <= '9' {
                return sub_string(&cs, 0, pos);
            }
            String::from_str(image)
        },
        None => String::from_str(image),
    }
}

/// Parse a template reference like "fcos/agent-runner.ign.json" or
/// "agent-runner.ign.json"; without a slash the image type comes from the
/// BareMetalHost's image.
pub fn parse_template_ref(tpl_ref: &str, bmh: &BareMetalHost) -> (r: (String, String))
    ensures
        (r.0@, r.1@) == template_ref_of(tpl_ref@, bmh.spec.image@),
{
    match split_ref_exec(tpl_ref) {
        Some(pair) => pair,
        None => (extract_image_type(bmh.spec.image.as_str()), String::from_str(tpl_ref)),
    }
}

/// Parse a config-based template reference ("image_type/name"; a bare name
/// has image type "default").
pub fn parse_config_template_ref(tpl_ref: &str) -> (r: (String, String))
    ensures
        (r.0@, r.1@) == config_template_ref_of(tpl_ref@),
{
    match split_ref_exec(tpl_ref) {
        Some(pair) => pair,
        None => (String::from_str("default"), String::from_str(tpl_ref)),
    }
}

/// The template reference a BareMetalHost carries, if it names a non-empty one.
pub open spec fn bmh_template(bmh: Option<&BareMetalHost>) -> Option<(Seq<char>, Seq<char>)> {
    match bmh {
        Some(b) => match b.spec.template {
            Some(t) => if t@.len() > 0 {
                Some(template_ref_of(t@, b.spec.image@))
            } else {
                None
            },
            None => None,
        },
        None => None,
    }
}

/// A configured assignment rule names the host, or every host with "*".
pub open spec fn rule_applies(rule: TemplateAssignmentConfig, hostname: Seq<char>) -> bool {
    str_views(rule.hosts@).contains(hostname) || str_views(rule.hosts@).contains("*"@)
}

/// Position of the first rule that applies to the host, or the number of rules.
pub open spec fn first_rule(rules: Seq<TemplateAssignmentConfig>, hostname: Seq<char>) -> int
    decreases rules.len(),
{
    if rules.len() == 0 {
        0
    } else if rule_applies(rules[0], hostname) {
        0
    } else {
        1 + first_rule(rules.drop_first(), hostname)
    }
}

/// Which template applies to a host, as (image type, file name): the
/// BareMetalHost's own reference, else its REST assignment, else the first
/// configured rule that names it.
pub open spec fn template_ref_for(
    hostname: Seq<char>,
    bmh: Option<&BareMetalHost>,
    assignments: Seq<(String, Assignment)>,
    rules: Seq<TemplateAssignmentConfig>,
) -> Option<(Seq<char>, Seq<char>)> {
    match bmh_template(bmh) {
        Some(r) => Some(r),
        None => match lookup(assignments, hostname) {
            Some(a) => Some((a.image_type@, a.template@)),
            None => if first_rule(rules, hostname) < rules.len() {
                Some(config_template_ref_of(rules[first_rule(rules, hostname)].template@))
            } else {
                None
            },
        },
    }
}

proof fn lemma_first_rule(rules: Seq<TemplateAssignmentConfig>, hostname: Seq<char>, i: int)
    requires
        0 <= i <= rules.len(),
        forall|j: int| 0 <= j < i ==> !rule_applies(#[trigger] rules[j], hostname),
        i == rules.len() || rule_applies(rules[i], hostname),
    ensures
        first_rule(rules, hostname) == i,
    decreases i,
{
    if i > 0 {
        assert forall|j: int| 0 <= j < i - 1 implies !rule_applies(#[trigger] rules.drop_first()[j], hostname) by {
            assert(rules.drop_first()[j] == rules[j + 1]);
        }
        assert(!rule_applies(rules[0], hostname));
        lemma_first_rule(rules.drop_first(), hostname, i - 1);
    }
}

fn find_rule(rules: &Vec<TemplateAssignmentConfig>, hostname: &str) -> (r: usize)
    ensures
        r == first_rule(rules@, hostname@),
        r <= rules.len(),
{
    let mut i: usize = 0;
    while i < rules.len()
        invariant
            i <= rules.len(),
            forall|j: int| 0 <= j < i ==> !rule_applies(#[trigger] rules@[j], hostname@),
        decreases rules.len() - i,
    {
        if contains_str(&rules[i].hosts, hostname) || contains_str(&rules[i].hosts, "*") {
            proof {
                lemma_first_rule(rules@, hostname@, i as int);
            }
            return i;
        }
        i = i + 1;
    }
    proof {
        lemma_first_rule(rules@, hostname@, i as int);
    }
    i
}

/// Resolve which template applies to a host, as (image type, file name).
pub fn resolve_template_ref(
    hostname: &str,
    bmh: Option<&BareMetalHost>,
    assignments: &AssignmentsFile,
    rules: &Vec<TemplateAssignmentConfig>,
) -> (r: Option<(String, String)>)
    ensures
        match r {
            Some(p) => template_ref_for(hostname@, bmh, assignments.assignments@, rules@) == Some((p.0@, p.1@)),
            None => template_ref_for(hostname@, bmh, assignments.assignments@, rules@) is None,
        },
{
    match bmh {
        Some(b) => match &b.spec.template {
            Some(t) => {
                if chars_of(t.as_str()).len() > 0 {
                    return Some(parse_template_ref(t.as_str(), b));
                }
            },
            None => {},
        },
        None => {},
    }
    proof {
        crate::keyed::lemma_key_pos(assignments.assignments@, hostname@);
    }
    match find_key(&assignments.assignments, hostname) {
        Some(i) => {
            let a = &assignments.assignments[i].1;
            return Some((a.image_type.clone(), a.template.clone()));
        },
        None => {},
    }
    let k = find_rule(rules, hostname);
    if k < rules.len() {
        Some(parse_config_template_ref(rules[k].template.as_str()))
    } else {
        None
    }
}

/// The template to serve a host, as (image type, file name): none once the
/// host has completed a oneshot template, else the one that applies to it.
pub open spec fn template_choice(
    completed: Seq<(String, String)>,
    hostname: Seq<char>,
    bmh: Option<&BareMetalHost>,
    assignments: Seq<(String, Assignment)>,
    rules: Seq<TemplateAssignmentConfig>,
) -> Option<(Seq<char>, Seq<char>)> {
    if key_pos(completed, hostname) < completed.len() {
        None
    } else {
        template_ref_for(hostname, bmh, assignments, rules)
    }
}

/// The first steps of template resolution: a host that completed a oneshot
/// gets none; otherwise the BMH reference, the REST assignment, or the
/// first configured rule, in that order.
pub fn select_template(
    oneshot: &OneshotState,
    hostname: &str,
    bmh: Option<&BareMetalHost>,
    assignments: &AssignmentsFile,
    rules: &Vec<TemplateAssignmentConfig>,
) -> (r: Option<(String, String)>)
    ensures
        match r {
            Some(p) => template_choice(oneshot.completed@, hostname@, bmh, assignments.assignments@, rules@) == Some(
                (p.0@, p.1@),
            ),
            None => template_choice(oneshot.completed@, hostname@, bmh, assignments.assignments@, rules@) is None,
        },
{
    if find_key(&oneshot.completed, hostname).is_some() {
        return None;
    }
    resolve_template_ref(hostname, bmh, assignments, rules)
}

/// The file names under which a template reference is looked for: the name
/// itself, then with the `.ign.json`, `.ks` and `.yaml` extensions.
pub open spec fn template_candidates(name: Seq<char>) -> Seq<Seq<char>> {
    seq![name, name + ".ign.json"@, name + ".ks"@, name + ".yaml"@]
}

/// The file names to try for a template reference, in order.
pub fn template_file_candidates(name: &str) -> (r: Vec<String>)
    ensures
        views(r@) == template_candidates(name@),
{
    let mut r: Vec<String> = Vec::new();
    push_line(&mut r, lit(name));
    let mut a = lit(name);
    a.append(".ign.json");
    push_line(&mut r, a);
    let mut b = lit(name);
    b.append(".ks");
    push_line(&mut r, b);
    let mut c = lit(name);
    c.append(".yaml");
    push_line(&mut r, c);
    assert(views(r@) =~= template_candidates(name@));
    r
}

/// Result of template resolution: either a rendered config or None (boot from local).
#[derive(Debug)]
pub enum TemplateResult {
    /// Rendered config content with its format.
    Config { content: String, format: TemplateFormat },
    /// No template — use default behavior (identity-only generation).
    NoTemplate,
}

/// A loaded template's text with the host's variables substituted.
pub fn template_content(loaded: &LoadedTemplate, meta: &HostMetadata, domain_suffix: &str) -> (r: String)
    ensures
        r@ == substituted(
            loaded.content@,
            meta.hostname@,
            meta.local_ipv4@,
            meta.instance_id@,
            meta.availability_zone@,
            domain_suffix@,
            loaded.name@,
        ),
{
    substitute_variables(
        loaded.content.as_str(),
        meta.hostname.as_str(),
        meta.local_ipv4.as_str(),
        meta.instance_id.as_str(),
        meta.availability_zone.as_str(),
        domain_suffix,
        loaded.name.as_str(),
    )
}

/// The config served from a template's substituted text: an Ignition
/// template that reads as JSON gets the identity merged in (served as it
/// is otherwise), a kickstart gets the identity lines, a cloud-config is
/// served as it is.
pub open spec fn rendered_template(
    format: TemplateFormat,
    content: Seq<char>,
    parsed: Option<JsonView>,
    meta: HostMetadata,
) -> Seq<char> {
    match format {
        TemplateFormat::Ignition => match parsed {
            Some(b) => pretty(merged_ignition_doc(b, meta), 0),
            None => content,
        },
        TemplateFormat::Kickstart => join(merged_kickstart_lines(content, meta), "\n"@),
        TemplateFormat::CloudConfig => content,
    }
}

/// Finish a template: merge the host's identity into its substituted text
/// according to its format. `parsed` is the text read as JSON, when it is JSON.
pub fn finish_template(
    format: TemplateFormat,
    content: String,
    parsed: Option<&JsonValue>,
    meta: &HostMetadata,
) -> (r: TemplateResult)
    requires
        format == TemplateFormat::Ignition ==> match parsed {
            Some(b) => mergeable(jv(*b)),
            None => true,
        },
    ensures
        r matches TemplateResult::Config { content: c, format: f } && f == format && c@ == rendered_template(
            format,
            content@,
            match parsed {
                Some(b) => Some(jv(*b)),
                None => None,
            },
            *meta,
        ),
{
    let out = match format {
        TemplateFormat::Ignition => match parsed {
            Some(b) => merge_ignition(b, meta),
            None => content,
        },
        TemplateFormat::Kickstart => merge_kickstart(content.as_str(), meta),
        TemplateFormat::CloudConfig => content,
    };
    TemplateResult::Config { content: out, format }
}

/// A loaded template's text with the host's variables substituted.
pub open spec fn template_text(loaded: LoadedTemplate, meta: HostMetadata, domain_suffix: Seq<char>) -> Seq<char> {
    substituted(
        loaded.content@,
        meta.hostname@,
        meta.local_ipv4@,
        meta.instance_id@,
        meta.availability_zone@,
        domain_suffix,
        loaded.name@,
    )
}

/// What an Ignition template's substituted text reads as JSON (none for
/// other formats, or for text that is no JSON).
pub open spec fn template_json(loaded: LoadedTemplate, meta: HostMetadata, domain_suffix: Seq<char>) -> Option<
    JsonView,
> {
    if loaded.format == TemplateFormat::Ignition {
        json_document(template_text(loaded, meta, domain_suffix))
    } else {
        None
    }
}

/// Render a loaded template for a host: substitute its variables, read an
/// Ignition template as JSON and merge the identity into it (serving text
/// that is no JSON as it is), merge the identity lines into a kickstart,
/// and serve a cloud-config as it is. None for an Ignition template that
/// is JSON but cannot take the identity's users.
pub fn render_template(loaded: &LoadedTemplate, meta: &HostMetadata, domain_suffix: &str) -> (r: Option<TemplateResult>)
    ensures
        r is None <==> (template_json(*loaded, *meta, domain_suffix@) matches Some(b) && !mergeable(b)),
        r matches Some(res) ==> res matches TemplateResult::Config { content: c, format: f } && f == loaded.format
            && c@ == rendered_template(
            loaded.format,
            template_text(*loaded, *meta, domain_suffix@),
            template_json(*loaded, *meta, domain_suffix@),
            *meta,
        ),
{
    let content = template_content(loaded, meta, domain_suffix);
    let parsed = if loaded.format == TemplateFormat::Ignition {
        parse_json(content.as_str())
    } else {
        None
    };
    match &parsed {
        Some(b) => {
            if !is_mergeable(b) {
                return None;
            }
            Some(finish_template(loaded.format, content, Some(b), meta))
        },
        None => Some(finish_template(loaded.format, content, None, meta)),
    }
}

proof fn lemma_key_lines_hold(user: Seq<char>, keys: Seq<Seq<char>>, i: int)
    requires
        0 <= i < keys.len(),
    ensures
        key_lines(user, keys).contains("sshkey --username="@ + user + " \""@ + keys[i] + "\""@),
{
    assert(key_lines(user, keys)[i] == sshkey_line(user, keys[i]));
}

proof fn lemma_system_key_lines_hold(pks: Seq<PublicKeyEntry>, all: bool, created: Seq<Seq<char>>, p: int, i: int)
    requires
        0 <= p < pks.len(),
        0 <= i < pks[p].keys@.len(),
        keys_included(pks[p], all, created),
    ensures
        system_key_lines(pks, all, created).contains(
            "sshkey --username="@ + pks[p].ssh_user@ + " \""@ + pks[p].keys@[i]@ + "\""@,
        ),
    decreases pks.len(),
{
    let line = "sshkey --username="@ + pks[p].ssh_user@ + " \""@ + pks[p].keys@[i]@ + "\""@;
    let prev = system_key_lines(pks.drop_last(), all, created);
    let tail = if keys_included(pks.last(), all, created) {
        key_lines(pks.last().ssh_user@, str_views(pks.last().keys@))
    } else {
        Seq::empty()
    };
    if p == pks.len() - 1 {
        assert(str_views(pks.last().keys@)[i] == pks[p].keys@[i]@);
        lemma_key_lines_hold(pks.last().ssh_user@, str_views(pks.last().keys@), i);
        crate::access::lemma_contains_concat(prev, tail, line);
    } else {
        assert(pks.drop_last()[p] == pks[p]);
        lemma_system_key_lines_hold(pks.drop_last(), all, created, p, i);
        crate::access::lemma_contains_concat(prev, tail, line);
    }
}

proof fn lemma_user_block_lines_hold(users: Seq<CloudConfigUser>, sep: Seq<char>, u: int, i: int)
    requires
        0 <= u < users.len(),
        0 <= i < users[u].ssh_authorized_keys@.len(),
    ensures
        user_block_lines(users, sep).contains(
            "sshkey --username="@ + users[u].name@ + " \""@ + users[u].ssh_authorized_keys@[i]@ + "\""@,
        ),
    decreases users.len(),
{
    let line = "sshkey --username="@ + users[u].name@ + " \""@ + users[u].ssh_authorized_keys@[i]@ + "\""@;
    let last = users.last();
    let prev = user_block_lines(users.drop_last(), sep) + seq![user_line(last, sep)];
    let tail = key_lines(last.name@, str_views(last.ssh_authorized_keys@));
    assert(user_block_lines(users, sep) == prev + tail);
    if u == users.len() - 1 {
        assert(str_views(last.ssh_authorized_keys@)[i] == users[u].ssh_authorized_keys@[i]@);
        lemma_key_lines_hold(last.name@, str_views(last.ssh_authorized_keys@), i);
        crate::access::lemma_contains_concat(prev, tail, line);
    } else {
        assert(users.drop_last()[u] == users[u]);
        lemma_user_block_lines_hold(users.drop_last(), sep, u, i);
        crate::access::lemma_contains_concat(user_block_lines(users.drop_last(), sep), seq![user_line(last, sep)], line);
        crate::access::lemma_contains_concat(prev, tail, line);
    }
}

/// A user's `sshkey` lines are one per key, in the order of the keys, each
/// naming the user and quoting its key.
pub proof fn law_one_sshkey_line_per_key(user: Seq<char>, keys: Seq<Seq<char>>)
    ensures
        key_lines(user, keys).len() == keys.len(),
        forall|i: int|
            0 <= i < keys.len() ==> #[trigger] key_lines(user, keys)[i] == "sshkey --username="@ + user + " \""@
                + keys[i] + "\""@,
{
}

/// Every SSH key gets its own `sshkey` line, naming its user, in a
/// generated kickstart: each key of each key entry and each key of each
/// identity user.
pub proof fn law_generated_kickstart_has_every_key(meta: HostMetadata)
    ensures
        forall|p: int, i: int|
            0 <= p < meta.public_keys@.len() && 0 <= i < meta.public_keys@[p].keys@.len()
                ==> generated_kickstart_lines(meta).contains(
                "sshkey --username="@ + meta.public_keys@[p].ssh_user@ + " \""@ + #[trigger] meta.public_keys@[p].keys@[i]@
                    + "\""@,
            ),
        forall|u: int, i: int|
            0 <= u < meta.cloud_config.users@.len() && 0 <= i < meta.cloud_config.users@[u].ssh_authorized_keys@.len()
                ==> generated_kickstart_lines(meta).contains(
                "sshkey --username="@ + meta.cloud_config.users@[u].name@ + " \""@
                    + #[trigger] meta.cloud_config.users@[u].ssh_authorized_keys@[i]@ + "\""@,
            ),
{
    let head = seq![
        "#version=RHEL9"@,
        "# Generated by CloudID"@,
        Seq::<char>::empty(),
        "lang en_US.UTF-8"@,
        "keyboard us"@,
        "timezone UTC --utc"@,
        "network --hostname="@ + meta.hostname@,
        "rootpw --lock"@,
        Seq::<char>::empty(),
    ];
    let sys = system_key_lines(meta.public_keys@, true, Seq::empty());
    let blocks = user_block_lines(meta.cloud_config.users@, " "@);
    let foot = seq![
        Seq::<char>::empty(),
        "reboot"@,
        Seq::<char>::empty(),
        "%packages"@,
        "@core"@,
        "%end"@,
    ];
    assert(generated_kickstart_lines(meta) == head + sys + blocks + foot);
    assert forall|p: int, i: int|
        0 <= p < meta.public_keys@.len() && 0 <= i < meta.public_keys@[p].keys@.len()
            implies generated_kickstart_lines(meta).contains(
            "sshkey --username="@ + meta.public_keys@[p].ssh_user@ + " \""@ + #[trigger] meta.public_keys@[p].keys@[i]@
                + "\""@,
        ) by {
        let line = "sshkey --username="@ + meta.public_keys@[p].ssh_user@ + " \""@ + meta.public_keys@[p].keys@[i]@
            + "\""@;
        lemma_system_key_lines_hold(meta.public_keys@, true, Seq::empty(), p, i);
        crate::access::lemma_contains_concat(head, sys, line);
        crate::access::lemma_contains_concat(head + sys, blocks, line);
        crate::access::lemma_contains_concat(head + sys + blocks, foot, line);
    }
    assert forall|u: int, i: int|
        0 <= u < meta.cloud_config.users@.len() && 0 <= i < meta.cloud_config.users@[u].ssh_authorized_keys@.len()
            implies generated_kickstart_lines(meta).contains(
            "sshkey --username="@ + meta.cloud_config.users@[u].name@ + " \""@
                + #[trigger] meta.cloud_config.users@[u].ssh_authorized_keys@[i]@ + "\""@,
        ) by {
        let line = "sshkey --username="@ + meta.cloud_config.users@[u].name@ + " \""@
            + meta.cloud_config.users@[u].ssh_authorized_keys@[i]@ + "\""@;
        lemma_user_block_lines_hold(meta.cloud_config.users@, " "@, u, i);
        crate::access::lemma_contains_concat(head + sys, blocks, line);
        crate::access::lemma_contains_concat(head + sys + blocks, foot, line);
    }
}

/// Merging into a base kickstart gives every key of root's key entries,
/// of key entries whose user is also created, and of every identity user
/// its own `sshkey` line.
pub proof fn law_merged_kickstart_has_every_key(base: Seq<char>, meta: HostMetadata)
    ensures
        forall|p: int, i: int|
            0 <= p < meta.public_keys@.len() && 0 <= i < meta.public_keys@[p].keys@.len() && (
            meta.public_keys@[p].ssh_user@ == "root"@ || identity_user_names(meta).contains(
                meta.public_keys@[p].ssh_user@,
            )) ==> merged_kickstart_lines(base, meta).contains(
                "sshkey --username="@ + meta.public_keys@[p].ssh_user@ + " \""@ + #[trigger] meta.public_keys@[p].keys@[i]@
                    + "\""@,
            ),
        forall|u: int, i: int|
            0 <= u < meta.cloud_config.users@.len() && 0 <= i < meta.cloud_config.users@[u].ssh_authorized_keys@.len()
                ==> merged_kickstart_lines(base, meta).contains(
                "sshkey --username="@ + meta.cloud_config.users@[u].name@ + " \""@
                    + #[trigger] meta.cloud_config.users@[u].ssh_authorized_keys@[i]@ + "\""@,
            ),
{
    let ls = lines(base);
    let extra = merge_extra_lines(meta, ls);
    let head = if sets_hostname(ls) {
        Seq::<Seq<char>>::empty()
    } else {
        seq!["network --hostname="@ + meta.hostname@]
    };
    let sys = system_key_lines(meta.public_keys@, false, identity_user_names(meta));
    let blocks = user_block_lines(meta.cloud_config.users@, "  "@);
    assert(extra == head + sys + blocks);
    let pos = section_pos(ls);
    lemma_section_pos_bounds(ls);
    let m = merged_kickstart_lines(base, meta);
    assert forall|line: Seq<char>| extra.contains(line) implies m.contains(line) by {
        let j = choose|j: int| 0 <= j < extra.len() && extra[j] == line;
        assert(m == ls.take(pos) + extra.push(Seq::<char>::empty()) + ls.skip(pos));
        assert(m[pos + j] == extra[j]);
    }
    assert forall|p: int, i: int|
        0 <= p < meta.public_keys@.len() && 0 <= i < meta.public_keys@[p].keys@.len() && (
        meta.public_keys@[p].ssh_user@ == "root"@ || identity_user_names(meta).contains(
            meta.public_keys@[p].ssh_user@,
        )) implies m.contains(
            "sshkey --username="@ + meta.public_keys@[p].ssh_user@ + " \""@ + #[trigger] meta.public_keys@[p].keys@[i]@
                + "\""@,
        ) by {
        let line = "sshkey --username="@ + meta.public_keys@[p].ssh_user@ + " \""@ + meta.public_keys@[p].keys@[i]@
            + "\""@;
        lemma_system_key_lines_hold(meta.public_keys@, false, identity_user_names(meta), p, i);
        crate::access::lemma_contains_concat(head, sys, line);
        crate::access::lemma_contains_concat(head + sys, blocks, line);
    }
    assert forall|u: int, i: int|
        0 <= u < meta.cloud_config.users@.len() && 0 <= i < meta.cloud_config.users@[u].ssh_authorized_keys@.len()
            implies m.contains(
            "sshkey --username="@ + meta.cloud_config.users@[u].name@ + " \""@
                + #[trigger] meta.cloud_config.users@[u].ssh_authorized_keys@[i]@ + "\""@,
        ) by {
        let line = "sshkey --username="@ + meta.cloud_config.users@[u].name@ + " \""@
            + meta.cloud_config.users@[u].ssh_authorized_keys@[i]@ + "\""@;
        lemma_user_block_lines_hold(meta.cloud_config.users@, "  "@, u, i);
        crate::access::lemma_contains_concat(head + sys, blocks, line);
    }
}

/// A host that has completed its oneshot template is served no template,
/// whatever is assigned to it.
pub proof fn law_provisioned_host_gets_no_template(
    completed: Seq<(String, String)>,
    host: String,
    ts: String,
    bmh: Option<&BareMetalHost>,
    assignments: Seq<(String, Assignment)>,
    rules: Seq<TemplateAssignmentConfig>,
)
    ensures
        template_choice(put_result(completed, host, ts), host@, bmh, assignments, rules) is None,
{
    lemma_put_entry_lookup(completed, host, ts, host@);
}

/// Resetting a host's oneshot state serves it its template again: the
/// choice is the template that applies to it.
pub proof fn law_reset_host_gets_template_again(
    completed: Seq<(String, String)>,
    host: Seq<char>,
    bmh: Option<&BareMetalHost>,
    assignments: Seq<(String, Assignment)>,
    rules: Seq<TemplateAssignmentConfig>,
)
    requires
        distinct_keys(completed),
    ensures
        template_choice(remove_result(completed, host), host, bmh, assignments, rules) == template_ref_for(
            host,
            bmh,
            assignments,
            rules,
        ),
{
    lemma_remove_entry_lookup(completed, host, host);
}

/// A template the BareMetalHost names wins over every assignment.
pub proof fn law_bmh_template_first(
    host: Seq<char>,
    bmh: Option<&BareMetalHost>,
    assignments: Seq<(String, Assignment)>,
    rules: Seq<TemplateAssignmentConfig>,
)
    requires
        bmh_template(bmh) is Some,
    ensures
        template_ref_for(host, bmh, assignments, rules) == bmh_template(bmh),
{
}

/// A REST assignment applies to its host unless the BareMetalHost names a
/// template, whatever the configured rules say.
pub proof fn law_assignment_applies(
    assignments: Seq<(String, Assignment)>,
    host: String,
    a: Assignment,
    bmh: Option<&BareMetalHost>,
    rules: Seq<TemplateAssignmentConfig>,
)
    requires
        bmh_template(bmh) is None,
    ensures
        template_ref_for(host@, bmh, put_result(assignments, host, a), rules) == Some((a.image_type@, a.template@)),
{
    lemma_put_entry_lookup(assignments, host, a, host@);
}

/// Once its REST assignment is removed, a host without a BareMetalHost
/// template gets the first configured rule that names it (or none).
pub proof fn law_unassigned_host_falls_back(
    assignments: Seq<(String, Assignment)>,
    host: Seq<char>,
    bmh: Option<&BareMetalHost>,
    rules: Seq<TemplateAssignmentConfig>,
)
    requires
        distinct_keys(assignments),
        bmh_template(bmh) is None,
    ensures
        template_ref_for(host, bmh, remove_result(assignments, host), rules) == (if first_rule(rules, host)
            < rules.len() {
            Some(config_template_ref_of(rules[first_rule(rules, host)].template@))
        } else {
            None
        }),
{
    lemma_remove_entry_lookup(assignments, host, host);
}

/// What the template diagnostics report about a host.
#[derive(Debug)]
pub enum TemplateInfo {
    /// The IP maps to no host.
    UnknownIp,
    /// The host completed its oneshot template.
    OneshotCompleted { hostname: String },
    /// The template assigned to the host (as its source wrote it) and where
    /// the assignment comes from, when there is one.
    Assigned { hostname: String, source: Option<String>, template: Option<String> },
}

/// The configured template reference that applies to a host, with its source.
pub open spec fn config_source(hostname: Seq<char>, rules: Seq<TemplateAssignmentConfig>) -> Option<
    (Seq<char>, Seq<char>),
> {
    if first_rule(rules, hostname) < rules.len() {
        Some(("config"@, rules[first_rule(rules, hostname)].template@))
    } else {
        None
    }
}

/// Where a host's template assignment comes from, and the reference as
/// that source wrote it: the BareMetalHost ("bmh"), else the REST
/// assignments when they could be read ("rest_assignment", as
/// "image_type/template"), else the configuration ("config").
pub open spec fn info_source(
    hostname: Seq<char>,
    bmh: Option<&BareMetalHost>,
    assignments: Option<Seq<(String, Assignment)>>,
    rules: Seq<TemplateAssignmentConfig>,
) -> Option<(Seq<char>, Seq<char>)> {
    let from_bmh = match bmh {
        Some(b) => match b.spec.template {
            Some(t) => if t@.len() > 0 {
                Some(("bmh"@, t@))
            } else {
                None
            },
            None => None,
        },
        None => None,
    };
    match from_bmh {
        Some(x) => Some(x),
        None => match assignments {
            Some(a) => match lookup(a, hostname) {
                Some(x) => Some(("rest_assignment"@, x.image_type@ + "/"@ + x.template@)),
                None => config_source(hostname, rules),
            },
            None => config_source(hostname, rules),
        },
    }
}

/// The template diagnostics of a host: unknown without a host name, done
/// after a oneshot, else the assignment found and its source.
pub fn template_info_for(
    hostname: Option<String>,
    oneshot: &OneshotState,
    bmh: Option<&BareMetalHost>,
    assignments: Option<&AssignmentsFile>,
    rules: &Vec<TemplateAssignmentConfig>,
) -> (r: TemplateInfo)
    ensures
        match hostname {
            None => r is UnknownIp,
            Some(h) => if key_pos(oneshot.completed@, h@) < oneshot.completed@.len() {
                r matches TemplateInfo::OneshotCompleted { hostname: n } && n@ == h@
            } else {
                r matches TemplateInfo::Assigned { hostname: n, source, template } && n@ == h@ && match info_source(
                    h@,
                    bmh,
                    match assignments {
                        Some(a) => Some(a.assignments@),
                        None => None,
                    },
                    rules@,
                ) {
                    Some(p) => source matches Some(s) && template matches Some(t) && s@ == p.0 && t@ == p.1,
                    None => source is None && template is None,
                }
            },
        },
{
    let h = match hostname {
        Some(h) => h,
        None => return TemplateInfo::UnknownIp,
    };
    proof {
        crate::keyed::lemma_key_pos(oneshot.completed@, h@);
    }
    if find_key(&oneshot.completed, h.as_str()).is_some() {
        return TemplateInfo::OneshotCompleted { hostname: h };
    }
    match bmh {
        Some(b) => match &b.spec.template {
            Some(t) => {
                if chars_of(t.as_str()).len() > 0 {
                    return TemplateInfo::Assigned {
                        hostname: h,
                        source: Some(String::from_str("bmh")),
                        template: Some(t.clone()),
                    };
                }
            },
            None => {},
        },
        None => {},
    }
    match assignments {
        Some(a) => {
            proof {
                crate::keyed::lemma_key_pos(a.assignments@, h@);
            }
            match find_key(&a.assignments, h.as_str()) {
                Some(i) => {
                    let x = &a.assignments[i].1;
                    let mut t = x.image_type.clone();
                    t.append("/");
                    t.append(x.template.as_str());
                    return TemplateInfo::Assigned {
                        hostname: h,
                        source: Some(String::from_str("rest_assignment")),
                        template: Some(t),
                    };
                },
                None => {},
            }
        },
        None => {},
    }
    let k = find_rule(rules, h.as_str());
    if k < rules.len() {
        TemplateInfo::Assigned {
            hostname: h,
            source: Some(String::from_str("config")),
            template: Some(rules[k].template.clone()),
        }
    } else {
        TemplateInfo::Assigned { hostname: h, source: None, template: None }
    }
}

/// The lines merging adds stand together just before the first line that
/// opens `%packages` or `%post` (at the end when none does), followed by a
/// blank line; the base lines keep their order around them.
pub proof fn law_kickstart_lines_before_packages(base: Seq<char>, meta: HostMetadata)
    ensures
        ({
            let ls = lines(base);
            let m = merged_kickstart_lines(base, meta);
            let extra = merge_extra_lines(meta, ls);
            let pos = section_pos(ls);
            let added = if extra.len() == 0 { 0 } else { extra.len() + 1 };
            &&& 0 <= pos <= ls.len()
            &&& m.len() == ls.len() + added
            &&& m.subrange(0, pos) == ls.subrange(0, pos)
            &&& m.subrange(pos + added, m.len() as int) == ls.subrange(pos, ls.len() as int)
            &&& forall|j: int| 0 <= j < extra.len() ==> #[trigger] m[pos + j] == extra[j]
            &&& forall|j: int| 0 <= j < pos ==> !opens_section(#[trigger] ls[j])
        }),
{
    let ls = lines(base);
    let m = merged_kickstart_lines(base, meta);
    let extra = merge_extra_lines(meta, ls);
    let pos = section_pos(ls);
    lemma_section_pos_bounds(ls);
    if extra.len() == 0 {
        assert(m.subrange(0, pos) =~= ls.subrange(0, pos));
        assert(m.subrange(pos, m.len() as int) =~= ls.subrange(pos, ls.len() as int));
    } else {
        let added = extra.len() + 1;
        assert(m.subrange(0, pos) =~= ls.subrange(0, pos));
        assert(m.subrange(pos + added, m.len() as int) =~= ls.subrange(pos, ls.len() as int));
    }
}

proof fn lemma_section_pos_bounds(ls: Seq<Seq<char>>)
    ensures
        0 <= section_pos(ls) <= ls.len(),
        forall|j: int| 0 <= j < section_pos(ls) ==> !opens_section(#[trigger] ls[j]),
    decreases ls.len(),
{
    if ls.len() > 0 && !opens_section(ls[0]) {
        lemma_section_pos_bounds(ls.drop_first());
        assert forall|j: int| 0 <= j < section_pos(ls) implies !opens_section(#[trigger] ls[j]) by {
            if j > 0 {
                assert(ls[j] == ls.drop_first()[j - 1]);
            }
        }
    }
}

/// Which provisioning config a host asks for.
#[derive(Debug, Clone, Copy, PartialEq, Eq, Structural)]
pub enum ConfigKind {
    /// `/latest/user-data`
    UserData,
    /// `/config/ignition`
    Ignition,
    /// `/config/kickstart`
    Kickstart,
}

/// The content type and body served for a provisioning request: the
/// template's config when one applies, else the config built from the
/// identity (Ignition for user-data and Ignition, kickstart for kickstart).
pub open spec fn config_response_text(
    kind: ConfigKind,
    result: TemplateResult,
    meta: HostMetadata,
    bmh: Option<&BareMetalHost>,
) -> (Seq<char>, Seq<char>) {
    match result {
        TemplateResult::Config { content, format } => (content_type_of(format), content@),
        TemplateResult::NoTemplate => match kind {
            ConfigKind::Kickstart => ("text/plain"@, kickstart_text(meta, base_kickstart(bmh))),
            _ => ("application/json"@, ignition_text(meta, base_ignition(bmh))),
        },
    }
}

/// What to serve for a provisioning request, once template resolution is done.
pub fn config_response(
    kind: ConfigKind,
    result: TemplateResult,
    meta: &HostMetadata,
    bmh: Option<&BareMetalHost>,
) -> (r: (String, String))
    requires
        kind != ConfigKind::Kickstart && result is NoTemplate ==> match base_ignition(bmh) {
            Some(b) => mergeable(b),
            None => true,
        },
    ensures
        (r.0@, r.1@) == config_response_text(kind, result, *meta, bmh),
{
    match result {
        TemplateResult::Config { content, format } => (String::from_str(format.as_content_type()), content),
        TemplateResult::NoTemplate => match kind {
            ConfigKind::Kickstart => (String::from_str("text/plain"), build_kickstart(meta, bmh)),
            _ => (String::from_str("application/json"), build_ignition(meta, bmh)),
        },
    }
}

/// A text or null.
pub open spec fn opt_text_doc(o: Option<String>) -> JsonView {
    match o {
        Some(t) => JsonView::Str(t@),
        None => JsonView::Null,
    }
}

/// The template diagnostics answer for the requesting IP, as a JSON map
/// (keys in order).
pub open spec fn template_info_doc(ip: Seq<char>, info: TemplateInfo) -> JsonView {
    match info {
        TemplateInfo::UnknownIp => JsonView::Object(
            seq![
                ("hostname"@, JsonView::Null),
                ("ip"@, JsonView::Str(ip)),
                ("reason"@, JsonView::Str("unknown IP"@)),
                ("template"@, JsonView::Null),
            ],
        ),
        TemplateInfo::OneshotCompleted { hostname } => JsonView::Object(
            seq![
                ("hostname"@, JsonView::Str(hostname@)),
                ("ip"@, JsonView::Str(ip)),
                ("reason"@, JsonView::Str("oneshot completed"@)),
                ("template"@, JsonView::Null),
            ],
        ),
        TemplateInfo::Assigned { hostname, source, template } => JsonView::Object(
            seq![
                ("hostname"@, JsonView::Str(hostname@)),
                ("ip"@, JsonView::Str(ip)),
                ("oneshot_completed"@, JsonView::Bool(false)),
                ("source"@, opt_text_doc(source)),
                ("template"@, opt_text_doc(template)),
            ],
        ),
    }
}

fn opt_text_value(o: Option<String>) -> (r: JsonValue)
    ensures
        jv(r) == opt_text_doc(o),
{
    match o {
        Some(t) => JsonValue::Str(t),
        None => JsonValue::Null,
    }
}

/// The template diagnostics answer for the requesting IP.
pub fn template_info_value(ip: &str, info: TemplateInfo) -> (r: JsonValue)
    ensures
        jv(r) == template_info_doc(ip@, info),
{
    let ghost gi = info;
    let mut ms: Vec<(String, JsonValue)> = Vec::new();
    match info {
        TemplateInfo::UnknownIp => {
            push_member(&mut ms, "hostname", JsonValue::Null);
            push_member(&mut ms, "ip", JsonValue::Str(String::from_str(ip)));
            push_member(&mut ms, "reason", JsonValue::Str(String::from_str("unknown IP")));
            push_member(&mut ms, "template", JsonValue::Null);
        },
        TemplateInfo::OneshotCompleted { hostname } => {
            push_member(&mut ms, "hostname", JsonValue::Str(hostname));
            push_member(&mut ms, "ip", JsonValue::Str(String::from_str(ip)));
            push_member(&mut ms, "reason", JsonValue::Str(String::from_str("oneshot completed")));
            push_member(&mut ms, "template", JsonValue::Null);
        },
        TemplateInfo::Assigned { hostname, source, template } => {
            push_member(&mut ms, "hostname", JsonValue::Str(hostname));
            push_member(&mut ms, "ip", JsonValue::Str(String::from_str(ip)));
            push_member(&mut ms, "oneshot_completed", JsonValue::Bool(false));
            push_member(&mut ms, "source", opt_text_value(source));
            push_member(&mut ms, "template", opt_text_value(template));
        },
    }
    assert(jv_members(ms@) =~= template_info_doc(ip@, gi)->Object_0);
    JsonValue::Object(ms)
}

} // verus!
