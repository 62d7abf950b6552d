use vstd::prelude::*;
use crate::json::{JsonValue, JsonView, jv, jv_members, push_member};
use crate::model::{BareMetalHost, HostMetadata, str_views};
use crate::order::views;
use crate::text::{
    chars_of, decimal, decimal_string, join, join_strings, parse_u32, parse_u32_spec, push_all, replace_all,
    replace_chars, string_from_chars,
};

verus! {

/// The `meta-data/` directory listing; `network/` only for a host with metadata.
pub open spec fn meta_data_listing_text(has_meta: bool) -> Seq<char> {
    "ami-id\ninstance-id\ninstance-type\nhostname\nlocal-hostname\nlocal-ipv4\nmac\nplacement/\npublic-keys/\nservices/\n"@
        + if has_meta {
        "network/\n"@
    } else {
        Seq::empty()
    }
}

/// The `meta-data/` directory listing.
pub fn meta_data_listing(has_meta: bool) -> (r: String)
    ensures
        r@ == meta_data_listing_text(has_meta),
{
    let mut listing = String::from_str(
        "ami-id\ninstance-id\ninstance-type\nhostname\nlocal-hostname\nlocal-ipv4\nmac\nplacement/\npublic-keys/\nservices/\n",
    );
    if has_meta {
        listing.append("network/\n");
    }
    listing
}

/// The MAC address served for a host: its BareMetalHost's boot MAC when
/// known, else one made up from its IP ("02:00:" and the IP with `:` for `.`).
pub open spec fn mac_text(meta: HostMetadata, bmh: Option<&BareMetalHost>) -> Seq<char> {
    match bmh {
        Some(b) if b.spec.boot_mac_address@.len() > 0 => b.spec.boot_mac_address@,
        _ => "02:00:"@ + replace_all(meta.local_ipv4@, seq!['.'], seq![':']),
    }
}

/// The MAC address served for a host.
pub fn mac_address(meta: &HostMetadata, bmh: Option<&BareMetalHost>) -> (r: String)
    ensures
        r@ == mac_text(*meta, bmh),
{
    match bmh {
        Some(b) => {
            if chars_of(b.spec.boot_mac_address.as_str()).len() > 0 {
                return b.spec.boot_mac_address.clone();
            }
        },
        None => {},
    }
    let mut dot: Vec<char> = Vec::new();
    dot.push('.');
    let mut colon: Vec<char> = Vec::new();
    colon.push(':');
    let replaced = replace_chars(&chars_of(meta.local_ipv4.as_str()), &dot, &colon);
    let mut out = chars_of("02:00:");
    proof {
        reveal_strlit("02:00:");
    }
    push_all(&mut out, &replaced);
    assert(dot@ =~= seq!['.']);
    assert(colon@ =~= seq![':']);
    string_from_chars(&out)
}

/// The parts of `s` between the occurrences of `c` (`str::split` with a
/// character): one more part than there are occurrences.
pub open spec fn split_on(s: Seq<char>, c: char) -> Seq<Seq<char>>
    decreases s.len(),
{
    if s.len() == 0 {
        seq![Seq::<char>::empty()]
    } else {
        let prev = split_on(s.drop_last(), c);
        if s.last() == c {
            prev.push(Seq::empty())
        } else {
            prev.update(prev.len() - 1, prev.last().push(s.last()))
        }
    }
}

proof fn lemma_split_on_len(s: Seq<char>, c: char)
    ensures
        split_on(s, c).len() >= 1,
    decreases s.len(),
{
    if s.len() > 0 {
        lemma_split_on_len(s.drop_last(), c);
    }
}

/// The /24 network of an IPv4 address ("a.b.c.0/24"); any other text is
/// served as it is.
pub open spec fn subnet_text(ip: Seq<char>) -> Seq<char> {
    let parts = split_on(ip, '.');
    if parts.len() == 4 {
        parts[0] + "."@ + parts[1] + "."@ + parts[2] + ".0/24"@
    } else {
        ip
    }
}

fn split_dots(s: &str) -> (r: Vec<Vec<char>>)
    ensures
        r@.map_values(|p: Vec<char>| p@) == split_on(s@, '.'),
{
    let cs = chars_of(s);
    let mut parts: Vec<Vec<char>> = Vec::new();
    parts.push(Vec::new());
    let mut i: usize = 0;
    assert(parts@.map_values(|p: Vec<char>| p@) =~= split_on(cs@.subrange(0, 0), '.'));
    while i < cs.len()
        invariant
            cs@ == s@,
            i <= cs.len(),
            parts.len() >= 1,
            parts@.map_values(|p: Vec<char>| p@) == split_on(cs@.subrange(0, i as int), '.'),
        decreases cs.len() - i,
    {
        let ghost before = parts@.map_values(|p: Vec<char>| p@);
        let ghost sub = cs@.subrange(0, i + 1);
        assert(sub.drop_last() =~= cs@.subrange(0, i as int));
        assert(sub.last() == cs@[i as int]);
        if cs[i] == '.' {
            parts.push(Vec::new());
            assert(parts@.map_values(|p: Vec<char>| p@) =~= before.push(Seq::empty()));
        } else {
            let last = parts.len() - 1;
            let mut cur = parts.remove(last);
            cur.push(cs[i]);
            parts.push(cur);
            assert(parts@.map_values(|p: Vec<char>| p@) =~= before.update(
                before.len() - 1,
                before.last().push(cs@[i as int]),
            ));
        }
        i = i + 1;
    }
    assert(cs@.subrange(0, cs.len() as int) =~= cs@);
    parts
}

/// The subnet served for a host's IP.
pub fn subnet_cidr(ip: &str) -> (r: String)
    ensures
        r@ == subnet_text(ip@),
{
    let parts = split_dots(ip);
    proof {
        lemma_split_on_len(ip@, '.');
    }
    if parts.len() == 4 {
        let ghost ps = parts@.map_values(|p: Vec<char>| p@);
        assert(ps[0] == parts@[0]@);
        assert(ps[1] == parts@[1]@);
        assert(ps[2] == parts@[2]@);
        let mut out: Vec<char> = Vec::new();
        push_all(&mut out, &parts[0]);
        out.push('.');
        push_all(&mut out, &parts[1]);
        out.push('.');
        push_all(&mut out, &parts[2]);
        let tail = chars_of(".0/24");
        push_all(&mut out, &tail);
        proof {
            reveal_strlit(".");
            reveal_strlit(".0/24");
            assert(out@ =~= ps[0] + "."@ + ps[1] + "."@ + ps[2] + ".0/24"@);
        }
        string_from_chars(&out)
    } else {
        String::from_str(ip)
    }
}

proof fn lemma_split_dot_free(y: Seq<char>, c: char)
    requires
        !y.contains(c),
    ensures
        split_on(y, c) == seq![y],
    decreases y.len(),
{
    if y.len() == 0 {
        assert(y =~= Seq::<char>::empty());
    } else {
        assert(!y.drop_last().contains(c)) by {
            if y.drop_last().contains(c) {
                let i = choose|i: int| 0 <= i < y.drop_last().len() && y.drop_last()[i] == c;
                assert(y[i] == c);
            }
        }
        lemma_split_dot_free(y.drop_last(), c);
        assert(y.last() == y[y.len() - 1]);
        assert(y.last() != c);
        assert(y.drop_last().push(y.last()) =~= y);
        let prev = split_on(y.drop_last(), c);
        assert(prev == seq![y.drop_last()]);
        assert(split_on(y, c) == prev.update(prev.len() - 1, prev.last().push(y.last())));
        assert(prev.update(prev.len() - 1, prev.last().push(y.last())) =~= seq![y]);
    }
}

proof fn lemma_split_after_separator(p: Seq<char>, y: Seq<char>, c: char)
    requires
        !y.contains(c),
    ensures
        split_on(p + seq![c] + y, c) == split_on(p, c).push(y),
    decreases y.len(),
{
    let s = p + seq![c] + y;
    if y.len() == 0 {
        assert(s.drop_last() =~= p);
        assert(s.last() == c);
        assert(y =~= Seq::<char>::empty());
    } else {
        assert(!y.drop_last().contains(c)) by {
            if y.drop_last().contains(c) {
                let i = choose|i: int| 0 <= i < y.drop_last().len() && y.drop_last()[i] == c;
                assert(y[i] == c);
            }
        }
        lemma_split_after_separator(p, y.drop_last(), c);
        assert(s.drop_last() =~= p + seq![c] + y.drop_last());
        assert(s.last() == y[y.len() - 1]);
        assert(y[y.len() - 1] != c);
        assert(y.drop_last().push(y.last()) =~= y);
        let prev = split_on(p, c).push(y.drop_last());
        assert(split_on(s.drop_last(), c) == prev);
        assert(split_on(s, c) == prev.update(prev.len() - 1, prev.last().push(s.last())));
        assert(prev.update(prev.len() - 1, prev.last().push(s.last())) =~= split_on(p, c).push(y));
    }
}

/// The subnet served for an IPv4 address `a.b.c.d` is its /24 network
/// `a.b.c.0/24`.
pub proof fn law_subnet_is_slash_24(a: Seq<char>, b: Seq<char>, c: Seq<char>, d: Seq<char>)
    requires
        !a.contains('.'),
        !b.contains('.'),
        !c.contains('.'),
        !d.contains('.'),
    ensures
        subnet_text(a + "."@ + b + "."@ + c + "."@ + d) == a + "."@ + b + "."@ + c + ".0/24"@,
{
    reveal_strlit(".");
    let dot = seq!['.'];
    assert("."@ =~= dot);
    lemma_split_dot_free(a, '.');
    lemma_split_after_separator(a, b, '.');
    let ab = a + dot + b;
    lemma_split_after_separator(ab, c, '.');
    let abc = ab + dot + c;
    lemma_split_after_separator(abc, d, '.');
    let all = abc + dot + d;
    assert(a + "."@ + b + "."@ + c + "."@ + d == all);
    assert(split_on(all, '.') =~= seq![a, b, c, d]);
}

/// The `public-keys/` listing: a line `i=user` per key entry.
pub open spec fn public_keys_listing_text(users: Seq<Seq<char>>) -> Seq<char>
    decreases users.len(),
{
    if users.len() == 0 {
        Seq::empty()
    } else {
        public_keys_listing_text(users.drop_last()) + decimal((users.len() - 1) as nat) + "="@ + users.last()
            + "\n"@
    }
}

/// The names of the system users of a host's key entries, in order.
pub open spec fn key_users(meta: HostMetadata) -> Seq<Seq<char>> {
    meta.public_keys@.map_values(|pk: crate::model::PublicKeyEntry| pk.ssh_user@)
}

/// The `public-keys/` listing of a host.
pub fn public_keys_listing(meta: &HostMetadata) -> (r: String)
    ensures
        r@ == public_keys_listing_text(key_users(*meta)),
{
    let pks = &meta.public_keys;
    let mut out = String::new();
    let mut i: usize = 0;
    while i < pks.len()
        invariant
            i <= pks.len(),
            pks == &meta.public_keys,
            out@ == public_keys_listing_text(key_users(*meta).subrange(0, i as int)),
        decreases pks.len() - i,
    {
        let ghost sub = key_users(*meta).subrange(0, i + 1);
        assert(sub.drop_last() =~= key_users(*meta).subrange(0, i as int));
        out.append(decimal_string(i as u64).as_str());
        out.append("=");
        out.append(pks[i].ssh_user.as_str());
        out.append("\n");
        i = i + 1;
    }
    assert(key_users(*meta).subrange(0, pks.len() as int) =~= key_users(*meta));
    out
}

/// The keys of key entry `index`, one per line; none when there is no
/// such entry.
pub fn public_key_text(meta: &HostMetadata, index: usize) -> (r: Option<String>)
    ensures
        match r {
            Some(t) => index < meta.public_keys@.len() && t@ == join(
                str_views(meta.public_keys@[index as int].keys@),
                "\n"@,
            ),
            None => index >= meta.public_keys@.len(),
        },
{
    if index < meta.public_keys.len() {
        Some(join_strings(&meta.public_keys[index].keys, "\n"))
    } else {
        None
    }
}

/// The longest IMDSv2 token lifetime, in seconds (6 hours).
pub const MAX_TOKEN_TTL: u32 = 21600;

/// The lifetime granted to an IMDSv2 token: the requested seconds when the
/// header reads as a number, else the longest, and never above the longest.
pub open spec fn token_ttl_of(header: Option<Seq<char>>) -> u32 {
    let asked = match header {
        Some(h) => match parse_u32_spec(h) {
            Some(n) => n,
            None => MAX_TOKEN_TTL,
        },
        None => MAX_TOKEN_TTL,
    };
    if asked < MAX_TOKEN_TTL {
        asked
    } else {
        MAX_TOKEN_TTL
    }
}

/// A token never lives longer than six hours (21600 seconds): a requested
/// lifetime that reads as a number is granted up to that cap, and a missing
/// or unreadable one gets the full six hours.
pub proof fn law_token_ttl_capped(header: Option<Seq<char>>)
    ensures
        token_ttl_of(header) <= 21600,
        token_ttl_of(header) == match header {
            Some(h) => match parse_u32_spec(h) {
                Some(n) => if n <= 21600 {
                    n
                } else {
                    21600
                },
                None => 21600,
            },
            None => 21600,
        },
{
}

/// The token lifetime for the `x-aws-ec2-metadata-token-ttl-seconds` header.
pub fn token_ttl(header: Option<&str>) -> (r: u32)
    ensures
        r == token_ttl_of(
            match header {
                Some(h) => Some(h@),
                None => None,
            },
        ),
{
    let asked = match header {
        Some(h) => match parse_u32(h) {
            Some(n) => n,
            None => MAX_TOKEN_TTL,
        },
        None => MAX_TOKEN_TTL,
    };
    if asked < MAX_TOKEN_TTL {
        asked
    } else {
        MAX_TOKEN_TTL
    }
}

/// The instance identity document of a host, as a JSON map (keys in order).
pub open spec fn identity_document_doc(meta: HostMetadata) -> JsonView {
    JsonView::Object(
        seq![
            ("accountId"@, JsonView::Str("000000000000"@)),
            ("architecture"@, JsonView::Str("x86_64"@)),
            ("availabilityZone"@, JsonView::Str(meta.availability_zone@)),
            ("imageId"@, JsonView::Str("ami-00000000"@)),
            ("instanceId"@, JsonView::Str(meta.instance_id@)),
            ("instanceType"@, JsonView::Str("baremetal"@)),
            ("privateIp"@, JsonView::Str(meta.local_ipv4@)),
            ("region"@, JsonView::Str(meta.availability_zone@)),
            ("version"@, JsonView::Str("2017-09-30"@)),
        ],
    )
}

fn str_value(s: &str) -> (r: JsonValue)
    ensures
        jv(r) == JsonView::Str(s@),
{
    JsonValue::Str(String::from_str(s))
}

/// The instance identity document of a host.
pub fn identity_document(meta: &HostMetadata) -> (r: JsonValue)
    ensures
        jv(r) == identity_document_doc(*meta),
{
    let mut ms: Vec<(String, JsonValue)> = Vec::new();
    push_member(&mut ms, "accountId", str_value("000000000000"));
    push_member(&mut ms, "architecture", str_value("x86_64"));
    push_member(&mut ms, "availabilityZone", JsonValue::Str(meta.availability_zone.clone()));
    push_member(&mut ms, "imageId", str_value("ami-00000000"));
    push_member(&mut ms, "instanceId", JsonValue::Str(meta.instance_id.clone()));
    push_member(&mut ms, "instanceType", str_value("baremetal"));
    push_member(&mut ms, "privateIp", JsonValue::Str(meta.local_ipv4.clone()));
    push_member(&mut ms, "region", JsonValue::Str(meta.availability_zone.clone()));
    push_member(&mut ms, "version", str_value("2017-09-30"));
    assert(jv_members(ms@) =~= identity_document_doc(*meta)->Object_0);
    JsonValue::Object(ms)
}

} // verus!
