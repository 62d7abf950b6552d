use vstd::prelude::*;
use crate::model::str_views;
use crate::text::str_eq;

verus! {

/// A RouterOS NAT rule as the REST API reports it.
#[derive(Debug)]
pub struct NatRule {
    pub id: String,
    pub chain: String,
    pub dst_address: String,
    pub protocol: String,
    pub dst_port: String,
    pub action: String,
    pub to_addresses: String,
    pub to_ports: String,
    pub comment: String,
}

/// A NAT rule to create on the router.
#[derive(Debug)]
pub struct CreateNatRule {
    pub chain: String,
    pub dst_address: String,
    pub protocol: String,
    pub dst_port: String,
    pub action: String,
    pub to_addresses: String,
    pub to_ports: String,
    pub comment: String,
}

/// New target of an existing NAT rule.
#[derive(Debug)]
pub struct UpdateNatRule {
    pub to_addresses: String,
    pub to_ports: String,
}

/// What to do about the router's IMDS redirect.
#[derive(Debug)]
pub enum NatAction {
    /// The rule is there and points at the service.
    Keep,
    /// The rule with this id points elsewhere: point it at the service.
    Update { id: String, patch: UpdateNatRule },
    /// There is no rule: create it.
    Create { rule: CreateNatRule },
}

/// A rule that redirects TCP port 80 of 169.254.169.254 (destination NAT).
pub open spec fn is_imds_rule(r: NatRule) -> bool {
    &&& r.chain@ == "dstnat"@
    &&& r.dst_address@ == "169.254.169.254"@
    &&& r.protocol@ == "tcp"@
    &&& r.dst_port@ == "80"@
    &&& r.action@ == "dst-nat"@
}

/// Position of the first IMDS redirect rule, or the number of rules.
pub open spec fn imds_rule_pos(rules: Seq<NatRule>) -> int
    decreases rules.len(),
{
    if rules.len() == 0 {
        0
    } else if is_imds_rule(rules[0]) {
        0
    } else {
        1 + imds_rule_pos(rules.drop_first())
    }
}

proof fn lemma_imds_rule_pos(rules: Seq<NatRule>, i: int)
    requires
        0 <= i <= rules.len(),
        forall|j: int| 0 <= j < i ==> !is_imds_rule(#[trigger] rules[j]),
        i == rules.len() || is_imds_rule(rules[i]),
    ensures
        imds_rule_pos(rules) == i,
    decreases i,
{
    if i > 0 {
        assert forall|j: int| 0 <= j < i - 1 implies !is_imds_rule(#[trigger] rules.drop_first()[j]) by {
            assert(rules.drop_first()[j] == rules[j + 1]);
        }
        assert(!is_imds_rule(rules[0]));
        lemma_imds_rule_pos(rules.drop_first(), i - 1);
    }
}

fn is_imds_rule_exec(r: &NatRule) -> (b: bool)
    ensures
        b == is_imds_rule(*r),
{
    str_eq(r.chain.as_str(), "dstnat") && str_eq(r.dst_address.as_str(), "169.254.169.254") && str_eq(
        r.protocol.as_str(),
        "tcp",
    ) && str_eq(r.dst_port.as_str(), "80") && str_eq(r.action.as_str(), "dst-nat")
}

/// The rule that redirects IMDS traffic to the service at `ip:port`.
pub open spec fn imds_rule_for(r: CreateNatRule, ip: Seq<char>, port: Seq<char>) -> bool {
    &&& r.chain@ == "dstnat"@
    &&& r.dst_address@ == "169.254.169.254"@
    &&& r.protocol@ == "tcp"@
    &&& r.dst_port@ == "80"@
    &&& r.action@ == "dst-nat"@
    &&& r.to_addresses@ == ip
    &&& r.to_ports@ == port
    &&& r.comment@ == "IMDS redirect to cloudid (managed)"@
}

/// Decide how to make the router redirect IMDS traffic to `ip:port`: keep
/// the first redirect rule when it points there, else point it there, or
/// create one when there is none.
pub fn nat_action(rules: &Vec<NatRule>, ip: &str, port: &str) -> (a: NatAction)
    ensures
        imds_rule_pos(rules@) == rules@.len() ==> (a matches NatAction::Create { rule } && imds_rule_for(
            rule,
            ip@,
            port@,
        )),
        imds_rule_pos(rules@) < rules@.len() ==> {
            let r = rules@[imds_rule_pos(rules@)];
            if r.to_addresses@ == ip@ && r.to_ports@ == port@ {
                a is Keep
            } else {
                (a matches NatAction::Update { id, patch } && id@ == r.id@ && patch.to_addresses@ == ip@
                    && patch.to_ports@ == port@)
            }
        },
{
    let mut i: usize = 0;
    while i < rules.len()
        invariant
            i <= rules.len(),
            forall|j: int| 0 <= j < i ==> !is_imds_rule(#[trigger] rules@[j]),
        decreases rules.len() - i,
    {
        if is_imds_rule_exec(&rules[i]) {
            proof {
                lemma_imds_rule_pos(rules@, i as int);
            }
            let r = &rules[i];
            if str_eq(r.to_addresses.as_str(), ip) && str_eq(r.to_ports.as_str(), port) {
                return NatAction::Keep;
            }
            return NatAction::Update {
                id: r.id.clone(),
                patch: UpdateNatRule { to_addresses: String::from_str(ip), to_ports: String::from_str(port) },
            };
        }
        i = i + 1;
    }
    proof {
        lemma_imds_rule_pos(rules@, i as int);
    }
    NatAction::Create {
        rule: CreateNatRule {
            chain: String::from_str("dstnat"),
            dst_address: String::from_str("169.254.169.254"),
            protocol: String::from_str("tcp"),
            dst_port: String::from_str("80"),
            action: String::from_str("dst-nat"),
            to_addresses: String::from_str(ip),
            to_ports: String::from_str(port),
            comment: String::from_str("IMDS redirect to cloudid (managed)"),
        },
    }
}

/// A DHCP route to push to hosts.
#[derive(Debug)]
pub struct RouteRequest {
    pub destination: String,
    pub gateway: String,
    pub managed_by: String,
}

/// Some route of a pool already leads to the metadata address.
pub fn has_metadata_route(destinations: &Vec<String>) -> (r: bool)
    ensures
        r == str_views(destinations@).contains("169.254.169.254/32"@),
{
    crate::resolve::contains_str(destinations, "169.254.169.254/32")
}

/// The route to 169.254.169.254/32 through `gateway`, marked as ours.
pub fn metadata_route(gateway: &str) -> (r: RouteRequest)
    ensures
        r.destination@ == "169.254.169.254/32"@,
        r.gateway@ == gateway@,
        r.managed_by@ == "cloudid"@,
{
    RouteRequest {
        destination: String::from_str("169.254.169.254/32"),
        gateway: String::from_str(gateway),
        managed_by: String::from_str("cloudid"),
    }
}

/// The host and the port (given, or known for the scheme) of the URL that
/// `url::Url::parse` reads from `text`; none when it reads no URL.
pub uninterp spec fn url_host_port(text: Seq<char>) -> Option<(Option<Seq<char>>, Option<u16>)>;

/// `url::Url::parse` followed by `host_str` and `port_or_known_default`.
/// Trusted: the result is the one `url_host_port` names for the text, a
/// function of the text alone; nothing more is claimed of it.
#[verifier::external_body]
fn parse_host_port(text: &str) -> (r: Option<(Option<String>, Option<u16>)>)
    ensures
        match r {
            Some(p) => url_host_port(text@) == Some(
                (
                    match p.0 {
                        Some(h) => Some(h@),
                        None => None,
                    },
                    p.1,
                ),
            ),
            None => url_host_port(text@) is None,
        },
{
    match url::Url::parse(text) {
        Ok(u) => Some((u.host_str().map(|h| h.to_string()), u.port_or_known_default())),
        Err(_) => None,
    }
}

/// The `host:port` to reach from parsed URL parts: none without a host;
/// port 80 when the URL gives none and its scheme has no known one.
pub open spec fn target_text(parts: Option<(Option<Seq<char>>, Option<u16>)>) -> Option<Seq<char>> {
    match parts {
        Some((Some(h), port)) => Some(
            h + ":"@ + crate::text::decimal(
                (match port {
                    Some(p) => p,
                    None => 80u16,
                }) as nat,
            ),
        ),
        _ => None,
    }
}

/// The `host:port` of parsed URL parts.
pub fn target_of(parts: Option<(Option<String>, Option<u16>)>) -> (r: Option<String>)
    ensures
        match r {
            Some(t) => target_text(
                match parts {
                    Some(p) => Some(
                        (
                            match p.0 {
                                Some(h) => Some(h@),
                                None => None,
                            },
                            p.1,
                        ),
                    ),
                    None => None,
                },
            ) == Some(t@),
            None => target_text(
                match parts {
                    Some(p) => Some(
                        (
                            match p.0 {
                                Some(h) => Some(h@),
                                None => None,
                            },
                            p.1,
                        ),
                    ),
                    None => None,
                },
            ) is None,
        },
{
    match parts {
        Some((Some(h), port)) => {
            let p: u16 = match port {
                Some(p) => p,
                None => 80,
            };
            let mut t = h;
            t.append(":");
            t.append(crate::text::decimal_string(p as u64).as_str());
            Some(t)
        },
        _ => None,
    }
}

/// The `host:port` of the router that a REST URL names (to find the local
/// address that reaches it); none when the text is no URL or has no host.
pub fn router_target(rest_url: &str) -> (r: Option<String>)
    ensures
        match r {
            Some(t) => target_text(url_host_port(rest_url@)) == Some(t@),
            None => target_text(url_host_port(rest_url@)) is None,
        },
{
    target_of(parse_host_port(rest_url))
}

} // verus!
