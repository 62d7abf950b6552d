use vstd::prelude::*;
use crate::order::{lemma_pair_lt_asymmetric, lemma_pair_lt_le, pair_lt, str_lt};
use crate::text::{
    chars_of, has_prefix, has_suffix, push_all, replace_all, replace_chars, str_ends_with, string_from_chars,
    zero_padded, zero_padded_chars,
};

verus! {

/// Detected format of a template file.
#[derive(Debug, Clone, Copy, PartialEq, Eq, Structural)]
pub enum TemplateFormat {
    Ignition,
    Kickstart,
    CloudConfig,
}

/// The format a file name announces: `.ign.json` is Ignition, `.ks` is
/// kickstart, anything else cloud-config.
pub open spec fn format_of(name: Seq<char>) -> TemplateFormat {
    if has_suffix(name, ".ign.json"@) {
        TemplateFormat::Ignition
    } else if has_suffix(name, ".ks"@) {
        TemplateFormat::Kickstart
    } else {
        TemplateFormat::CloudConfig
    }
}

/// The content type under which a format is served.
pub open spec fn content_type_of(f: TemplateFormat) -> Seq<char> {
    match f {
        TemplateFormat::Ignition => "application/json"@,
        TemplateFormat::Kickstart => "text/plain"@,
        TemplateFormat::CloudConfig => "text/yaml"@,
    }
}

impl TemplateFormat {
    /// Detect format from file extension.
    pub fn from_filename(name: &str) -> (f: Self)
        ensures
            f == format_of(name@),
    {
        if str_ends_with(name, ".ign.json") {
            TemplateFormat::Ignition
        } else if str_ends_with(name, ".ks") {
            TemplateFormat::Kickstart
        } else {
            TemplateFormat::CloudConfig
        }
    }

    /// The HTTP content type of the format.
    pub fn as_content_type(&self) -> (s: &'static str)
        ensures
            s@ == content_type_of(*self),
    {
        match self {
            TemplateFormat::Ignition => "application/json",
            TemplateFormat::Kickstart => "text/plain",
            TemplateFormat::CloudConfig => "text/yaml",
        }
    }
}

/// Template execution mode.
#[derive(Debug, Clone, Copy, PartialEq, Eq, Structural)]
pub enum TemplateMode {
    /// First boot only, then reverts to local disk boot.
    Oneshot,
    /// Served on every boot.
    Forever,
}

impl Default for TemplateMode {
    fn default() -> (m: Self)
        ensures
            m == TemplateMode::Forever,
    {
        TemplateMode::Forever
    }
}

/// A loaded template with metadata and content.
#[derive(Debug)]
pub struct LoadedTemplate {
    pub image_type: String,
    pub name: String,
    pub format: TemplateFormat,
    pub mode: TemplateMode,
    pub content: String,
    pub created_at: String,
    pub updated_at: String,
}

/// Summary entry for listing templates (no content).
#[derive(Debug)]
pub struct TemplateSummary {
    pub image_type: String,
    pub name: String,
    pub format: TemplateFormat,
    pub mode: TemplateMode,
}

/// Response for listing templates.
#[derive(Debug)]
pub struct TemplateListResponse {
    pub templates: Vec<TemplateSummary>,
}

/// Host-to-template assignment.
#[derive(Debug)]
pub struct Assignment {
    pub image_type: String,
    pub template: String,
}

/// Assignments file stored on PVC: hostname -> assignment.
#[derive(Debug)]
pub struct AssignmentsFile {
    pub assignments: Vec<(String, Assignment)>,
}

impl Default for AssignmentsFile {
    fn default() -> (r: Self)
        ensures
            r.assignments@.len() == 0,
    {
        AssignmentsFile { assignments: Vec::new() }
    }
}

/// Oneshot completion state: hostname -> completion timestamp.
#[derive(Debug)]
pub struct OneshotState {
    pub completed: Vec<(String, String)>,
}

impl Default for OneshotState {
    fn default() -> (r: Self)
        ensures
            r.completed@.len() == 0,
    {
        OneshotState { completed: Vec::new() }
    }
}

/// Backup/restore bundle.
#[derive(Debug)]
pub struct TemplateBundle {
    pub version: u32,
    pub exported_at: String,
    pub templates: Vec<BundleEntry>,
}

/// A single template entry in a backup bundle.
#[derive(Debug)]
pub struct BundleEntry {
    pub image_type: String,
    pub name: String,
    pub format: TemplateFormat,
    pub mode: TemplateMode,
    pub content: String,
}

/// PUT request body for creating/updating a template.
#[derive(Debug)]
pub struct TemplateCreateRequest {
    pub mode: TemplateMode,
    pub content: String,
}

/// PUT request body for assigning a template to a host.
#[derive(Debug)]
pub struct AssignmentRequest {
    pub image_type: String,
    pub template: String,
}

/// `part` appended to the path `base` as `PathBuf::join` does on Unix: an
/// absolute `part` replaces `base`, and a separator is added where needed.
pub open spec fn path_join(base: Seq<char>, part: Seq<char>) -> Seq<char> {
    if part.len() > 0 && part[0] == '/' {
        part
    } else if base.len() == 0 {
        part
    } else if base.last() == '/' {
        base + part
    } else {
        base + seq!['/'] + part
    }
}

/// `PathBuf::join` on paths held as text.
pub fn join_path(base: &str, part: &str) -> (r: String)
    ensures
        r@ == path_join(base@, part@),
{
    let b = chars_of(base);
    let p = chars_of(part);
    if p.len() > 0 && p[0] == '/' {
        return String::from_str(part);
    }
    if b.len() == 0 {
        return String::from_str(part);
    }
    let mut r = String::from_str(base);
    proof { reveal_strlit("/"); }
    if b[b.len() - 1] != '/' {
        r.append("/");
    }
    r.append(part);
    r
}

/// Template store backed by PVC filesystem, rooted at `data_dir`.
#[derive(Debug)]
pub struct TemplateStore {
    pub data_dir: String,
}

impl TemplateStore {
    pub fn new(data_dir: &str) -> (s: Self)
        ensures
            s.data_dir@ == data_dir@,
    {
        TemplateStore { data_dir: String::from_str(data_dir) }
    }

    /// `{data_dir}/templates`.
    pub fn templates_dir(&self) -> (p: String)
        ensures
            p@ == path_join(self.data_dir@, "templates"@),
    {
        join_path(self.data_dir.as_str(), "templates")
    }

    /// `{data_dir}/assignments.json`.
    pub fn assignments_path(&self) -> (p: String)
        ensures
            p@ == path_join(self.data_dir@, "assignments.json"@),
    {
        join_path(self.data_dir.as_str(), "assignments.json")
    }

    /// `{data_dir}/oneshot.json`.
    pub fn oneshot_path(&self) -> (p: String)
        ensures
            p@ == path_join(self.data_dir@, "oneshot.json"@),
    {
        join_path(self.data_dir.as_str(), "oneshot.json")
    }

    /// `{data_dir}/templates/{image_type}/{name}`.
    pub fn template_path(&self, image_type: &str, name: &str) -> (p: String)
        ensures
            p@ == path_join(path_join(path_join(self.data_dir@, "templates"@), image_type@), name@),
    {
        let dir = join_path(self.templates_dir().as_str(), image_type);
        join_path(dir.as_str(), name)
    }

    /// `{data_dir}/templates/{image_type}/{name}.meta.json`.
    pub fn meta_path(&self, image_type: &str, name: &str) -> (p: String)
        ensures
            p@ == path_join(
                path_join(path_join(self.data_dir@, "templates"@), image_type@),
                name@ + ".meta.json"@,
            ),
    {
        let dir = join_path(self.templates_dir().as_str(), image_type);
        let mut file = String::from_str(name);
        file.append(".meta.json");
        join_path(dir.as_str(), file.as_str())
    }
}

/// The characters a data URI may not hold as they are, each replaced by its
/// percent escape; every other character unchanged.
pub open spec fn url_escape_char(c: char) -> Seq<char> {
    if c == ' ' {
        seq!['%', '2', '0']
    } else if c == '%' {
        seq!['%', '2', '5']
    } else if c == '\n' {
        seq!['%', '0', 'A']
    } else if c == '\r' {
        seq!['%', '0', 'D']
    } else if c == '#' {
        seq!['%', '2', '3']
    } else {
        seq![c]
    }
}

/// Minimal URL-encoding for data URIs.
pub open spec fn url_encoded(s: Seq<char>) -> Seq<char>
    decreases s.len(),
{
    if s.len() == 0 {
        Seq::empty()
    } else {
        url_encoded(s.drop_last()) + url_escape_char(s.last())
    }
}

/// The character that a percent escape `%ab` written by `url_escape_char`
/// stands for.
pub open spec fn escaped_char(a: char, b: char) -> Option<char> {
    if a == '2' && b == '0' {
        Some(' ')
    } else if a == '2' && b == '5' {
        Some('%')
    } else if a == '0' && b == 'A' {
        Some('\n')
    } else if a == '0' && b == 'D' {
        Some('\r')
    } else if a == '2' && b == '3' {
        Some('#')
    } else {
        None
    }
}

/// Percent-decoding of those escapes: each `%ab` that stands for a
/// character becomes it; everything else stays.
pub open spec fn url_decoded(s: Seq<char>) -> Seq<char>
    decreases s.len(),
{
    if s.len() == 0 {
        Seq::empty()
    } else if s.len() >= 3 && s[0] == '%' && escaped_char(s[1], s[2]) is Some {
        seq![escaped_char(s[1], s[2])->0] + url_decoded(s.skip(3))
    } else {
        seq![s[0]] + url_decoded(s.drop_first())
    }
}

proof fn lemma_url_encoded_concat(x: Seq<char>, y: Seq<char>)
    ensures
        url_encoded(x + y) == url_encoded(x) + url_encoded(y),
    decreases y.len(),
{
    if y.len() == 0 {
        assert(x + y =~= x);
        assert(url_encoded(x) + url_encoded(y) =~= url_encoded(x));
    } else {
        lemma_url_encoded_concat(x, y.drop_last());
        assert((x + y).drop_last() =~= x + y.drop_last());
        assert((x + y).last() == y.last());
        assert(url_encoded(x + y) =~= url_encoded(x) + url_encoded(y));
    }
}

/// URL-encoding loses nothing and leaves no character a data URI may not
/// hold: decoding gives the text back, and the encoding holds no space,
/// `#`, newline or carriage return.
pub proof fn law_url_encoding_round_trip(s: Seq<char>)
    ensures
        url_decoded(url_encoded(s)) == s,
        forall|i: int|
            0 <= i < url_encoded(s).len() ==> #[trigger] url_encoded(s)[i] != ' ' && url_encoded(s)[i] != '#'
                && url_encoded(s)[i] != '\n' && url_encoded(s)[i] != '\r',
    decreases s.len(),
{
    if s.len() == 0 {
        assert(url_encoded(s) =~= Seq::<char>::empty());
    } else {
        let c = s[0];
        let t = s.drop_first();
        law_url_encoding_round_trip(t);
        assert(s =~= seq![c] + t);
        lemma_url_encoded_concat(seq![c], t);
        let one = seq![c];
        assert(one.drop_last() =~= Seq::<char>::empty());
        assert(url_encoded(one.drop_last()) =~= Seq::<char>::empty());
        assert(one.last() == c);
        assert(url_encoded(one) == url_encoded(one.drop_last()) + url_escape_char(one.last()));
        assert(url_encoded(one) =~= url_escape_char(c));
        let e = url_escape_char(c);
        let et = url_encoded(t);
        let all = e + et;
        assert(url_encoded(s) == all);
        if e.len() == 3 {
            assert(all[0] == '%' && all[1] == e[1] && all[2] == e[2]);
            assert(all.skip(3) =~= et);
        } else {
            assert(e =~= seq![c]);
            assert(all.drop_first() =~= et);
            assert(c != '%');
        }
        assert forall|i: int| 0 <= i < all.len() implies #[trigger] all[i] != ' ' && all[i] != '#' && all[i] != '\n'
            && all[i] != '\r' by {
            if i >= e.len() {
                assert(all[i] == et[i - e.len()]);
            }
        }
    }
}

/// Minimal URL-encoding for data URIs (space, `%`, newline, carriage
/// return and `#`).
pub fn url_encode_simple(s: &str) -> (r: String)
    ensures
        r@ == url_encoded(s@),
{
    let cs = chars_of(s);
    let mut out: Vec<char> = Vec::new();
    let mut i: usize = 0;
    while i < cs.len()
        invariant
            cs@ == s@,
            i <= cs.len(),
            out@ == url_encoded(cs@.subrange(0, i as int)),
        decreases cs.len() - i,
    {
        let c = cs[i];
        assert(cs@.subrange(0, i + 1).drop_last() =~= cs@.subrange(0, i as int));
        let ghost before = out@;
        if c == ' ' {
            out.push('%'); out.push('2'); out.push('0');
        } else if c == '%' {
            out.push('%'); out.push('2'); out.push('5');
        } else if c == '\n' {
            out.push('%'); out.push('0'); out.push('A');
        } else if c == '\r' {
            out.push('%'); out.push('0'); out.push('D');
        } else if c == '#' {
            out.push('%'); out.push('2'); out.push('3');
        } else {
            out.push(c);
        }
        assert(out@ =~= before + url_escape_char(c));
        i = i + 1;
    }
    assert(cs@.subrange(0, cs.len() as int) =~= cs@);
    string_from_chars(&out)
}

/// `s` without its trailing dots.
pub open spec fn trim_dots(s: Seq<char>) -> Seq<char>
    decreases s.len(),
{
    if s.len() > 0 && s.last() == '.' {
        trim_dots(s.drop_last())
    } else {
        s
    }
}

/// `s.strip_suffix(suffix).unwrap_or(s)`.
pub open spec fn strip_suffix_or_keep(s: Seq<char>, suffix: Seq<char>) -> Seq<char> {
    if has_suffix(s, suffix) {
        s.subrange(0, s.len() - suffix.len())
    } else {
        s
    }
}

/// The short hostname: the FQDN without the domain suffix and trailing dots.
pub open spec fn short_hostname(hostname: Seq<char>, domain_suffix: Seq<char>) -> Seq<char> {
    trim_dots(strip_suffix_or_keep(hostname, domain_suffix))
}

/// The template text with every placeholder replaced, one placeholder after
/// the other in this order.
pub open spec fn substituted(
    content: Seq<char>,
    hostname: Seq<char>,
    ip: Seq<char>,
    instance_id: Seq<char>,
    availability_zone: Seq<char>,
    domain_suffix: Seq<char>,
    template_name: Seq<char>,
) -> Seq<char> {
    let s1 = replace_all(content, "{{HOSTNAME}}"@, hostname);
    let s2 = replace_all(s1, "{{SHORT_HOSTNAME}}"@, short_hostname(hostname, domain_suffix));
    let s3 = replace_all(s2, "{{IP}}"@, ip);
    let s4 = replace_all(s3, "{{INSTANCE_ID}}"@, instance_id);
    let s5 = replace_all(s4, "{{AVAILABILITY_ZONE}}"@, availability_zone);
    let s6 = replace_all(s5, "{{HOSTNAME_ENCODED}}"@, url_encoded(hostname));
    let s7 = replace_all(s6, "{{DOMAIN_SUFFIX}}"@, domain_suffix);
    replace_all(s7, "{{TEMPLATE_NAME}}"@, template_name)
}

fn short_hostname_exec(hostname: &str, domain_suffix: &str) -> (r: Vec<char>)
    ensures
        r@ == short_hostname(hostname@, domain_suffix@),
{
    let mut h = chars_of(hostname);
    if str_ends_with(hostname, domain_suffix) {
        let keep = h.len() - chars_of(domain_suffix).len();
        h.truncate(keep);
        assert(h@ =~= hostname@.subrange(0, keep as int));
    }
    let ghost stripped = h@;
    assert(h@ == strip_suffix_or_keep(hostname@, domain_suffix@));
    while h.len() > 0 && h[h.len() - 1] == '.'
        invariant
            trim_dots(h@) == trim_dots(stripped),
        decreases h.len(),
    {
        let ghost before = h@;
        h.pop();
        assert(h@ =~= before.drop_last());
    }
    h
}

fn replace_lit(s: Vec<char>, p: &str, r: &Vec<char>) -> (out: Vec<char>)
    requires
        p@.len() > 0,
    ensures
        out@ == replace_all(s@, p@, r@),
{
    replace_chars(&s, &chars_of(p), r)
}

/// Substitute template variables in content.
pub fn substitute_variables(
    content: &str,
    hostname: &str,
    ip: &str,
    instance_id: &str,
    availability_zone: &str,
    domain_suffix: &str,
    template_name: &str,
) -> (r: String)
    ensures
        r@ == substituted(
            content@,
            hostname@,
            ip@,
            instance_id@,
            availability_zone@,
            domain_suffix@,
            template_name@,
        ),
{
    let short = short_hostname_exec(hostname, domain_suffix);
    let encoded = chars_of(url_encode_simple(hostname).as_str());
    proof {
        reveal_strlit("{{HOSTNAME}}");
        reveal_strlit("{{SHORT_HOSTNAME}}");
        reveal_strlit("{{IP}}");
        reveal_strlit("{{INSTANCE_ID}}");
        reveal_strlit("{{AVAILABILITY_ZONE}}");
        reveal_strlit("{{HOSTNAME_ENCODED}}");
        reveal_strlit("{{DOMAIN_SUFFIX}}");
        reveal_strlit("{{TEMPLATE_NAME}}");
    }
    let s1 = replace_lit(chars_of(content), "{{HOSTNAME}}", &chars_of(hostname));
    let s2 = replace_lit(s1, "{{SHORT_HOSTNAME}}", &short);
    let s3 = replace_lit(s2, "{{IP}}", &chars_of(ip));
    let s4 = replace_lit(s3, "{{INSTANCE_ID}}", &chars_of(instance_id));
    let s5 = replace_lit(s4, "{{AVAILABILITY_ZONE}}", &chars_of(availability_zone));
    let s6 = replace_lit(s5, "{{HOSTNAME_ENCODED}}", &encoded);
    let s7 = replace_lit(s6, "{{DOMAIN_SUFFIX}}", &chars_of(domain_suffix));
    let s8 = replace_lit(s7, "{{TEMPLATE_NAME}}", &chars_of(template_name));
    string_from_chars(&s8)
}

/// No character of `s` opens a brace.
pub open spec fn brace_free(s: Seq<char>) -> bool {
    forall|i: int| 0 <= i < s.len() ==> s[i] != '{'
}

/// `t` is a placeholder: `{{`, a name without braces, `}}`.
pub open spec fn is_placeholder(t: Seq<char>) -> bool {
    &&& t.len() >= 4
    &&& t[0] == '{' && t[1] == '{'
    &&& t[t.len() - 2] == '}' && t[t.len() - 1] == '}'
    &&& forall|i: int| 2 <= i < t.len() - 2 ==> t[i] != '{' && t[i] != '}'
}

/// The placeholders, in the order in which they are replaced.
pub open spec fn placeholders() -> Seq<Seq<char>> {
    seq![
        "{{HOSTNAME}}"@,
        "{{SHORT_HOSTNAME}}"@,
        "{{IP}}"@,
        "{{INSTANCE_ID}}"@,
        "{{AVAILABILITY_ZONE}}"@,
        "{{HOSTNAME_ENCODED}}"@,
        "{{DOMAIN_SUFFIX}}"@,
        "{{TEMPLATE_NAME}}"@,
    ]
}

proof fn lemma_placeholders_well_formed()
    ensures
        placeholders().len() == 8,
        forall|i: int| 0 <= i < 8 ==> is_placeholder(#[trigger] placeholders()[i]),
        forall|i: int, j: int| 0 <= i < j < 8 ==> placeholders()[i] != placeholders()[j],
{
    reveal_strlit("{{HOSTNAME}}");
    reveal_strlit("{{SHORT_HOSTNAME}}");
    reveal_strlit("{{IP}}");
    reveal_strlit("{{INSTANCE_ID}}");
    reveal_strlit("{{AVAILABILITY_ZONE}}");
    reveal_strlit("{{HOSTNAME_ENCODED}}");
    reveal_strlit("{{DOMAIN_SUFFIX}}");
    reveal_strlit("{{TEMPLATE_NAME}}");
    let ps = placeholders();
    assert(is_placeholder(ps[0]));
    assert(is_placeholder(ps[1]));
    assert(is_placeholder(ps[2]));
    assert(is_placeholder(ps[3]));
    assert(is_placeholder(ps[4]));
    assert(is_placeholder(ps[5]));
    assert(is_placeholder(ps[6]));
    assert(is_placeholder(ps[7]));
    assert(ps[6][2] != ps[7][2]);
}

proof fn lemma_brace_free_unchanged(s: Seq<char>, p: Seq<char>, r: Seq<char>)
    requires
        brace_free(s),
        p.len() > 0,
        p[0] == '{',
    ensures
        replace_all(s, p, r) == s,
    decreases s.len(),
{
    if s.len() > 0 {
        if has_prefix(s, p) {
            assert(s.subrange(0, p.len() as int)[0] == s[0]);
        }
        lemma_brace_free_unchanged(s.drop_first(), p, r);
        assert(seq![s[0]] + s.drop_first() =~= s);
    }
}

proof fn lemma_brace_free_front(x: Seq<char>, y: Seq<char>, p: Seq<char>, r: Seq<char>)
    requires
        brace_free(x),
        p.len() > 0,
        p[0] == '{',
    ensures
        replace_all(x + y, p, r) == x + replace_all(y, p, r),
    decreases x.len(),
{
    if x.len() > 0 {
        let s = x + y;
        assert(s[0] == x[0]);
        if has_prefix(s, p) {
            assert(s.subrange(0, p.len() as int)[0] == s[0]);
        }
        assert(s.drop_first() =~= x.drop_first() + y);
        lemma_brace_free_front(x.drop_first(), y, p, r);
        assert(seq![x[0]] + (x.drop_first() + replace_all(y, p, r)) =~= x + replace_all(y, p, r));
    }
}

proof fn lemma_placeholder_front(p: Seq<char>, y: Seq<char>, r: Seq<char>)
    requires
        p.len() > 0,
    ensures
        replace_all(p + y, p, r) == r + replace_all(y, p, r),
{
    let s = p + y;
    assert(s.subrange(0, p.len() as int) =~= p);
    assert(s.skip(p.len() as int) =~= y);
}

proof fn lemma_other_placeholder_front(t: Seq<char>, p: Seq<char>, y: Seq<char>, r: Seq<char>)
    requires
        is_placeholder(t),
        is_placeholder(p),
        t != p,
    ensures
        replace_all(t + y, p, r) == t + replace_all(y, p, r),
{
    let s = t + y;
    let n1 = p.len() as int;
    let n2 = t.len() as int;
    if has_prefix(s, p) {
        let w = s.subrange(0, n1);
        if n1 < n2 {
            assert(w[n1 - 2] == s[n1 - 2]);
            assert(s[n1 - 2] == t[n1 - 2]);
        } else if n1 > n2 {
            assert(w[n2 - 2] == s[n2 - 2]);
            assert(s[n2 - 2] == t[n2 - 2]);
        } else {
            assert forall|i: int| 0 <= i < n1 implies p[i] == t[i] by {
                assert(w[i] == s[i]);
            }
            assert(p =~= t);
        }
    }
    let s1 = s.drop_first();
    assert(s1 =~= t.drop_first() + y);
    assert(s1[1] == t[2]);
    if has_prefix(s1, p) {
        assert(s1.subrange(0, n1)[1] == s1[1]);
    }
    let rest = t.skip(2);
    assert(s1.drop_first() =~= rest + y);
    assert(brace_free(rest)) by {
        assert forall|i: int| 0 <= i < rest.len() implies rest[i] != '{' by {
            assert(rest[i] == t[i + 2]);
        }
    }
    lemma_brace_free_front(rest, y, p, r);
    assert(!has_prefix(s, p));
    assert(!has_prefix(s1, p));
    assert(replace_all(s1, p, r) == seq![s1[0]] + replace_all(s1.drop_first(), p, r));
    assert(replace_all(s, p, r) == seq![s[0]] + replace_all(s1, p, r));
    assert(s[0] == t[0] && s1[0] == t[1]);
    assert(seq![t[0]] + (seq![t[1]] + (rest + replace_all(y, p, r))) =~= t + replace_all(y, p, r));
}

/// `s` after each `ps[i]` in turn is replaced by `rs[i]`.
spec fn replace_each(s: Seq<char>, ps: Seq<Seq<char>>, rs: Seq<Seq<char>>) -> Seq<char>
    decreases ps.len(),
{
    if ps.len() == 0 {
        s
    } else {
        replace_each(replace_all(s, ps[0], rs[0]), ps.drop_first(), rs.drop_first())
    }
}

proof fn lemma_replace_each_brace_free(s: Seq<char>, ps: Seq<Seq<char>>, rs: Seq<Seq<char>>)
    requires
        brace_free(s),
        forall|i: int| 0 <= i < ps.len() ==> is_placeholder(#[trigger] ps[i]),
    ensures
        replace_each(s, ps, rs) == s,
    decreases ps.len(),
{
    if ps.len() > 0 {
        assert(is_placeholder(ps[0]));
        lemma_brace_free_unchanged(s, ps[0], rs[0]);
        assert forall|i: int| 0 <= i < ps.drop_first().len() implies is_placeholder(
            #[trigger] ps.drop_first()[i],
        ) by {
            assert(ps.drop_first()[i] == ps[i + 1]);
        }
        lemma_replace_each_brace_free(s, ps.drop_first(), rs.drop_first());
    }
}

proof fn lemma_replace_each_fills(
    a: Seq<char>,
    b: Seq<char>,
    ps: Seq<Seq<char>>,
    rs: Seq<Seq<char>>,
    k: int,
)
    requires
        0 <= k < ps.len(),
        ps.len() == rs.len(),
        brace_free(a),
        brace_free(b),
        forall|i: int| 0 <= i < ps.len() ==> is_placeholder(#[trigger] ps[i]),
        forall|i: int| 0 <= i < rs.len() ==> brace_free(#[trigger] rs[i]),
        forall|i: int| 0 <= i < ps.len() && i != k ==> #[trigger] ps[i] != ps[k],
    ensures
        replace_each(a + ps[k] + b, ps, rs) == a + rs[k] + b,
    decreases ps.len(),
{
    let m = ps[k];
    let s = a + m + b;
    let p = ps[0];
    assert(is_placeholder(p));
    assert(is_placeholder(m));
    assert(s =~= a + (m + b));
    lemma_brace_free_front(a, m + b, p, rs[0]);
    let tp = ps.drop_first();
    let tr = rs.drop_first();
    assert forall|i: int| 0 <= i < tp.len() implies is_placeholder(#[trigger] tp[i]) by {
        assert(tp[i] == ps[i + 1]);
    }
    assert forall|i: int| 0 <= i < tr.len() implies brace_free(#[trigger] tr[i]) by {
        assert(tr[i] == rs[i + 1]);
    }
    if k == 0 {
        lemma_placeholder_front(m, b, rs[0]);
        lemma_brace_free_unchanged(b, p, rs[0]);
        let done = a + rs[0] + b;
        assert(a + (rs[0] + b) =~= done);
        assert(brace_free(rs[0]));
        assert(brace_free(done)) by {
            assert forall|i: int| 0 <= i < done.len() implies done[i] != '{' by {
                if i < a.len() {
                    assert(done[i] == a[i]);
                } else if i < a.len() + rs[0].len() {
                    assert(done[i] == rs[0][i - a.len()]);
                } else {
                    assert(done[i] == b[i - a.len() - rs[0].len()]);
                }
            }
        }
        lemma_replace_each_brace_free(done, tp, tr);
    } else {
        assert(ps[0] != ps[k]);
        lemma_other_placeholder_front(m, p, b, rs[0]);
        lemma_brace_free_unchanged(b, p, rs[0]);
        assert(replace_all(s, p, rs[0]) =~= s);
        assert(tp[k - 1] == m);
        assert(tr[k - 1] == rs[k]);
        assert forall|i: int| 0 <= i < tp.len() && i != k - 1 implies #[trigger] tp[i] != tp[k - 1] by {
            assert(tp[i] == ps[i + 1]);
        }
        lemma_replace_each_fills(a, b, tp, tr, k - 1);
    }
}

proof fn lemma_trim_dots_brace_free(s: Seq<char>)
    requires
        brace_free(s),
    ensures
        brace_free(trim_dots(s)),
    decreases s.len(),
{
    if s.len() > 0 && s.last() == '.' {
        assert(brace_free(s.drop_last())) by {
            assert forall|i: int| 0 <= i < s.drop_last().len() implies s.drop_last()[i] != '{' by {
                assert(s.drop_last()[i] == s[i]);
            }
        }
        lemma_trim_dots_brace_free(s.drop_last());
    }
}

proof fn lemma_url_encoded_brace_free(s: Seq<char>)
    requires
        brace_free(s),
    ensures
        brace_free(url_encoded(s)),
    decreases s.len(),
{
    if s.len() > 0 {
        let t = s.drop_last();
        assert(brace_free(t)) by {
            assert forall|i: int| 0 <= i < t.len() implies t[i] != '{' by {
                assert(t[i] == s[i]);
            }
        }
        lemma_url_encoded_brace_free(t);
        let a = url_encoded(t);
        let e = url_escape_char(s.last());
        assert(s.last() == s[s.len() - 1]);
        assert(brace_free(e));
        let all = a + e;
        assert(url_encoded(s) == all);
        assert forall|i: int| 0 <= i < all.len() implies all[i] != '{' by {
            if i < a.len() {
                assert(all[i] == a[i]);
            } else {
                assert(all[i] == e[i - a.len()]);
            }
        }
    }
}

/// The short hostname is the hostname less its domain suffix and the dot
/// before it (`server1.g10.lo` with the suffix `.g10.lo` or `g10.lo` gives
/// `server1`), for a name that does not itself end in a dot.
pub proof fn law_short_hostname_drops_suffix(name: Seq<char>, suffix: Seq<char>)
    requires
        name.len() == 0 || name.last() != '.',
    ensures
        short_hostname(name + suffix, suffix) == name,
        short_hostname(name + "."@ + suffix, suffix) == name,
{
    let s = name + suffix;
    assert(s.subrange(s.len() - suffix.len(), s.len() as int) =~= suffix);
    assert(has_suffix(s, suffix));
    assert(s.subrange(0, s.len() - suffix.len()) =~= name);
    assert(trim_dots(name) == name);
    reveal_strlit(".");
    let dotted = name + "."@;
    let t = dotted + suffix;
    assert(name + "."@ + suffix == t);
    assert(t.subrange(t.len() - suffix.len(), t.len() as int) =~= suffix);
    assert(has_suffix(t, suffix));
    assert(t.subrange(0, t.len() - suffix.len()) =~= dotted);
    assert(dotted.last() == '.');
    assert(dotted.drop_last() =~= name);
    assert(trim_dots(dotted) == trim_dots(name));
}

/// The value of each placeholder, in the order of `placeholders()`.
pub open spec fn placeholder_values(
    hostname: Seq<char>,
    ip: Seq<char>,
    instance_id: Seq<char>,
    availability_zone: Seq<char>,
    domain_suffix: Seq<char>,
    template_name: Seq<char>,
) -> Seq<Seq<char>> {
    seq![
        hostname,
        short_hostname(hostname, domain_suffix),
        ip,
        instance_id,
        availability_zone,
        url_encoded(hostname),
        domain_suffix,
        template_name,
    ]
}

/// Substitution fills in every documented placeholder. Where the text
/// around it and the values hold no `{`, a text with one placeholder comes
/// out as the text with that placeholder replaced by its value
/// (`{{HOSTNAME}}` by the hostname, `{{SHORT_HOSTNAME}}` by the hostname
/// without the domain suffix and trailing dots, `{{IP}}` by the IP,
/// `{{INSTANCE_ID}}` by the instance ID, `{{AVAILABILITY_ZONE}}` by the
/// availability zone, `{{HOSTNAME_ENCODED}}` by the URL-encoded hostname,
/// `{{DOMAIN_SUFFIX}}` by the domain suffix, `{{TEMPLATE_NAME}}` by the
/// template's name), and a text with none comes out unchanged.
pub proof fn law_substitution_fills_placeholders(
    before: Seq<char>,
    after: Seq<char>,
    hostname: Seq<char>,
    ip: Seq<char>,
    instance_id: Seq<char>,
    availability_zone: Seq<char>,
    domain_suffix: Seq<char>,
    template_name: Seq<char>,
)
    requires
        brace_free(before),
        brace_free(after),
        brace_free(hostname),
        brace_free(ip),
        brace_free(instance_id),
        brace_free(availability_zone),
        brace_free(domain_suffix),
        brace_free(template_name),
    ensures
        substituted(before + after, hostname, ip, instance_id, availability_zone, domain_suffix, template_name)
            == before + after,
        substituted(
            before + "{{HOSTNAME}}"@ + after,
            hostname, ip, instance_id, availability_zone, domain_suffix, template_name,
        ) == before + hostname + after,
        substituted(
            before + "{{SHORT_HOSTNAME}}"@ + after,
            hostname, ip, instance_id, availability_zone, domain_suffix, template_name,
        ) == before + short_hostname(hostname, domain_suffix) + after,
        substituted(
            before + "{{IP}}"@ + after,
            hostname, ip, instance_id, availability_zone, domain_suffix, template_name,
        ) == before + ip + after,
        substituted(
            before + "{{INSTANCE_ID}}"@ + after,
            hostname, ip, instance_id, availability_zone, domain_suffix, template_name,
        ) == before + instance_id + after,
        substituted(
            before + "{{AVAILABILITY_ZONE}}"@ + after,
            hostname, ip, instance_id, availability_zone, domain_suffix, template_name,
        ) == before + availability_zone + after,
        substituted(
            before + "{{HOSTNAME_ENCODED}}"@ + after,
            hostname, ip, instance_id, availability_zone, domain_suffix, template_name,
        ) == before + url_encoded(hostname) + after,
        substituted(
            before + "{{DOMAIN_SUFFIX}}"@ + after,
            hostname, ip, instance_id, availability_zone, domain_suffix, template_name,
        ) == before + domain_suffix + after,
        substituted(
            before + "{{TEMPLATE_NAME}}"@ + after,
            hostname, ip, instance_id, availability_zone, domain_suffix, template_name,
        ) == before + template_name + after,
{
    let ps = placeholders();
    let rs = placeholder_values(hostname, ip, instance_id, availability_zone, domain_suffix, template_name);
    lemma_placeholders_well_formed();
    let stripped = strip_suffix_or_keep(hostname, domain_suffix);
    assert(brace_free(stripped)) by {
        if has_suffix(hostname, domain_suffix) {
            assert forall|i: int| 0 <= i < stripped.len() implies stripped[i] != '{' by {
                assert(stripped[i] == hostname[i]);
            }
        }
    }
    lemma_trim_dots_brace_free(stripped);
    lemma_url_encoded_brace_free(hostname);
    assert(forall|i: int| 0 <= i < rs.len() ==> brace_free(#[trigger] rs[i])) by {
        assert(rs[0] == hostname && rs[1] == short_hostname(hostname, domain_suffix) && rs[2] == ip);
        assert(rs[3] == instance_id && rs[4] == availability_zone && rs[5] == url_encoded(hostname));
        assert(rs[6] == domain_suffix && rs[7] == template_name);
    }
    assert forall|c: Seq<char>|
        substituted(c, hostname, ip, instance_id, availability_zone, domain_suffix, template_name)
            == #[trigger] replace_each(c, ps, rs) by {
        reveal_with_fuel(replace_each, 9);
        assert(ps.drop_first().drop_first().drop_first().drop_first().drop_first().drop_first().drop_first().drop_first().len() == 0);
    }
    let plain = before + after;
    assert(brace_free(plain)) by {
        assert forall|i: int| 0 <= i < plain.len() implies plain[i] != '{' by {
            if i < before.len() {
                assert(plain[i] == before[i]);
            } else {
                assert(plain[i] == after[i - before.len()]);
            }
        }
    }
    assert forall|i: int| 0 <= i < ps.len() implies is_placeholder(#[trigger] ps[i]) by {}
    lemma_replace_each_brace_free(plain, ps, rs);
    assert(replace_each(plain, ps, rs) == plain);
    assert forall|k: int| 0 <= k < 8 implies replace_each(before + ps[k] + after, ps, rs) == before + rs[k] + after by {
        assert forall|i: int| 0 <= i < ps.len() && i != k implies #[trigger] ps[i] != ps[k] by {
            if i < k {
                assert(ps[i] != ps[k]);
            } else {
                assert(ps[k] != ps[i]);
            }
        }
        lemma_replace_each_fills(before, after, ps, rs, k);
    }
    assert(replace_each(before + ps[0] + after, ps, rs) == before + rs[0] + after);
    assert(replace_each(before + ps[1] + after, ps, rs) == before + rs[1] + after);
    assert(replace_each(before + ps[2] + after, ps, rs) == before + rs[2] + after);
    assert(replace_each(before + ps[3] + after, ps, rs) == before + rs[3] + after);
    assert(replace_each(before + ps[4] + after, ps, rs) == before + rs[4] + after);
    assert(replace_each(before + ps[5] + after, ps, rs) == before + rs[5] + after);
    assert(replace_each(before + ps[6] + after, ps, rs) == before + rs[6] + after);
    assert(replace_each(before + ps[7] + after, ps, rs) == before + rs[7] + after);
}


/// The proleptic Gregorian (year, month, day) of the day `days` days after
/// 1970-01-01, by the days-to-civil computation of H. Hinnant's date algorithms.
pub open spec fn civil_from_days(days: int) -> (int, int, int) {
    let z = days + 719468;
    let era = z / 146097;
    let doe = z - era * 146097;
    let yoe = (doe - doe / 1460 + doe / 36524 - doe / 146096) / 365;
    let y = yoe + era * 400;
    let doy = doe - (365 * yoe + yoe / 4 - yoe / 100);
    let mp = (5 * doy + 2) / 153;
    let d = doy - (153 * mp + 2) / 5 + 1;
    let m = if mp < 10 { mp + 3 } else { mp - 9 };
    let y2 = if m <= 2 { y + 1 } else { y };
    (y2, m, d)
}

/// Days since the epoch to (year, month, day).
#[verifier::spinoff_prover]
#[verifier::rlimit(60)]
pub fn days_to_ymd(days: u64) -> (r: (u64, u64, u64))
    requires
        days <= u64::MAX - 719468,
    ensures
        r == ((civil_from_days(days as int).0) as u64, (civil_from_days(days as int).1) as u64, (
        civil_from_days(days as int).2) as u64),
{
    let z: i128 = days as i128 + 719468;
    let era: i128 = z / 146097;
    assert(0 <= era <= z) by (nonlinear_arith)
        requires z >= 0, era == z / 146097;
    assert(0 <= era * 146097 <= z && era * 400 <= z) by (nonlinear_arith)
        requires z >= 0, era == z / 146097;
    let doe: i128 = z - era * 146097;
    assert(0 <= doe < 146097) by (nonlinear_arith)
        requires z >= 0, era == z / 146097, doe == z - era * 146097;
    let yoe: i128 = (doe - doe / 1460 + doe / 36524 - doe / 146096) / 365;
    assert(0 <= yoe <= 400) by (nonlinear_arith)
        requires 0 <= doe < 146097, yoe == (doe - doe / 1460 + doe / 36524 - doe / 146096) / 365;
    let y: i128 = yoe + era * 400;
    let doy: i128 = doe - (365 * yoe + yoe / 4 - yoe / 100);
    let mp: i128 = (5 * doy + 2) / 153;
    let d: i128 = doy - (153 * mp + 2) / 5 + 1;
    let m: i128 = if mp < 10 { mp + 3 } else { mp - 9 };
    let y2: i128 = if m <= 2 { y + 1 } else { y };
    (y2 as u64, m as u64, d as u64)
}

/// The text `YYYY-MM-DDTHH:MM:SSZ` of an instant given in seconds since the epoch.
pub open spec fn utc_text(secs: u64) -> Seq<char> {
    let days = secs / 86400;
    let t = secs % 86400;
    let ymd = civil_from_days(days as int);
    zero_padded((ymd.0 as u64) as nat, 4) + seq!['-'] + zero_padded((ymd.1 as u64) as nat, 2) + seq!['-']
        + zero_padded((ymd.2 as u64) as nat, 2) + seq!['T'] + zero_padded((t / 3600) as nat, 2) + seq![':']
        + zero_padded(((t % 3600) / 60) as nat, 2) + seq![':'] + zero_padded((t % 60) as nat, 2) + seq!['Z']
}

/// Formats an instant (seconds since the epoch) as `YYYY-MM-DDTHH:MM:SSZ`.
#[verifier::spinoff_prover]
#[verifier::rlimit(40)]
pub fn format_utc(secs: u64) -> (r: String)
    ensures
        r@ == utc_text(secs),
{
    let days = secs / 86400;
    let t = secs % 86400;
    let (y, mo, d) = days_to_ymd(days);
    let mut v = zero_padded_chars(y, 4);
    v.push('-');
    push_all(&mut v, &zero_padded_chars(mo, 2));
    v.push('-');
    push_all(&mut v, &zero_padded_chars(d, 2));
    v.push('T');
    push_all(&mut v, &zero_padded_chars(t / 3600, 2));
    v.push(':');
    push_all(&mut v, &zero_padded_chars((t % 3600) / 60, 2));
    v.push(':');
    push_all(&mut v, &zero_padded_chars(t % 60, 2));
    v.push('Z');
    string_from_chars(&v)
}

#[verifier::external_type_specification]
#[verifier::external_body]
pub struct ExSystemTime(std::time::SystemTime);

/// std `SystemTime::now`: what the system clock reads. Nothing is promised
/// of the value.
#[verifier::external_body]
fn system_now() -> std::time::SystemTime {
    std::time::SystemTime::now()
}

/// std `SystemTime::duration_since(UNIX_EPOCH)`: the time since the Unix
/// epoch, none when `t` stands before it. Nothing more is promised.
#[verifier::external_body]
fn since_epoch(t: &std::time::SystemTime) -> Option<core::time::Duration> {
    t.duration_since(std::time::UNIX_EPOCH).ok()
}

/// std `Duration::as_secs`: the whole seconds of a duration. Nothing is
/// promised of the value (a duration's content is not modelled here).
#[verifier::external_body]
fn whole_secs(d: &core::time::Duration) -> u64 {
    d.as_secs()
}

/// Seconds since the Unix epoch by the system clock; zero when the clock
/// stands before the epoch.
fn unix_now_secs() -> u64 {
    match since_epoch(&system_now()) {
        Some(d) => whole_secs(&d),
        None => 0,
    }
}

/// Current UTC timestamp as ISO 8601 string.
pub fn now_utc() -> (r: String)
    ensures
        exists|secs: u64| r@ == utc_text(secs),
{
    let secs = unix_now_secs();
    format_utc(secs)
}

/// The listing entry of a file of a template directory: none for a
/// `.meta.json` side file; the mode is `forever` when no metadata says otherwise.
pub fn summary_of(image_type: &str, fname: &str, mode: Option<TemplateMode>) -> (r: Option<TemplateSummary>)
    ensures
        r is None <==> has_suffix(fname@, ".meta.json"@),
        r matches Some(t) ==> t.image_type@ == image_type@ && t.name@ == fname@ && t.format == format_of(fname@)
            && t.mode == (match mode {
            Some(m) => m,
            None => TemplateMode::Forever,
        }),
{
    if str_ends_with(fname, ".meta.json") {
        return None;
    }
    let m = match mode {
        Some(m) => m,
        None => TemplateMode::Forever,
    };
    Some(
        TemplateSummary {
            image_type: String::from_str(image_type),
            name: String::from_str(fname),
            format: TemplateFormat::from_filename(fname),
            mode: m,
        },
    )
}

/// The key by which listings are sorted: (image type, name).
pub open spec fn summary_key(t: TemplateSummary) -> (Seq<char>, Seq<char>) {
    (t.image_type@, t.name@)
}

/// A listing in (image type, name) order.
pub open spec fn summaries_sorted(v: Seq<TemplateSummary>) -> bool {
    forall|i: int, j: int| 0 <= i < j < v.len() ==> !pair_lt(summary_key(v[j]), summary_key(v[i]))
}

fn summary_lt(a: &TemplateSummary, b: &TemplateSummary) -> (r: bool)
    ensures
        r == pair_lt(summary_key(*a), summary_key(*b)),
{
    str_lt(a.image_type.as_str(), b.image_type.as_str()) || (crate::text::str_eq(
        a.image_type.as_str(),
        b.image_type.as_str(),
    ) && str_lt(a.name.as_str(), b.name.as_str()))
}

proof fn lemma_insert_keeps_sorted(out: Seq<TemplateSummary>, k: int, x: TemplateSummary)
    requires
        summaries_sorted(out),
        0 <= k <= out.len(),
        forall|j: int| 0 <= j < k ==> !pair_lt(summary_key(x), summary_key(#[trigger] out[j])),
        k < out.len() ==> pair_lt(summary_key(x), summary_key(out[k])),
    ensures
        summaries_sorted(out.insert(k, x)),
{
    let n = out.insert(k, x);
    assert forall|i: int, j: int| 0 <= i < j < n.len() implies !pair_lt(summary_key(n[j]), summary_key(n[i])) by {
        if j < k {
            assert(n[i] == out[i] && n[j] == out[j]);
        } else if j == k {
            assert(n[j] == x && n[i] == out[i]);
        } else if i == k {
            assert(n[i] == x && n[j] == out[j - 1]);
            if j - 1 > k {
                assert(!pair_lt(summary_key(out[j - 1]), summary_key(out[k])));
                lemma_pair_lt_le(summary_key(x), summary_key(out[k]), summary_key(out[j - 1]));
            }
            lemma_pair_lt_asymmetric(summary_key(x), summary_key(out[j - 1]));
        } else if i < k {
            assert(n[i] == out[i] && n[j] == out[j - 1]);
        } else {
            assert(n[i] == out[i - 1] && n[j] == out[j - 1]);
        }
    }
}

/// A listing sorted by (image type, name), with the same entries.
pub fn sort_summaries(v: Vec<TemplateSummary>) -> (r: Vec<TemplateSummary>)
    ensures
        summaries_sorted(r@),
        r@.to_multiset() == v@.to_multiset(),
{
    broadcast use vstd::multiset::group_multiset_axioms;

    let ghost orig = v@;
    let mut rest = v;
    let mut out: Vec<TemplateSummary> = Vec::new();
    proof {
        vstd::seq_lib::to_multiset_len(out@);
        vstd::multiset::lemma_multiset_empty_len(out@.to_multiset());
    }
    assert(out@.to_multiset().add(rest@.to_multiset()) =~= orig.to_multiset());
    while rest.len() > 0
        invariant
            summaries_sorted(out@),
            out@.to_multiset().add(rest@.to_multiset()) == orig.to_multiset(),
        decreases rest.len(),
    {
        let ghost rest0 = rest@;
        let ghost out0 = out@;
        let x = rest.remove(0);
        proof {
            vstd::seq_lib::to_multiset_remove(rest0, 0);
        }
        let mut k: usize = 0;
        while k < out.len() && !summary_lt(&x, &out[k])
            invariant
                k <= out.len(),
                out@ == out0,
                forall|j: int| 0 <= j < k ==> !pair_lt(summary_key(x), summary_key(#[trigger] out@[j])),
            decreases out.len() - k,
        {
            k = k + 1;
        }
        proof {
            lemma_insert_keeps_sorted(out@, k as int, x);
            vstd::seq_lib::to_multiset_insert(out0, k as int, x);
            assert(rest0.to_multiset().contains(x)) by {
                vstd::seq_lib::to_multiset_contains(rest0, x);
                assert(rest0[0] == x);
            }
        }
        out.insert(k, x);
        assert(out@.to_multiset().add(rest@.to_multiset()) =~= orig.to_multiset());
    }
    proof {
        vstd::seq_lib::to_multiset_len(rest@);
        vstd::multiset::lemma_multiset_empty_len(rest@.to_multiset());
    }
    assert(out@.to_multiset().add(rest@.to_multiset()) =~= out@.to_multiset());
    out
}

/// A template read from disk: its format from its name, and its mode and
/// times from its metadata file (mode `forever` and the current time when
/// there is none).
pub fn loaded_template(
    image_type: &str,
    name: &str,
    content: String,
    meta: Option<(TemplateMode, String, String)>,
    now: String,
) -> (r: LoadedTemplate)
    ensures
        r.image_type@ == image_type@,
        r.name@ == name@,
        r.format == format_of(name@),
        r.content == content,
        match meta {
            Some(m) => r.mode == m.0 && r.created_at == m.1 && r.updated_at == m.2,
            None => r.mode == TemplateMode::Forever && r.created_at@ == now@ && r.updated_at@ == now@,
        },
{
    let (mode, created_at, updated_at) = match meta {
        Some(m) => m,
        None => (TemplateMode::Forever, now.clone(), now),
    };
    LoadedTemplate {
        image_type: String::from_str(image_type),
        name: String::from_str(name),
        format: TemplateFormat::from_filename(name),
        mode,
        content,
        created_at,
        updated_at,
    }
}

/// A template as stored by a create or update: an update keeps the time
/// the template was created, a creation takes the current time.
pub fn stored_template(
    image_type: &str,
    name: &str,
    req: TemplateCreateRequest,
    existing_created: Option<String>,
    now: String,
) -> (r: LoadedTemplate)
    ensures
        r.image_type@ == image_type@,
        r.name@ == name@,
        r.format == format_of(name@),
        r.mode == req.mode,
        r.content == req.content,
        r.created_at@ == (match existing_created {
            Some(c) => c@,
            None => now@,
        }),
        r.updated_at@ == now@,
{
    let created_at = match existing_created {
        Some(c) => c,
        None => now.clone(),
    };
    LoadedTemplate {
        image_type: String::from_str(image_type),
        name: String::from_str(name),
        format: TemplateFormat::from_filename(name),
        mode: req.mode,
        content: req.content,
        created_at,
        updated_at: now,
    }
}

/// The bundle entry of a template.
pub fn bundle_entry(t: LoadedTemplate) -> (e: BundleEntry)
    ensures
        e.image_type == t.image_type,
        e.name == t.name,
        e.format == t.format,
        e.mode == t.mode,
        e.content == t.content,
{
    BundleEntry { image_type: t.image_type, name: t.name, format: t.format, mode: t.mode, content: t.content }
}

/// A backup bundle (format version 1) of the given templates.
pub fn make_bundle(templates: Vec<BundleEntry>, exported_at: String) -> (b: TemplateBundle)
    ensures
        b.version == 1,
        b.exported_at == exported_at,
        b.templates == templates,
{
    TemplateBundle { version: 1, exported_at, templates }
}

/// The request that restores a bundle entry.
pub fn restore_request(e: &BundleEntry) -> (r: TemplateCreateRequest)
    ensures
        r.mode == e.mode,
        r.content@ == e.content@,
{
    TemplateCreateRequest { mode: e.mode, content: e.content.clone() }
}

} // verus!
