use vstd::prelude::*;
use crate::order::views;
use crate::text::{has_prefix, lines, lines_of, str_starts_with};

verus! {

/// The whole configuration of the service.
#[derive(Debug)]
pub struct Config {
    pub server: ServerConfig,
    pub amo: AmoConfig,
    pub mkube: MkubeConfig,
    pub metadata: MetadataConfig,
    pub static_users: Vec<StaticUserConfig>,
    pub static_host_access: Vec<StaticHostAccessConfig>,
    pub templates: TemplatesConfig,
}

/// Where the metadata endpoint listens.
#[derive(Debug)]
pub struct ServerConfig {
    pub metadata_addr: String,
}

/// Where AMO's NATS server is.
#[derive(Debug)]
pub struct AmoConfig {
    pub nats_url: String,
}

/// Where mkube is.
#[derive(Debug)]
pub struct MkubeConfig {
    pub url: String,
}

/// Settings of the metadata served to hosts.
#[derive(Debug)]
pub struct MetadataConfig {
    pub domain_suffix: String,
    pub availability_zone: String,
    pub cache_rebuild_interval_secs: u64,
    pub dhcp_sources: Vec<String>,
}

/// A user defined directly in config.toml (bypass AMO for bootstrap).
/// SSH keys are loaded from files referenced by `ssh_key_files`; `ssh_keys`
/// holds the keys read from them.
#[derive(Debug)]
pub struct StaticUserConfig {
    pub name: String,
    pub uid: u32,
    pub gid: u32,
    pub shell: String,
    pub groups: Vec<String>,
    /// Paths to .pub key files (one key per line, like authorized_keys).
    pub ssh_key_files: Vec<String>,
    /// The keys read from `ssh_key_files`, in order.
    pub ssh_keys: Vec<String>,
}

/// A host access rule defined directly in config.toml.
/// Use hosts = ["*"] to match all known BMH hosts.
#[derive(Debug)]
pub struct StaticHostAccessConfig {
    pub ssh_users: Vec<String>,
    pub hosts: Vec<String>,
    pub users: Vec<String>,
    pub sudo: bool,
}

/// Template system configuration.
#[derive(Debug)]
pub struct TemplatesConfig {
    /// PVC mount point for templates + state files.
    pub data_dir: String,
    /// Bootstrap template assignments (config-based fallback).
    pub assignments: Vec<TemplateAssignmentConfig>,
}

impl Default for TemplatesConfig {
    fn default() -> (r: Self)
        ensures
            r.data_dir@ == "/var/lib/cloudid"@,
            r.assignments@.len() == 0,
    {
        TemplatesConfig { data_dir: default_data_dir(), assignments: Vec::new() }
    }
}

/// A config-based template assignment (lowest priority fallback).
#[derive(Debug)]
pub struct TemplateAssignmentConfig {
    pub hosts: Vec<String>,
    pub template: String,
}

/// Seconds between cache rebuilds when the config names none.
pub fn default_cache_interval() -> (n: u64)
    ensures
        n == 30,
{
    30
}

/// The uid of a static user whose entry names none.
pub fn default_uid() -> (n: u32)
    ensures
        n == 1000,
{
    1000
}

/// The shell of a static user whose entry names none.
pub fn default_shell() -> (s: String)
    ensures
        s@ == "/bin/bash"@,
{
    String::from_str("/bin/bash")
}

/// Where templates and state files live when the config names no place.
pub fn default_data_dir() -> (s: String)
    ensures
        s@ == "/var/lib/cloudid"@,
{
    String::from_str("/var/lib/cloudid")
}

/// The keys of a `.pub` key file: its lines that are neither empty nor
/// comments (starting with `#`), in order.
pub open spec fn key_file_keys(ls: Seq<Seq<char>>) -> Seq<Seq<char>>
    decreases ls.len(),
{
    if ls.len() == 0 {
        Seq::empty()
    } else {
        let prev = key_file_keys(ls.drop_last());
        if ls.last().len() == 0 || has_prefix(ls.last(), "#"@) {
            prev
        } else {
            prev.push(ls.last())
        }
    }
}

/// The SSH keys a key file holds, one per line.
pub fn keys_from_file(text: &str) -> (r: Vec<String>)
    ensures
        views(r@) == key_file_keys(lines(text@)),
{
    let ls = lines_of(text);
    let ghost w = views(ls@);
    let mut out: Vec<String> = Vec::new();
    let mut i: usize = 0;
    while i < ls.len()
        invariant
            i <= ls.len(),
            w == views(ls@),
            views(out@) == key_file_keys(w.subrange(0, i as int)),
        decreases ls.len() - i,
    {
        let ghost sub = w.subrange(0, i + 1);
        assert(sub.drop_last() =~= w.subrange(0, i as int));
        assert(sub.last() == ls@[i as int]@);
        let l = ls[i].as_str();
        if !(crate::text::chars_of(l).len() == 0 || str_starts_with(l, "#")) {
            let ghost before = out@;
            out.push(ls[i].clone());
            assert(views(out@) =~= views(before).push(ls@[i as int]@));
        }
        i = i + 1;
    }
    assert(w.subrange(0, ls.len() as int) =~= w);
    out
}

/// The keys of several key files, file after file, each in its order.
pub open spec fn files_keys(texts: Seq<Seq<char>>) -> Seq<Seq<char>>
    decreases texts.len(),
{
    if texts.len() == 0 {
        Seq::empty()
    } else {
        files_keys(texts.drop_last()) + key_file_keys(lines(texts.last()))
    }
}

/// The keys of a static user's key files, given their contents in the
/// order the config lists the files.
pub fn keys_from_files(texts: &Vec<String>) -> (r: Vec<String>)
    ensures
        views(r@) == files_keys(views(texts@)),
{
    let mut out: Vec<String> = Vec::new();
    let mut i: usize = 0;
    while i < texts.len()
        invariant
            i <= texts.len(),
            views(out@) == files_keys(views(texts@).subrange(0, i as int)),
        decreases texts.len() - i,
    {
        let ghost sub = views(texts@).subrange(0, i + 1);
        assert(sub.drop_last() =~= views(texts@).subrange(0, i as int));
        assert(sub.last() == texts@[i as int]@);
        let ks = keys_from_file(texts[i].as_str());
        let ghost before = out@;
        let mut j: usize = 0;
        while j < ks.len()
            invariant
                j <= ks.len(),
                views(out@) == views(before) + views(ks@).subrange(0, j as int),
            decreases ks.len() - j,
        {
            let ghost prev = out@;
            let k = ks[j].clone();
            assert(k@ == ks@[j as int]@);
            out.push(k);
            assert(views(out@) =~= views(prev).push(ks@[j as int]@));
            assert(views(ks@).subrange(0, j + 1) =~= views(ks@).subrange(0, j as int).push(ks@[j as int]@));
            j = j + 1;
            assert(views(out@) =~= views(before) + views(ks@).subrange(0, j as int));
        }
        assert(views(ks@).subrange(0, ks.len() as int) =~= views(ks@));
        i = i + 1;
    }
    assert(views(texts@).subrange(0, texts.len() as int) =~= views(texts@));
    out
}

} // verus!
