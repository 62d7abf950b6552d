use vstd::prelude::*;
use crate::templates::{join_path, path_join};
use crate::imds::public_keys_listing_text;
use crate::text::{chars_of, decimal, ends_line, first_pos, lines, lines_of, str_eq, sub_string, trim_chars, trim_ws};

verus! {

/// The (index, user) entries of a `public-keys/` listing: each non-empty
/// line that holds a `=` is split at its first `=`.
pub open spec fn index_entries_of(ls: Seq<Seq<char>>) -> Seq<(Seq<char>, Seq<char>)>
    decreases ls.len(),
{
    if ls.len() == 0 {
        Seq::empty()
    } else {
        let prev = index_entries_of(ls.drop_last());
        let l = ls.last();
        let p = first_pos(l, '=');
        if p < l.len() {
            prev.push((l.subrange(0, p), l.subrange(p + 1, l.len() as int)))
        } else {
            prev
        }
    }
}

/// The views of a list of string pairs.
pub open spec fn pair_views(v: Seq<(String, String)>) -> Seq<(Seq<char>, Seq<char>)> {
    v.map_values(|e: (String, String)| (e.0@, e.1@))
}

/// The (index, user) entries of a `public-keys/` listing body.
pub fn index_entries(body: &str) -> (r: Vec<(String, String)>)
    ensures
        pair_views(r@) == index_entries_of(lines(body@)),
{
    let ls = lines_of(body);
    let ghost w = crate::order::views(ls@);
    let mut out: Vec<(String, String)> = Vec::new();
    let mut i: usize = 0;
    while i < ls.len()
        invariant
            i <= ls.len(),
            w == crate::order::views(ls@),
            w == lines(body@),
            pair_views(out@) == index_entries_of(w.subrange(0, i as int)),
        decreases ls.len() - i,
    {
        let ghost sub = w.subrange(0, i + 1);
        assert(sub.drop_last() =~= w.subrange(0, i as int));
        assert(sub.last() == ls@[i as int]@);
        let cs = chars_of(ls[i].as_str());
        proof {
            crate::text::lemma_first_pos(cs@, '=');
        }
        match crate::text::find_char(&cs, '=') {
            Some(p) => {
                let ghost before = out@;
                let e = (sub_string(&cs, 0, p), sub_string(&cs, p + 1, cs.len()));
                out.push(e);
                assert(pair_views(out@) =~= pair_views(before).push((e.0@, e.1@)));
            },
            None => {},
        }
        i = i + 1;
    }
    assert(w.subrange(0, ls.len() as int) =~= w);
    out
}

/// Position of the first entry of `user`, or the number of entries.
pub open spec fn user_entry_pos(entries: Seq<(Seq<char>, Seq<char>)>, user: Seq<char>) -> int
    decreases entries.len(),
{
    if entries.len() == 0 {
        0
    } else if entries[0].1 == user {
        0
    } else {
        1 + user_entry_pos(entries.drop_first(), user)
    }
}

proof fn lemma_user_entry_pos(entries: Seq<(Seq<char>, Seq<char>)>, user: Seq<char>, i: int)
    requires
        0 <= i <= entries.len(),
        forall|j: int| 0 <= j < i ==> (#[trigger] entries[j]).1 != user,
        i == entries.len() || entries[i].1 == user,
    ensures
        user_entry_pos(entries, user) == i,
    decreases i,
{
    if i > 0 {
        assert forall|j: int| 0 <= j < i - 1 implies (#[trigger] entries.drop_first()[j]).1 != user by {
            assert(entries.drop_first()[j] == entries[j + 1]);
        }
        lemma_user_entry_pos(entries.drop_first(), user, i - 1);
    }
}

/// The index listed for `user`: that of its first entry.
pub fn index_for_user(entries: &Vec<(String, String)>, user: &str) -> (r: Option<String>)
    ensures
        match r {
            Some(ix) => user_entry_pos(pair_views(entries@), user@) < entries@.len() && ix@ == entries@[user_entry_pos(
                pair_views(entries@),
                user@,
            )].0@,
            None => user_entry_pos(pair_views(entries@), user@) == entries@.len(),
        },
{
    let ghost pv = pair_views(entries@);
    let mut i: usize = 0;
    while i < entries.len()
        invariant
            i <= entries.len(),
            pv == pair_views(entries@),
            forall|j: int| 0 <= j < i ==> (#[trigger] pv[j]).1 != user@,
        decreases entries.len() - i,
    {
        if str_eq(entries[i].1.as_str(), user) {
            proof {
                lemma_user_entry_pos(pv, user@, i as int);
            }
            return Some(entries[i].0.clone());
        }
        i = i + 1;
    }
    proof {
        lemma_user_entry_pos(pv, user@, i as int);
    }
    None
}

/// The home directory of a system user: `/root` for root, else `/home/USER`.
pub open spec fn home_of(user: Seq<char>) -> Seq<char> {
    if user == "root"@ {
        "/root"@
    } else {
        "/home/"@ + user
    }
}

/// The home directory of a system user.
pub fn home_dir(user: &str) -> (r: String)
    ensures
        r@ == home_of(user@),
{
    if str_eq(user, "root") {
        String::from_str("/root")
    } else {
        let mut h = String::from_str("/home/");
        h.append(user);
        h
    }
}

/// The directory that holds the agent's key file of a user.
pub open spec fn keys_dir_of(user: Seq<char>) -> Seq<char> {
    path_join(path_join(home_of(user), ".ssh"@), "authorized_keys.d"@)
}

/// `~USER/.ssh/authorized_keys.d`.
pub fn keys_dir(user: &str) -> (r: String)
    ensures
        r@ == keys_dir_of(user@),
{
    let ssh = join_path(home_dir(user).as_str(), ".ssh");
    join_path(ssh.as_str(), "authorized_keys.d")
}

/// `~USER/.ssh/authorized_keys.d/cloudid`, where the agent keeps a user's keys.
pub fn keys_file(user: &str) -> (r: String)
    ensures
        r@ == path_join(keys_dir_of(user@), "cloudid"@),
{
    join_path(keys_dir(user).as_str(), "cloudid")
}

/// `~USER/.ssh/authorized_keys.d/.cloudid.tmp`, written before it is renamed.
pub fn temp_keys_file(user: &str) -> (r: String)
    ensures
        r@ == path_join(keys_dir_of(user@), ".cloudid.tmp"@),
{
    join_path(keys_dir(user).as_str(), ".cloudid.tmp")
}

/// A successful HTTP answer (status 2xx), the only kind the agent reads.
pub open spec fn status_ok(status: u16) -> bool {
    200 <= status < 300
}

/// Whether an HTTP answer succeeded.
pub fn response_ok(status: u16) -> (r: bool)
    ensures
        r == status_ok(status),
{
    200 <= status && status < 300
}

/// Whether a key response holds anything to install: more than white space.
pub fn has_keys(body: &str) -> (r: bool)
    ensures
        r == (trim_ws(body@).len() > 0),
{
    trim_chars(&chars_of(body)).len() > 0
}

/// The entries a listing of `users` holds: (index, user) for each user, in order.
pub open spec fn listed_entries(users: Seq<Seq<char>>) -> Seq<(Seq<char>, Seq<char>)> {
    Seq::new(users.len(), |i: int| (decimal(i as nat), users[i]))
}

/// Names that fit on one line: no newline and no carriage return in them.
pub open spec fn one_line_names(users: Seq<Seq<char>>) -> bool {
    forall|i: int, j: int| 0 <= i < users.len() && 0 <= j < users[i].len() ==> #[trigger] users[i][j] != '\n'
        && users[i][j] != '\r'
}

/// The agent reads back, from the `public-keys/` listing the service writes,
/// exactly the (index, user) entries it listed, in order, as long as no
/// user name spans lines.
pub proof fn law_listing_reads_back(users: Seq<Seq<char>>)
    requires
        one_line_names(users),
    ensures
        index_entries_of(lines(public_keys_listing_text(users))) == listed_entries(users),
    decreases users.len(),
{
    reveal_strlit("=");
    reveal_strlit("\n");
    if users.len() == 0 {
        assert(lines(Seq::<char>::empty()) =~= Seq::<Seq<char>>::empty());
        assert(listed_entries(users) =~= Seq::<(Seq<char>, Seq<char>)>::empty());
    } else {
        let prev = users.drop_last();
        let u = users.last();
        let n = (users.len() - 1) as nat;
        assert forall|i: int, j: int| 0 <= i < prev.len() && 0 <= j < prev[i].len() implies #[trigger] prev[i][j]
            != '\n' && prev[i][j] != '\r' by {
            assert(prev[i] == users[i]);
        }
        law_listing_reads_back(prev);
        let before = public_keys_listing_text(prev);
        let d = decimal(n);
        crate::text::lemma_decimal_digits(n);
        let l = d + "="@ + u;
        assert(public_keys_listing_text(users) =~= before + l.push('\n'));
        assert(ends_line(before)) by {
            if prev.len() > 0 {
                let bb = public_keys_listing_text(prev.drop_last());
                let pl = decimal((prev.len() - 1) as nat) + "="@ + prev.last();
                assert(before =~= bb + pl + "\n"@);
            }
        }
        assert forall|j: int| 0 <= j < l.len() implies l[j] != '\n' && l[j] != '\r' by {
            if j < d.len() {
                assert(l[j] == d[j]);
                assert(crate::text::is_digit(d[j]));
            } else if j > d.len() {
                assert(l[j] == u[j - d.len() - 1]);
                assert(users[users.len() - 1][j - d.len() - 1] == u[j - d.len() - 1]);
            }
        }
        crate::text::lemma_lines_concat(before, l.push('\n'));
        crate::text::lemma_lines_one(l);
        let ls = lines(public_keys_listing_text(users));
        assert(ls =~= lines(before).push(l));
        assert(ls.drop_last() =~= lines(before));
        assert forall|j: int| 0 <= j < d.len() implies l[j] != '=' by {
            assert(l[j] == d[j]);
            assert(crate::text::is_digit(d[j]));
        }
        crate::text::lemma_first_pos_at(l, '=', d.len() as int);
        assert(l.subrange(0, d.len() as int) =~= d);
        assert(l.subrange(d.len() as int + 1, l.len() as int) =~= u);
        assert(listed_entries(users) =~= listed_entries(prev).push((d, u)));
    }
}

} // verus!
