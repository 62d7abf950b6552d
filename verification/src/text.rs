use vstd::prelude::*;

verus! {

broadcast use vstd::string::group_string_axioms;

/// The characters of a string slice, in order.
pub fn chars_of(s: &str) -> (v: Vec<char>)
    ensures
        v@ == s@,
{
    let mut v: Vec<char> = Vec::new();
    for c in it: s.chars()
        invariant
            v@ == it.seq().take(it.index() as int),
            it.seq() == s@,
    {
        v.push(c);
    }
    v
}

/// Collects characters into a `String` through std's `FromIterator<char>`
/// (`Iterator::collect`). Trusted: the string holds exactly the given
/// characters, in order, as std documents for collecting chars.
#[verifier::external_body]
pub(crate) fn string_from_chars(v: &Vec<char>) -> (s: String)
    ensures
        s@ == v@,
{
    v.iter().collect()
}


/// Character-wise equality of two string slices.
pub fn str_eq(a: &str, b: &str) -> (r: bool)
    ensures
        r == (a@ == b@),
{
    let va = chars_of(a);
    let vb = chars_of(b);
    seq_eq(&va, &vb)
}

/// Element-wise equality of two character vectors.
pub fn seq_eq(a: &Vec<char>, b: &Vec<char>) -> (r: bool)
    ensures
        r == (a@ == b@),
{
    if a.len() != b.len() {
        return false;
    }
    let mut i: usize = 0;
    while i < a.len()
        invariant
            a.len() == b.len(),
            i <= a.len(),
            forall|j: int| 0 <= j < i ==> a@[j] == b@[j],
        decreases a.len() - i,
    {
        if a[i] != b[i] {
            return false;
        }
        i = i + 1;
    }
    assert(a@ =~= b@);
    true
}

/// `p` occurs in `s` starting at position `i`.
pub open spec fn occurs_at(s: Seq<char>, p: Seq<char>, i: int) -> bool {
    0 <= i && i + p.len() <= s.len() && s.subrange(i, i + p.len()) == p
}

/// `s` begins with `p`.
pub open spec fn has_prefix(s: Seq<char>, p: Seq<char>) -> bool {
    occurs_at(s, p, 0)
}

/// `s` ends with `p`.
pub open spec fn has_suffix(s: Seq<char>, p: Seq<char>) -> bool {
    p.len() <= s.len() && occurs_at(s, p, s.len() - p.len())
}

/// `p` occurs somewhere in `s`.
pub open spec fn has_infix(s: Seq<char>, p: Seq<char>) -> bool {
    exists|i: int| occurs_at(s, p, i)
}

/// Whether `p` occurs in `s` at position `i`.
pub fn occurs_at_exec(s: &Vec<char>, p: &Vec<char>, i: usize) -> (r: bool)
    ensures
        r == occurs_at(s@, p@, i as int),
{
    if i > s.len() || p.len() > s.len() - i {
        return false;
    }
    let mut j: usize = 0;
    while j < p.len()
        invariant
            i + p.len() <= s.len(),
            j <= p.len(),
            forall|k: int| 0 <= k < j ==> s@[i + k] == p@[k],
        decreases p.len() - j,
    {
        if s[i + j] != p[j] {
            assert(s@.subrange(i as int, i + p.len())[j as int] != p@[j as int]);
            return false;
        }
        j = j + 1;
    }
    assert(s@.subrange(i as int, i + p.len()) =~= p@);
    true
}

/// `s` begins with `p`.
pub fn str_starts_with(s: &str, p: &str) -> (r: bool)
    ensures
        r == has_prefix(s@, p@),
{
    occurs_at_exec(&chars_of(s), &chars_of(p), 0)
}

/// `s` ends with `p`.
pub fn str_ends_with(s: &str, p: &str) -> (r: bool)
    ensures
        r == has_suffix(s@, p@),
{
    let vs = chars_of(s);
    let vp = chars_of(p);
    if vp.len() > vs.len() {
        return false;
    }
    occurs_at_exec(&vs, &vp, vs.len() - vp.len())
}

/// `p` occurs somewhere in `s`.
pub fn str_contains(s: &str, p: &str) -> (r: bool)
    ensures
        r == has_infix(s@, p@),
{
    let vs = chars_of(s);
    let vp = chars_of(p);
    let mut i: usize = 0;
    while i < vs.len()
        invariant
            vs@ == s@,
            vp@ == p@,
            i <= vs.len(),
            forall|k: int| 0 <= k < i ==> !occurs_at(s@, p@, k),
        decreases vs.len() - i,
    {
        if occurs_at_exec(&vs, &vp, i) {
            return true;
        }
        i = i + 1;
    }
    if occurs_at_exec(&vs, &vp, i) {
        return true;
    }
    assert forall|k: int| !occurs_at(s@, p@, k) by {
        if occurs_at(s@, p@, k) {
            assert(k <= vs.len());
        }
    }
    false
}


/// Appends all characters of `r` to `out`.
pub fn push_all(out: &mut Vec<char>, r: &Vec<char>)
    ensures
        final(out)@ == old(out)@ + r@,
{
    let mut i: usize = 0;
    while i < r.len()
        invariant
            i <= r.len(),
            out@ == old(out)@ + r@.subrange(0, i as int),
        decreases r.len() - i,
    {
        out.push(r[i]);
        i = i + 1;
        assert(r@.subrange(0, i as int) =~= r@.subrange(0, i - 1).push(r@[i - 1]));
    }
    assert(r@.subrange(0, r.len() as int) =~= r@);
}

/// Every non-overlapping occurrence of `p` in `s`, from left to right,
/// replaced by `r` (the meaning of `str::replace` for a non-empty pattern).
pub open spec fn replace_all(s: Seq<char>, p: Seq<char>, r: Seq<char>) -> Seq<char>
    decreases s.len(),
{
    if p.len() == 0 || s.len() == 0 {
        s
    } else if has_prefix(s, p) {
        r + replace_all(s.skip(p.len() as int), p, r)
    } else {
        seq![s[0]] + replace_all(s.drop_first(), p, r)
    }
}

/// Replaces each non-overlapping occurrence of `p` in `s` by `r`.
pub fn replace_chars(s: &Vec<char>, p: &Vec<char>, r: &Vec<char>) -> (out: Vec<char>)
    requires
        p.len() > 0,
    ensures
        out@ == replace_all(s@, p@, r@),
{
    let mut out: Vec<char> = Vec::new();
    let mut i: usize = 0;
    assert(s@.skip(0) =~= s@);
    while i < s.len()
        invariant
            p.len() > 0,
            i <= s.len(),
            out@ + replace_all(s@.skip(i as int), p@, r@) == replace_all(s@, p@, r@),
        decreases s.len() - i,
    {
        let ghost rest = s@.skip(i as int);
        assert(rest.subrange(0, p.len() as int) =~= s@.subrange(i as int, i + p.len()) || i + p.len() > s.len());
        if occurs_at_exec(s, p, i) {
            assert(has_prefix(rest, p@)) by {
                assert(rest.subrange(0, p.len() as int) =~= s@.subrange(i as int, i + p.len()));
            }
            assert(rest.skip(p.len() as int) =~= s@.skip(i + p.len()));
            push_all(&mut out, r);
            i = i + p.len();
        } else {
            assert(!has_prefix(rest, p@)) by {
                if i + p.len() <= s.len() {
                    assert(rest.subrange(0, p.len() as int) =~= s@.subrange(i as int, i + p.len()));
                }
            }
            assert(rest.drop_first() =~= s@.skip(i + 1));
            assert(rest[0] == s@[i as int]);
            out.push(s[i]);
            i = i + 1;
        }
    }
    assert(s@.skip(i as int) =~= Seq::<char>::empty());
    out
}

/// `str::replace` for a non-empty pattern.
pub fn replace_str(s: &str, p: &str, r: &str) -> (out: String)
    requires
        p@.len() > 0,
    ensures
        out@ == replace_all(s@, p@, r@),
{
    let v = replace_chars(&chars_of(s), &chars_of(p), &chars_of(r));
    string_from_chars(&v)
}

/// The decimal digit for `d` (0 to 9).
pub open spec fn digit(d: int) -> char {
    if d == 0 { '0' } else if d == 1 { '1' } else if d == 2 { '2' } else if d == 3 { '3' }
    else if d == 4 { '4' } else if d == 5 { '5' } else if d == 6 { '6' } else if d == 7 { '7' }
    else if d == 8 { '8' } else { '9' }
}

/// The decimal representation of `n`, without leading zeros.
pub open spec fn decimal(n: nat) -> Seq<char>
    decreases n,
{
    if n < 10 {
        seq![digit(n as int)]
    } else {
        decimal(n / 10).push(digit((n % 10) as int))
    }
}

/// `decimal(n)` preceded by zeros up to `width` characters (`{:0width}`).
pub open spec fn zero_padded(n: nat, width: nat) -> Seq<char> {
    let d = decimal(n);
    if d.len() >= width {
        d
    } else {
        Seq::new((width - d.len()) as nat, |i: int| '0') + d
    }
}

fn digit_exec(d: u64) -> (c: char)
    requires
        d < 10,
    ensures
        c == digit(d as int),
{
    if d == 0 { '0' } else if d == 1 { '1' } else if d == 2 { '2' } else if d == 3 { '3' }
    else if d == 4 { '4' } else if d == 5 { '5' } else if d == 6 { '6' } else if d == 7 { '7' }
    else if d == 8 { '8' } else { '9' }
}

/// The decimal digits of `n`.
pub fn decimal_chars(n: u64) -> (v: Vec<char>)
    ensures
        v@ == decimal(n as nat),
    decreases n,
{
    if n < 10 {
        let mut v = Vec::new();
        v.push(digit_exec(n));
        v
    } else {
        let mut v = decimal_chars(n / 10);
        v.push(digit_exec(n % 10));
        v
    }
}

/// `n.to_string()` for an unsigned integer.
pub fn decimal_string(n: u64) -> (s: String)
    ensures
        s@ == decimal(n as nat),
{
    string_from_chars(&decimal_chars(n))
}

/// `format!("{:0width$}", n)`.
pub fn zero_padded_chars(n: u64, width: usize) -> (v: Vec<char>)
    ensures
        v@ == zero_padded(n as nat, width as nat),
{
    let d = decimal_chars(n);
    if d.len() >= width {
        return d;
    }
    let mut v: Vec<char> = Vec::new();
    let pad = width - d.len();
    while v.len() < pad
        invariant
            v.len() <= pad,
            forall|i: int| 0 <= i < v.len() ==> v@[i] == '0',
        decreases pad - v.len(),
    {
        v.push('0');
    }
    assert(v@ =~= Seq::new(pad as nat, |i: int| '0'));
    push_all(&mut v, &d);
    v
}

/// Concatenation of the items of `s` with `sep` between neighbours.
pub open spec fn join(s: Seq<Seq<char>>, sep: Seq<char>) -> Seq<char>
    decreases s.len(),
{
    if s.len() == 0 {
        Seq::empty()
    } else if s.len() == 1 {
        s[0]
    } else {
        join(s.drop_last(), sep) + sep + s.last()
    }
}

/// `slice.join(sep)` for a vector of strings.
pub fn join_strings(v: &Vec<String>, sep: &str) -> (out: String)
    ensures
        out@ == join(crate::order::views(v@), sep@),
{
    let ghost w = crate::order::views(v@);
    let mut out = String::new();
    let mut i: usize = 0;
    while i < v.len()
        invariant
            i <= v.len(),
            w == crate::order::views(v@),
            out@ == join(w.subrange(0, i as int), sep@),
        decreases v.len() - i,
    {
        assert(w.subrange(0, i + 1).drop_last() =~= w.subrange(0, i as int));
        assert(w.subrange(0, i + 1).last() == v@[i as int]@);
        if i > 0 {
            out.append(sep);
        } else {
            assert(w.subrange(0, 1) =~= seq![v@[0]@]);
        }
        out.append(v[i].as_str());
        i = i + 1;
    }
    assert(w.subrange(0, v.len() as int) =~= w);
    out
}


/// Position of the first `c` in `s`, or `s.len()` when there is none.
pub open spec fn first_pos(s: Seq<char>, c: char) -> int
    decreases s.len(),
{
    if s.len() == 0 {
        0
    } else if s[0] == c {
        0
    } else {
        1 + first_pos(s.drop_first(), c)
    }
}

/// Position of the last `c` in `s`, or -1 when there is none.
pub open spec fn last_pos(s: Seq<char>, c: char) -> int
    decreases s.len(),
{
    if s.len() == 0 {
        -1
    } else if s.last() == c {
        s.len() - 1
    } else {
        last_pos(s.drop_last(), c)
    }
}

pub proof fn lemma_first_pos(s: Seq<char>, c: char)
    ensures
        0 <= first_pos(s, c) <= s.len(),
        forall|j: int| 0 <= j < first_pos(s, c) ==> s[j] != c,
        first_pos(s, c) < s.len() ==> s[first_pos(s, c)] == c,
    decreases s.len(),
{
    if s.len() > 0 && s[0] != c {
        lemma_first_pos(s.drop_first(), c);
        assert forall|j: int| 0 <= j < first_pos(s, c) implies s[j] != c by {
            if j > 0 {
                assert(s[j] == s.drop_first()[j - 1]);
            }
        }
    }
}

pub proof fn lemma_last_pos(s: Seq<char>, c: char)
    ensures
        -1 <= last_pos(s, c) < s.len(),
        forall|j: int| last_pos(s, c) < j < s.len() ==> s[j] != c,
        last_pos(s, c) >= 0 ==> s[last_pos(s, c)] == c,
    decreases s.len(),
{
    if s.len() > 0 && s.last() != c {
        lemma_last_pos(s.drop_last(), c);
        assert forall|j: int| last_pos(s, c) < j < s.len() implies s[j] != c by {
            if j < s.len() - 1 {
                assert(s[j] == s.drop_last()[j]);
            }
        }
    }
}

/// `str::find` for a single character: the first position of `c`.
pub fn find_char(s: &Vec<char>, c: char) -> (r: Option<usize>)
    ensures
        match r {
            Some(i) => i < s.len() && i == first_pos(s@, c),
            None => first_pos(s@, c) == s.len(),
        },
{
    proof { lemma_first_pos(s@, c); }
    let mut i: usize = 0;
    while i < s.len()
        invariant
            i <= s.len(),
            forall|j: int| 0 <= j < i ==> s@[j] != c,
            0 <= first_pos(s@, c) <= s.len(),
            forall|j: int| 0 <= j < first_pos(s@, c) ==> s@[j] != c,
            first_pos(s@, c) < s.len() ==> s@[first_pos(s@, c)] == c,
        decreases s.len() - i,
    {
        if s[i] == c {
            return Some(i);
        }
        i = i + 1;
    }
    None
}

/// `str::rfind` for a single character: the last position of `c`.
pub fn rfind_char(s: &Vec<char>, c: char) -> (r: Option<usize>)
    ensures
        match r {
            Some(i) => i < s.len() && i == last_pos(s@, c),
            None => last_pos(s@, c) == -1,
        },
{
    proof { lemma_last_pos(s@, c); }
    let mut i: usize = s.len();
    while i > 0
        invariant
            i <= s.len(),
            forall|j: int| i <= j < s.len() ==> s@[j] != c,
            -1 <= last_pos(s@, c) < s.len(),
            forall|j: int| last_pos(s@, c) < j < s.len() ==> s@[j] != c,
            last_pos(s@, c) >= 0 ==> s@[last_pos(s@, c)] == c,
        decreases i,
    {
        if s[i - 1] == c {
            return Some(i - 1);
        }
        i = i - 1;
    }
    None
}

/// Index just past the first line of `s`: the position of its first `'\n'`,
/// or `s.len()` when it has none.
pub open spec fn line_end(s: Seq<char>) -> int {
    first_pos(s, '\n')
}

/// `s` without one trailing `'\r'`.
pub open spec fn strip_cr(s: Seq<char>) -> Seq<char> {
    if s.len() > 0 && s.last() == '\r' {
        s.drop_last()
    } else {
        s
    }
}

/// The lines of `s` as `str::lines` yields them: split at each `'\n'`, a
/// `'\r'` just before a `'\n'` removed, and no empty last line after a final `'\n'`.
pub open spec fn lines(s: Seq<char>) -> Seq<Seq<char>>
    decreases s.len(),
{
    if s.len() == 0 {
        Seq::empty()
    } else if line_end(s) >= s.len() {
        seq![s]
    } else {
        proof { lemma_first_pos(s, '\n'); }
        seq![strip_cr(s.subrange(0, line_end(s)))] + lines(s.skip(line_end(s) + 1))
    }
}

proof fn lemma_first_pos_concat(a: Seq<char>, b: Seq<char>, c: char)
    requires
        forall|j: int| 0 <= j < a.len() ==> a[j] != c,
    ensures
        first_pos(a + b, c) == a.len() + first_pos(b, c),
    decreases a.len(),
{
    if a.len() > 0 {
        assert((a + b).drop_first() =~= a.drop_first() + b);
        lemma_first_pos_concat(a.drop_first(), b, c);
    } else {
        assert(a + b =~= b);
    }
}

/// Drops one trailing `'\r'`.
fn strip_cr_exec(v: Vec<char>) -> (r: Vec<char>)
    ensures
        r@ == strip_cr(v@),
{
    let mut v = v;
    if v.len() > 0 && v[v.len() - 1] == '\r' {
        v.pop();
    }
    v
}

/// `s.lines()` collected into strings.
pub fn lines_of(s: &str) -> (out: Vec<String>)
    ensures
        crate::order::views(out@) == lines(s@),
{
    let chars = chars_of(s);
    let mut out: Vec<String> = Vec::new();
    let mut cur: Vec<char> = Vec::new();
    let mut i: usize = 0;
    assert(chars@.skip(0) =~= chars@);
    assert(cur@ + chars@ =~= chars@);
    while i < chars.len()
        invariant
            chars@ == s@,
            i <= chars.len(),
            forall|j: int| 0 <= j < cur.len() ==> cur@[j] != '\n',
            crate::order::views(out@) + lines(cur@ + chars@.skip(i as int)) == lines(s@),
        decreases chars.len() - i,
    {
        let ghost rest = chars@.skip(i as int);
        let ghost whole = cur@ + rest;
        proof {
            lemma_first_pos_concat(cur@, rest, '\n');
            lemma_first_pos(rest, '\n');
        }
        if chars[i] == '\n' {
            assert(rest[0] == '\n');
            assert(first_pos(rest, '\n') == 0);
            assert(whole.subrange(0, cur.len() as int) =~= cur@);
            assert(whole.skip(cur.len() + 1) =~= chars@.skip(i + 1));
            let line = strip_cr_exec(cur);
            let ls = string_from_chars(&line);
            proof {
                assert(lines(whole) == seq![strip_cr(cur@)] + lines(chars@.skip(i + 1)));
                assert(crate::order::views(out@.push(ls)) =~= crate::order::views(out@).push(ls@));
                assert(Seq::<char>::empty() + chars@.skip(i + 1) =~= chars@.skip(i + 1));
            }
            out.push(ls);
            cur = Vec::new();
        } else {
            assert(cur@.push(chars@[i as int]) + chars@.skip(i + 1) =~= whole);
            cur.push(chars[i]);
        }
        i = i + 1;
    }
    assert(chars@.skip(i as int) =~= Seq::<char>::empty());
    assert(cur@ + chars@.skip(i as int) =~= cur@);
    if cur.len() > 0 {
        proof {
            lemma_first_pos_concat(cur@, Seq::<char>::empty(), '\n');
            assert(cur@ + Seq::<char>::empty() =~= cur@);
        }
        let ls = string_from_chars(&cur);
        assert(crate::order::views(out@.push(ls)) =~= crate::order::views(out@).push(ls@));
        out.push(ls);
        assert(crate::order::views(out@) =~= crate::order::views(out@).subrange(0, out.len() - 1) + seq![ls@]);
    } else {
        assert(crate::order::views(out@) + Seq::<Seq<char>>::empty() =~= crate::order::views(out@));
    }
    out
}

/// An ASCII decimal digit.
pub open spec fn is_digit(c: char) -> bool {
    '0' <= c && c <= '9'
}

/// The value of a string of decimal digits (0 for the empty string).
pub open spec fn digits_value(s: Seq<char>) -> int
    decreases s.len(),
{
    if s.len() == 0 {
        0
    } else {
        digits_value(s.drop_last()) * 10 + (s.last() as int - '0' as int)
    }
}

/// What `str::parse::<u32>` gives: an optional `+` followed by at least
/// one decimal digit, whose value fits in 32 bits.
pub open spec fn parse_u32_spec(s: Seq<char>) -> Option<u32> {
    let d = unsigned_part(s);
    if d.len() > 0 && all_digits(d) && digits_value(d) <= u32::MAX {
        Some(digits_value(d) as u32)
    } else {
        None
    }
}

/// `s` without one leading `+`.
pub open spec fn unsigned_part(s: Seq<char>) -> Seq<char> {
    if s.len() > 0 && s[0] == '+' {
        s.drop_first()
    } else {
        s
    }
}

/// Every character of `s` is a decimal digit.
pub open spec fn all_digits(s: Seq<char>) -> bool {
    forall|i: int| 0 <= i < s.len() ==> is_digit(#[trigger] s[i])
}

proof fn lemma_digits_value_nonneg(s: Seq<char>)
    requires
        forall|i: int| 0 <= i < s.len() ==> is_digit(#[trigger] s[i]),
    ensures
        digits_value(s) >= 0,
    decreases s.len(),
{
    if s.len() > 0 {
        lemma_digits_value_nonneg(s.drop_last());
    }
}

/// `s.parse::<u32>().ok()`.
pub fn parse_u32(s: &str) -> (r: Option<u32>)
    ensures
        r == parse_u32_spec(s@),
{
    let cs = chars_of(s);
    let mut i: usize = 0;
    if cs.len() > 0 && cs[0] == '+' {
        i = 1;
    }
    let start = i;
    let ghost d = unsigned_part(s@);
    assert(d =~= cs@.subrange(start as int, cs.len() as int));
    if start == cs.len() {
        return None;
    }
    let mut acc: u64 = 0;
    let mut too_big = false;
    while i < cs.len()
        invariant
            cs@ == s@,
            d == unsigned_part(s@),
            start <= i <= cs.len(),
            d =~= cs@.subrange(start as int, cs.len() as int),
            forall|j: int| start <= j < i ==> is_digit(#[trigger] cs@[j]),
            !too_big ==> acc == digits_value(cs@.subrange(start as int, i as int)),
            too_big <==> digits_value(cs@.subrange(start as int, i as int)) > u32::MAX,
            acc <= u32::MAX,
        decreases cs.len() - i,
    {
        let c = cs[i];
        if !('0' <= c && c <= '9') {
            assert(d[i - start] == c);
            assert(!is_digit(d[i - start]));
            return None;
        }
        let ghost prev = cs@.subrange(start as int, i as int);
        assert(cs@.subrange(start as int, i + 1).drop_last() =~= prev);
        proof {
            lemma_digits_value_nonneg(prev);
        }
        let dv: u64 = (c as u32 - '0' as u32) as u64;
        if !too_big {
            let next = acc * 10 + dv;
            if next > 0xffff_ffff {
                too_big = true;
            } else {
                acc = next;
            }
        }
        i = i + 1;
    }
    proof {
        assert(cs@.subrange(start as int, i as int) =~= d);
        assert forall|j: int| 0 <= j < d.len() implies is_digit(#[trigger] d[j]) by {
            assert(d[j] == cs@[start + j]);
        }
    }
    if too_big {
        None
    } else {
        Some(acc as u32)
    }
}

/// The characters of `cs` from `a` up to `b`, as a string.
pub fn sub_string(cs: &Vec<char>, a: usize, b: usize) -> (r: String)
    requires
        a <= b <= cs.len(),
    ensures
        r@ == cs@.subrange(a as int, b as int),
{
    let mut v: Vec<char> = Vec::new();
    let mut i: usize = a;
    while i < b
        invariant
            a <= i <= b <= cs.len(),
            v@ == cs@.subrange(a as int, i as int),
        decreases b - i,
    {
        v.push(cs[i]);
        i = i + 1;
        assert(v@ =~= cs@.subrange(a as int, i as int));
    }
    string_from_chars(&v)
}

/// Unicode white space, as `char::is_whitespace` reads it.
pub open spec fn is_ws(c: char) -> bool {
    let n = c as int;
    (9 <= n <= 13) || n == 32 || n == 0x85 || n == 0xA0 || n == 0x1680 || (0x2000 <= n <= 0x200A) || n == 0x2028
        || n == 0x2029 || n == 0x202F || n == 0x205F || n == 0x3000
}

fn is_ws_exec(c: char) -> (r: bool)
    ensures
        r == is_ws(c),
{
    let n: u32 = c as u32;
    (9 <= n && n <= 13) || n == 32 || n == 0x85 || n == 0xA0 || n == 0x1680 || (0x2000 <= n && n <= 0x200A)
        || n == 0x2028 || n == 0x2029 || n == 0x202F || n == 0x205F || n == 0x3000
}

/// `s` without leading white space.
pub open spec fn trim_start_ws(s: Seq<char>) -> Seq<char>
    decreases s.len(),
{
    if s.len() > 0 && is_ws(s[0]) {
        trim_start_ws(s.drop_first())
    } else {
        s
    }
}

/// `s` without trailing white space.
pub open spec fn trim_end_ws(s: Seq<char>) -> Seq<char>
    decreases s.len(),
{
    if s.len() > 0 && is_ws(s.last()) {
        trim_end_ws(s.drop_last())
    } else {
        s
    }
}

/// `str::trim`: `s` without leading and trailing white space.
pub open spec fn trim_ws(s: Seq<char>) -> Seq<char> {
    trim_end_ws(trim_start_ws(s))
}

/// `str::trim` on a character vector.
pub fn trim_chars(v: &Vec<char>) -> (r: Vec<char>)
    ensures
        r@ == trim_ws(v@),
{
    let mut a: usize = 0;
    assert(v@.subrange(0, v.len() as int) =~= v@);
    while a < v.len() && is_ws_exec(v[a])
        invariant
            a <= v.len(),
            trim_start_ws(v@) == trim_start_ws(v@.subrange(a as int, v.len() as int)),
        decreases v.len() - a,
    {
        assert(v@.subrange(a as int, v.len() as int).drop_first() =~= v@.subrange(a + 1, v.len() as int));
        a = a + 1;
    }
    let ghost start = v@.subrange(a as int, v.len() as int);
    assert(trim_start_ws(start) == start);
    let mut b: usize = v.len();
    assert(start.subrange(0, (b - a) as int) =~= start);
    while b > a && is_ws_exec(v[b - 1])
        invariant
            a <= b <= v.len(),
            start == v@.subrange(a as int, v.len() as int),
            trim_end_ws(start) == trim_end_ws(v@.subrange(a as int, b as int)),
        decreases b,
    {
        assert(v@.subrange(a as int, b as int).drop_last() =~= v@.subrange(a as int, b - 1));
        b = b - 1;
    }
    let mut r: Vec<char> = Vec::new();
    let mut i: usize = a;
    while i < b
        invariant
            a <= i <= b <= v.len(),
            r@ == v@.subrange(a as int, i as int),
        decreases b - i,
    {
        r.push(v[i]);
        i = i + 1;
        assert(r@ =~= v@.subrange(a as int, i as int));
    }
    r
}

/// The complete lines of a stream buffer, each trimmed, empty ones left
/// out, and what follows the last newline.
pub open spec fn complete_lines(buf: Seq<char>) -> (Seq<Seq<char>>, Seq<char>)
    decreases buf.len(),
{
    let p = first_pos(buf, '\n');
    if p >= buf.len() {
        (Seq::empty(), buf)
    } else {
        proof {
            lemma_first_pos(buf, '\n');
        }
        let line = trim_ws(buf.subrange(0, p));
        let rest = complete_lines(buf.subrange(p + 1, buf.len() as int));
        (if line.len() == 0 {
            rest.0
        } else {
            seq![line] + rest.0
        }, rest.1)
    }
}

/// Take the complete newline-terminated lines out of a stream buffer:
/// the trimmed, non-empty lines in order, and the rest of the buffer.
pub fn take_complete_lines(buf: &str) -> (r: (Vec<String>, String))
    ensures
        (crate::order::views(r.0@), r.1@) == complete_lines(buf@),
{
    let cs = chars_of(buf);
    let mut out: Vec<String> = Vec::new();
    let mut start: usize = 0;
    let mut i: usize = 0;
    let ghost whole = cs@;
    assert(whole.subrange(0, whole.len() as int) =~= whole);
    while i < cs.len()
        invariant
            cs@ == whole,
            whole == buf@,
            start <= i <= cs.len(),
            forall|j: int| start <= j < i ==> cs@[j] != '\n',
            complete_lines(whole) == (
                crate::order::views(out@) + complete_lines(whole.subrange(start as int, whole.len() as int)).0,
                complete_lines(whole.subrange(start as int, whole.len() as int)).1,
            ),
        decreases cs.len() - i,
    {
        if cs[i] == '\n' {
            let ghost tail = whole.subrange(start as int, whole.len() as int);
            proof {
                assert forall|j: int| 0 <= j < i - start implies tail[j] != '\n' by {
                    assert(tail[j] == cs@[start + j]);
                }
                assert(tail[i - start] == '\n');
                lemma_first_pos_at(tail, '\n', i - start);
                assert(tail.subrange(0, i - start) =~= whole.subrange(start as int, i as int));
                assert(tail.subrange(i - start + 1, tail.len() as int) =~= whole.subrange(i + 1, whole.len() as int));
            }
            let mut piece: Vec<char> = Vec::new();
            let mut k: usize = start;
            while k < i
                invariant
                    start <= k <= i < cs.len(),
                    piece@ == cs@.subrange(start as int, k as int),
                decreases i - k,
            {
                piece.push(cs[k]);
                k = k + 1;
                assert(piece@ =~= cs@.subrange(start as int, k as int));
            }
            let line = trim_chars(&piece);
            if line.len() > 0 {
                let ghost before = out@;
                out.push(string_from_chars(&line));
                proof {
                    assert(crate::order::views(out@) =~= crate::order::views(before).push(line@));
                    assert(crate::order::views(before).push(line@) + complete_lines(
                        whole.subrange(i + 1, whole.len() as int),
                    ).0 =~= crate::order::views(before) + (seq![line@] + complete_lines(
                        whole.subrange(i + 1, whole.len() as int),
                    ).0));
                }
            }
            start = i + 1;
        }
        i = i + 1;
    }
    let ghost tail = whole.subrange(start as int, whole.len() as int);
    proof {
        assert forall|j: int| 0 <= j < tail.len() implies tail[j] != '\n' by {
            assert(tail[j] == cs@[start + j]);
        }
        lemma_first_pos_at(tail, '\n', tail.len() as int);
        assert(crate::order::views(out@) + Seq::<Seq<char>>::empty() =~= crate::order::views(out@));
    }
    let mut rest: Vec<char> = Vec::new();
    let mut k: usize = start;
    while k < cs.len()
        invariant
            start <= k <= cs.len(),
            rest@ == cs@.subrange(start as int, k as int),
        decreases cs.len() - k,
    {
        rest.push(cs[k]);
        k = k + 1;
        assert(rest@ =~= cs@.subrange(start as int, k as int));
    }
    (out, string_from_chars(&rest))
}

pub proof fn lemma_first_pos_at(s: Seq<char>, c: char, i: int)
    requires
        0 <= i <= s.len(),
        forall|j: int| 0 <= j < i ==> s[j] != c,
        i == s.len() || s[i] == c,
    ensures
        first_pos(s, c) == i,
{
    lemma_first_pos(s, c);
    if first_pos(s, c) < i {
        assert(s[first_pos(s, c)] == c);
    }
    if first_pos(s, c) > i {
        assert(i < s.len());
    }
}

/// Every character of a decimal numeral is a digit.
pub proof fn lemma_decimal_digits(n: nat)
    ensures
        decimal(n).len() > 0,
        all_digits(decimal(n)),
    decreases n,
{
    if n >= 10 {
        lemma_decimal_digits(n / 10);
        assert forall|i: int| 0 <= i < decimal(n).len() implies is_digit(#[trigger] decimal(n)[i]) by {
            if i < decimal(n / 10).len() {
                assert(decimal(n)[i] == decimal(n / 10)[i]);
            }
        }
    }
}

/// Text that ends where a line ends: empty, or ending with a newline.
pub open spec fn ends_line(s: Seq<char>) -> bool {
    s.len() == 0 || s.last() == '\n'
}

/// The lines of text that ends where a line ends, followed by more text,
/// are its lines followed by those of the rest.
pub proof fn lemma_lines_concat(s: Seq<char>, t: Seq<char>)
    requires
        ends_line(s),
    ensures
        lines(s + t) == lines(s) + lines(t),
    decreases s.len(),
{
    if s.len() == 0 {
        assert(s + t =~= t);
        assert(lines(s) + lines(t) =~= lines(t));
    } else {
        lemma_first_pos(s, '\n');
        let p = line_end(s);
        assert(p < s.len()) by {
            if p >= s.len() {
                assert(s[s.len() - 1] == '\n');
            }
        }
        let st = s + t;
        assert forall|j: int| 0 <= j < p implies st[j] != '\n' by {
            assert(st[j] == s[j]);
        }
        lemma_first_pos_at(st, '\n', p);
        assert(st.subrange(0, p) =~= s.subrange(0, p));
        let rest = s.skip(p + 1);
        assert(st.skip(p + 1) =~= rest + t);
        if rest.len() > 0 {
            assert(rest.last() == s.last());
        }
        lemma_lines_concat(rest, t);
        assert(lines(s + t) =~= seq![strip_cr(s.subrange(0, p))] + (lines(rest) + lines(t)));
        assert(lines(s) == seq![strip_cr(s.subrange(0, p))] + lines(rest));
    }
}

/// A line without newlines and without a final carriage return, ended by a
/// newline, reads back as that one line.
pub proof fn lemma_lines_one(l: Seq<char>)
    requires
        forall|j: int| 0 <= j < l.len() ==> l[j] != '\n',
        !(l.len() > 0 && l.last() == '\r'),
    ensures
        lines(l.push('\n')) == seq![l],
{
    let s = l.push('\n');
    assert forall|j: int| 0 <= j < l.len() implies s[j] != '\n' by {
        assert(s[j] == l[j]);
    }
    lemma_first_pos_at(s, '\n', l.len() as int);
    assert(s.subrange(0, l.len() as int) =~= l);
    assert(s.skip(l.len() as int + 1) =~= Seq::<char>::empty());
    assert(lines(s) =~= seq![strip_cr(l)] + lines(Seq::<char>::empty()));
}

} // verus!
