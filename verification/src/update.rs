//! The notice of a newer version.
use crate::text;
use crate::text::{chars_of, drop_spaces, skip_spaces};
use vstd::prelude::*;

verus! {

// ---------------------------------------------------------------------------
// Versions
// ---------------------------------------------------------------------------

/// The length of the longest prefix of `s` that is all digits.
pub open spec fn digits_len(s: Seq<char>) -> nat
    decreases s.len(),
{
    if s.len() == 0 || !text::is_digit(s[0]) {
        0
    } else {
        1 + digits_len(s.drop_first())
    }
}

proof fn lemma_digits_len(s: Seq<char>)
    ensures
        digits_len(s) <= s.len(),
        forall|i: int| 0 <= i < digits_len(s) ==> text::is_digit(#[trigger] s[i]),
        digits_len(s) < s.len() ==> !text::is_digit(s[digits_len(s) as int]),
    decreases s.len(),
{
    if s.len() > 0 && text::is_digit(s[0]) {
        let t = s.drop_first();
        lemma_digits_len(t);
        assert forall|i: int| 0 <= i < digits_len(s) implies text::is_digit(#[trigger] s[i]) by {
            if i > 0 {
                assert(s[i] == t[i - 1]);
            }
        }
        if digits_len(s) < s.len() {
            assert(s[digits_len(s) as int] == t[digits_len(t) as int]);
        }
    }
}

/// The number at the front of one part of a version: zero where there is none,
/// or where it is too large.
pub open spec fn part_number(s: Seq<char>) -> u64 {
    let n = text::number_of(s.take(digits_len(s) as int));
    if n <= u64::MAX {
        n as u64
    } else {
        0
    }
}

/// What stands before the first dot.
pub open spec fn before_dot(s: Seq<char>) -> Seq<char> {
    match s.index_of_first('.') {
        Some(n) => s.take(n),
        None => s,
    }
}

/// What stands behind the first dot, if there is one.
pub open spec fn behind_dot(s: Seq<char>) -> Option<Seq<char>> {
    match s.index_of_first('.') {
        Some(n) => Some(s.skip(n + 1)),
        None => None,
    }
}

/// The number of part `k`, zero where there are fewer parts.
pub open spec fn version_part(s: Seq<char>, k: nat) -> u64
    decreases k,
{
    if k == 0 {
        part_number(before_dot(s))
    } else {
        match behind_dot(s) {
            Some(rest) => version_part(rest, (k - 1) as nat),
            None => 0,
        }
    }
}

/// A version without white space around it and without a `v` in front.
pub open spec fn bare_version(s: Seq<char>) -> Seq<char> {
    text::drop_front(text::trimmed(s), |c: char| c == 'v')
}

/// The three numbers of a version.
pub open spec fn semver(s: Seq<char>) -> (u64, u64, u64) {
    let v = bare_version(s);
    (version_part(v, 0), version_part(v, 1), version_part(v, 2))
}

/// Whether version `a` is higher than version `b`.
pub open spec fn is_newer(a: (u64, u64, u64), b: (u64, u64, u64)) -> bool {
    a.0 > b.0 || (a.0 == b.0 && (a.1 > b.1 || (a.1 == b.1 && a.2 > b.2)))
}

/// The number at the front of `v[from..to]`.
fn read_part(v: &Vec<char>, from: usize, to: usize) -> (n: u64)
    requires
        from <= to <= v@.len(),
    ensures
        n == part_number(v@.subrange(from as int, to as int)),
{
    let mut n: u64 = 0;
    let mut fits: bool = true;
    let mut i: usize = from;
    let ghost s = v@.subrange(from as int, to as int);
    proof {
        assert(s.skip(0) == s);
        assert(s.take(0) == Seq::<char>::empty());
        lemma_digits_len(s);
    }
    while i < to && '0' <= v[i] && v[i] <= '9'
        invariant
            from <= i <= to <= v@.len(),
            s == v@.subrange(from as int, to as int),
            digits_len(s) <= s.len(),
            digits_len(s) == (i - from) + digits_len(s.skip(i - from)),
            fits ==> n == text::number_of(s.take(i - from)),
            !fits ==> text::number_of(s.take(i - from)) > u64::MAX,
        decreases to - i,
    {
        let d: u64 = (v[i] as u32 - 48) as u64;
        proof {
            let k = i - from;
            assert(s[k] == v@[i as int]);
            assert(s.skip(k).drop_first() == s.skip(k + 1));
            assert(s.take(k + 1).drop_last() == s.take(k));
            assert(s.take(k + 1).last() == s[k]);
        }
        if fits {
            match n.checked_mul(10) {
                Some(m) => match m.checked_add(d) {
                    Some(sum) => {
                        n = sum;
                    },
                    None => {
                        fits = false;
                    },
                },
                None => {
                    fits = false;
                },
            }
        }
        i = i + 1;
    }
    proof {
        let k = i - from;
        if i < to {
            assert(s.skip(k)[0] == v@[i as int]);
        }
        assert(digits_len(s.skip(k)) == 0);
    }
    if fits {
        n
    } else {
        0
    }
}

/// The end of the part of `v[from..to]` that begins at `from`: its first dot,
/// or `to`.
fn part_end(v: &Vec<char>, from: usize, to: usize) -> (r: usize)
    requires
        from <= to <= v@.len(),
    ensures
        from <= r <= to,
        ({
            let s = v@.subrange(from as int, to as int);
            &&& before_dot(s) == v@.subrange(from as int, r as int)
            &&& r < to ==> behind_dot(s) == Some(v@.subrange(r + 1, to as int))
            &&& r == to ==> behind_dot(s) is None
        }),
{
    let mut i: usize = from;
    let ghost s = v@.subrange(from as int, to as int);
    while i < to && v[i] != '.'
        invariant
            from <= i <= to <= v@.len(),
            s == v@.subrange(from as int, to as int),
            forall|j: int| 0 <= j < i - from ==> s[j] != '.',
        decreases to - i,
    {
        proof {
            assert(s[i - from] == v@[i as int]);
        }
        i = i + 1;
    }
    proof {
        s.index_of_first_ensures('.');
        if i < to {
            assert(s[i - from] == '.');
            assert(s.contains('.'));
            let n = s.index_of_first('.')->0;
            assert(n == i - from);
            assert(s.take(n) == v@.subrange(from as int, i as int));
            assert(s.skip(n + 1) == v@.subrange(i + 1, to as int));
        } else {
            assert(!s.contains('.'));
            assert(s == v@.subrange(from as int, i as int));
        }
    }
    i
}

/// The three numbers of a version such as `1.2.3`. What is not a number, or is
/// not there, is zero.
pub fn parse_semver(s: &str) -> (r: (u64, u64, u64))
    ensures
        r == semver(s@),
{
    let v = chars_of(s);
    let a: usize = skip_spaces(&v, 0, v.len());
    let to: usize = drop_spaces(&v, a, v.len());
    let mut from: usize = a;
    let ghost is_v = |c: char| c == 'v';
    proof {
        assert(v@.subrange(0, v@.len() as int) == s@);
        assert(v@.subrange(a as int, to as int) == text::trimmed(s@));
    }
    while from < to && v[from] == 'v'
        invariant
            a <= from <= to <= v@.len(),
            is_v == |c: char| c == 'v',
            text::drop_front(v@.subrange(from as int, to as int), is_v) == text::drop_front(
                v@.subrange(a as int, to as int),
                is_v,
            ),
        decreases to - from,
    {
        proof {
            assert(v@.subrange(from as int, to as int).drop_first() == v@.subrange(
                from + 1,
                to as int,
            ));
        }
        from = from + 1;
    }
    let ghost bare = v@.subrange(from as int, to as int);
    proof {
        assert(bare == bare_version(s@));
        reveal_with_fuel(version_part, 3);
    }
    let e0: usize = part_end(&v, from, to);
    let major: u64 = read_part(&v, from, e0);
    if e0 == to {
        return (major, 0, 0);
    }
    let e1: usize = part_end(&v, e0 + 1, to);
    let minor: u64 = read_part(&v, e0 + 1, e1);
    if e1 == to {
        return (major, minor, 0);
    }
    let e2: usize = part_end(&v, e1 + 1, to);
    let patch: u64 = read_part(&v, e1 + 1, e2);
    (major, minor, patch)
}

/// Whether version `a` is higher than version `b`.
pub fn newer(a: (u64, u64, u64), b: (u64, u64, u64)) -> (r: bool)
    ensures
        r == is_newer(a, b),
{
    a.0 > b.0 || (a.0 == b.0 && (a.1 > b.1 || (a.1 == b.1 && a.2 > b.2)))
}

// ---------------------------------------------------------------------------
// The notice
// ---------------------------------------------------------------------------

/// The public notice of the newest version.
#[derive(Debug)]
pub struct Manifest {
    pub version: String,
    /// Where to get it.
    pub url: String,
    pub notes: String,
}

/// What came of asking for the notice.
#[derive(Debug)]
pub enum ManifestFetch {
    /// The server could not be asked, for this reason.
    Unreachable(String),
    /// The server refused, with this status.
    Refused(String),
    /// Its answer could not be read, for this reason.
    Unreadable(String),
    /// Its answer is no notice, for this reason.
    Malformed(String),
    /// The notice.
    Found(Manifest),
}

/// What the panel shows of a notice.
#[derive(Debug)]
pub struct UpdateInfo {
    pub current: String,
    pub latest: String,
    pub update_available: bool,
    pub url: String,
    pub notes: String,
}

/// Why there is no notice.
pub open spec fn fetch_error(fetch: ManifestFetch) -> Seq<char> {
    match fetch {
        ManifestFetch::Unreachable(e) => "fetch manifest: "@ + e@,
        ManifestFetch::Refused(status) => "manifest HTTP "@ + status@,
        ManifestFetch::Unreadable(e) => "read manifest body: "@ + e@,
        ManifestFetch::Malformed(e) => "parse manifest: "@ + e@,
        ManifestFetch::Found(_) => ""@,
    }
}

/// Compares the notice with the version of this program, `current`.
pub fn check_update(current: &str, fetch: ManifestFetch) -> (r: Result<UpdateInfo, String>)
    ensures
        r is Ok <==> fetch is Found,
        r matches Err(e) ==> e@ == fetch_error(fetch),
        r matches Ok(info) ==> fetch matches ManifestFetch::Found(m) && {
            &&& info.current@ == current@
            &&& info.latest@ == m.version@
            &&& info.update_available == is_newer(semver(m.version@), semver(current@))
            &&& info.url@ == m.url@
            &&& info.notes@ == m.notes@
        },
{
    match fetch {
        ManifestFetch::Unreachable(e) => Err("fetch manifest: ".to_owned().concat(e.as_str())),
        ManifestFetch::Refused(status) => Err(
            "manifest HTTP ".to_owned().concat(status.as_str()),
        ),
        ManifestFetch::Unreadable(e) => Err("read manifest body: ".to_owned().concat(e.as_str())),
        ManifestFetch::Malformed(e) => Err("parse manifest: ".to_owned().concat(e.as_str())),
        ManifestFetch::Found(m) => {
            let cur = parse_semver(current);
            let lat = parse_semver(m.version.as_str());
            Ok(
                UpdateInfo {
                    current: current.to_owned(),
                    latest: m.version,
                    update_available: newer(lat, cur),
                    url: m.url,
                    notes: m.notes,
                },
            )
        },
    }
}

// ---------------------------------------------------------------------------
// Laws
// ---------------------------------------------------------------------------

/// The text of a version of three numbers.
pub open spec fn version_text(a: u64, b: u64, c: u64) -> Seq<char> {
    text::decimal(a as nat) + seq!['.'] + text::decimal(b as nat) + seq!['.'] + text::decimal(
        c as nat,
    )
}

/// A number in front of the end, or of something that is no digit, is read.
proof fn lemma_part_reads_back(n: u64)
    ensures
        part_number(text::decimal(n as nat)) == n,
        !text::decimal(n as nat).contains('.'),
{
    let s = text::decimal(n as nat);
    text::law_decimal_reads_back(n as nat);
    lemma_digits_len(s);
    if digits_len(s) < s.len() {
        assert(text::is_digit(s[digits_len(s) as int]));
    }
    assert(s.take(s.len() as int) == s);
    if s.contains('.') {
        let i = choose|i: int| 0 <= i < s.len() && s[i] == '.';
        assert(text::is_digit(s[i]));
    }
}

/// The first dot behind a text without one is found.
proof fn lemma_first_dot(head: Seq<char>, rest: Seq<char>)
    requires
        !head.contains('.'),
    ensures
        before_dot(head + seq!['.'] + rest) == head,
        behind_dot(head + seq!['.'] + rest) == Some(rest),
{
    let s = head + seq!['.'] + rest;
    let n = head.len() as int;
    s.index_of_first_ensures('.');
    assert(s[n] == '.');
    assert(s.contains('.'));
    let m = s.index_of_first('.')->0;
    if m < n {
        assert(s[m] == head[m]);
        assert(head.contains(head[m]));
    } else if m > n {
        assert(s[n] != '.');
    }
    assert(s.take(n) == head);
    assert(s.skip(n + 1) == rest);
}

/// A version of three numbers reads back from its text, with or without a `v`
/// in front.
pub proof fn law_version_reads_back(a: u64, b: u64, c: u64)
    ensures
        semver(version_text(a, b, c)) == (a, b, c),
        semver(seq!['v'] + version_text(a, b, c)) == (a, b, c),
{
    let da = text::decimal(a as nat);
    let db = text::decimal(b as nat);
    let dc = text::decimal(c as nat);
    let s = version_text(a, b, c);
    lemma_part_reads_back(a);
    lemma_part_reads_back(b);
    lemma_part_reads_back(c);
    text::law_decimal_reads_back(a as nat);
    text::law_decimal_reads_back(c as nat);
    let rest2 = dc;
    let rest1 = db + seq!['.'] + dc;
    assert(s == da + seq!['.'] + rest1);
    lemma_first_dot(da, rest1);
    lemma_first_dot(db, rest2);
    dc.index_of_first_ensures('.');
    assert(before_dot(dc) == dc);
    reveal_with_fuel(version_part, 3);
    assert(s[0] == da[0]);
    assert(s.last() == dc.last());
    assert(text::is_digit(s[0]));
    assert(text::is_digit(dc[dc.len() - 1]));
    let space = |ch: char| text::is_space(ch);
    let is_v = |ch: char| ch == 'v';
    assert(text::drop_front(s, space) == s);
    assert(text::drop_back(s, space) == s);
    assert(text::drop_front(s, is_v) == s);
    let t = seq!['v'] + s;
    assert(t[0] == 'v');
    assert(t.last() == s.last());
    assert(text::drop_front(t, space) == t);
    assert(text::drop_back(t, space) == t);
    assert(t.drop_first() == s);
    assert(text::drop_front(t, is_v) == s);
}

/// "Higher" is a strict order of versions: none is higher than itself, of two
/// only one can be higher, and one of two different ones is.
pub proof fn law_newer_is_an_order(
    a: (u64, u64, u64),
    b: (u64, u64, u64),
    c: (u64, u64, u64),
)
    ensures
        !is_newer(a, a),
        is_newer(a, b) ==> !is_newer(b, a),
        is_newer(a, b) && is_newer(b, c) ==> is_newer(a, c),
        a != b ==> is_newer(a, b) || is_newer(b, a),
{
}

/// A version is higher than another exactly where the first of the three
/// numbers in which they differ is the larger one.
pub proof fn law_first_difference_decides(a: (u64, u64, u64), b: (u64, u64, u64))
    ensures
        a.0 != b.0 ==> (is_newer(a, b) <==> a.0 > b.0),
        a.0 == b.0 && a.1 != b.1 ==> (is_newer(a, b) <==> a.1 > b.1),
        a.0 == b.0 && a.1 == b.1 ==> (is_newer(a, b) <==> a.2 > b.2),
{
}

/// Why there is no notice.
pub proof fn law_fetch_errors(e: String)
    ensures
        fetch_error(ManifestFetch::Unreachable(e)) == "fetch manifest: "@ + e@,
        fetch_error(ManifestFetch::Refused(e)) == "manifest HTTP "@ + e@,
        fetch_error(ManifestFetch::Unreadable(e)) == "read manifest body: "@ + e@,
        fetch_error(ManifestFetch::Malformed(e)) == "parse manifest: "@ + e@,
{
}

/// Whether `d` and `j` can stand in one part of a version: digits, and behind
/// them something that does not go on with a digit and holds no dot.
pub open spec fn is_part(d: Seq<char>, j: Seq<char>) -> bool {
    &&& forall|i: int| 0 <= i < d.len() ==> '0' <= #[trigger] d[i] <= '9'
    &&& j.len() > 0 ==> !('0' <= j[0] <= '9')
    &&& !j.contains('.')
}

/// Whether `body` is what is left of `front + (vs + body) + back` without the
/// white space round it and without every `v` in front.
pub open spec fn is_dressed(
    front: Seq<char>,
    vs: Seq<char>,
    body: Seq<char>,
    back: Seq<char>,
) -> bool {
    &&& forall|i: int| 0 <= i < front.len() ==> text::is_space(#[trigger] front[i])
    &&& forall|i: int| 0 <= i < back.len() ==> text::is_space(#[trigger] back[i])
    &&& forall|i: int| 0 <= i < vs.len() ==> #[trigger] vs[i] == 'v'
    &&& body.len() > 0 ==> body[0] != 'v' && !text::is_space(body.last())
    &&& body.len() > 0 && vs.len() == 0 ==> !text::is_space(body[0])
}

/// What a run of digits counts for in a version: its number, or zero where that
/// is too large.
pub open spec fn worth(d: Seq<char>) -> int {
    if text::number_of(d) <= 0xffff_ffff_ffff_ffff {
        text::number_of(d) as int
    } else {
        0
    }
}

/// What is round the body of a version is cut off.
proof fn lemma_dressed(front: Seq<char>, vs: Seq<char>, body: Seq<char>, back: Seq<char>)
    requires
        is_dressed(front, vs, body, back),
    ensures
        bare_version(front + (vs + body) + back) == body,
{
    let core = vs + body;
    if vs.len() > 0 {
        assert(core[0] == vs[0]);
        assert(core.last() == if body.len() > 0 {
            body.last()
        } else {
            vs[vs.len() - 1]
        });
        text::law_white_space('v');
    } else {
        assert(core == body);
    }
    text::law_trimmed(front, core, back);
    text::law_front_is_dropped(vs, body, |c: char| c == 'v');
}

/// One part of a version has the number of its digits.
proof fn lemma_part(d: Seq<char>, j: Seq<char>)
    requires
        is_part(d, j),
    ensures
        part_number(d + j) == worth(d),
        !(d + j).contains('.'),
{
    let s = d + j;
    lemma_digits_len(s);
    let n = digits_len(s) as int;
    if n < d.len() {
        assert(s[n] == d[n]);
    } else if n > d.len() {
        assert(s[d.len() as int] == j[0]);
        assert(text::is_digit(s[d.len() as int]));
    }
    assert(s.take(n) == d);
    if s.contains('.') {
        let i = choose|i: int| 0 <= i < s.len() && s[i] == '.';
        if i < d.len() {
            assert(s[i] == d[i]);
        } else {
            assert(s[i] == j[i - d.len()]);
            assert(j.contains(j[i - d.len()]));
        }
    }
}

/// A text without a dot, before the end or before a dot, stands before the
/// first dot.
proof fn lemma_last_part(p: Seq<char>, tail: Seq<char>)
    requires
        !p.contains('.'),
        tail.len() > 0 ==> tail[0] == '.',
    ensures
        before_dot(p + tail) == p,
        tail.len() == 0 ==> behind_dot(p + tail) is None,
{
    if tail.len() == 0 {
        assert(p + tail == p);
        p.index_of_first_ensures('.');
    } else {
        assert(p + tail == p + seq!['.'] + tail.drop_first());
        lemma_first_dot(p, tail.drop_first());
    }
}

/// The three numbers of a version are those at the front of its first three
/// parts. What stands behind the digits of a part, further parts, white space
/// round it and every `v` in front do not matter.
pub proof fn law_version_of_three_parts(
    front: Seq<char>,
    vs: Seq<char>,
    p: (Seq<char>, Seq<char>),
    q: (Seq<char>, Seq<char>),
    r: (Seq<char>, Seq<char>),
    tail: Seq<char>,
    back: Seq<char>,
)
    requires
        is_part(p.0, p.1),
        is_part(q.0, q.1),
        is_part(r.0, r.1),
        tail.len() > 0 ==> tail[0] == '.',
        is_dressed(
            front,
            vs,
            (p.0 + p.1) + seq!['.'] + ((q.0 + q.1) + seq!['.'] + ((r.0 + r.1) + tail)),
            back,
        ),
    ensures
        ({
            let body = (p.0 + p.1) + seq!['.'] + ((q.0 + q.1) + seq!['.'] + ((r.0 + r.1) + tail));
            let n = semver(front + (vs + body) + back);
            n.0 == worth(p.0) && n.1 == worth(q.0) && n.2 == worth(r.0)
        }),
{
    let last = (r.0 + r.1) + tail;
    let more = (q.0 + q.1) + seq!['.'] + last;
    lemma_dressed(front, vs, (p.0 + p.1) + seq!['.'] + more, back);
    lemma_part(p.0, p.1);
    lemma_part(q.0, q.1);
    lemma_part(r.0, r.1);
    lemma_first_dot(p.0 + p.1, more);
    lemma_first_dot(q.0 + q.1, last);
    lemma_last_part(r.0 + r.1, tail);
    reveal_with_fuel(version_part, 3);
}

/// A version of two parts has zero for its third number.
pub proof fn law_version_of_two_parts(
    front: Seq<char>,
    vs: Seq<char>,
    p: (Seq<char>, Seq<char>),
    q: (Seq<char>, Seq<char>),
    back: Seq<char>,
)
    requires
        is_part(p.0, p.1),
        is_part(q.0, q.1),
        is_dressed(front, vs, (p.0 + p.1) + seq!['.'] + (q.0 + q.1), back),
    ensures
        ({
            let body = (p.0 + p.1) + seq!['.'] + (q.0 + q.1);
            let n = semver(front + (vs + body) + back);
            n.0 == worth(p.0) && n.1 == worth(q.0) && n.2 == 0
        }),
{
    let more = q.0 + q.1;
    lemma_dressed(front, vs, (p.0 + p.1) + seq!['.'] + more, back);
    lemma_part(p.0, p.1);
    lemma_part(q.0, q.1);
    lemma_first_dot(p.0 + p.1, more);
    lemma_last_part(more, Seq::empty());
    assert(more + Seq::<char>::empty() == more);
    reveal_with_fuel(version_part, 3);
}

/// A version of one part, which may be empty, has zero for the other two
/// numbers.
pub proof fn law_version_of_one_part(
    front: Seq<char>,
    vs: Seq<char>,
    p: (Seq<char>, Seq<char>),
    back: Seq<char>,
)
    requires
        is_part(p.0, p.1),
        is_dressed(front, vs, p.0 + p.1, back),
    ensures
        ({
            let n = semver(front + (vs + (p.0 + p.1)) + back);
            n.0 == worth(p.0) && n.1 == 0 && n.2 == 0
        }),
{
    let one = p.0 + p.1;
    lemma_dressed(front, vs, one, back);
    lemma_part(p.0, p.1);
    lemma_last_part(one, Seq::empty());
    assert(one + Seq::<char>::empty() == one);
    reveal_with_fuel(version_part, 3);
}

} // verus!
