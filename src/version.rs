//! Release index handling: tolerant decoding of the LTS marker, the numeric
//! version comparator and the selection of the latest LTS release.

use vstd::prelude::*;

verus! {

/// The only failure of version handling: a version string whose residue is
/// not a 32-bit integer.
#[derive(Debug, Clone, Copy, PartialEq, Eq, Structural)]
pub enum VersionError {
    Parse,
}

/// Cap on the magnitude accumulated while parsing: one more than the largest
/// magnitude an `i32` can take.
pub const MAGNITUDE_CAP: u64 = 2147483649;

/// Characters dropped from a version string before it is read as a number.
pub open spec fn is_dropped(c: char) -> bool {
    c == 'v' || c == '.'
}

/// The version string with every `v` and `.` removed.
pub open spec fn strip_version(s: Seq<char>) -> Seq<char>
    decreases s.len(),
{
    if s.len() == 0 {
        seq![]
    } else if is_dropped(s.last()) {
        strip_version(s.drop_last())
    } else {
        strip_version(s.drop_last()).push(s.last())
    }
}

pub open spec fn is_digit(c: char) -> bool {
    48 <= (c as u32) && (c as u32) <= 57
}

pub open spec fn digit_value(c: char) -> int {
    (c as u32) as int - 48
}

pub open spec fn all_digits(d: Seq<char>) -> bool {
    forall|i: int| 0 <= i < d.len() ==> #[trigger] is_digit(d[i])
}

/// The decimal value of a sequence of digits.
pub open spec fn digits_value(d: Seq<char>) -> int
    decreases d.len(),
{
    if d.len() == 0 {
        0
    } else {
        digits_value(d.drop_last()) * 10 + digit_value(d.last())
    }
}

pub open spec fn has_sign(t: Seq<char>) -> bool {
    t.len() > 0 && (t[0] == '-' || t[0] == '+')
}

pub open spec fn unsigned_part(t: Seq<char>) -> Seq<char> {
    if has_sign(t) {
        t.drop_first()
    } else {
        t
    }
}

pub open spec fn signed_value(t: Seq<char>) -> int {
    if t.len() > 0 && t[0] == '-' {
        -digits_value(unsigned_part(t))
    } else {
        digits_value(unsigned_part(t))
    }
}

/// Decimal reading of a 32-bit signed integer: an optional `+` or `-`, then
/// at least one ASCII digit, and a value within the range of `i32`.
pub open spec fn parse_i32(t: Seq<char>) -> Option<int> {
    let d = unsigned_part(t);
    let v = signed_value(t);
    if d.len() == 0 || !all_digits(d) || v < i32::MIN || v > i32::MAX {
        None
    } else {
        Some(v)
    }
}

/// The number a version string stands for, if its residue parses.
pub open spec fn version_number(s: Seq<char>) -> Option<int> {
    parse_i32(strip_version(s))
}

/// The three-way comparison of two version strings.
pub open spec fn compare_spec(a: Seq<char>, b: Seq<char>) -> Result<i32, VersionError> {
    match (version_number(a), version_number(b)) {
        (Some(x), Some(y)) => Ok(
            if x < y {
                -1i32
            } else if x > y {
                1i32
            } else {
                0i32
            },
        ),
        _ => Err(VersionError::Parse),
    }
}

pub open spec fn capped(v: int) -> int {
    if v < MAGNITUDE_CAP {
        v
    } else {
        MAGNITUDE_CAP as int
    }
}

proof fn lemma_digits_nonneg(d: Seq<char>)
    requires
        all_digits(d),
    ensures
        digits_value(d) >= 0,
    decreases d.len(),
{
    if d.len() > 0 {
        let p = d.drop_last();
        assert forall|i: int| 0 <= i < p.len() implies #[trigger] is_digit(p[i]) by {
            assert(p[i] == d[i]);
        }
        lemma_digits_nonneg(p);
        assert(is_digit(d[d.len() - 1]));
    }
}

/// Removes `v` and `.` from a version string.
fn strip_version_chars(s: &str) -> (r: Vec<char>)
    ensures
        r@ == strip_version(s@),
{
    let mut out: Vec<char> = Vec::new();
    let n = s.unicode_len();
    let mut i: usize = 0;
    while i < n
        invariant
            n == s@.len(),
            i <= n,
            out@ == strip_version(s@.subrange(0, i as int)),
        decreases n - i,
    {
        let c = s.get_char(i);
        proof {
            assert(s@.subrange(0, i + 1).drop_last() =~= s@.subrange(0, i as int));
        }
        if c != 'v' && c != '.' {
            out.push(c);
        }
        i += 1;
    }
    proof {
        assert(s@.subrange(0, n as int) =~= s@);
    }
    out
}

/// Reads a 32-bit signed decimal integer from a sequence of characters.
fn parse_i32_chars(t: &Vec<char>) -> (r: Option<i32>)
    ensures
        r.is_some() == parse_i32(t@).is_some(),
        r.is_some() ==> r.unwrap() as int == parse_i32(t@).unwrap(),
{
    let n = t.len();
    if n == 0 {
        return None;
    }
    let neg = t[0] == '-';
    let start: usize = if t[0] == '-' || t[0] == '+' { 1 } else { 0 };
    let ghost d = unsigned_part(t@);
    proof {
        assert(d =~= t@.subrange(start as int, n as int));
    }
    if start == n {
        return None;
    }
    let mut acc: u64 = 0;
    let mut i: usize = start;
    while i < n
        invariant
            start <= i <= n,
            n == t@.len(),
            d == t@.subrange(start as int, n as int),
            d == unsigned_part(t@),
            neg == (t@[0] == '-'),
            all_digits(t@.subrange(start as int, i as int)),
            acc as int == capped(digits_value(t@.subrange(start as int, i as int))),
            acc <= MAGNITUDE_CAP,
        decreases n - i,
    {
        let c = t[i];
        let ghost p = t@.subrange(start as int, i as int);
        let ghost q = t@.subrange(start as int, i + 1);
        proof {
            assert(q.drop_last() =~= p);
            assert(q.last() == c);
        }
        let u = c as u32;
        if u < 48 || u > 57 {
            proof {
                assert(d[i - start] == c);
                assert(!is_digit(d[i - start]));
            }
            return None;
        }
        proof {
            assert forall|k: int| 0 <= k < q.len() implies #[trigger] is_digit(q[k]) by {
                if k < p.len() {
                    assert(q[k] == p[k]);
                }
            }
            lemma_digits_nonneg(p);
        }
        let next: u64 = acc * 10 + (u - 48) as u64;
        acc = if next > MAGNITUDE_CAP { MAGNITUDE_CAP } else { next };
        i += 1;
    }
    proof {
        assert(t@.subrange(start as int, n as int) == d);
        lemma_digits_nonneg(d);
    }
    if acc == MAGNITUDE_CAP {
        return None;
    }
    if neg {
        Some(-(acc as i64) as i32)
    } else if acc > 2147483647 {
        None
    } else {
        Some(acc as i32)
    }
}

/// Compares two version strings by the integers left once every `v` and `.`
/// is removed: `-1`, `0` or `1` as the first is lower, equal or higher.
pub fn compare_versions(a: &str, b: &str) -> (r: Result<i32, VersionError>)
    ensures
        r == compare_spec(a@, b@),
{
    let a_int = match parse_i32_chars(&strip_version_chars(a)) {
        Some(x) => x,
        None => return Err(VersionError::Parse),
    };
    let b_int = match parse_i32_chars(&strip_version_chars(b)) {
        Some(x) => x,
        None => return Err(VersionError::Parse),
    };
    if a_int < b_int {
        Ok(-1)
    } else if a_int > b_int {
        Ok(1)
    } else {
        Ok(0)
    }
}


/// How a release index writes its LTS marker: a native boolean or free text.
#[derive(Debug, Clone)]
pub enum LtsMarker {
    Flag(bool),
    Text(String),
}

/// The tolerant reading of an LTS marker. Text counts as true unless it is
/// empty: the usual words ("1", "true", "yes", "t", "armed", "active",
/// "enabled", "ready", "up", "ok") and any other non-empty text alike.
pub open spec fn lts_spec(m: LtsMarker) -> bool {
    match m {
        LtsMarker::Flag(b) => b,
        LtsMarker::Text(s) => s@.len() > 0,
    }
}

/// Decodes an LTS marker; decoding never fails.
pub fn decode_lts(m: &LtsMarker) -> (r: bool)
    ensures
        r == lts_spec(*m),
{
    match m {
        LtsMarker::Flag(b) => *b,
        LtsMarker::Text(s) => s.as_str().unicode_len() > 0,
    }
}

/// One entry of the release index.
#[derive(Debug, Clone)]
pub struct VersionInfo {
    pub version: String,
    pub lts: bool,
}

/// One step of the reduction to the latest version: an empty current value
/// is replaced outright, otherwise a strictly higher version replaces it.
pub open spec fn latest_step(latest: Seq<char>, v: Seq<char>) -> Result<Seq<char>, VersionError> {
    if latest.len() == 0 {
        Ok(v)
    } else {
        match compare_spec(v, latest) {
            Ok(c) => if c > 0 {
                Ok(v)
            } else {
                Ok(latest)
            },
            Err(e) => Err(e),
        }
    }
}

/// The latest of a list of versions, reduced from the front; the empty
/// string for an empty list.
pub open spec fn latest_of(cs: Seq<Seq<char>>) -> Result<Seq<char>, VersionError>
    decreases cs.len(),
{
    if cs.len() == 0 {
        Ok(seq![])
    } else {
        match latest_of(cs.drop_last()) {
            Ok(l) => latest_step(l, cs.last()),
            Err(e) => Err(e),
        }
    }
}

pub open spec fn views(cs: Seq<String>) -> Seq<Seq<char>> {
    cs.map_values(|s: String| s@)
}

pub open spec fn result_view(r: Result<String, VersionError>) -> Result<Seq<char>, VersionError> {
    match r {
        Ok(s) => Ok(s@),
        Err(e) => Err(e),
    }
}

proof fn lemma_latest_err_extends(cs: Seq<Seq<char>>, k: int)
    requires
        0 <= k <= cs.len(),
        latest_of(cs.subrange(0, k)) == Err::<Seq<char>, VersionError>(VersionError::Parse),
    ensures
        latest_of(cs) == Err::<Seq<char>, VersionError>(VersionError::Parse),
    decreases cs.len(),
{
    if k == cs.len() {
        assert(cs.subrange(0, k) =~= cs);
    } else {
        assert(cs.drop_last().subrange(0, k) =~= cs.subrange(0, k));
        lemma_latest_err_extends(cs.drop_last(), k);
    }
}

/// Reduces a list of candidate versions to the latest one.
pub fn latest_version(candidates: &Vec<String>) -> (r: Result<String, VersionError>)
    ensures
        result_view(r) == latest_of(views(candidates@)),
{
    let mut latest = String::new();
    let mut i: usize = 0;
    while i < candidates.len()
        invariant
            i <= candidates@.len(),
            latest_of(views(candidates@.subrange(0, i as int))) == Ok::<Seq<char>, VersionError>(latest@),
        decreases candidates@.len() - i,
    {
        let version = &candidates[i];
        proof {
            let cs = views(candidates@.subrange(0, i + 1));
            assert(cs.drop_last() =~= views(candidates@.subrange(0, i as int)));
            assert(cs.last() == version@);
        }
        if latest.as_str().unicode_len() == 0 {
            latest = version.clone();
        } else {
            let c = compare_versions(version.as_str(), latest.as_str());
            match c {
                Ok(c) => {
                    if c > 0 {
                        latest = version.clone();
                    }
                },
                Err(e) => {
                    proof {
                        let cs = views(candidates@);
                        assert(views(candidates@.subrange(0, i + 1)) =~= cs.subrange(0, i + 1));
                        lemma_latest_err_extends(cs, i + 1);
                    }
                    return Err(e);
                },
            }
        }
        i += 1;
    }
    proof {
        assert(candidates@.subrange(0, candidates@.len() as int) =~= candidates@);
    }
    Ok(latest)
}

/// Index of the first entry marked LTS, if any.
pub open spec fn is_first_lts(es: Seq<VersionInfo>, i: int) -> bool {
    0 <= i < es.len() && es[i].lts && forall|j: int| 0 <= j < i ==> !#[trigger] es[j].lts
}

/// Selects the latest LTS release of a release index. Only the first entry
/// marked LTS is taken as a candidate, so the result is its version, or the
/// empty string when no entry is marked LTS.
pub fn find_node_js_lts_version(entries: &Vec<VersionInfo>) -> (r: Result<String, VersionError>)
    ensures
        r.is_ok(),
        forall|i: int| is_first_lts(entries@, i) ==> r.unwrap()@ == entries@[i].version@,
        (forall|i: int| 0 <= i < entries@.len() ==> !#[trigger] entries@[i].lts) ==> r.unwrap()@
            == Seq::<char>::empty(),
{
    let mut i: usize = 0;
    while i < entries.len() && !entries[i].lts
        invariant
            i <= entries@.len(),
            forall|j: int| 0 <= j < i ==> !#[trigger] entries@[j].lts,
        decreases entries@.len() - i,
    {
        i += 1;
    }
    let mut candidates: Vec<String> = Vec::new();
    if i < entries.len() {
        candidates.push(entries[i].version.clone());
    }
    proof {
        let cs = views(candidates@);
        if i < entries@.len() {
            assert(cs.drop_last() =~= Seq::<Seq<char>>::empty());
            assert(latest_of(cs.drop_last()) == Ok::<Seq<char>, VersionError>(seq![]));
            assert(cs.last() == entries@[i as int].version@);
            assert(latest_of(cs) == Ok::<Seq<char>, VersionError>(entries@[i as int].version@));
        } else {
            assert(cs =~= Seq::<Seq<char>>::empty());
        }
    }
    let r = latest_version(&candidates);
    proof {
        if i < entries@.len() {
            assert forall|k: int| is_first_lts(entries@, k) implies k == i by {
                if k > i {
                    assert(!entries@[i as int].lts);
                }
            }
        }
    }
    r
}

} // verus!
