use vstd::prelude::*;

use crate::error::Error;

verus! {

/// A semantic interpreter version: major, minor and patch.
#[derive(Clone, Copy, Debug, PartialEq, Eq, Structural)]
pub struct Version {
    pub major: u64,
    pub minor: u64,
    pub patch: u64,
}

/// One discovered interpreter: its reported version and its executable
/// path, as the host search path listed it.
#[derive(Debug)]
pub struct Interpreter {
    pub version: Version,
    pub path: String,
}

/// Strict semantic-version ordering: by major, then minor, then patch.
pub open spec fn ver_lt(a: Version, b: Version) -> bool {
    a.major < b.major || (a.major == b.major && (a.minor < b.minor || (a.minor == b.minor
        && a.patch < b.patch)))
}

pub open spec fn ver_le(a: Version, b: Version) -> bool {
    ver_lt(a, b) || a == b
}

pub fn version_lt(a: &Version, b: &Version) -> (r: bool)
    ensures
        r == ver_lt(*a, *b),
{
    a.major < b.major || (a.major == b.major && (a.minor < b.minor || (a.minor == b.minor
        && a.patch < b.patch)))
}

// ---------------------------------------------------------------------------
// Reading a version text
// ---------------------------------------------------------------------------

pub open spec fn is_digit(c: char) -> bool {
    '0' as u32 <= c as u32 && c as u32 <= '9' as u32
}

/// First index at or after `i` that does not hold a digit.
pub open spec fn digit_end(s: Seq<char>, i: int) -> int
    decreases s.len() - i
        when 0 <= i <= s.len()
{
    if i < s.len() && is_digit(s[i]) {
        digit_end(s, i + 1)
    } else {
        i
    }
}

pub open spec fn digit_val(c: char) -> int {
    c as u32 - 48
}

/// The decimal value of the digits from `i` to `j`.
pub open spec fn digits_value(s: Seq<char>, i: int, j: int) -> int
    decreases j - i
        when 0 <= i <= j <= s.len()
{
    if i >= j {
        0
    } else {
        digits_value(s, i, j - 1) * 10 + digit_val(s[j - 1])
    }
}

pub open spec fn pow10(n: nat) -> int
    decreases n,
{
    if n == 0 {
        1
    } else {
        10 * pow10((n - 1) as nat)
    }
}

proof fn lemma_digits_bound(s: Seq<char>, i: int, j: int)
    requires
        0 <= i <= j <= s.len(),
        forall|k: int| i <= k < j ==> is_digit(#[trigger] s[k]),
    ensures
        0 <= digits_value(s, i, j) < pow10((j - i) as nat),
    decreases j - i,
{
    if i < j {
        lemma_digits_bound(s, i, j - 1);
    }
}

/// What parsing a version text yields: two or three dot-separated decimal
/// components, each of one to nine digits; a missing patch reads as zero.
pub open spec fn parse_version(s: Seq<char>) -> Result<Version, Error> {
    let d1 = digit_end(s, 0);
    if d1 == 0 || d1 > 9 || d1 >= s.len() || s[d1] != '.' {
        Err(Error::MalformedVersion)
    } else {
        let d2 = digit_end(s, d1 + 1);
        if d2 == d1 + 1 || d2 - (d1 + 1) > 9 {
            Err(Error::MalformedVersion)
        } else if d2 == s.len() {
            Ok(
                Version {
                    major: digits_value(s, 0, d1) as u64,
                    minor: digits_value(s, d1 + 1, d2) as u64,
                    patch: 0,
                },
            )
        } else if s[d2] != '.' {
            Err(Error::MalformedVersion)
        } else {
            let d3 = digit_end(s, d2 + 1);
            if d3 == d2 + 1 || d3 - (d2 + 1) > 9 || d3 != s.len() {
                Err(Error::MalformedVersion)
            } else {
                Ok(
                    Version {
                        major: digits_value(s, 0, d1) as u64,
                        minor: digits_value(s, d1 + 1, d2) as u64,
                        patch: digits_value(s, d2 + 1, d3) as u64,
                    },
                )
            }
        }
    }
}

/// Reads one dot-separated component: its end index and its value, or
/// nothing when no digit stands at `from` or the component runs longer
/// than nine digits.
#[verifier::loop_isolation(false)]
fn read_component(s: &str, from: usize) -> (r: Option<(usize, u64)>)
    requires
        from <= s@.len(),
    ensures
        match r {
            Some(ev) => ev.0 == digit_end(s@, from as int) && from < ev.0 <= s@.len() && ev.0
                - from <= 9 && ev.1 == digits_value(s@, from as int, ev.0 as int),
            None => digit_end(s@, from as int) == from || digit_end(s@, from as int) - from > 9,
        },
{
    let n: usize = s.unicode_len();
    let mut end: usize = from;
    while end < n && digit_exec(s.get_char(end))
        invariant
            from <= end <= n,
            digit_end(s@, from as int) == digit_end(s@, end as int),
            forall|k: int| from <= k < end ==> is_digit(#[trigger] s@[k]),
        decreases n - end,
    {
        end += 1;
    }
    proof {
        assert(digit_end(s@, end as int) == end);
    }
    if end == from || end - from > 9 {
        return None;
    }
    let mut val: u64 = 0;
    let mut k: usize = from;
    while k < end
        invariant
            from <= k <= end,
            val == digits_value(s@, from as int, k as int),
            val < pow10((k - from) as nat),
        decreases end - k,
    {
        proof {
            lemma_digits_bound(s@, from as int, k as int);
            assert(pow10(8nat) == 100000000) by {
                reveal_with_fuel(pow10, 10);
            }
            assert forall|a: nat, b: nat| a <= b implies pow10(a) <= pow10(b) by {
                lemma_pow10_mono(a, b);
            }
            assert(val < 100000000 || k - from == 9);
            assert(k < end ==> k - from <= 8);
        }
        let c = s.get_char(k);
        let d: u64 = digit_value_exec(c);
        val = val * 10 + d;
        k += 1;
    }
    Some((end, val))
}

proof fn lemma_pow10_mono(a: nat, b: nat)
    requires
        a <= b,
    ensures
        pow10(a) <= pow10(b),
    decreases b,
{
    if a < b {
        lemma_pow10_mono(a, (b - 1) as nat);
        lemma_pow10_pos(a);
    }
}

proof fn lemma_pow10_pos(n: nat)
    ensures
        pow10(n) >= 1,
    decreases n,
{
    if n > 0 {
        lemma_pow10_pos((n - 1) as nat);
    }
}

fn digit_exec(c: char) -> (r: bool)
    ensures
        r == is_digit(c),
{
    let u: u32 = c as u32;
    48 <= u && u <= 57
}

fn digit_value_exec(c: char) -> (r: u64)
    requires
        is_digit(c),
    ensures
        r == digit_val(c),
{
    let u: u32 = c as u32;
    (u - 48) as u64
}

impl Version {
    /// Reads a version text such as an interpreter reports, `3.11.4` or
    /// `3.11`.
    pub fn parse(s: &str) -> (r: Result<Version, Error>)
        ensures
            r == parse_version(s@),
    {
        let n: usize = s.unicode_len();
        let (d1, major) = match read_component(s, 0) {
            Some(ev) => ev,
            None => {
                return Err(Error::MalformedVersion);
            },
        };
        if d1 >= n || s.get_char(d1) != '.' {
            return Err(Error::MalformedVersion);
        }
        let (d2, minor) = match read_component(s, d1 + 1) {
            Some(ev) => ev,
            None => {
                return Err(Error::MalformedVersion);
            },
        };
        if d2 == n {
            return Ok(Version { major, minor, patch: 0 });
        }
        if s.get_char(d2) != '.' {
            return Err(Error::MalformedVersion);
        }
        let (d3, patch) = match read_component(s, d2 + 1) {
            Some(ev) => ev,
            None => {
                return Err(Error::MalformedVersion);
            },
        };
        if d3 != n {
            return Err(Error::MalformedVersion);
        }
        Ok(Version { major, minor, patch })
    }
}

// ---------------------------------------------------------------------------
// Selecting an interpreter
// ---------------------------------------------------------------------------

/// The position of the interpreter with the highest version; a tie goes to
/// the one found first. Discovering no interpreter at all is not an error:
/// the callers decide whether an empty listing is fatal.
pub fn latest(interpreters: &Vec<Interpreter>) -> (r: Option<usize>)
    ensures
        match r {
            Some(i) => i < interpreters.len() && (forall|j: int|
                0 <= j < interpreters@.len() ==> ver_le(
                    interpreters@[j].version,
                    interpreters@[i as int].version,
                )) && (forall|j: int|
                0 <= j < i ==> ver_lt(interpreters@[j].version, interpreters@[i as int].version)),
            None => interpreters.len() == 0,
        },
{
    if interpreters.len() == 0 {
        return None;
    }
    let mut best: usize = 0;
    let mut j: usize = 1;
    while j < interpreters.len()
        invariant
            0 <= best < j <= interpreters.len(),
            forall|k: int| 0 <= k < j ==> ver_le(interpreters@[k].version, interpreters@[best as int].version),
            forall|k: int| 0 <= k < best ==> ver_lt(interpreters@[k].version, interpreters@[best as int].version),
        decreases interpreters.len() - j,
    {
        if version_lt(&interpreters[best].version, &interpreters[j].version) {
            best = j;
        }
        j += 1;
    }
    Some(best)
}

/// Some already-listed interpreter sits at this path.
pub open spec fn paths_has(s: Seq<Interpreter>, p: Seq<char>) -> bool {
    exists|i: int| 0 <= i < s.len() && s[i].path@ == p
}

/// The listing with every later duplicate of a path dropped: discovery
/// reports each interpreter once, at its first-found position.
pub open spec fn dedup_by_path(s: Seq<Interpreter>) -> Seq<Interpreter>
    decreases s.len(),
{
    if s.len() == 0 {
        Seq::empty()
    } else if paths_has(s.drop_last(), s.last().path@) {
        dedup_by_path(s.drop_last())
    } else {
        dedup_by_path(s.drop_last()).push(s.last())
    }
}

/// Keeps the first interpreter found at each path, dropping later listings
/// of the same path.
#[verifier::loop_isolation(false)]
pub fn dedup_interpreters(interpreters: &Vec<Interpreter>) -> (r: Vec<Interpreter>)
    ensures
        r@ == dedup_by_path(interpreters@),
{
    let ghost all = interpreters@;
    let mut out: Vec<Interpreter> = Vec::new();
    let mut i: usize = 0;
    proof {
        assert(all.take(0) =~= Seq::<Interpreter>::empty());
        assert(dedup_by_path(all.take(0)) =~= out@);
        assert forall|p: Seq<char>| #[trigger]
            paths_has(out@, p) == paths_has(all.take(0), p) by {
            if paths_has(out@, p) {
                let k = choose|k: int| 0 <= k < out@.len() && out@[k].path@ == p;
            }
            if paths_has(all.take(0), p) {
                let k = choose|k: int| 0 <= k < all.take(0).len() && all.take(0)[k].path@ == p;
            }
        }
    }
    while i < interpreters.len()
        invariant
            0 <= i <= interpreters.len(),
            out@ == dedup_by_path(all.take(i as int)),
            forall|p: Seq<char>| #[trigger]
                paths_has(out@, p) == paths_has(all.take(i as int), p),
        decreases interpreters.len() - i,
    {
        proof {
            assert(all.take(i + 1 as int).drop_last() =~= all.take(i as int));
            assert(all.take(i + 1 as int).last() == all[i as int]);
        }
        let ghost before = out@;
        let mut seen = false;
        let mut k: usize = 0;
        while k < out.len()
            invariant
                0 <= k <= out.len(),
                seen == exists|j: int| 0 <= j < k && out@[j].path@ == interpreters@[i as int].path@,
            decreases out.len() - k,
        {
            if crate::dependency::texts_equal(out[k].path.as_str(), interpreters[i].path.as_str()) {
                proof {
                    assert(out@[k as int].path@ == interpreters@[i as int].path@);
                }
                seen = true;
            }
            k += 1;
        }
        proof {
            if seen {
                assert(paths_has(out@, all[i as int].path@));
            } else {
                if paths_has(out@, all[i as int].path@) {
                    let j = choose|j: int|
                        0 <= j < out@.len() && out@[j].path@ == all[i as int].path@;
                }
                assert(!paths_has(out@, all[i as int].path@));
            }
        }
        if !seen {
            let orig = &interpreters[i];
            out.push(Interpreter { version: orig.version, path: orig.path.clone() });
            proof {
                assert(out@[before.len() as int] == all[i as int]);
                assert(out@ =~= before.push(all[i as int]));
            }
        }
        proof {
            assert forall|p: Seq<char>| #[trigger]
                paths_has(out@, p) == paths_has(all.take(i + 1 as int), p) by {
                let t = all.take(i + 1 as int);
                if paths_has(out@, p) {
                    let k2 = choose|k2: int| 0 <= k2 < out@.len() && out@[k2].path@ == p;
                    if k2 < before.len() {
                        assert(paths_has(before, p));
                        let k3 = choose|k3: int|
                            0 <= k3 < all.take(i as int).len() && all.take(i as int)[k3].path@
                                == p;
                        assert(t[k3].path@ == p);
                    } else {
                        assert(out@[k2] == all[i as int]);
                        assert(t[t.len() - 1].path@ == p);
                    }
                }
                if paths_has(t, p) {
                    let k2 = choose|k2: int| 0 <= k2 < t.len() && t[k2].path@ == p;
                    if k2 < i {
                        assert(all.take(i as int)[k2].path@ == p);
                        assert(paths_has(before, p));
                        let k3 = choose|k3: int|
                            0 <= k3 < before.len() && before[k3].path@ == p;
                        assert(out@[k3].path@ == p);
                    } else {
                        assert(all[i as int].path@ == p);
                        if paths_has(all.take(i as int), p) {
                            let k3 = choose|k3: int|
                                0 <= k3 < before.len() && before[k3].path@ == p;
                            assert(out@[k3].path@ == p);
                        } else {
                            assert(out@[out@.len() - 1] == all[i as int]);
                        }
                    }
                }
            }
        }
        i += 1;
    }
    proof {
        assert(all.take(interpreters.len() as int) =~= all);
    }
    out
}

/// The position of the first interpreter reporting exactly the requested
/// version; nothing when the text is malformed or no interpreter matches.
#[verifier::loop_isolation(false)]
pub fn find_interpreter(interpreters: &Vec<Interpreter>, version_text: &str) -> (r: Option<usize>)
    ensures
        match r {
            Some(i) => i < interpreters.len() && (parse_version(version_text@) matches Ok(v)
                && interpreters@[i as int].version == v && (forall|j: int|
                0 <= j < i ==> interpreters@[j].version != v)),
            None => match parse_version(version_text@) {
                Ok(v) => forall|j: int|
                    0 <= j < interpreters@.len() ==> interpreters@[j].version != v,
                Err(_) => true,
            },
        },
{
    let v = match Version::parse(version_text) {
        Ok(v) => v,
        Err(_) => {
            return None;
        },
    };
    let mut i: usize = 0;
    while i < interpreters.len()
        invariant
            0 <= i <= interpreters.len(),
            forall|j: int| 0 <= j < i ==> interpreters@[j].version != v,
        decreases interpreters.len() - i,
    {
        if interpreters[i].version == v {
            return Some(i);
        }
        i += 1;
    }
    None
}

} // verus!
