//! Semantic `MAJOR.MINOR.PATCH` versions, stored as integers to avoid
//! string comparisons at runtime, with a verified parser.

use vstd::prelude::*;

verus! {

/// A semantic version: `MAJOR.MINOR.PATCH`.
#[derive(Debug, Clone, Copy, PartialEq, Eq, Structural)]
pub struct Version {
    /// Incremented on breaking protocol changes.
    pub major: u8,
    /// Incremented on backward compatible protocol changes.
    pub minor: u8,
    /// Incremented on backward compatible bug fixes.
    pub patch: u8,
}

/// Errors that can occur while parsing a semantic version string.
#[derive(Debug, Clone, Copy, PartialEq, Eq, Structural)]
pub enum VersionParseError {
    /// The string does not match the `MAJOR.MINOR.PATCH` format.
    InvalidFormat,
    /// One of the version components failed to parse as a number.
    InvalidNumber,
}

/// `c` is a decimal digit.
pub open spec fn is_digit(c: char) -> bool {
    48 <= c as u32 <= 57
}

/// Numeric value of a decimal digit.
pub open spec fn digit_val(c: char) -> int {
    c as u32 - 48
}

/// Every character of `s` is a decimal digit.
pub open spec fn all_digits(s: Seq<char>) -> bool {
    forall|i: int| 0 <= i < s.len() ==> is_digit(#[trigger] s[i])
}

/// The number a digit string denotes in decimal.
pub open spec fn digits_val(s: Seq<char>) -> int
    decreases s.len(),
{
    if s.len() == 0 {
        0
    } else {
        digits_val(s.drop_last()) * 10 + digit_val(s.last())
    }
}

/// The value of a version component, parsed as `str::parse::<u8>`
/// does: an optional leading `+`, then one or more decimal digits
/// denoting a value of at most 255; anything else is rejected.
pub open spec fn parse_component(s: Seq<char>) -> Option<int> {
    let body = if s.len() > 0 && s[0] == '+' {
        s.skip(1)
    } else {
        s
    };
    if body.len() > 0 && all_digits(body) && digits_val(body) <= 255 {
        Some(digits_val(body))
    } else {
        None
    }
}

/// Index of the first `.` in `s`, or `s.len()` when there is none.
pub open spec fn dot_index(s: Seq<char>) -> int
    decreases s.len(),
{
    if s.len() == 0 {
        0
    } else if s[0] == '.' {
        0
    } else {
        1 + dot_index(s.skip(1))
    }
}

/// The result of parsing `s` as `MAJOR.MINOR.PATCH`: the string must
/// hold exactly three `.`-separated components, checked before the
/// components are parsed in order.
pub open spec fn spec_parse_version(s: Seq<char>) -> Result<(int, int, int), VersionParseError> {
    let i = dot_index(s);
    if i == s.len() {
        Err(VersionParseError::InvalidFormat)
    } else {
        let rest = s.skip(i + 1);
        let j = dot_index(rest);
        if j == rest.len() {
            Err(VersionParseError::InvalidFormat)
        } else {
            let rest2 = rest.skip(j + 1);
            if dot_index(rest2) != rest2.len() {
                Err(VersionParseError::InvalidFormat)
            } else {
                match parse_component(s.take(i)) {
                    None => Err(VersionParseError::InvalidNumber),
                    Some(a) => match parse_component(rest.take(j)) {
                        None => Err(VersionParseError::InvalidNumber),
                        Some(b) => match parse_component(rest2) {
                            None => Err(VersionParseError::InvalidNumber),
                            Some(c) => Ok((a, b, c)),
                        },
                    },
                }
            }
        }
    }
}

/// The decimal value of a digit string is at least the value of any of
/// its prefixes, and nonnegative.
proof fn lemma_digits_val_monotone(s: Seq<char>, j: int)
    requires
        0 <= j <= s.len(),
        all_digits(s),
    ensures
        digits_val(s) >= digits_val(s.take(j)),
        digits_val(s) >= 0,
    decreases s.len(),
{
    if s.len() == 0 {
        assert(s.take(j) =~= s);
    } else if j == s.len() {
        assert(s.take(j) =~= s);
        assert(all_digits(s.drop_last())) by {
            assert(forall|i: int|
                0 <= i < s.drop_last().len() ==> (#[trigger] s.drop_last()[i]) == s[i]);
        }
        lemma_digits_val_monotone(s.drop_last(), s.len() - 1);
        assert(is_digit(s.last()));
    } else {
        assert(all_digits(s.drop_last())) by {
            assert(forall|i: int|
                0 <= i < s.drop_last().len() ==> (#[trigger] s.drop_last()[i]) == s[i]);
        }
        lemma_digits_val_monotone(s.drop_last(), j);
        assert(s.drop_last().take(j) =~= s.take(j));
        assert(is_digit(s.last()));
    }
}

/// Find the first `.` in `s` at or after position `from`.
#[verifier::loop_isolation(false)]
fn find_dot(s: &str, from: usize, n: usize) -> (r: usize)
    requires
        from <= n,
        n == s@.len(),
    ensures
        from <= r <= n,
        r as int == from + dot_index(s@.skip(from as int)),
        r < n ==> s@[r as int] == '.',
{
    let mut k: usize = from;
    while k < n
        invariant
            from <= k <= n,
            dot_index(s@.skip(from as int)) == (k - from) + dot_index(s@.skip(k as int)),
        decreases n - k,
    {
        let c = s.get_char(k);
        proof {
            assert(s@.skip(k as int)[0] == s@[k as int]);
            assert(s@.skip(k as int).skip(1) =~= s@.skip(k + 1));
        }
        if c == '.' {
            return k;
        }
        k = k + 1;
    }
    proof {
        assert(s@.skip(n as int) =~= Seq::<char>::empty());
    }
    k
}

/// Parse the component of `s` lying in `[start, end)` as a `u8`.
#[verifier::loop_isolation(false)]
fn parse_comp(s: &str, start: usize, end: usize, n: usize) -> (r: Option<u8>)
    requires
        start <= end <= n,
        n == s@.len(),
    ensures
        match r {
            Some(v) => parse_component(s@.subrange(start as int, end as int)) == Some(v as int),
            None => parse_component(s@.subrange(start as int, end as int)) is None,
        },
{
    let ghost sub: Seq<char> = s@.subrange(start as int, end as int);
    let mut k: usize = start;
    if k < end && s.get_char(k) == '+' {
        proof {
            assert(sub[0] == s@[start as int]);
        }
        k = k + 1;
    }
    let ghost body: Seq<char> = s@.subrange(k as int, end as int);
    proof {
        if k > start {
            assert(body =~= sub.skip(1));
        } else {
            assert(body =~= sub);
        }
    }
    if k == end {
        return None;
    }
    let mut acc: u32 = 0;
    let mut m: usize = k;
    while m < end
        invariant
            k <= m <= end,
            acc <= 255,
            body == s@.subrange(k as int, end as int),
            acc as int == digits_val(body.take(m - k)),
            forall|jj: int| 0 <= jj < m - k ==> is_digit(#[trigger] body[jj]),
        decreases end - m,
    {
        let c = s.get_char(m);
        let cv = c as u32;
        proof {
            assert(body[m - k] == s@[m as int]);
            assert(body.take(m - k + 1).drop_last() =~= body.take(m - k));
            assert(body.take(m - k + 1).last() == body[m - k]);
        }
        if cv < 48 || cv > 57 {
            return None;
        }
        let d: u32 = cv - 48;
        let next: u32 = acc * 10 + d;
        if next > 255 {
            proof {
                if all_digits(body) {
                    lemma_digits_val_monotone(body, m - k + 1);
                }
            }
            return None;
        }
        acc = next;
        m = m + 1;
    }
    proof {
        assert(body.take(end - k) =~= body);
    }
    Some(acc as u8)
}

impl Version {
    /// A version with the given components.
    pub fn new(major: u8, minor: u8, patch: u8) -> (v: Version)
        ensures
            v.major == major,
            v.minor == minor,
            v.patch == patch,
    {
        Version { major, minor, patch }
    }

    /// Parse a `MAJOR.MINOR.PATCH` string: exactly three `.`-separated
    /// components, each a `u8`; a wrong shape is rejected before a bad
    /// number is.
    pub fn parse(s: &str) -> (r: Result<Version, VersionParseError>)
        ensures
            match r {
                Ok(v) => spec_parse_version(s@) == Ok::<(int, int, int), VersionParseError>(
                    (v.major as int, v.minor as int, v.patch as int),
                ),
                Err(e) => spec_parse_version(s@) == Err::<(int, int, int), VersionParseError>(e),
            },
    {
        let n: usize = s.unicode_len();
        proof {
            assert(s@.skip(0) =~= s@);
        }
        let i = find_dot(s, 0, n);
        if i == n {
            return Err(VersionParseError::InvalidFormat);
        }
        let j = find_dot(s, i + 1, n);
        proof {
            assert(dot_index(s@.skip(i + 1)) == j - (i + 1));
        }
        if j == n {
            return Err(VersionParseError::InvalidFormat);
        }
        let k2 = find_dot(s, j + 1, n);
        proof {
            assert(s@.skip(i + 1).skip(j - i) =~= s@.skip(j + 1));
            assert(dot_index(s@.skip(j + 1)) == k2 - (j + 1));
        }
        if k2 != n {
            return Err(VersionParseError::InvalidFormat);
        }
        proof {
            assert(s@.take(i as int) =~= s@.subrange(0, i as int));
            assert(s@.skip(i + 1).take(j - (i + 1)) =~= s@.subrange(i + 1, j as int));
            assert(s@.skip(j + 1) =~= s@.subrange(j + 1, n as int));
        }
        let major = match parse_comp(s, 0, i, n) {
            None => {
                return Err(VersionParseError::InvalidNumber);
            },
            Some(v) => v,
        };
        let minor = match parse_comp(s, i + 1, j, n) {
            None => {
                return Err(VersionParseError::InvalidNumber);
            },
            Some(v) => v,
        };
        let patch = match parse_comp(s, j + 1, n, n) {
            None => {
                return Err(VersionParseError::InvalidNumber);
            },
            Some(v) => v,
        };
        Ok(Version { major, minor, patch })
    }
}

/// Parses with [`Version::parse`].
impl core::str::FromStr for Version {
    type Err = VersionParseError;

    fn from_str(s: &str) -> Result<Version, VersionParseError> {
        Version::parse(s)
    }
}

} // verus!
