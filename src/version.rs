//! Four-component build versions: parsing, formatting and ordering.

use vstd::prelude::*;
use vstd::string::*;
use crate::text::push_char;

verus! {

/// A build version `major.minor.patch.build`, or the `unknown` marker for a
/// record whose version could not be recovered. Versions compare
/// lexicographically on (unknown, major, minor, patch, build), the field
/// order, so an unknown version sorts after every known one and two
/// versions compare equal exactly when they are equal.
#[derive(Debug, Clone, Copy, PartialEq, Eq, Hash, PartialOrd, Ord, Structural)]
pub struct BinaryVersion {
    pub unknown: bool,
    pub major: u32,
    pub minor: u32,
    pub patch: u32,
    pub build: u32,
}

/// `c` is an ASCII decimal digit.
pub open spec fn is_digit(c: char) -> bool {
    '0' <= c && c <= '9'
}

/// The value of the decimal digit `c`.
pub open spec fn digit_value(c: char) -> nat {
    (c as nat - '0' as nat) as nat
}

/// Every character of `s` is a decimal digit.
pub open spec fn all_digits(s: Seq<char>) -> bool {
    forall|i: int| 0 <= i < s.len() ==> is_digit(#[trigger] s[i])
}

/// The number written by the decimal digits `s`, most significant first.
pub open spec fn digits_value(s: Seq<char>) -> nat
    decreases s.len(),
{
    if s.len() == 0 {
        0
    } else {
        digits_value(s.drop_last()) * 10 + digit_value(s.last())
    }
}

/// `s` without one leading `+`, if it has one.
pub open spec fn without_plus(s: Seq<char>) -> Seq<char> {
    if s.len() > 0 && s[0] == '+' {
        s.drop_first()
    } else {
        s
    }
}

/// The text of an unsigned 32-bit decimal: an optional `+`, then one or more
/// digits whose value fits in 32 bits.
pub open spec fn parse_u32_spec(s: Seq<char>) -> Option<u32> {
    let d = without_plus(s);
    if d.len() > 0 && all_digits(d) && digits_value(d) <= u32::MAX {
        Some(digits_value(d) as u32)
    } else {
        None
    }
}

/// The pieces of `s` between the dots, as `str::split('.')` yields them.
pub open spec fn split_dots(s: Seq<char>) -> Seq<Seq<char>>
    decreases s.len(),
{
    if s.len() == 0 {
        seq![Seq::<char>::empty()]
    } else {
        let prev = split_dots(s.drop_last());
        if s.last() == '.' {
            prev.push(Seq::<char>::empty())
        } else {
            prev.update(prev.len() - 1, prev.last().push(s.last()))
        }
    }
}

/// What parsing `s` yields: a version exactly when `s` is four dot-separated
/// unsigned 32-bit decimals.
pub open spec fn parse_spec(s: Seq<char>) -> Option<BinaryVersion> {
    let parts = split_dots(s);
    if parts.len() == 4 && parse_u32_spec(parts[0]) is Some && parse_u32_spec(parts[1]) is Some
        && parse_u32_spec(parts[2]) is Some && parse_u32_spec(parts[3]) is Some {
        Some(
            BinaryVersion {
                unknown: false,
                major: parse_u32_spec(parts[0])->0,
                minor: parse_u32_spec(parts[1])->0,
                patch: parse_u32_spec(parts[2])->0,
                build: parse_u32_spec(parts[3])->0,
            },
        )
    } else {
        None
    }
}

/// Splitting always yields at least one piece.
pub proof fn lemma_split_dots_nonempty(s: Seq<char>)
    ensures
        split_dots(s).len() >= 1,
    decreases s.len(),
{
    if s.len() > 0 {
        lemma_split_dots_nonempty(s.drop_last());
    }
}

fn parse_u32_chars(d: &Vec<char>) -> (r: Option<u32>)
    ensures
        r == parse_u32_spec(d@),
{
    let n = d.len();
    let start: usize = if n > 0 && d[0] == '+' { 1 } else { 0 };
    let ghost ds = without_plus(d@);
    assert(start == 1 ==> ds =~= d@.subrange(1, n as int));
    assert(start == 0 ==> ds =~= d@.subrange(0, n as int));
    if start >= n {
        return None;
    }
    let mut value: u64 = 0;
    let mut i: usize = start;
    while i < n
        invariant
            start <= i <= n,
            n == d@.len(),
            start < n,
            ds == d@.subrange(start as int, n as int),
            ds == without_plus(d@),
            all_digits(d@.subrange(start as int, i as int)),
            value as nat == digits_value(d@.subrange(start as int, i as int)),
            value <= u32::MAX,
        decreases n - i,
    {
        let c = d[i];
        if !('0' <= c && c <= '9') {
            proof {
                let k = i - start;
                assert(ds[k as int] == d@[i as int]);
                assert(!is_digit(ds[k as int]));
                assert(!all_digits(ds));
                assert(parse_u32_spec(d@) is None);
            }
            return None;
        }
        let dv = (c as u32 - '0' as u32) as u64;
        let ghost prefix = d@.subrange(start as int, i as int);
        let ghost next = d@.subrange(start as int, i + 1);
        assert(next.drop_last() =~= prefix);
        assert(next.last() == c);
        let v2 = value * 10 + dv;
        if v2 > u32::MAX as u64 {
            proof {
                if all_digits(ds) {
                    lemma_digits_value_prefix_bound(ds, (i + 1 - start) as int);
                    assert(ds.subrange(0, (i + 1 - start) as int) =~= next);
                    assert(digits_value(next) > u32::MAX);
                }
                assert(parse_u32_spec(d@) is None);
            }
            return None;
        }
        value = v2;
        i = i + 1;
        assert(all_digits(next));
    }
    assert(d@.subrange(start as int, n as int) =~= ds);
    Some(value as u32)
}

/// The value of a prefix of a digit string never exceeds the value of the
/// whole string.
proof fn lemma_digits_value_prefix_bound(s: Seq<char>, k: int)
    requires
        0 <= k <= s.len(),
        all_digits(s),
    ensures
        digits_value(s.subrange(0, k)) <= digits_value(s),
    decreases s.len() - k,
{
    if k < s.len() {
        lemma_digits_value_prefix_bound(s, k + 1);
        let t = s.subrange(0, k + 1);
        assert(t.drop_last() =~= s.subrange(0, k));
    } else {
        assert(s.subrange(0, k) =~= s);
    }
}

} // verus!

verus! {

/// The character of the decimal digit `d`.
pub open spec fn digit_char(d: nat) -> char {
    ((48 + d) as u8) as char
}

/// The shortest decimal text of `n`.
pub open spec fn decimal(n: nat) -> Seq<char>
    decreases n,
{
    if n < 10 {
        seq![digit_char(n)]
    } else {
        decimal(n / 10).push(digit_char(n % 10))
    }
}

/// The text of a known version: its four numbers joined by dots.
pub open spec fn format_spec(v: BinaryVersion) -> Seq<char> {
    decimal(v.major as nat) + seq!['.'] + decimal(v.minor as nat) + seq!['.'] + decimal(
        v.patch as nat,
    ) + seq!['.'] + decimal(v.build as nat)
}

/// `a` comes strictly before `b`: unknown after every known version, and
/// otherwise lexicographically on (major, minor, patch, build).
pub open spec fn version_lt(a: BinaryVersion, b: BinaryVersion) -> bool {
    if a.unknown != b.unknown {
        b.unknown
    } else if a.major != b.major {
        a.major < b.major
    } else if a.minor != b.minor {
        a.minor < b.minor
    } else if a.patch != b.patch {
        a.patch < b.patch
    } else {
        a.build < b.build
    }
}

/// `a` comes no later than `b`.
pub open spec fn version_le(a: BinaryVersion, b: BinaryVersion) -> bool {
    !version_lt(b, a)
}

/// The unknown version marker.
pub open spec fn unknown_version() -> BinaryVersion {
    BinaryVersion { unknown: true, major: 0, minor: 0, patch: 0, build: 0 }
}

fn push_decimal(s: &mut String, n: u32)
    ensures
        final(s)@ == old(s)@ + decimal(n as nat),
    decreases n,
{
    if n >= 10 {
        push_decimal(s, n / 10);
    }
    let d: u8 = (n % 10) as u8;
    push_char(s, (48u8 + d) as char);
    proof {
        if n >= 10 {
            assert(decimal(n as nat) == decimal((n / 10) as nat).push(digit_char((n % 10) as nat)));
        } else {
            assert(decimal(n as nat) == seq![digit_char(n as nat)]);
        }
    }
    assert(final(s)@ =~= old(s)@ + decimal(n as nat));
}

impl Default for BinaryVersion {
    /// The unknown version marker.
    fn default() -> (r: Self)
        ensures
            r == unknown_version(),
    {
        BinaryVersion::unknown()
    }
}

impl BinaryVersion {
    /// The unknown version marker, which sorts after every known version.
    pub fn unknown() -> (r: BinaryVersion)
        ensures
            r == unknown_version(),
    {
        BinaryVersion { unknown: true, major: 0, minor: 0, patch: 0, build: 0 }
    }

    /// Parses `major.minor.patch.build`: exactly four dot-separated unsigned
    /// 32-bit decimals; anything else gives `None`.
    pub fn parse(version_string: &str) -> (r: Option<BinaryVersion>)
        ensures
            r == parse_spec(version_string@),
    {
        let n = version_string.unicode_len();
        let mut parts: Vec<Vec<char>> = Vec::new();
        let mut cur: Vec<char> = Vec::new();
        let mut i: usize = 0;
        while i < n
            invariant
                n == version_string@.len(),
                i <= n,
                parts@.map_values(|p: Vec<char>| p@).push(cur@) == split_dots(
                    version_string@.subrange(0, i as int),
                ),
            decreases n - i,
        {
            let c = version_string.get_char(i);
            let ghost t = version_string@.subrange(0, i as int);
            let ghost t2 = version_string@.subrange(0, i + 1);
            let ghost old_parts = parts@.map_values(|p: Vec<char>| p@);
            let ghost old_cur = cur@;
            assert(t2.drop_last() =~= t);
            assert(t2.last() == c);
            if c == '.' {
                parts.push(cur);
                cur = Vec::new();
                assert(parts@.map_values(|p: Vec<char>| p@).push(cur@) =~= old_parts.push(
                    old_cur,
                ).push(Seq::<char>::empty()));
            } else {
                cur.push(c);
                let ghost prev = old_parts.push(old_cur);
                assert(parts@.map_values(|p: Vec<char>| p@).push(cur@) =~= prev.update(
                    prev.len() - 1,
                    prev.last().push(c),
                ));
            }
            i = i + 1;
        }
        assert(version_string@.subrange(0, n as int) =~= version_string@);
        parts.push(cur);
        let ghost pv = parts@.map_values(|p: Vec<char>| p@);
        assert(pv == split_dots(version_string@));
        if parts.len() != 4 {
            return None;
        }
        assert(pv[0] == parts@[0]@ && pv[1] == parts@[1]@ && pv[2] == parts@[2]@ && pv[3]
            == parts@[3]@);
        let major = parse_u32_chars(&parts[0]);
        let minor = parse_u32_chars(&parts[1]);
        let patch = parse_u32_chars(&parts[2]);
        let build = parse_u32_chars(&parts[3]);
        match (major, minor, patch, build) {
            (Some(major), Some(minor), Some(patch), Some(build)) => Some(
                BinaryVersion { unknown: false, major, minor, patch, build },
            ),
            _ => None,
        }
    }

    /// The text `major.minor.patch.build` of a known version; `unknown` for the
    /// unknown marker.
    pub fn format(&self) -> (r: String)
        ensures
            !self.unknown ==> r@ == format_spec(*self),
            self.unknown ==> r@ == "unknown"@,
    {
        if self.unknown {
            return String::from_str("unknown");
        }
        let mut s = String::new();
        push_decimal(&mut s, self.major);
        push_char(&mut s, '.');
        push_decimal(&mut s, self.minor);
        push_char(&mut s, '.');
        push_decimal(&mut s, self.patch);
        push_char(&mut s, '.');
        push_decimal(&mut s, self.build);
        assert(s@ =~= format_spec(*self));
        s
    }

    /// Three-way comparison: unknown after every known version, and otherwise
    /// lexicographically on (major, minor, patch, build). `Equal` exactly
    /// when the two versions are equal.
    pub fn compare(&self, other: &BinaryVersion) -> (r: core::cmp::Ordering)
        ensures
            (r == core::cmp::Ordering::Less) == version_lt(*self, *other),
            (r == core::cmp::Ordering::Greater) == version_lt(*other, *self),
            (r == core::cmp::Ordering::Equal) == (*self == *other),
    {
        if self.unknown != other.unknown {
            if other.unknown {
                core::cmp::Ordering::Less
            } else {
                core::cmp::Ordering::Greater
            }
        } else if self.major != other.major {
            if self.major < other.major {
                core::cmp::Ordering::Less
            } else {
                core::cmp::Ordering::Greater
            }
        } else if self.minor != other.minor {
            if self.minor < other.minor {
                core::cmp::Ordering::Less
            } else {
                core::cmp::Ordering::Greater
            }
        } else if self.patch != other.patch {
            if self.patch < other.patch {
                core::cmp::Ordering::Less
            } else {
                core::cmp::Ordering::Greater
            }
        } else if self.build != other.build {
            if self.build < other.build {
                core::cmp::Ordering::Less
            } else {
                core::cmp::Ordering::Greater
            }
        } else {
            core::cmp::Ordering::Equal
        }
    }

    /// `self` sorts strictly before `other`.
    pub fn is_before(&self, other: &BinaryVersion) -> (r: bool)
        ensures
            r == version_lt(*self, *other),
    {
        match self.compare(other) {
            core::cmp::Ordering::Less => true,
            _ => false,
        }
    }
}

} // verus!

verus! {

proof fn lemma_decimal(n: nat)
    ensures
        decimal(n).len() >= 1,
        all_digits(decimal(n)),
        digits_value(decimal(n)) == n,
    decreases n,
{
    if n >= 10 {
        lemma_decimal(n / 10);
        let d = decimal(n);
        assert(d.drop_last() =~= decimal(n / 10));
        assert(digit_value(digit_char(n % 10)) == n % 10);
        assert(n == (n / 10) * 10 + n % 10);
        assert(d.last() == digit_char(n % 10));
        assert(digits_value(d) == digits_value(d.drop_last()) * 10 + digit_value(d.last()));
        assert forall|i: int| 0 <= i < d.len() implies is_digit(#[trigger] d[i]) by {
            if i < d.len() - 1 {
                assert(d[i] == decimal(n / 10)[i]);
            }
        }
    } else {
        let d = decimal(n);
        assert(d.drop_last() =~= Seq::<char>::empty());
        assert(digit_value(digit_char(n)) == n);
        assert(d.last() == digit_char(n));
        assert(digits_value(d) == digits_value(d.drop_last()) * 10 + digit_value(d.last()));
        assert(digits_value(Seq::<char>::empty()) == 0);
    }
}

proof fn lemma_split_digits(y: Seq<char>)
    requires
        all_digits(y),
    ensures
        split_dots(y) == seq![y],
    decreases y.len(),
{
    if y.len() > 0 {
        let t = y.drop_last();
        assert(all_digits(t)) by {
            assert forall|i: int| 0 <= i < t.len() implies is_digit(#[trigger] t[i]) by {
                assert(t[i] == y[i]);
            }
        }
        lemma_split_digits(t);
        assert(is_digit(y[y.len() - 1]));
        assert(t.push(y.last()) =~= y);
        assert(split_dots(y) == seq![t].update(0, t.push(y.last())));
        assert(seq![t].update(0, y) =~= seq![y]);
    } else {
        assert(y =~= Seq::<char>::empty());
    }
}

proof fn lemma_split_concat(x: Seq<char>, y: Seq<char>)
    ensures
        split_dots(x + seq!['.'] + y) == split_dots(x) + split_dots(y),
    decreases y.len(),
{
    let s = x + seq!['.'] + y;
    if y.len() == 0 {
        assert(s.drop_last() =~= x);
        assert(split_dots(x).push(Seq::<char>::empty()) =~= split_dots(x) + seq![
            Seq::<char>::empty(),
        ]);
        assert(y =~= Seq::<char>::empty());
    } else {
        let yp = y.drop_last();
        lemma_split_concat(x, yp);
        lemma_split_dots_nonempty(yp);
        lemma_split_dots_nonempty(x);
        assert(s.drop_last() =~= x + seq!['.'] + yp);
        assert(s.last() == y.last());
        let a = split_dots(x);
        let b = split_dots(yp);
        if y.last() == '.' {
            assert((a + b).push(Seq::<char>::empty()) =~= a + b.push(Seq::<char>::empty()));
        } else {
            assert((a + b).update((a + b).len() - 1, (a + b).last().push(y.last())) =~= a
                + b.update(b.len() - 1, b.last().push(y.last())));
        }
    }
}

proof fn lemma_parse_decimal(n: u32)
    ensures
        parse_u32_spec(decimal(n as nat)) == Some(n),
{
    lemma_decimal(n as nat);
    let d = decimal(n as nat);
    assert(is_digit(d[0]));
    assert(without_plus(d) == d);
}

/// Formatting a known version and parsing the text gives the version back.
pub proof fn lemma_parse_format_round_trip(v: BinaryVersion)
    requires
        !v.unknown,
    ensures
        parse_spec(format_spec(v)) == Some(v),
{
    let d1 = decimal(v.major as nat);
    let d2 = decimal(v.minor as nat);
    let d3 = decimal(v.patch as nat);
    let d4 = decimal(v.build as nat);
    lemma_decimal(v.major as nat);
    lemma_decimal(v.minor as nat);
    lemma_decimal(v.patch as nat);
    lemma_decimal(v.build as nat);
    lemma_split_digits(d1);
    lemma_split_digits(d2);
    lemma_split_digits(d3);
    lemma_split_digits(d4);
    lemma_split_concat(d1, d2);
    lemma_split_concat(d1 + seq!['.'] + d2, d3);
    lemma_split_concat(d1 + seq!['.'] + d2 + seq!['.'] + d3, d4);
    let parts = split_dots(format_spec(v));
    assert(parts =~= seq![d1, d2, d3, d4]);
    lemma_parse_decimal(v.major);
    lemma_parse_decimal(v.minor);
    lemma_parse_decimal(v.patch);
    lemma_parse_decimal(v.build);
}

/// `t` is the shortest decimal text of its value: one or more digits, with
/// no leading zero unless it is `0` itself.
pub open spec fn canonical_decimal(t: Seq<char>) -> bool {
    t.len() > 0 && all_digits(t) && (t.len() == 1 || t[0] != '0')
}

proof fn lemma_canonical_is_decimal(t: Seq<char>)
    requires
        canonical_decimal(t),
    ensures
        t == decimal(digits_value(t)),
    decreases t.len(),
{
    let c = t.last();
    assert(is_digit(t[t.len() - 1]));
    assert(digit_char(digit_value(c)) == c);
    if t.len() == 1 {
        assert(t.drop_last() =~= Seq::<char>::empty());
        assert(digits_value(Seq::<char>::empty()) == 0);
        assert(digits_value(t) == digits_value(t.drop_last()) * 10 + digit_value(t.last()));
        assert(digits_value(t) == digit_value(c));
        assert(t =~= seq![digit_char(digits_value(t))]);
    } else {
        let p = t.drop_last();
        assert(all_digits(p)) by {
            assert forall|i: int| 0 <= i < p.len() implies is_digit(#[trigger] p[i]) by {
                assert(p[i] == t[i]);
            }
        }
        assert(p[0] == t[0]);
        assert(canonical_decimal(p));
        lemma_canonical_is_decimal(p);
        lemma_digits_value_prefix_bound(p, 1);
        assert(p.subrange(0, 1).drop_last() =~= Seq::<char>::empty());
        assert(digits_value(Seq::<char>::empty()) == 0);
        assert(digits_value(p.subrange(0, 1)) == digits_value(p.subrange(0, 1).drop_last()) * 10
            + digit_value(p.subrange(0, 1).last()));
        assert(is_digit(p[0]) && p[0] != '0');
        assert(digits_value(p.subrange(0, 1)) >= 1);
        let n = digits_value(t);
        assert(n == digits_value(t.drop_last()) * 10 + digit_value(t.last()));
        assert(n == digits_value(p) * 10 + digit_value(c));
        assert(n >= 10);
        assert(n / 10 == digits_value(p) && n % 10 == digit_value(c));
        assert(decimal(n) == decimal(n / 10).push(digit_char(n % 10)));
        assert(t =~= p.push(c));
    }
}

/// Four canonical decimals that fit in 32 bits, joined by dots, parse to the
/// version of those numbers, and formatting that version gives the text back.
pub proof fn lemma_parse_canonical_round_trip(a: Seq<char>, b: Seq<char>, c: Seq<char>, d: Seq<char>)
    requires
        canonical_decimal(a),
        canonical_decimal(b),
        canonical_decimal(c),
        canonical_decimal(d),
        digits_value(a) <= u32::MAX,
        digits_value(b) <= u32::MAX,
        digits_value(c) <= u32::MAX,
        digits_value(d) <= u32::MAX,
    ensures
        ({
            let v = BinaryVersion {
                unknown: false,
                major: digits_value(a) as u32,
                minor: digits_value(b) as u32,
                patch: digits_value(c) as u32,
                build: digits_value(d) as u32,
            };
            &&& parse_spec(a + seq!['.'] + b + seq!['.'] + c + seq!['.'] + d) == Some(v)
            &&& format_spec(v) == a + seq!['.'] + b + seq!['.'] + c + seq!['.'] + d
        }),
{
    let v = BinaryVersion {
        unknown: false,
        major: digits_value(a) as u32,
        minor: digits_value(b) as u32,
        patch: digits_value(c) as u32,
        build: digits_value(d) as u32,
    };
    lemma_canonical_is_decimal(a);
    lemma_canonical_is_decimal(b);
    lemma_canonical_is_decimal(c);
    lemma_canonical_is_decimal(d);
    assert(format_spec(v) == a + seq!['.'] + b + seq!['.'] + c + seq!['.'] + d);
    lemma_parse_format_round_trip(v);
}

/// Any two versions are ordered one way or the other, or are equal, and
/// never both ways: the order is total and agrees with `==`.
pub proof fn lemma_version_order_total(a: BinaryVersion, b: BinaryVersion)
    ensures
        version_lt(a, b) || a == b || version_lt(b, a),
        !(version_lt(a, b) && version_lt(b, a)),
        !version_lt(a, a),
        (!version_lt(a, b) && !version_lt(b, a)) <==> a == b,
{
}

/// The order is transitive.
pub proof fn lemma_version_order_transitive(a: BinaryVersion, b: BinaryVersion, c: BinaryVersion)
    requires
        version_lt(a, b),
        version_lt(b, c),
    ensures
        version_lt(a, c),
{
}

/// The order is the lexicographic order of (unknown, major, minor, patch,
/// build), with a known version before an unknown one; among known versions
/// it is the lexicographic order of (major, minor, patch, build).
pub proof fn lemma_version_order_lexicographic(a: BinaryVersion, b: BinaryVersion)
    ensures
        version_lt(a, b) <==> ((!a.unknown && b.unknown) || (a.unknown == b.unknown && (a.major
            < b.major || (a.major == b.major && a.minor < b.minor) || (a.major == b.major
            && a.minor == b.minor && a.patch < b.patch) || (a.major == b.major && a.minor
            == b.minor && a.patch == b.patch && a.build < b.build)))),
        !a.unknown && b.unknown ==> version_lt(a, b),
{
}

} // verus!
