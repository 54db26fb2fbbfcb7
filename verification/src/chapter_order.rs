//! Numeric ordering of chapter-number strings.
//!
//! A chapter number travels as a string such as `"2"`, `"10"` or `"1.5"`, and
//! chapters of a manga are kept sorted by the numeric value that the string
//! carries, not by its characters. A string that is not a plain decimal
//! numeral (optional sign, digits, optionally a dot and more digits) counts
//! as zero. The ordering is defined here exactly, through a canonical form of
//! the numeral, and an executable comparison and sort are verified against it.

use vstd::prelude::*;
use crate::model::Chapter;

verus! {

/// A decimal digit.
pub open spec fn is_digit(c: char) -> bool {
    '0' <= c && c <= '9'
}

/// Every character of `s` is a decimal digit.
pub open spec fn all_digits(s: Seq<char>) -> bool {
    forall|i: int| 0 <= i < s.len() ==> is_digit(s[i])
}

/// Index of the first `'.'` in `s`, if any.
pub open spec fn dot_index(s: Seq<char>) -> Option<int>
    decreases s.len(),
{
    if s.len() == 0 {
        None
    } else if s[0] == '.' {
        Some(0int)
    } else {
        match dot_index(s.skip(1)) {
            None => None,
            Some(i) => Some(i + 1),
        }
    }
}

/// `dot_index` finds the first dot: its result is a dot preceded by none,
/// and `None` means the string has no dot at all.
pub proof fn lemma_dot_index(s: Seq<char>)
    ensures
        match dot_index(s) {
            Some(i) => 0 <= i < s.len() && s[i] == '.' && forall|j: int|
                0 <= j < i ==> s[j] != '.',
            None => forall|j: int| 0 <= j < s.len() ==> s[j] != '.',
        },
    decreases s.len(),
{
    if s.len() > 0 && s[0] != '.' {
        lemma_dot_index(s.skip(1));
        match dot_index(s.skip(1)) {
            None => {
                assert forall|j: int| 0 <= j < s.len() implies s[j] != '.' by {
                    if j > 0 {
                        assert(s.skip(1)[j - 1] == s[j]);
                    }
                }
            },
            Some(i) => {
                assert(s.skip(1)[i] == s[i + 1]);
                assert forall|j: int| 0 <= j < i + 1 implies s[j] != '.' by {
                    if j > 0 {
                        assert(s.skip(1)[j - 1] == s[j]);
                    }
                }
            },
        }
    }
}

/// Splits the unsigned body of a numeral into digits before and after the
/// first dot. `None` when the body is not of the form `digits [ '.' digits ]`
/// with at least one digit overall.
pub open spec fn split_body(s: Seq<char>) -> Option<(Seq<char>, Seq<char>)> {
    match dot_index(s) {
        None => if all_digits(s) && s.len() >= 1 {
            Some((s, Seq::<char>::empty()))
        } else {
            None
        },
        Some(i) => {
            let ip = s.subrange(0, i);
            let fp = s.subrange(i + 1, s.len() as int);
            if all_digits(ip) && all_digits(fp) && ip.len() + fp.len() >= 1 {
                Some((ip, fp))
            } else {
                None
            }
        },
    }
}

/// Parses a numeral: an optional sign, then the body. The result carries
/// (negative, integer digits, fraction digits); `None` when the string is
/// not a numeral.
pub open spec fn parse_decimal(s: Seq<char>) -> Option<(bool, Seq<char>, Seq<char>)> {
    if s.len() > 0 && (s[0] == '-' || s[0] == '+') {
        match split_body(s.skip(1)) {
            Some(p) => Some((s[0] == '-', p.0, p.1)),
            None => None,
        }
    } else {
        match split_body(s) {
            Some(p) => Some((false, p.0, p.1)),
            None => None,
        }
    }
}

/// Count of leading `'0'` characters.
pub open spec fn lead_zeros(s: Seq<char>) -> int
    decreases s.len(),
{
    if s.len() > 0 && s[0] == '0' {
        1 + lead_zeros(s.skip(1))
    } else {
        0
    }
}

pub proof fn lemma_lead_zeros(s: Seq<char>)
    ensures
        0 <= lead_zeros(s) <= s.len(),
        forall|j: int| 0 <= j < lead_zeros(s) ==> s[j] == '0',
        lead_zeros(s) < s.len() ==> s[lead_zeros(s)] != '0',
    decreases s.len(),
{
    if s.len() > 0 && s[0] == '0' {
        lemma_lead_zeros(s.skip(1));
        assert forall|j: int| 0 <= j < lead_zeros(s) implies s[j] == '0' by {
            if j > 0 {
                assert(s.skip(1)[j - 1] == s[j]);
            }
        }
        if lead_zeros(s) < s.len() {
            assert(s.skip(1)[lead_zeros(s) - 1] == s[lead_zeros(s)]);
        }
    }
}

/// Count of trailing `'0'` characters.
pub open spec fn trail_zeros(s: Seq<char>) -> int
    decreases s.len(),
{
    if s.len() > 0 && s[s.len() - 1] == '0' {
        1 + trail_zeros(s.drop_last())
    } else {
        0
    }
}

pub proof fn lemma_trail_zeros(s: Seq<char>)
    ensures
        0 <= trail_zeros(s) <= s.len(),
        forall|j: int| s.len() - trail_zeros(s) <= j < s.len() ==> s[j] == '0',
        trail_zeros(s) < s.len() ==> s[s.len() - trail_zeros(s) - 1] != '0',
    decreases s.len(),
{
    if s.len() > 0 && s[s.len() - 1] == '0' {
        lemma_trail_zeros(s.drop_last());
        assert forall|j: int| s.len() - trail_zeros(s) <= j < s.len() implies s[j] == '0' by {
            if j < s.len() - 1 {
                assert(s.drop_last()[j] == s[j]);
            }
        }
        if trail_zeros(s) < s.len() {
            assert(s.drop_last()[s.len() - trail_zeros(s) - 1] == s[s.len() - trail_zeros(s) - 1]);
        }
    }
}

/// The canonical form of a numeral: a sign, the integer digits with leading
/// zeros stripped, and the fraction digits with trailing zeros stripped.
/// Zero — including every string that is not a numeral — canonicalizes to
/// the non-negative key with two empty digit strings.
#[verifier::ext_equal]
pub struct DecKey {
    pub neg: bool,
    pub whole: Seq<char>,
    pub frac: Seq<char>,
}

pub open spec fn zero_key() -> DecKey {
    DecKey { neg: false, whole: Seq::<char>::empty(), frac: Seq::<char>::empty() }
}

pub open spec fn canon(s: Seq<char>) -> DecKey {
    match parse_decimal(s) {
        None => zero_key(),
        Some((neg, ip, fp)) => {
            let w = ip.skip(lead_zeros(ip));
            let f = fp.take(fp.len() - trail_zeros(fp));
            if w.len() == 0 && f.len() == 0 {
                zero_key()
            } else {
                DecKey { neg, whole: w, frac: f }
            }
        },
    }
}

/// Strict lexicographic order on digit strings, with a proper prefix coming
/// first. On fraction digits whose trailing zeros are stripped this is
/// exactly the numeric order of the fractions they denote.
pub open spec fn lex_lt(a: Seq<char>, b: Seq<char>) -> bool
    decreases a.len() + b.len(),
{
    if b.len() == 0 {
        false
    } else if a.len() == 0 {
        true
    } else if a[0] != b[0] {
        a[0] < b[0]
    } else {
        lex_lt(a.skip(1), b.skip(1))
    }
}

/// Numeric order of integer digit strings without leading zeros: a shorter
/// string is smaller, strings of one length compare lexicographically.
pub open spec fn whole_lt(a: Seq<char>, b: Seq<char>) -> bool {
    a.len() < b.len() || (a.len() == b.len() && lex_lt(a, b))
}

/// Order of canonical keys by magnitude, ignoring the sign.
pub open spec fn mag_lt(x: DecKey, y: DecKey) -> bool {
    whole_lt(x.whole, y.whole) || (x.whole == y.whole && lex_lt(x.frac, y.frac))
}

/// Strict numeric order of canonical keys.
pub open spec fn key_lt(x: DecKey, y: DecKey) -> bool {
    if x.neg != y.neg {
        x.neg
    } else if x.neg {
        mag_lt(y, x)
    } else {
        mag_lt(x, y)
    }
}

/// The numeric order on chapter-number strings: `a` comes no later than `b`.
pub open spec fn chapter_le(a: Seq<char>, b: Seq<char>) -> bool {
    !key_lt(canon(b), canon(a))
}

/// Of two digit strings, exactly one of `lex_lt(a, b)`, `lex_lt(b, a)` and
/// `a == b` holds.
pub proof fn lemma_lex_lt_trichotomy(a: Seq<char>, b: Seq<char>)
    ensures
        lex_lt(a, b) || lex_lt(b, a) || a == b,
        !(lex_lt(a, b) && lex_lt(b, a)),
        lex_lt(a, b) ==> a != b,
    decreases a.len() + b.len(),
{
    if a.len() == 0 && b.len() == 0 {
        assert(a =~= b);
    } else if a.len() > 0 && b.len() > 0 && a[0] == b[0] {
        lemma_lex_lt_trichotomy(a.skip(1), b.skip(1));
        if a.skip(1) == b.skip(1) {
            assert(a =~= b) by {
                assert forall|i: int| 0 <= i < a.len() implies a[i] == b[i] by {
                    if i > 0 {
                        assert(a.skip(1)[i - 1] == a[i]);
                        assert(b.skip(1)[i - 1] == b[i]);
                    }
                }
            }
        }
        if a == b {
            assert(a.skip(1) =~= b.skip(1));
        }
    } else {
        if a == b {
            assert(a.len() == b.len());
            if a.len() > 0 {
                assert(a[0] == b[0]);
            }
        }
    }
}

/// `lex_lt` is transitive.
pub proof fn lemma_lex_lt_trans(a: Seq<char>, b: Seq<char>, c: Seq<char>)
    requires
        lex_lt(a, b),
        lex_lt(b, c),
    ensures
        lex_lt(a, c),
    decreases a.len() + b.len() + c.len(),
{
    if a.len() == 0 {
    } else {
        if a[0] == b[0] && b[0] == c[0] {
            lemma_lex_lt_trans(a.skip(1), b.skip(1), c.skip(1));
        }
    }
}

/// Exactly one of `whole_lt(a, b)`, `whole_lt(b, a)` and `a == b` holds.
pub proof fn lemma_whole_lt_trichotomy(a: Seq<char>, b: Seq<char>)
    ensures
        whole_lt(a, b) || whole_lt(b, a) || a == b,
        !(whole_lt(a, b) && whole_lt(b, a)),
        whole_lt(a, b) ==> a != b,
{
    lemma_lex_lt_trichotomy(a, b);
}

pub proof fn lemma_whole_lt_trans(a: Seq<char>, b: Seq<char>, c: Seq<char>)
    requires
        whole_lt(a, b),
        whole_lt(b, c),
    ensures
        whole_lt(a, c),
{
    if a.len() == b.len() && b.len() == c.len() {
        lemma_lex_lt_trans(a, b, c);
    }
}

/// Exactly one of `key_lt(x, y)`, `key_lt(y, x)` and `x == y` holds of two
/// canonical keys.
pub proof fn lemma_key_lt_trichotomy(x: DecKey, y: DecKey)
    ensures
        key_lt(x, y) || key_lt(y, x) || x == y,
        !(key_lt(x, y) && key_lt(y, x)),
        key_lt(x, y) ==> x != y,
{
    lemma_whole_lt_trichotomy(x.whole, y.whole);
    lemma_lex_lt_trichotomy(x.frac, y.frac);
    if !key_lt(x, y) && !key_lt(y, x) && x.neg == y.neg && x.whole == y.whole && x.frac
        == y.frac {
        assert(x =~= y);
    }
}

/// `key_lt` is transitive.
pub proof fn lemma_key_lt_trans(x: DecKey, y: DecKey, z: DecKey)
    requires
        key_lt(x, y),
        key_lt(y, z),
    ensures
        key_lt(x, z),
{
    if x.neg == y.neg && y.neg == z.neg {
        lemma_mag_lt_trans_all(x, y, z);
    }
}

proof fn lemma_mag_lt_trans_all(x: DecKey, y: DecKey, z: DecKey)
    ensures
        mag_lt(x, y) && mag_lt(y, z) ==> mag_lt(x, z),
        mag_lt(z, y) && mag_lt(y, x) ==> mag_lt(z, x),
{
    if mag_lt(x, y) && mag_lt(y, z) {
        lemma_mag_lt_trans(x, y, z);
    }
    if mag_lt(z, y) && mag_lt(y, x) {
        lemma_mag_lt_trans(z, y, x);
    }
}

proof fn lemma_mag_lt_trans(x: DecKey, y: DecKey, z: DecKey)
    requires
        mag_lt(x, y),
        mag_lt(y, z),
    ensures
        mag_lt(x, z),
{
    if whole_lt(x.whole, y.whole) && whole_lt(y.whole, z.whole) {
        lemma_whole_lt_trans(x.whole, y.whole, z.whole);
    } else if x.whole == y.whole && y.whole == z.whole {
        lemma_lex_lt_trans(x.frac, y.frac, z.frac);
    }
}

/// The chapter order is total: of any two chapter-number strings one comes
/// no later than the other.
pub proof fn lemma_chapter_le_total(a: Seq<char>, b: Seq<char>)
    ensures
        chapter_le(a, b) || chapter_le(b, a),
{
    lemma_key_lt_trichotomy(canon(a), canon(b));
}

/// The chapter order is transitive.
pub proof fn lemma_chapter_le_trans(a: Seq<char>, b: Seq<char>, c: Seq<char>)
    requires
        chapter_le(a, b),
        chapter_le(b, c),
    ensures
        chapter_le(a, c),
{
    lemma_key_lt_trichotomy(canon(a), canon(b));
    lemma_key_lt_trichotomy(canon(b), canon(c));
    lemma_key_lt_trichotomy(canon(a), canon(c));
    if key_lt(canon(c), canon(a)) {
        if key_lt(canon(a), canon(b)) {
            lemma_key_lt_trans(canon(c), canon(a), canon(b));
        } else {
            assert(canon(a) == canon(b));
        }
    }
}

/// Result of a three-way comparison.
#[derive(Clone, Copy, Debug, PartialEq, Eq, Structural)]
pub enum Rel {
    Lt,
    Eq,
    Gt,
}

/// The canonical form of one chapter-number string, computed once so that a
/// string can be compared against many others.
pub struct ChapterKey {
    pub neg: bool,
    pub whole: Vec<char>,
    pub frac: Vec<char>,
}

impl View for ChapterKey {
    type V = DecKey;

    open spec fn view(&self) -> DecKey {
        DecKey { neg: self.neg, whole: self.whole@, frac: self.frac@ }
    }
}

/// Collects the characters of a string into a vector.
fn chars_of(s: &str) -> (r: Vec<char>)
    ensures
        r@ == s@,
{
    let n = s.unicode_len();
    let mut r: Vec<char> = Vec::new();
    let mut i: usize = 0;
    while i < n
        invariant
            n == s@.len(),
            i <= n,
            r@ == s@.subrange(0, i as int),
        decreases n - i,
    {
        let c = s.get_char(i);
        r.push(c);
        proof {
            assert(r@ =~= s@.subrange(0, i + 1));
        }
        i += 1;
    }
    proof {
        assert(r@ =~= s@);
    }
    r
}

/// First position at or after `start` holding `target`, or the length.
fn find_char(cs: &Vec<char>, start: usize, target: char) -> (d: usize)
    requires
        start <= cs@.len(),
    ensures
        start <= d <= cs@.len(),
        forall|j: int| start <= j < d ==> cs@[j] != target,
        d < cs@.len() ==> cs@[d as int] == target,
{
    let mut i: usize = start;
    while i < cs.len()
        invariant
            start <= i <= cs@.len(),
            forall|j: int| start <= j < i ==> cs@[j] != target,
        decreases cs@.len() - i,
    {
        if cs[i] == target {
            return i;
        }
        i += 1;
    }
    i
}

/// Whether every character in `[lo, hi)` is a decimal digit.
fn all_digits_range(cs: &Vec<char>, lo: usize, hi: usize) -> (r: bool)
    requires
        lo <= hi <= cs@.len(),
    ensures
        r == all_digits(cs@.subrange(lo as int, hi as int)),
{
    let ghost sub = cs@.subrange(lo as int, hi as int);
    let mut i: usize = lo;
    while i < hi
        invariant
            lo <= i <= hi <= cs@.len(),
            sub == cs@.subrange(lo as int, hi as int),
            forall|j: int| lo <= j < i ==> is_digit(cs@[j]),
        decreases hi - i,
    {
        let c = cs[i];
        if !(c >= '0' && c <= '9') {
            proof {
                assert(sub[i - lo] == cs@[i as int]);
            }
            return false;
        }
        i += 1;
    }
    proof {
        assert forall|j: int| 0 <= j < sub.len() implies is_digit(sub[j]) by {
            assert(sub[j] == cs@[lo + j]);
        }
    }
    true
}

/// Count of `'0'` characters at the front of `[lo, hi)`.
fn count_leading_zeros(cs: &Vec<char>, lo: usize, hi: usize) -> (lz: usize)
    requires
        lo <= hi <= cs@.len(),
    ensures
        lz <= hi - lo,
        forall|j: int| lo <= j < lo + lz ==> cs@[j] == '0',
        lo + lz < hi ==> cs@[lo + lz] != '0',
{
    let mut i: usize = lo;
    while i < hi
        invariant
            lo <= i <= hi <= cs@.len(),
            forall|j: int| lo <= j < i ==> cs@[j] == '0',
        decreases hi - i,
    {
        if cs[i] != '0' {
            return i - lo;
        }
        i += 1;
    }
    hi - lo
}

/// Count of `'0'` characters at the back of `[lo, hi)`.
fn count_trailing_zeros(cs: &Vec<char>, lo: usize, hi: usize) -> (tz: usize)
    requires
        lo <= hi <= cs@.len(),
    ensures
        tz <= hi - lo,
        forall|j: int| hi - tz <= j < hi ==> cs@[j] == '0',
        tz < hi - lo ==> cs@[hi - tz - 1] != '0',
{
    let mut i: usize = hi;
    while i > lo
        invariant
            lo <= i <= hi <= cs@.len(),
            forall|j: int| i <= j < hi ==> cs@[j] == '0',
        decreases i - lo,
    {
        if cs[i - 1] != '0' {
            return hi - i;
        }
        i -= 1;
    }
    hi - lo
}

/// The characters of `[lo, hi)` as a fresh vector.
fn copy_range(cs: &Vec<char>, lo: usize, hi: usize) -> (r: Vec<char>)
    requires
        lo <= hi <= cs@.len(),
    ensures
        r@ == cs@.subrange(lo as int, hi as int),
{
    let mut r: Vec<char> = Vec::new();
    let mut i: usize = lo;
    while i < hi
        invariant
            lo <= i <= hi <= cs@.len(),
            r@ == cs@.subrange(lo as int, i as int),
        decreases hi - i,
    {
        r.push(cs[i]);
        proof {
            assert(r@ =~= cs@.subrange(lo as int, i + 1));
        }
        i += 1;
    }
    r
}

/// The value `l` with the properties of a leading-zero count is the
/// leading-zero count.
proof fn lemma_lead_zeros_unique(s: Seq<char>, l: int)
    requires
        0 <= l <= s.len(),
        forall|j: int| 0 <= j < l ==> s[j] == '0',
        l < s.len() ==> s[l] != '0',
    ensures
        lead_zeros(s) == l,
{
    lemma_lead_zeros(s);
    let lzs = lead_zeros(s);
    if lzs < l {
        assert(s[lzs] == '0');
    }
    if lzs > l {
        assert(s[l] == '0');
    }
}

/// The value `t` with the properties of a trailing-zero count is the
/// trailing-zero count.
proof fn lemma_trail_zeros_unique(s: Seq<char>, t: int)
    requires
        0 <= t <= s.len(),
        forall|j: int| s.len() - t <= j < s.len() ==> s[j] == '0',
        t < s.len() ==> s[s.len() - t - 1] != '0',
    ensures
        trail_zeros(s) == t,
{
    lemma_trail_zeros(s);
    let tzs = trail_zeros(s);
    if tzs < t {
        assert(s[s.len() - tzs - 1] == '0');
    }
    if tzs > t {
        assert(s[s.len() - t - 1] == '0');
    }
}

/// Scans a numeral for its sign and digit ranges; `None` when the characters
/// are not a numeral. A `Some` result carries
/// `(negative, ip_lo, ip_hi, fp_lo, fp_hi)`: the integer digits occupy
/// `[ip_lo, ip_hi)` and the fraction digits `[fp_lo, fp_hi)`.
#[verifier::rlimit(30)]
fn scan_parts(cs: &Vec<char>) -> (r: Option<(bool, usize, usize, usize, usize)>)
    ensures
        match r {
            None => parse_decimal(cs@) is None,
            Some((neg, ip_lo, ip_hi, fp_lo, fp_hi)) => {
                &&& ip_lo <= ip_hi <= cs@.len()
                &&& fp_lo <= fp_hi <= cs@.len()
                &&& parse_decimal(cs@) == Some(
                    (
                        neg,
                        cs@.subrange(ip_lo as int, ip_hi as int),
                        cs@.subrange(fp_lo as int, fp_hi as int),
                    ),
                )
            },
        },
{
    let n = cs.len();
    let has_sign = n > 0 && (cs[0] == '-' || cs[0] == '+');
    let neg0 = n > 0 && cs[0] == '-';
    let start: usize = if has_sign {
        1
    } else {
        0
    };
    let ghost body: Seq<char> = cs@.skip(start as int);
    proof {
        assert forall|j: int| 0 <= j < body.len() implies body[j] == cs@[start + j] by {}
        if !has_sign {
            assert(body =~= cs@);
        }
    }
    let d = find_char(cs, start, '.');
    let ghost dd: int = d as int - start as int;
    let has_dot = d < n;
    proof {
        lemma_dot_index(body);
        if has_dot {
            match dot_index(body) {
                None => {
                    assert(body[dd] == '.');
                },
                Some(i) => {
                    if i < dd {
                        assert(body[i] == cs@[start + i]);
                        assert(false);
                    }
                    if i > dd {
                        assert(body[dd] == '.');
                        assert(false);
                    }
                },
            }
            assert(dot_index(body) == Some(dd));
        } else {
            match dot_index(body) {
                None => {},
                Some(i) => {
                    assert(body[i] == cs@[start + i]);
                    assert(false);
                },
            }
        }
    }
    let ip_lo = start;
    let ip_hi: usize = if has_dot {
        d
    } else {
        n
    };
    let fp_lo: usize = if has_dot {
        d + 1
    } else {
        n
    };
    let fp_hi = n;
    let ghost ip_spec: Seq<char> = cs@.subrange(ip_lo as int, ip_hi as int);
    let ghost fp_spec: Seq<char> = cs@.subrange(fp_lo as int, fp_hi as int);
    proof {
        if has_dot {
            assert(body.subrange(0, dd) =~= ip_spec);
            assert(body.subrange(dd + 1, body.len() as int) =~= fp_spec);
        } else {
            assert(body =~= ip_spec);
            assert(fp_spec =~= Seq::<char>::empty());
        }
    }
    let digits_ok = all_digits_range(cs, ip_lo, ip_hi) && all_digits_range(cs, fp_lo, fp_hi);
    let ok = digits_ok && (ip_hi - ip_lo) + (fp_hi - fp_lo) >= 1;
    if ok {
        proof {
            assert(split_body(body) == Some((ip_spec, fp_spec)));
        }
        Some((neg0, ip_lo, ip_hi, fp_lo, fp_hi))
    } else {
        proof {
            assert(split_body(body) is None);
        }
        None
    }
}

/// Canonicalizes a chapter-number string.
#[verifier::rlimit(30)]
pub fn canon_key(s: &str) -> (k: ChapterKey)
    ensures
        k@ == canon(s@),
{
    let cs = chars_of(s);
    let scanned = scan_parts(&cs);
    match scanned {
        None => {
            let k = ChapterKey { neg: false, whole: Vec::new(), frac: Vec::new() };
            proof {
                assert(k@ =~= zero_key());
            }
            k
        },
        Some((neg0, ip_lo, ip_hi, fp_lo, fp_hi)) => {
            let ghost ip_spec: Seq<char> = cs@.subrange(ip_lo as int, ip_hi as int);
            let ghost fp_spec: Seq<char> = cs@.subrange(fp_lo as int, fp_hi as int);
            let lz = count_leading_zeros(&cs, ip_lo, ip_hi);
            let tz = count_trailing_zeros(&cs, fp_lo, fp_hi);
            proof {
                assert forall|j: int| 0 <= j < ip_spec.len() implies ip_spec[j] == cs@[ip_lo + j]
                by {}
                assert forall|j: int| 0 <= j < fp_spec.len() implies fp_spec[j] == cs@[fp_lo + j]
                by {}
                lemma_lead_zeros_unique(ip_spec, lz as int);
                lemma_trail_zeros_unique(fp_spec, tz as int);
            }
            let whole = copy_range(&cs, ip_lo + lz, ip_hi);
            let frac = copy_range(&cs, fp_lo, fp_hi - tz);
            proof {
                assert(ip_spec.skip(lz as int) =~= cs@.subrange(ip_lo + lz, ip_hi as int));
                assert(fp_spec.take(fp_spec.len() - tz) =~= cs@.subrange(
                    fp_lo as int,
                    fp_hi - tz,
                ));
            }
            if whole.len() == 0 && frac.len() == 0 {
                let k = ChapterKey { neg: false, whole, frac };
                proof {
                    assert(k@ =~= zero_key());
                }
                k
            } else {
                let k = ChapterKey { neg: neg0, whole, frac };
                proof {
                    assert(k@ =~= canon(s@));
                }
                k
            }
        },
    }
}

/// Skipping one equal head character on both sides keeps `lex_lt` unchanged.
proof fn lemma_lex_skip_step(a: Seq<char>, b: Seq<char>, i: int)
    requires
        0 <= i < a.len(),
        i < b.len(),
        a[i] == b[i],
    ensures
        lex_lt(a.skip(i), b.skip(i)) == lex_lt(a.skip(i + 1), b.skip(i + 1)),
{
    assert(a.skip(i).skip(1) =~= a.skip(i + 1));
    assert(b.skip(i).skip(1) =~= b.skip(i + 1));
    assert(a.skip(i)[0] == a[i]);
    assert(b.skip(i)[0] == b[i]);
}

/// Three-way lexicographic comparison of two digit strings.
fn lex_cmp(a: &Vec<char>, b: &Vec<char>) -> (r: Rel)
    ensures
        (r == Rel::Lt) == lex_lt(a@, b@),
        (r == Rel::Gt) == lex_lt(b@, a@),
        (r == Rel::Eq) == (a@ == b@),
{
    let n: usize = if a.len() < b.len() {
        a.len()
    } else {
        b.len()
    };
    proof {
        assert(a@.skip(0) =~= a@);
        assert(b@.skip(0) =~= b@);
    }
    let mut i: usize = 0;
    while i < n
        invariant
            n <= a@.len(),
            n <= b@.len(),
            n == a@.len() || n == b@.len(),
            i <= n,
            forall|j: int| 0 <= j < i ==> a@[j] == b@[j],
            lex_lt(a@, b@) == lex_lt(a@.skip(i as int), b@.skip(i as int)),
            lex_lt(b@, a@) == lex_lt(b@.skip(i as int), a@.skip(i as int)),
        decreases n - i,
    {
        let ca = a[i];
        let cb = b[i];
        if ca < cb {
            proof {
                assert(a@.skip(i as int)[0] == a@[i as int]);
                assert(b@.skip(i as int)[0] == b@[i as int]);
            }
            return Rel::Lt;
        }
        if cb < ca {
            proof {
                assert(a@.skip(i as int)[0] == a@[i as int]);
                assert(b@.skip(i as int)[0] == b@[i as int]);
            }
            return Rel::Gt;
        }
        proof {
            lemma_lex_skip_step(a@, b@, i as int);
            lemma_lex_skip_step(b@, a@, i as int);
        }
        i += 1;
    }
    if a.len() < b.len() {
        proof {
            assert(a@.skip(n as int).len() == 0);
            assert(b@.skip(n as int).len() > 0);
        }
        Rel::Lt
    } else if b.len() < a.len() {
        proof {
            assert(b@.skip(n as int).len() == 0);
            assert(a@.skip(n as int).len() > 0);
        }
        Rel::Gt
    } else {
        proof {
            assert(a@ =~= b@);
            assert(a@.skip(n as int).len() == 0);
        }
        Rel::Eq
    }
}

/// Three-way comparison of two canonical keys in numeric order.
pub fn key_cmp(x: &ChapterKey, y: &ChapterKey) -> (r: Rel)
    ensures
        (r == Rel::Lt) == key_lt(x@, y@),
        (r == Rel::Gt) == key_lt(y@, x@),
        (r == Rel::Eq) == (x@ == y@),
{
    proof {
        lemma_key_lt_trichotomy(x@, y@);
    }
    if x.neg != y.neg {
        if x.neg {
            Rel::Lt
        } else {
            Rel::Gt
        }
    } else {
        let mag: Rel = if x.whole.len() < y.whole.len() {
            Rel::Lt
        } else if y.whole.len() < x.whole.len() {
            Rel::Gt
        } else {
            let wc = lex_cmp(&x.whole, &y.whole);
            if wc == Rel::Eq {
                lex_cmp(&x.frac, &y.frac)
            } else {
                wc
            }
        };
        proof {
            if mag == Rel::Eq {
                assert(x@ =~= y@);
            }
        }
        if x.neg {
            match mag {
                Rel::Lt => Rel::Gt,
                Rel::Eq => Rel::Eq,
                Rel::Gt => Rel::Lt,
            }
        } else {
            mag
        }
    }
}

/// Three-way comparison of two chapter-number strings in numeric order.
pub fn chapter_cmp(a: &str, b: &str) -> (r: Rel)
    ensures
        (r == Rel::Lt) == key_lt(canon(a@), canon(b@)),
        (r == Rel::Gt) == key_lt(canon(b@), canon(a@)),
        (r == Rel::Eq) == (canon(a@) == canon(b@)),
        (r == Rel::Lt || r == Rel::Eq) == chapter_le(a@, b@),
{
    proof {
        lemma_key_lt_trichotomy(canon(a@), canon(b@));
    }
    let ka = canon_key(a);
    let kb = canon_key(b);
    key_cmp(&ka, &kb)
}

/// The chapters stand in ascending numeric order of their chapter numbers.
pub open spec fn chapters_sorted(s: Seq<Chapter>) -> bool {
    forall|i: int, j: int|
        0 <= i < j < s.len() ==> chapter_le(s[i].chapter_number@, s[j].chapter_number@)
}

/// First position in `[0, upto)` whose chapter sorts strictly after `key`,
/// or `upto` when none does.
fn insertion_point(v: &Vec<Chapter>, upto: usize, key: &ChapterKey) -> (p: usize)
    requires
        upto <= v@.len(),
    ensures
        p <= upto,
        forall|q: int| 0 <= q < p ==> !key_lt(key@, canon(v@[q].chapter_number@)),
        p < upto ==> key_lt(key@, canon(v@[p as int].chapter_number@)),
{
    let mut i: usize = 0;
    while i < upto
        invariant
            i <= upto <= v@.len(),
            forall|q: int| 0 <= q < i ==> !key_lt(key@, canon(v@[q].chapter_number@)),
        decreases upto - i,
    {
        let kc = canon_key(v[i].chapter_number.as_str());
        if key_cmp(key, &kc) == Rel::Lt {
            return i;
        }
        i += 1;
    }
    i
}

/// Sorts chapters ascending by the numeric value of their chapter numbers.
/// The result is a rearrangement of the input.
pub fn sort_chapters(chapters: Vec<Chapter>) -> (r: Vec<Chapter>)
    ensures
        chapters_sorted(r@),
        r@.to_multiset() == chapters@.to_multiset(),
        r@.len() == chapters@.len(),
{
    let mut v = chapters;
    if v.len() <= 1 {
        return v;
    }
    let mut i: usize = 1;
    while i < v.len()
        invariant
            1 <= i <= v@.len(),
            v@.len() == chapters@.len(),
            chapters_sorted(v@.subrange(0, i as int)),
            v@.to_multiset() == chapters@.to_multiset(),
        decreases v@.len() - i,
    {
        let ghost w0 = v@;
        let x = v.remove(i);
        let kx = canon_key(x.chapter_number.as_str());
        let p = insertion_point(&v, i, &kx);
        v.insert(p, x);
        proof {
            vstd::seq_lib::to_multiset_remove(w0, i as int);
            vstd::seq_lib::to_multiset_insert(w0.remove(i as int), p as int, x);
            vstd::seq_lib::to_multiset_contains(w0, x);
            assert(w0.contains(x)) by {
                assert(w0[i as int] == x);
            }
            assert(w0.to_multiset().remove(x).insert(x) =~= w0.to_multiset());
            let nv = v@;
            assert(nv.len() == w0.len());
            assert forall|q1: int, q2: int|
                0 <= q1 < q2 < i + 1 implies chapter_le(
                nv[q1].chapter_number@,
                nv[q2].chapter_number@,
            ) by {
                let a = nv[q1];
                let b = nv[q2];
                if q2 < p {
                    assert(a == w0[q1] && b == w0[q2]);
                } else if q1 < p && q2 == p {
                    assert(a == w0[q1] && b == x);
                    assert(!key_lt(canon(x.chapter_number@), canon(w0[q1].chapter_number@)));
                } else if q1 < p && q2 > p {
                    assert(a == w0[q1] && b == w0[q2 - 1]);
                    assert(chapter_le(a.chapter_number@, x.chapter_number@));
                    if p < i {
                        assert(chapter_le(x.chapter_number@, w0[p as int].chapter_number@)) by {
                            lemma_key_lt_trichotomy(
                                canon(x.chapter_number@),
                                canon(w0[p as int].chapter_number@),
                            );
                        }
                        if q2 - 1 > p {
                            lemma_chapter_le_trans(
                                x.chapter_number@,
                                w0[p as int].chapter_number@,
                                b.chapter_number@,
                            );
                        }
                        lemma_chapter_le_trans(
                            a.chapter_number@,
                            x.chapter_number@,
                            b.chapter_number@,
                        );
                    }
                } else if q1 == p {
                    assert(a == x && b == w0[q2 - 1]);
                    if p < i {
                        assert(chapter_le(x.chapter_number@, w0[p as int].chapter_number@)) by {
                            lemma_key_lt_trichotomy(
                                canon(x.chapter_number@),
                                canon(w0[p as int].chapter_number@),
                            );
                        }
                        if q2 - 1 > p {
                            lemma_chapter_le_trans(
                                x.chapter_number@,
                                w0[p as int].chapter_number@,
                                b.chapter_number@,
                            );
                        }
                    }
                } else {
                    assert(a == w0[q1 - 1] && b == w0[q2 - 1]);
                }
            }
            let sub = nv.subrange(0, i + 1);
            assert forall|q1: int, q2: int|
                0 <= q1 < q2 < sub.len() implies #[trigger] chapter_le(
                sub[q1].chapter_number@,
                sub[q2].chapter_number@,
            ) by {
                assert(sub[q1] == nv[q1]);
                assert(sub[q2] == nv[q2]);
            }
            assert(chapters_sorted(sub));
        }
        i += 1;
    }
    proof {
        assert(v@.subrange(0, v@.len() as int) =~= v@);
    }
    v
}

} // verus!
