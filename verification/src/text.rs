//! Character-level building blocks shared by the parsers: Unicode
//! whitespace, trimming, splitting and the integer syntax accepted by
//! `str::parse` / `from_str_radix`.
use vstd::prelude::*;

verus! {

/// Calls `String::push`, which appends one character to the string.
#[verifier::external_body]
pub fn push_char(s: &mut String, c: char)
    ensures
        final(s)@ == old(s)@.push(c),
{
    s.push(c)
}

/// The characters of `s`, in order.
pub fn chars_of(s: &str) -> (v: Vec<char>)
    ensures
        v@ == s@,
{
    broadcast use vstd::string::group_string_axioms;

    let mut v: Vec<char> = Vec::new();
    for c in it: s.chars()
        invariant
            v@ == it.seq().take(it.index() as int),
    {
        v.push(c);
    }
    v
}

/// Every character is ASCII.
pub open spec fn is_ascii_text(s: Seq<char>) -> bool {
    forall|i: int| 0 <= i < s.len() ==> (#[trigger] (s[i] as u32)) < 0x80
}

/// The ASCII lowercase of one character (`A`-`Z` become `a`-`z`).
pub open spec fn ascii_lower(c: char) -> char {
    if 0x41 <= (c as u32) <= 0x5A {
        ((c as u32) + 32) as char
    } else {
        c
    }
}

/// The ASCII lowercase of a text.
pub open spec fn ascii_lowercase(s: Seq<char>) -> Seq<char> {
    s.map_values(|c: char| ascii_lower(c))
}

// ---------------------------------------------------------------------------
// Whitespace and trimming
// ---------------------------------------------------------------------------

/// The Unicode `White_Space` property, as used by `char::is_whitespace`.
pub open spec fn is_ws(c: char) -> bool {
    let u = c as u32;
    ||| 0x09 <= u <= 0x0D
    ||| u == 0x20
    ||| u == 0x85
    ||| u == 0xA0
    ||| u == 0x1680
    ||| 0x2000 <= u <= 0x200A
    ||| u == 0x2028
    ||| u == 0x2029
    ||| u == 0x202F
    ||| u == 0x205F
    ||| u == 0x3000
}

/// `s` without its leading whitespace.
pub open spec fn trim_start(s: Seq<char>) -> Seq<char>
    decreases s.len(),
{
    if s.len() > 0 && is_ws(s[0]) {
        trim_start(s.drop_first())
    } else {
        s
    }
}

/// `s` without its trailing whitespace.
pub open spec fn trim_end(s: Seq<char>) -> Seq<char>
    decreases s.len(),
{
    if s.len() > 0 && is_ws(s.last()) {
        trim_end(s.drop_last())
    } else {
        s
    }
}

/// `str::trim`: `s` without leading and trailing whitespace.
pub open spec fn trim(s: Seq<char>) -> Seq<char> {
    trim_end(trim_start(s))
}

pub fn is_whitespace(c: char) -> (b: bool)
    ensures
        b == is_ws(c),
{
    let u = c as u32;
    (0x09 <= u && u <= 0x0D) || u == 0x20 || u == 0x85 || u == 0xA0 || u == 0x1680 || (0x2000
        <= u && u <= 0x200A) || u == 0x2028 || u == 0x2029 || u == 0x202F || u == 0x205F || u
        == 0x3000
}

/// Bounds `(a, b)` such that `s[a..b]` is `trim(s[lo..hi])`.
pub fn trim_bounds(s: &Vec<char>, lo: usize, hi: usize) -> (r: (usize, usize))
    requires
        lo <= hi <= s.len(),
    ensures
        lo <= r.0 <= r.1 <= hi,
        s@.subrange(r.0 as int, r.1 as int) == trim(s@.subrange(lo as int, hi as int)),
{
    let mut a = lo;
    while a < hi && is_whitespace(s[a])
        invariant
            lo <= a <= hi <= s.len(),
            trim_start(s@.subrange(lo as int, hi as int)) == trim_start(
                s@.subrange(a as int, hi as int),
            ),
        decreases hi - a,
    {
        assert(s@.subrange(a as int, hi as int).drop_first() =~= s@.subrange(
            a + 1,
            hi as int,
        ));
        a = a + 1;
    }
    let ghost t = s@.subrange(a as int, hi as int);
    assert(trim_start(t) == t);
    let mut b = hi;
    while b > a && is_whitespace(s[b - 1])
        invariant
            lo <= a <= b <= hi <= s.len(),
            trim_end(t) == trim_end(s@.subrange(a as int, b as int)),
            t == s@.subrange(a as int, hi as int),
        decreases b - a,
    {
        assert(s@.subrange(a as int, b as int).drop_last() =~= s@.subrange(
            a as int,
            b - 1,
        ));
        b = b - 1;
    }
    (a, b)
}

// ---------------------------------------------------------------------------
// Searching and splitting
// ---------------------------------------------------------------------------

/// Index of the first occurrence of `c` in `s`, if any.
pub open spec fn find(s: Seq<char>, c: char) -> Option<nat>
    decreases s.len(),
{
    if s.len() == 0 {
        None
    } else if s[0] == c {
        Some(0)
    } else {
        match find(s.drop_first(), c) {
            Some(i) => Some(i + 1),
            None => None,
        }
    }
}

pub proof fn lemma_find_properties(s: Seq<char>, c: char)
    ensures
        match find(s, c) {
            Some(i) => i < s.len() && s[i as int] == c && forall|j: int|
                0 <= j < i ==> s[j] != c,
            None => forall|j: int| 0 <= j < s.len() ==> s[j] != c,
        },
    decreases s.len(),
{
    if s.len() > 0 {
        lemma_find_properties(s.drop_first(), c);
        if s[0] != c {
            assert forall|j: int| 1 <= j < s.len() implies s[j] == s.drop_first()[j - 1] by {}
        }
    }
}

/// `find` is characterised by its properties.
pub proof fn lemma_find_unique(s: Seq<char>, c: char, i: int)
    requires
        0 <= i <= s.len(),
        forall|j: int| 0 <= j < i ==> s[j] != c,
        i < s.len() ==> s[i] == c,
    ensures
        find(s, c) == (if i < s.len() {
            Some(i as nat)
        } else {
            None::<nat>
        }),
{
    lemma_find_properties(s, c);
    match find(s, c) {
        Some(k) => {
            if i < k {
                assert(s[i] != c);
            }
        },
        None => {},
    }
}

/// Position of the first `c` in `s[lo..hi]`, counted from `lo`, or `hi` when absent.
pub fn find_char(s: &Vec<char>, lo: usize, hi: usize, c: char) -> (r: usize)
    requires
        lo <= hi <= s.len(),
    ensures
        lo <= r <= hi,
        find(s@.subrange(lo as int, hi as int), c) == (if r < hi {
            Some((r - lo) as nat)
        } else {
            None::<nat>
        }),
{
    let mut i = lo;
    while i < hi && s[i] != c
        invariant
            lo <= i <= hi <= s.len(),
            forall|j: int| lo <= j < i ==> s@[j] != c,
        decreases hi - i,
    {
        i = i + 1;
    }
    proof {
        lemma_find_unique(s@.subrange(lo as int, hi as int), c, i - lo);
    }
    i
}

// ---------------------------------------------------------------------------
// Integer syntax (`from_str_radix` / `str::parse`)
// ---------------------------------------------------------------------------

/// Value of a digit in the given radix (`0-9`, then letters of either case).
pub open spec fn digit_value(c: char, radix: nat) -> Option<nat> {
    let u = c as u32;
    let v: int = if 0x30 <= u <= 0x39 {
        u - 0x30
    } else if 0x61 <= u <= 0x7A {
        u - 0x61 + 10
    } else if 0x41 <= u <= 0x5A {
        u - 0x41 + 10
    } else {
        radix as int
    };
    if v < radix {
        Some(v as nat)
    } else {
        None
    }
}

pub open spec fn all_digits(s: Seq<char>, radix: nat) -> bool {
    forall|i: int| 0 <= i < s.len() ==> (#[trigger] digit_value(s[i], radix)) is Some
}

/// Big-endian value of a digit string.
pub open spec fn digits_value(s: Seq<char>, radix: nat) -> nat
    decreases s.len(),
{
    if s.len() == 0 {
        0
    } else {
        digits_value(s.drop_last(), radix) * radix + match digit_value(s.last(), radix) {
            Some(d) => d,
            None => 0,
        }
    }
}

/// Decimal digits of `n`.
pub open spec fn decimal(n: nat) -> Seq<char>
    decreases n,
{
    if n < 10 {
        seq![((n + 0x30) as u32) as char]
    } else {
        decimal(n / 10) + seq![(((n % 10) + 0x30) as u32) as char]
    }
}

/// The decimal digits of a number read back as that number.
pub proof fn lemma_decimal_digits(n: nat)
    ensures
        decimal(n).len() > 0,
        all_digits(decimal(n), 10),
        digits_value(decimal(n), 10) == n,
        forall|i: int| 0 <= i < decimal(n).len() ==> 0x30 <= #[trigger] (decimal(n)[i] as u32) <= 0x39,
    decreases n,
{
    if n >= 10 {
        lemma_decimal_digits(n / 10);
        let d = decimal(n);
        let last = (((n % 10) + 0x30) as u32) as char;
        assert(d.drop_last() =~= decimal(n / 10));
        assert(d.last() == last);
        assert((last as u32) == (n % 10) + 0x30);
        assert(digit_value(last, 10) == Some((n % 10) as nat));
        assert(digits_value(d, 10) == digits_value(decimal(n / 10), 10) * 10 + n % 10);
        assert(n == (n / 10) * 10 + n % 10);
        assert forall|i: int| 0 <= i < d.len() implies 0x30 <= #[trigger] (d[i] as u32) <= 0x39 by {
            if i < d.len() - 1 {
                assert(d[i] == decimal(n / 10)[i]);
            }
        }
        assert forall|i: int| 0 <= i < d.len() implies (#[trigger] digit_value(d[i], 10)) is Some by {
            assert(0x30 <= (d[i] as u32) <= 0x39);
        }
    } else {
        let d = decimal(n);
        let c = ((n + 0x30) as u32) as char;
        assert(d[0] == c);
        assert((c as u32) == n + 0x30);
        assert(digit_value(c, 10) == Some(n));
        assert(d.drop_last() =~= Seq::<char>::empty());
        assert(digits_value(d, 10) == digits_value(d.drop_last(), 10) * 10 + n);
    }
}

/// `str::parse::<u16>` reads back the decimal digits of a `u16`.
pub proof fn lemma_parse_u16_decimal(n: u16)
    ensures
        parse_u16(decimal(n as nat)) == Some(n),
{
    lemma_decimal_digits(n as nat);
    let d = decimal(n as nat);
    assert(0x30 <= (d[0] as u32) <= 0x39);
}

/// A character that is not a digit does not occur in decimal digits.
pub proof fn lemma_decimal_lacks(n: nat, c: char)
    requires
        !(0x30 <= (c as u32) <= 0x39),
    ensures
        find(decimal(n), c) is None,
{
    lemma_decimal_digits(n);
    lemma_find_properties(decimal(n), c);
    if find(decimal(n), c) is Some {
        let i = find(decimal(n), c)->0 as int;
        assert(0x30 <= (decimal(n)[i] as u32) <= 0x39);
    }
}

/// `from_str_radix` for an unsigned type whose largest value is `max`:
/// an optional `+` followed by at least one digit, with a value that fits.
pub open spec fn parse_unsigned(s: Seq<char>, radix: nat, max: nat) -> Option<nat> {
    let digits = if s.len() > 0 && s[0] == '+' {
        s.drop_first()
    } else {
        s
    };
    if s.len() == 0 || (s.len() == 1 && (s[0] == '+' || s[0] == '-')) {
        None
    } else if all_digits(digits, radix) && digits_value(digits, radix) <= max {
        Some(digits_value(digits, radix))
    } else {
        None
    }
}

/// `from_str_radix` for a signed type with range `[min, max]`: an optional sign
/// followed by at least one digit, with a value that fits.
pub open spec fn parse_signed(s: Seq<char>, radix: nat, min: int, max: int) -> Option<int> {
    if s.len() == 0 || (s.len() == 1 && (s[0] == '+' || s[0] == '-')) {
        None
    } else if s[0] == '-' {
        let digits = s.drop_first();
        if all_digits(digits, radix) && -digits_value(digits, radix) >= min {
            Some(-digits_value(digits, radix))
        } else {
            None
        }
    } else {
        let digits = if s[0] == '+' {
            s.drop_first()
        } else {
            s
        };
        if all_digits(digits, radix) && digits_value(digits, radix) <= max {
            Some(digits_value(digits, radix) as int)
        } else {
            None
        }
    }
}

/// `str::parse::<u16>`.
pub open spec fn parse_u16(s: Seq<char>) -> Option<u16> {
    match parse_unsigned(s, 10, u16::MAX as nat) {
        Some(v) => Some(v as u16),
        None => None,
    }
}

/// `str::parse::<i64>`.
pub open spec fn parse_i64(s: Seq<char>) -> Option<i64> {
    match parse_signed(s, 10, i64::MIN as int, i64::MAX as int) {
        Some(v) => Some(v as i64),
        None => None,
    }
}

/// `usize::from_str_radix(s, 16)`.
pub open spec fn parse_hex_usize(s: Seq<char>) -> Option<usize> {
    match parse_unsigned(s, 16, usize::MAX as nat) {
        Some(v) => Some(v as usize),
        None => None,
    }
}

pub fn digit_of(c: char, radix: u32) -> (r: Option<u32>)
    requires
        2 <= radix <= 36,
    ensures
        match digit_value(c, radix as nat) {
            Some(d) => r == Some(d as u32),
            None => r is None,
        },
{
    let u = c as u32;
    let v: u32 = if 0x30 <= u && u <= 0x39 {
        u - 0x30
    } else if 0x61 <= u && u <= 0x7A {
        u - 0x61 + 10
    } else if 0x41 <= u && u <= 0x5A {
        u - 0x41 + 10
    } else {
        radix
    };
    if v < radix {
        Some(v)
    } else {
        None
    }
}

proof fn lemma_digits_value_step(s: Seq<char>, i: int, radix: nat)
    requires
        0 <= i < s.len(),
    ensures
        digits_value(s.take(i + 1), radix) == digits_value(s.take(i), radix) * radix + match
        digit_value(s[i], radix) {
            Some(d) => d,
            None => 0,
        },
{
    assert(s.take(i + 1).drop_last() =~= s.take(i));
}

/// The value of a digit string is at least the value of any of its prefixes.
proof fn lemma_digits_value_prefix(s: Seq<char>, i: int, radix: nat)
    requires
        0 <= i <= s.len(),
        radix >= 1,
    ensures
        digits_value(s.take(i), radix) <= digits_value(s, radix),
    decreases s.len() - i,
{
    if i < s.len() {
        lemma_digits_value_step(s, i, radix);
        lemma_digits_value_prefix(s, i + 1, radix);
        assert(digits_value(s.take(i), radix) <= digits_value(s.take(i), radix) * radix)
            by (nonlinear_arith)
            requires
                radix >= 1,
        ;
    } else {
        assert(s.take(i) =~= s);
    }
}

/// Accumulates the digits of `s[lo..hi]`; `None` when a character is not a
/// digit or the value exceeds `max`.
fn digits_upto(s: &Vec<char>, lo: usize, hi: usize, radix: u32, max: u64) -> (r: Option<u64>)
    requires
        lo <= hi <= s.len(),
        2 <= radix <= 36,
    ensures
        ({
            let d = s@.subrange(lo as int, hi as int);
            match r {
                Some(v) => all_digits(d, radix as nat) && digits_value(d, radix as nat) == v
                    && v <= max,
                None => !all_digits(d, radix as nat) || digits_value(d, radix as nat) > max,
            }
        }),
{
    let ghost d = s@.subrange(lo as int, hi as int);
    let mut acc: u64 = 0;
    let mut i = lo;
    assert(d.take(0) =~= Seq::<char>::empty());
    while i < hi
        invariant
            lo <= i <= hi <= s.len(),
            2 <= radix <= 36,
            d == s@.subrange(lo as int, hi as int),
            all_digits(d.take(i - lo), radix as nat),
            acc == digits_value(d.take(i - lo), radix as nat),
            acc <= max,
        decreases hi - i,
    {
        proof {
            lemma_digits_value_step(d, i - lo, radix as nat);
        }
        match digit_of(s[i], radix) {
            None => {
                assert(digit_value(d[i - lo], radix as nat) is None);
                return None;
            },
            Some(dv) => {
                if dv as u64 > max {
                    proof {
                        lemma_digits_value_prefix(d, i - lo + 1, radix as nat);
                        assert(acc * radix + dv >= dv) by (nonlinear_arith)
                            requires
                                radix >= 2,
                        ;
                    }
                    return None;
                }
                if acc > (max - dv as u64) / (radix as u64) {
                    proof {
                        assert(acc * radix + dv > max) by (nonlinear_arith)
                            requires
                                acc > (max - dv) / (radix as int),
                                radix >= 2,
                                dv <= max,
                        ;
                        lemma_digits_value_prefix(d, i - lo + 1, radix as nat);
                    }
                    return None;
                }
                proof {
                    assert(acc * radix + dv <= max) by (nonlinear_arith)
                        requires
                            acc <= (max - dv) / (radix as int),
                            radix >= 2,
                            dv <= max,
                    ;
                    assert forall|k: int| 0 <= k < i - lo + 1 implies (#[trigger] digit_value(
                        d.take(i - lo + 1)[k],
                        radix as nat,
                    )) is Some by {
                        if k < i - lo {
                            assert(d.take(i - lo + 1)[k] == d.take(i - lo)[k]);
                        }
                    }
                }
                acc = acc * (radix as u64) + dv as u64;
                i = i + 1;
            },
        }
    }
    assert(d.take(hi - lo) =~= d);
    Some(acc)
}

/// `from_str_radix` for an unsigned type whose largest value is `max`, on `s[lo..hi]`.
pub fn parse_unsigned_in(s: &Vec<char>, lo: usize, hi: usize, radix: u32, max: u64) -> (r: Option<
    u64,
>)
    requires
        lo <= hi <= s.len(),
        2 <= radix <= 36,
    ensures
        match parse_unsigned(s@.subrange(lo as int, hi as int), radix as nat, max as nat) {
            Some(v) => r == Some(v as u64),
            None => r is None,
        },
{
    let ghost t = s@.subrange(lo as int, hi as int);
    if lo == hi {
        return None;
    }
    if hi - lo == 1 && (s[lo] == '+' || s[lo] == '-') {
        return None;
    }
    let start = if s[lo] == '+' {
        lo + 1
    } else {
        lo
    };
    assert(s@.subrange(start as int, hi as int) =~= (if t[0] == '+' {
        t.drop_first()
    } else {
        t
    }));
    digits_upto(s, start, hi, radix, max)
}

/// `str::parse::<u16>` on `s[lo..hi]`.
pub fn parse_u16_in(s: &Vec<char>, lo: usize, hi: usize) -> (r: Option<u16>)
    requires
        lo <= hi <= s.len(),
    ensures
        r == parse_u16(s@.subrange(lo as int, hi as int)),
{
    match parse_unsigned_in(s, lo, hi, 10, 0xFFFF) {
        Some(v) => Some(v as u16),
        None => None,
    }
}

/// `usize::from_str_radix(_, 16)` on `s[lo..hi]`.
pub fn parse_hex_usize_in(s: &Vec<char>, lo: usize, hi: usize) -> (r: Option<usize>)
    requires
        lo <= hi <= s.len(),
    ensures
        r == parse_hex_usize(s@.subrange(lo as int, hi as int)),
{
    match parse_unsigned_in(s, lo, hi, 16, usize::MAX as u64) {
        Some(v) => Some(v as usize),
        None => None,
    }
}

/// `str::parse::<i64>` on `s[lo..hi]`.
pub fn parse_i64_in(s: &Vec<char>, lo: usize, hi: usize) -> (r: Option<i64>)
    requires
        lo <= hi <= s.len(),
    ensures
        r == parse_i64(s@.subrange(lo as int, hi as int)),
{
    let ghost t = s@.subrange(lo as int, hi as int);
    if lo == hi {
        return None;
    }
    if hi - lo == 1 && (s[lo] == '+' || s[lo] == '-') {
        return None;
    }
    if s[lo] == '-' {
        assert(s@.subrange(lo + 1, hi as int) =~= t.drop_first());
        match digits_upto(s, lo + 1, hi, 10, 0x8000_0000_0000_0000) {
            Some(m) => {
                if m == 0x8000_0000_0000_0000 {
                    Some(i64::MIN)
                } else {
                    Some(-(m as i64))
                }
            },
            None => None,
        }
    } else {
        let start = if s[lo] == '+' {
            lo + 1
        } else {
            lo
        };
        assert(s@.subrange(start as int, hi as int) =~= (if t[0] == '+' {
            t.drop_first()
        } else {
            t
        }));
        match digits_upto(s, start, hi, 10, 0x7FFF_FFFF_FFFF_FFFF) {
            Some(m) => Some(m as i64),
            None => None,
        }
    }
}

} // verus!
