//! Text helpers: decimal and hexadecimal rendering, whitespace trimming,
//! splitting and integer parsing, each with a specification over `Seq<char>`.
use vstd::prelude::*;
use vstd::string::StringExecFns;
use vstd::arithmetic::power::{pow, lemma_pow_positive, lemma_pow_adds, lemma_pow1, lemma_pow0};

verus! {

/// `String::push` appends one character to the end of the string; vstd
/// gives it no specification, so the documented behaviour is stated here.
pub assume_specification[ String::push ](s: &mut String, ch: char)
    ensures
        final(s)@ == old(s)@.push(ch),
;

// ---------------------------------------------------------------------------
// Rendering
// ---------------------------------------------------------------------------
/// The character that writes digit `d` (0..=15), upper-case for 10..=15.
pub open spec fn digit_char(d: nat) -> char {
    if d == 0 {
        '0'
    } else if d == 1 {
        '1'
    } else if d == 2 {
        '2'
    } else if d == 3 {
        '3'
    } else if d == 4 {
        '4'
    } else if d == 5 {
        '5'
    } else if d == 6 {
        '6'
    } else if d == 7 {
        '7'
    } else if d == 8 {
        '8'
    } else if d == 9 {
        '9'
    } else if d == 10 {
        'A'
    } else if d == 11 {
        'B'
    } else if d == 12 {
        'C'
    } else if d == 13 {
        'D'
    } else if d == 14 {
        'E'
    } else {
        'F'
    }
}

/// Decimal rendering of `n`, without leading zeros.
pub open spec fn dec(n: nat) -> Seq<char>
    decreases n,
{
    if n < 10 {
        seq![digit_char(n)]
    } else {
        dec(n / 10).push(digit_char(n % 10))
    }
}

/// Upper-case hexadecimal rendering of `n`, without leading zeros.
pub open spec fn hex(n: nat) -> Seq<char>
    decreases n,
{
    if n < 16 {
        seq![digit_char(n)]
    } else {
        hex(n / 16).push(digit_char(n % 16))
    }
}

/// `k` zero characters.
pub open spec fn zeros(k: nat) -> Seq<char> {
    Seq::new(k, |i: int| '0')
}

/// `s` left-padded with zeros to at least `width` characters.
pub open spec fn zero_pad(s: Seq<char>, width: nat) -> Seq<char> {
    if s.len() < width {
        zeros((width - s.len()) as nat) + s
    } else {
        s
    }
}

/// Decimal rendering of a signed value (`-` before the digits of a negative value).
pub open spec fn signed_dec(n: int) -> Seq<char> {
    if n < 0 {
        seq!['-'] + dec((-n) as nat)
    } else {
        dec(n as nat)
    }
}

/// Sign-aware zero padding to `width` characters, the sign counting in the width.
pub open spec fn signed_pad_dec(n: int, width: nat) -> Seq<char> {
    if n < 0 {
        seq!['-'] + zero_pad(dec((-n) as nat), (width - 1) as nat)
    } else {
        zero_pad(dec(n as nat), width)
    }
}

fn digit(d: u64) -> (c: char)
    requires
        d < 16,
    ensures
        c == digit_char(d as nat),
{
    match d {
        0 => '0',
        1 => '1',
        2 => '2',
        3 => '3',
        4 => '4',
        5 => '5',
        6 => '6',
        7 => '7',
        8 => '8',
        9 => '9',
        10 => 'A',
        11 => 'B',
        12 => 'C',
        13 => 'D',
        14 => 'E',
        _ => 'F',
    }
}

/// Appends `t` to `s`.
pub fn push_str(s: &mut String, t: &str)
    ensures
        final(s)@ == old(s)@ + t@,
{
    s.append(t);
}

/// Appends the decimal digits of `n`.
pub fn push_dec(s: &mut String, n: u64)
    ensures
        final(s)@ == old(s)@ + dec(n as nat),
    decreases n,
{
    let ghost start = s@;
    if n >= 10 {
        push_dec(s, n / 10);
    }
    s.push(digit(n % 10));
    proof {
        if n >= 10 {
            assert(s@ =~= start + dec(n as nat));
        } else {
            assert(s@ =~= start + dec(n as nat));
        }
    }
}

/// Appends the upper-case hexadecimal digits of `n`.
pub fn push_hex(s: &mut String, n: u64)
    ensures
        final(s)@ == old(s)@ + hex(n as nat),
    decreases n,
{
    let ghost start = s@;
    if n >= 16 {
        push_hex(s, n / 16);
    }
    s.push(digit(n % 16));
    proof {
        assert(s@ =~= start + hex(n as nat));
    }
}

fn dec_len(n: u64) -> (r: usize)
    ensures
        r as nat == dec(n as nat).len(),
        r <= 20,
    decreases n,
{
    proof {
        lemma_dec_len(n as nat, 20);
        reveal_with_fuel(pow, 21);
        assert(pow(10, 20) == 100_000_000_000_000_000_000);
    }
    if n >= 10 {
        let k = dec_len(n / 10);
        k + 1
    } else {
        1
    }
}

/// A number below 10^k has at most k decimal digits.
proof fn lemma_dec_len(n: nat, k: nat)
    ensures
        k >= 1 && n < pow(10, k) ==> dec(n).len() <= k,
        dec(n).len() >= 1,
    decreases n,
{
    lemma_pow_positive(10, (k - 1) as nat);
    if n >= 10 {
        lemma_dec_len(n / 10, (k - 1) as nat);
        if k >= 1 && n < pow(10, k) {
            lemma_pow_adds(10, 1, (k - 1) as nat);
            lemma_pow1(10);
            assert(n / 10 < pow(10, (k - 1) as nat)) by (nonlinear_arith)
                requires
                    n < pow(10, k),
                    pow(10, k) == 10 * pow(10, (k - 1) as nat),
            ;
            if k == 1 {
                lemma_pow0(10);
            }
        }
    }
}

fn hex_len(n: u64) -> (r: usize)
    ensures
        r as nat == hex(n as nat).len(),
        r <= 16,
    decreases n,
{
    proof {
        lemma_hex_len(n as nat, 16);
        reveal_with_fuel(pow, 17);
        assert(pow(16, 16) == 0x1_0000_0000_0000_0000);
    }
    if n >= 16 {
        let k = hex_len(n / 16);
        k + 1
    } else {
        1
    }
}

/// A number below 16^k has at most k hexadecimal digits.
proof fn lemma_hex_len(n: nat, k: nat)
    ensures
        k >= 1 && n < pow(16, k) ==> hex(n).len() <= k,
        hex(n).len() >= 1,
    decreases n,
{
    lemma_pow_positive(16, (k - 1) as nat);
    if n >= 16 {
        lemma_hex_len(n / 16, (k - 1) as nat);
        if k >= 1 && n < pow(16, k) {
            lemma_pow_adds(16, 1, (k - 1) as nat);
            lemma_pow1(16);
            assert(n / 16 < pow(16, (k - 1) as nat)) by (nonlinear_arith)
                requires
                    n < pow(16, k),
                    pow(16, k) == 16 * pow(16, (k - 1) as nat),
            ;
            if k == 1 {
                lemma_pow0(16);
            }
        }
    }
}

/// Appends `n` in decimal, left-padded with zeros to `width` characters.
pub fn push_pad_dec(s: &mut String, n: u64, width: usize)
    ensures
        final(s)@ == old(s)@ + zero_pad(dec(n as nat), width as nat),
{
    let ghost start = s@;
    let len = dec_len(n);
    if len < width {
        let k = width - len;
        let mut i: usize = 0;
        while i < k
            invariant
                i <= k,
                s@ == start + zeros(i as nat),
            decreases k - i,
        {
            s.push('0');
            i = i + 1;
            assert(s@ =~= start + zeros(i as nat));
        }
    }
    let ghost mid = s@;
    push_dec(s, n);
    assert(s@ =~= start + zero_pad(dec(n as nat), width as nat));
}

/// Appends `n` in upper-case hexadecimal, left-padded with zeros to `width` characters.
pub fn push_pad_hex(s: &mut String, n: u64, width: usize)
    ensures
        final(s)@ == old(s)@ + zero_pad(hex(n as nat), width as nat),
{
    let ghost start = s@;
    let len = hex_len(n);
    if len < width {
        let k = width - len;
        let mut i: usize = 0;
        while i < k
            invariant
                i <= k,
                s@ == start + zeros(i as nat),
            decreases k - i,
        {
            s.push('0');
            i = i + 1;
            assert(s@ =~= start + zeros(i as nat));
        }
    }
    push_hex(s, n);
    assert(s@ =~= start + zero_pad(hex(n as nat), width as nat));
}

/// The magnitude of `n`.
fn magnitude(n: i64) -> (m: u64)
    ensures
        m as int == if n < 0 {
            -n
        } else {
            n as int
        },
{
    if n < 0 {
        let wide: i128 = n as i128;
        (-wide) as u64
    } else {
        n as u64
    }
}

/// Appends the signed decimal rendering of `n`.
pub fn push_signed_dec(s: &mut String, n: i64)
    ensures
        final(s)@ == old(s)@ + signed_dec(n as int),
{
    let ghost start = s@;
    if n < 0 {
        s.push('-');
    }
    push_dec(s, magnitude(n));
    assert(s@ =~= start + signed_dec(n as int));
}

/// Appends `n` with sign-aware zero padding to `width` characters.
pub fn push_signed_pad_dec(s: &mut String, n: i64, width: usize)
    requires
        width >= 1,
    ensures
        final(s)@ == old(s)@ + signed_pad_dec(n as int, width as nat),
{
    let ghost start = s@;
    if n < 0 {
        s.push('-');
        push_pad_dec(s, magnitude(n), width - 1);
    } else {
        push_pad_dec(s, magnitude(n), width);
    }
    assert(s@ =~= start + signed_pad_dec(n as int, width as nat));
}

// ---------------------------------------------------------------------------
// Scanning
// ---------------------------------------------------------------------------
/// Unicode `White_Space`, the property behind `char::is_whitespace`.
pub open spec fn is_ws(c: char) -> bool {
    let u = c as u32;
    (0x09 <= u && u <= 0x0D) || u == 0x20 || u == 0x85 || u == 0xA0 || u == 0x1680 || (0x2000
        <= u && u <= 0x200A) || u == 0x2028 || u == 0x2029 || u == 0x202F || u == 0x205F || u
        == 0x3000
}

pub fn is_whitespace(c: char) -> (r: bool)
    ensures
        r == is_ws(c),
{
    let u = c as u32;
    (0x09 <= u && u <= 0x0D) || u == 0x20 || u == 0x85 || u == 0xA0 || u == 0x1680 || (0x2000
        <= u && u <= 0x200A) || u == 0x2028 || u == 0x2029 || u == 0x202F || u == 0x205F || u
        == 0x3000
}

/// `s` without leading whitespace.
pub open spec fn trim_start(s: Seq<char>) -> Seq<char>
    decreases s.len(),
{
    if s.len() > 0 && is_ws(s[0]) {
        trim_start(s.drop_first())
    } else {
        s
    }
}

/// `s` without trailing whitespace.
pub open spec fn trim_end(s: Seq<char>) -> Seq<char>
    decreases s.len(),
{
    if s.len() > 0 && is_ws(s.last()) {
        trim_end(s.drop_last())
    } else {
        s
    }
}

/// `s` without leading and trailing whitespace (`str::trim`).
pub open spec fn trim(s: Seq<char>) -> Seq<char> {
    trim_end(trim_start(s))
}

/// Bounds of the trimmed part of `v[lo..hi]`.
pub fn trim_bounds(v: &Vec<char>, lo: usize, hi: usize) -> (r: (usize, usize))
    requires
        lo <= hi <= v@.len(),
    ensures
        lo <= r.0 <= r.1 <= hi,
        v@.subrange(r.0 as int, r.1 as int) == trim(v@.subrange(lo as int, hi as int)),
{
    let mut a = lo;
    while a < hi && is_whitespace(v[a])
        invariant
            lo <= a <= hi <= v@.len(),
            trim_start(v@.subrange(lo as int, hi as int)) == trim_start(
                v@.subrange(a as int, hi as int),
            ),
        decreases hi - a,
    {
        assert(v@.subrange(a as int, hi as int).drop_first() =~= v@.subrange(
            a + 1,
            hi as int,
        ));
        a = a + 1;
    }
    assert(trim_start(v@.subrange(a as int, hi as int)) == v@.subrange(a as int, hi as int));
    let mut b = hi;
    while b > a && is_whitespace(v[b - 1])
        invariant
            lo <= a <= b <= hi <= v@.len(),
            trim_end(v@.subrange(a as int, hi as int)) == trim_end(v@.subrange(a as int, b as int)),
        decreases b - a,
    {
        assert(v@.subrange(a as int, b as int).drop_last() =~= v@.subrange(a as int, b - 1));
        b = b - 1;
    }
    (a, b)
}

/// `str::split` by one character: the pieces between separators, in order.
pub open spec fn split(s: Seq<char>, sep: char) -> Seq<Seq<char>>
    decreases s.len(),
{
    if s.len() == 0 {
        seq![Seq::<char>::empty()]
    } else {
        let rest = split(s.drop_last(), sep);
        if s.last() == sep {
            rest.push(Seq::<char>::empty())
        } else {
            rest.update(rest.len() - 1, rest.last().push(s.last()))
        }
    }
}

pub proof fn lemma_split_nonempty(s: Seq<char>, sep: char)
    ensures
        split(s, sep).len() >= 1,
    decreases s.len(),
{
    if s.len() > 0 {
        lemma_split_nonempty(s.drop_last(), sep);
    }
}

/// Scanning `s` left to right: the pieces of a prefix that ends in a
/// separator are the pieces before it followed by an empty piece, and a
/// non-separator character extends the last piece.
pub proof fn lemma_split_step(s: Seq<char>, i: int, sep: char)
    requires
        0 <= i < s.len(),
    ensures
        split(s.subrange(0, i + 1), sep) == if s[i] == sep {
            split(s.subrange(0, i), sep).push(Seq::<char>::empty())
        } else {
            split(s.subrange(0, i), sep).update(
                split(s.subrange(0, i), sep).len() - 1,
                split(s.subrange(0, i), sep).last().push(s[i]),
            )
        },
        split(s.subrange(0, i + 1), sep).len() >= 1,
{
    assert(s.subrange(0, i + 1).drop_last() =~= s.subrange(0, i));
    lemma_split_nonempty(s.subrange(0, i + 1), sep);
}

/// When `v[start..i]` holds no separator, it is the last piece of `v[0..i]`.
pub proof fn lemma_split_last_piece(s: Seq<char>, start: int, i: int, sep: char)
    requires
        0 <= start <= i <= s.len(),
        start == 0 || s[start - 1] == sep,
        forall|k: int| start <= k < i ==> s[k] != sep,
    ensures
        split(s.subrange(0, i), sep).last() == s.subrange(start, i),
        split(s.subrange(0, i), sep).len() >= 1,
    decreases i - start,
{
    lemma_split_nonempty(s.subrange(0, i), sep);
    if i == start {
        if start == 0 {
            assert(s.subrange(0, 0) =~= Seq::<char>::empty());
        } else {
            lemma_split_step(s, start - 1, sep);
            assert(s.subrange(start, start) =~= Seq::<char>::empty());
        }
    } else {
        lemma_split_last_piece(s, start, i - 1, sep);
        lemma_split_step(s, i - 1, sep);
        assert(s.subrange(start, i - 1).push(s[i - 1]) =~= s.subrange(start, i));
    }
}

// ---------------------------------------------------------------------------
// Integer parsing (`str::parse`)
// ---------------------------------------------------------------------------
pub open spec fn is_digit(c: char) -> bool {
    '0' <= c && c <= '9'
}

pub open spec fn digit_value(c: char) -> nat {
    (c as int - '0' as int) as nat
}

pub open spec fn all_digits(s: Seq<char>) -> bool {
    forall|i: int| 0 <= i < s.len() ==> is_digit(#[trigger] s[i])
}

/// The value of a run of decimal digits.
pub open spec fn digits_value(s: Seq<char>) -> nat
    decreases s.len(),
{
    if s.len() == 0 {
        0
    } else {
        digits_value(s.drop_last()) * 10 + digit_value(s.last())
    }
}

/// The value of unsigned integer text: an optional `+` and at least one digit.
pub open spec fn unsigned_text_value(s: Seq<char>) -> Option<nat> {
    let body = if s.len() > 0 && s[0] == '+' {
        s.drop_first()
    } else {
        s
    };
    if body.len() > 0 && all_digits(body) {
        Some(digits_value(body))
    } else {
        None
    }
}

/// The value of signed integer text: an optional `+` or `-` and at least one digit.
pub open spec fn signed_text_value(s: Seq<char>) -> Option<int> {
    if s.len() > 0 && s[0] == '-' {
        let body = s.drop_first();
        if body.len() > 0 && all_digits(body) {
            Some(-(digits_value(body) as int))
        } else {
            None
        }
    } else {
        match unsigned_text_value(s) {
            Some(v) => Some(v as int),
            None => None,
        }
    }
}

/// `str::parse` for an unsigned type whose largest value is `max`.
pub open spec fn parse_unsigned_spec(s: Seq<char>, max: nat) -> Option<nat> {
    match unsigned_text_value(s) {
        Some(v) => if v <= max {
            Some(v)
        } else {
            None
        },
        None => None,
    }
}

/// `str::parse::<i64>`.
pub open spec fn parse_i64_spec(s: Seq<char>) -> Option<int> {
    match signed_text_value(s) {
        Some(v) => if i64::MIN <= v <= i64::MAX {
            Some(v)
        } else {
            None
        },
        None => None,
    }
}

proof fn lemma_digits_value_prefix(s: Seq<char>, i: int)
    requires
        0 <= i <= s.len(),
        all_digits(s),
    ensures
        digits_value(s.subrange(0, i)) <= digits_value(s),
    decreases s.len() - i,
{
    if i < s.len() {
        lemma_digits_value_prefix(s, i + 1);
        assert(s.subrange(0, i + 1).drop_last() =~= s.subrange(0, i));
    } else {
        assert(s.subrange(0, i) =~= s);
    }
}

/// Parses the digits `v[lo..hi]` as a value no larger than `max`.
fn parse_digits(v: &Vec<char>, lo: usize, hi: usize, max: u64) -> (r: Option<u64>)
    requires
        lo <= hi <= v@.len(),
    ensures
        r == (if hi > lo && all_digits(v@.subrange(lo as int, hi as int)) && digits_value(
            v@.subrange(lo as int, hi as int),
        ) <= max {
            Some(digits_value(v@.subrange(lo as int, hi as int)) as u64)
        } else {
            None::<u64>
        }),
{
    if hi == lo {
        return None;
    }
    let ghost body = v@.subrange(lo as int, hi as int);
    let mut acc: u64 = 0;
    let mut i = lo;
    while i < hi
        invariant
            lo <= i <= hi <= v@.len(),
            body == v@.subrange(lo as int, hi as int),
            all_digits(v@.subrange(lo as int, i as int)),
            acc as nat == digits_value(v@.subrange(lo as int, i as int)),
            acc <= max,
        decreases hi - i,
    {
        let c = v[i];
        if !('0' <= c && c <= '9') {
            proof {
                assert(!all_digits(body)) by {
                    assert(body[i - lo] == c);
                }
            }
            return None;
        }
        let d = (c as u32 - '0' as u32) as u64;
        assert(v@.subrange(lo as int, i + 1).drop_last() =~= v@.subrange(lo as int, i as int));
        if d > max || acc > (max - d) / 10 {
            proof {
                assert(acc * 10 + d > max);
                if all_digits(body) {
                    assert(v@.subrange(lo as int, i + 1) =~= body.subrange(0, i + 1 - lo));
                    lemma_digits_value_prefix(body, i + 1 - lo);
                }
            }
            return None;
        }
        acc = acc * 10 + d;
        i = i + 1;
    }
    assert(v@.subrange(lo as int, i as int) =~= body);
    Some(acc)
}

/// `str::parse` of `v[lo..hi]` for an unsigned type whose largest value is `max`.
pub fn parse_unsigned(v: &Vec<char>, lo: usize, hi: usize, max: u64) -> (r: Option<u64>)
    requires
        lo <= hi <= v@.len(),
    ensures
        r == match parse_unsigned_spec(v@.subrange(lo as int, hi as int), max as nat) {
            Some(x) => Some(x as u64),
            None => None::<u64>,
        },
{
    let ghost s = v@.subrange(lo as int, hi as int);
    if lo < hi && v[lo] == '+' {
        assert(s.drop_first() =~= v@.subrange(lo + 1, hi as int));
        parse_digits(v, lo + 1, hi, max)
    } else {
        parse_digits(v, lo, hi, max)
    }
}

/// `str::parse::<i64>` of `v[lo..hi]`.
pub fn parse_i64(v: &Vec<char>, lo: usize, hi: usize) -> (r: Option<i64>)
    requires
        lo <= hi <= v@.len(),
    ensures
        r == match parse_i64_spec(v@.subrange(lo as int, hi as int)) {
            Some(x) => Some(x as i64),
            None => None::<i64>,
        },
{
    let ghost s = v@.subrange(lo as int, hi as int);
    if lo < hi && v[lo] == '-' {
        assert(s.drop_first() =~= v@.subrange(lo + 1, hi as int));
        match parse_digits(v, lo + 1, hi, 0x8000_0000_0000_0000) {
            Some(m) => {
                let wide: i128 = -(m as i128);
                Some(wide as i64)
            },
            None => {
                proof {
                    let body = v@.subrange(lo + 1, hi as int);
                    if body.len() > 0 && all_digits(body) {
                        assert(digits_value(body) > 0x8000_0000_0000_0000);
                    }
                }
                None
            },
        }
    } else {
        match parse_unsigned(v, lo, hi, 0x7fff_ffff_ffff_ffff) {
            Some(m) => Some(m as i64),
            None => None,
        }
    }
}

/// Whether `v[lo..hi]` is the text `t`.
pub fn chars_eq(v: &Vec<char>, lo: usize, hi: usize, t: &str) -> (r: bool)
    requires
        lo <= hi <= v@.len(),
    ensures
        r == (v@.subrange(lo as int, hi as int) == t@),
{
    let w = chars_of(t);
    if hi - lo != w.len() {
        return false;
    }
    let mut i: usize = 0;
    while i < w.len()
        invariant
            lo <= hi <= v@.len(),
            hi - lo == w@.len(),
            w@ == t@,
            i <= w@.len(),
            forall|k: int| 0 <= k < i ==> v@[lo + k] == w@[k],
        decreases w@.len() - i,
    {
        if v[lo + i] != w[i] {
            assert(v@.subrange(lo as int, hi as int)[i as int] != t@[i as int]);
            return false;
        }
        i = i + 1;
    }
    assert(v@.subrange(lo as int, hi as int) =~= t@);
    true
}

/// The characters of `s`, in order.
pub fn chars_of(s: &str) -> (v: Vec<char>)
    ensures
        v@ == s@,
{
    let mut v: Vec<char> = Vec::new();
    for c in it: s.chars()
        invariant
            v@ == it.seq().take(it.index() as int),
    {
        v.push(c);
    }
    v
}

/// A string holding the characters `v[lo..hi]`.
pub fn string_of(v: &Vec<char>, lo: usize, hi: usize) -> (r: String)
    requires
        lo <= hi <= v@.len(),
    ensures
        r@ == v@.subrange(lo as int, hi as int),
{
    let mut r = String::new();
    let mut i = lo;
    while i < hi
        invariant
            lo <= i <= hi <= v@.len(),
            r@ == v@.subrange(lo as int, i as int),
        decreases hi - i,
    {
        r.push(v[i]);
        i = i + 1;
        assert(r@ =~= v@.subrange(lo as int, i as int));
    }
    r
}


/// The pieces of `v[lo..hi]` between occurrences of `sep`, as index ranges
/// into `v`, in order: `str::split` by one character.
pub fn split_ranges(v: &Vec<char>, lo: usize, hi: usize, sep: char) -> (r: Vec<(usize, usize)>)
    requires
        lo <= hi <= v@.len(),
    ensures
        r@.len() == split(v@.subrange(lo as int, hi as int), sep).len(),
        forall|j: int|
            0 <= j < r@.len() ==> {
                &&& lo <= (#[trigger] r@[j]).0 <= r@[j].1 <= hi
                &&& v@.subrange(r@[j].0 as int, r@[j].1 as int) == split(
                    v@.subrange(lo as int, hi as int),
                    sep,
                )[j]
            },
{
    let ghost s = v@.subrange(lo as int, hi as int);
    let mut r: Vec<(usize, usize)> = Vec::new();
    let mut start = lo;
    let mut i = lo;
    proof {
        assert(s.subrange(0, 0) =~= Seq::<char>::empty());
    }
    while i < hi
        invariant
            lo <= start <= i <= hi <= v@.len(),
            s == v@.subrange(lo as int, hi as int),
            start == lo || v@[start - 1] == sep,
            forall|k: int| start <= k < i ==> v@[k] != sep,
            r@.len() + 1 == split(s.subrange(0, i - lo), sep).len(),
            forall|j: int|
                0 <= j < r@.len() ==> {
                    &&& lo <= (#[trigger] r@[j]).0 <= r@[j].1 <= hi
                    &&& v@.subrange(r@[j].0 as int, r@[j].1 as int) == split(
                        s.subrange(0, i - lo),
                        sep,
                    )[j]
                },
        decreases hi - i,
    {
        let ghost prev = split(s.subrange(0, i - lo), sep);
        proof {
            lemma_split_step(s, i - lo, sep);
            lemma_split_last_piece(s, start - lo, i - lo, sep);
            assert(s.subrange(start - lo, i - lo) =~= v@.subrange(start as int, i as int));
        }
        if v[i] == sep {
            r.push((start, i));
            start = i + 1;
        }
        i = i + 1;
    }
    proof {
        lemma_split_last_piece(s, start - lo, hi - lo, sep);
        assert(s.subrange(start - lo, hi - lo) =~= v@.subrange(start as int, hi as int));
        assert(s.subrange(0, hi - lo) =~= s);
    }
    r.push((start, hi));
    r
}


/// The code of `c` with ASCII upper case folded to lower case.
pub open spec fn ascii_lower(c: char) -> int {
    if 'A' <= c && c <= 'Z' {
        (c as u32) + 32
    } else {
        c as int
    }
}

/// ASCII case-insensitive equality (`str::eq_ignore_ascii_case`).
pub open spec fn eq_ignore_ascii_case(a: Seq<char>, b: Seq<char>) -> bool {
    a.len() == b.len() && forall|i: int| 0 <= i < a.len() ==> ascii_lower(#[trigger] a[i]) == ascii_lower(b[i])
}

fn lower(c: char) -> (r: u32)
    ensures
        r as int == ascii_lower(c),
{
    if 'A' <= c && c <= 'Z' {
        (c as u32) + 32
    } else {
        c as u32
    }
}

/// Whether `v[lo..hi]` equals `t`, ignoring ASCII case.
pub fn eq_ignore_case(v: &Vec<char>, lo: usize, hi: usize, t: &str) -> (r: bool)
    requires
        lo <= hi <= v@.len(),
    ensures
        r == eq_ignore_ascii_case(v@.subrange(lo as int, hi as int), t@),
{
    let w = chars_of(t);
    if hi - lo != w.len() {
        return false;
    }
    let mut i: usize = 0;
    while i < w.len()
        invariant
            lo <= hi <= v@.len(),
            hi - lo == w@.len(),
            w@ == t@,
            i <= w@.len(),
            forall|k: int| 0 <= k < i ==> ascii_lower(#[trigger] v@[lo + k]) == ascii_lower(w@[k]),
        decreases w@.len() - i,
    {
        if lower(v[lo + i]) != lower(w[i]) {
            assert(v@.subrange(lo as int, hi as int)[i as int] == v@[lo + i]);
            return false;
        }
        i = i + 1;
    }
    assert forall|k: int| 0 <= k < (hi - lo) implies ascii_lower(
        #[trigger] v@.subrange(lo as int, hi as int)[k],
    ) == ascii_lower(t@[k]) by {
        assert(v@.subrange(lo as int, hi as int)[k] == v@[lo + k]);
    }
    true
}

/// `str::split_whitespace`: the maximal runs of non-whitespace characters,
/// in order.
pub open spec fn words(s: Seq<char>) -> Seq<Seq<char>>
    decreases s.len(),
{
    if s.len() == 0 {
        Seq::empty()
    } else {
        let w = words(s.drop_last());
        let c = s.last();
        if is_ws(c) {
            w
        } else if s.len() >= 2 && !is_ws(s[s.len() - 2]) {
            w.update(w.len() - 1, w.last().push(c))
        } else {
            w.push(seq![c])
        }
    }
}

/// The words of `v[lo..hi]` as index ranges into `v`, in order.
pub fn word_ranges(v: &Vec<char>, lo: usize, hi: usize) -> (r: Vec<(usize, usize)>)
    requires
        lo <= hi <= v@.len(),
    ensures
        r@.len() == words(v@.subrange(lo as int, hi as int)).len(),
        forall|j: int|
            0 <= j < r@.len() ==> {
                &&& lo <= (#[trigger] r@[j]).0 <= r@[j].1 <= hi
                &&& v@.subrange(r@[j].0 as int, r@[j].1 as int) == words(v@.subrange(lo as int, hi as int))[j]
            },
{
    let ghost s = v@.subrange(lo as int, hi as int);
    let mut r: Vec<(usize, usize)> = Vec::new();
    let mut start = lo;
    let mut in_word = false;
    let mut i = lo;
    proof {
        assert(s.subrange(0, 0) =~= Seq::<char>::empty());
    }
    while i < hi
        invariant
            lo <= start <= i <= hi <= v@.len(),
            s == v@.subrange(lo as int, hi as int),
            in_word ==> {
                &&& words(s.subrange(0, i - lo)).len() == r@.len() + 1
                &&& words(s.subrange(0, i - lo)).last() == v@.subrange(start as int, i as int)
                &&& start < i
                &&& !is_ws(v@[i - 1])
            },
            !in_word ==> {
                &&& words(s.subrange(0, i - lo)).len() == r@.len()
                &&& (i == lo || is_ws(v@[i - 1]))
            },
            forall|j: int|
                0 <= j < r@.len() ==> {
                    &&& lo <= (#[trigger] r@[j]).0 <= r@[j].1 <= hi
                    &&& v@.subrange(r@[j].0 as int, r@[j].1 as int) == words(s.subrange(0, i - lo))[j]
                },
        decreases hi - i,
    {
        let ghost k = i - lo;
        let ghost t = s.subrange(0, k + 1);
        let ghost prev = words(s.subrange(0, k));
        proof {
            assert(t.drop_last() =~= s.subrange(0, k));
            assert(t.last() == v@[i as int]);
            if k >= 1 {
                assert(t[t.len() - 2] == v@[i - 1]);
            }
        }
        let c = v[i];
        if is_whitespace(c) {
            if in_word {
                r.push((start, i));
                in_word = false;
            }
            assert(words(t) == prev);
        } else {
            if in_word {
                proof {
                    assert(words(t) == prev.update(prev.len() - 1, prev.last().push(c)));
                    assert(v@.subrange(start as int, i + 1) =~= v@.subrange(start as int, i as int).push(c));
                }
            } else {
                proof {
                    assert(words(t) == prev.push(seq![c]));
                    assert(v@.subrange(i as int, i + 1) =~= seq![c]);
                }
                start = i;
                in_word = true;
            }
        }
        i = i + 1;
    }
    proof {
        assert(s.subrange(0, hi - lo) =~= s);
    }
    if in_word {
        r.push((start, hi));
    }
    r
}

// ---------------------------------------------------------------------------
// Reading back what was written
// ---------------------------------------------------------------------------
proof fn lemma_digit_char(d: nat)
    requires
        d < 10,
    ensures
        is_digit(digit_char(d)),
        digit_value(digit_char(d)) == d,
{
}

/// The decimal rendering of `n` is digits, at least one, whose value is `n`.
pub proof fn lemma_dec_reads_back(n: nat)
    ensures
        all_digits(dec(n)),
        digits_value(dec(n)) == n,
        dec(n).len() >= 1,
    decreases n,
{
    if n < 10 {
        lemma_digit_char(n);
        assert(dec(n).drop_last() =~= Seq::<char>::empty());
        assert(digits_value(dec(n)) == digits_value(dec(n).drop_last()) * 10 + digit_value(dec(n).last()));
    } else {
        lemma_dec_reads_back(n / 10);
        lemma_digit_char(n % 10);
        assert(dec(n).drop_last() =~= dec(n / 10));
        assert(dec(n).last() == digit_char(n % 10));
        assert(digits_value(dec(n)) == digits_value(dec(n).drop_last()) * 10 + digit_value(dec(n).last()));
        assert forall|i: int| 0 <= i < dec(n).len() implies is_digit(#[trigger] dec(n)[i]) by {
            if i < dec(n / 10).len() {
                assert(dec(n)[i] == dec(n / 10)[i]);
            }
        }
    }
}

proof fn lemma_zeros_then_digits(k: nat, s: Seq<char>)
    requires
        all_digits(s),
    ensures
        all_digits(zeros(k) + s),
        digits_value(zeros(k) + s) == digits_value(s),
    decreases k + s.len(),
{
    assert forall|i: int| 0 <= i < (zeros(k) + s).len() implies is_digit(#[trigger] (zeros(k) + s)[i]) by {
        if i >= k {
            assert((zeros(k) + s)[i] == s[i - k]);
        }
    }
    if s.len() == 0 {
        if k > 0 {
            assert((zeros(k) + s).drop_last() =~= zeros((k - 1) as nat) + s);
            lemma_zeros_then_digits((k - 1) as nat, s);
        } else {
            assert(zeros(k) + s =~= Seq::<char>::empty());
        }
    } else {
        let p = s.drop_last();
        assert forall|i: int| 0 <= i < p.len() implies is_digit(#[trigger] p[i]) by {
            assert(p[i] == s[i]);
        }
        lemma_zeros_then_digits(k, p);
        assert((zeros(k) + s).drop_last() =~= zeros(k) + p);
    }
}

/// `n` zero-padded to `width` reads back as `n`: the text is digits only,
/// at least `width` of them, starting and ending with a digit.
pub proof fn lemma_pad_dec_reads_back(n: nat, width: nat)
    requires
        n <= i64::MAX,
    ensures
        all_digits(signed_pad_dec(n as int, width)),
        signed_pad_dec(n as int, width).len() >= 1,
        signed_pad_dec(n as int, width).len() >= width,
        digits_value(signed_pad_dec(n as int, width)) == n,
        parse_i64_spec(signed_pad_dec(n as int, width)) == Some(n as int),
{
    lemma_dec_reads_back(n);
    let d = dec(n);
    let t = signed_pad_dec(n as int, width);
    if d.len() < width {
        lemma_zeros_then_digits((width - d.len()) as nat, d);
    }
    assert(is_digit(t[0]));
    assert(t[0] != '-' && t[0] != '+');
}

/// A word of no whitespace is the only word of itself.
pub proof fn lemma_words_single(s: Seq<char>)
    requires
        s.len() >= 1,
        forall|i: int| 0 <= i < s.len() ==> !is_ws(#[trigger] s[i]),
    ensures
        words(s) == seq![s],
    decreases s.len(),
{
    assert(!is_ws(s[s.len() - 1]));
    if s.len() == 1 {
        assert(s.drop_last() =~= Seq::<char>::empty());
        assert(words(s.drop_last()) =~= Seq::<Seq<char>>::empty());
        assert(seq![s.last()] =~= s);
        assert(words(s) =~= seq![s]);
    } else {
        let p = s.drop_last();
        assert forall|i: int| 0 <= i < p.len() implies !is_ws(#[trigger] p[i]) by {
            assert(p[i] == s[i]);
        }
        lemma_words_single(p);
        assert(!is_ws(s[s.len() - 2]));
        assert(p.push(s.last()) =~= s);
        assert(words(s) =~= seq![s]);
    }
}

/// After text ending in whitespace, a word of no whitespace is one more word.
pub proof fn lemma_words_then_word(x: Seq<char>, b: Seq<char>)
    requires
        x.len() >= 1,
        is_ws(x.last()),
        b.len() >= 1,
        forall|i: int| 0 <= i < b.len() ==> !is_ws(#[trigger] b[i]),
    ensures
        words(x + b) == words(x).push(b),
    decreases b.len(),
{
    if b.len() == 1 {
        assert((x + b).drop_last() =~= x);
        assert(seq![b.last()] =~= b);
    } else {
        let p = b.drop_last();
        assert forall|i: int| 0 <= i < p.len() implies !is_ws(#[trigger] p[i]) by {
            assert(p[i] == b[i]);
        }
        lemma_words_then_word(x, p);
        assert((x + b).drop_last() =~= x + p);
        assert((x + b)[(x + b).len() - 2] == p.last());
        assert(p.push(b.last()) =~= b);
    }
}

/// Whitespace at the end adds no word.
pub proof fn lemma_words_then_space(x: Seq<char>, c: char)
    requires
        is_ws(c),
    ensures
        words(x.push(c)) == words(x),
{
    assert(x.push(c).drop_last() =~= x);
}

/// Text holding no separator is one piece.
pub proof fn lemma_split_single(s: Seq<char>, sep: char)
    requires
        forall|i: int| 0 <= i < s.len() ==> #[trigger] s[i] != sep,
    ensures
        split(s, sep) == seq![s],
    decreases s.len(),
{
    if s.len() == 0 {
        assert(s =~= Seq::<char>::empty());
    } else {
        let p = s.drop_last();
        assert forall|i: int| 0 <= i < p.len() implies #[trigger] p[i] != sep by {
            assert(p[i] == s[i]);
        }
        lemma_split_single(p, sep);
        assert(s[s.len() - 1] != sep);
        assert(p.push(s.last()) =~= s);
        assert(split(s, sep) =~= seq![s]);
    }
}

/// A separator followed by text holding none adds that text as a piece.
pub proof fn lemma_split_then_piece(a: Seq<char>, sep: char, b: Seq<char>)
    requires
        forall|i: int| 0 <= i < b.len() ==> #[trigger] b[i] != sep,
    ensures
        split(a.push(sep) + b, sep) == split(a, sep).push(b),
    decreases b.len(),
{
    if b.len() == 0 {
        assert(a.push(sep) + b =~= a.push(sep));
        assert(a.push(sep).drop_last() =~= a);
        assert(b =~= Seq::<char>::empty());
    } else {
        let p = b.drop_last();
        assert forall|i: int| 0 <= i < p.len() implies #[trigger] p[i] != sep by {
            assert(p[i] == b[i]);
        }
        lemma_split_then_piece(a, sep, p);
        assert((a.push(sep) + b).drop_last() =~= a.push(sep) + p);
        assert((a.push(sep) + b).last() == b.last());
        assert(b[b.len() - 1] != sep);
        assert(p.push(b.last()) =~= b);
        lemma_split_nonempty(a, sep);
        assert(split(a.push(sep) + b, sep) =~= split(a, sep).push(b));
    }
}

} // verus!
