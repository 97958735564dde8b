//! Character-level helpers shared by the rest of the library: decimal
//! numbers, their parsing, string comparison and construction.
use vstd::prelude::*;

verus! {

broadcast use vstd::string::group_string_axioms;

/// `String::push`: appends one character to the end of the string.
#[verifier::external_body]
pub(crate) fn string_push(s: &mut String, c: char)
    ensures
        final(s)@ == old(s)@.push(c),
{
    s.push(c);
}

/// The characters of `s`, in order.
pub fn chars_of(s: &str) -> (res: Vec<char>)
    ensures
        res@ == s@,
{
    let mut out: Vec<char> = Vec::new();
    for c in it: s.chars()
        invariant
            out@ == it.seq().take(it.index() as int),
    {
        out.push(c);
    }
    out
}

/// Appends `chars[lo..hi]` to `s`.
pub fn push_chars(s: &mut String, chars: &Vec<char>, lo: usize, hi: usize)
    requires
        lo <= hi <= chars.len(),
    ensures
        final(s)@ == old(s)@ + chars@.subrange(lo as int, hi as int),
{
    let mut i = lo;
    while i < hi
        invariant
            lo <= i <= hi <= chars.len(),
            s@ == old(s)@ + chars@.subrange(lo as int, i as int),
        decreases hi - i,
    {
        string_push(s, chars[i]);
        i += 1;
        assert(chars@.subrange(lo as int, i as int) == chars@.subrange(lo as int, i - 1).push(
            chars@[i - 1],
        ));
    }
}

/// Appends the characters of `t`.
pub fn push_str_chars(s: &mut String, t: &str)
    ensures
        final(s)@ == old(s)@ + t@,
{
    let c = chars_of(t);
    push_chars(s, &c, 0, c.len());
    assert(c@.subrange(0, c@.len() as int) =~= t@);
}

/// A string holding `chars[lo..hi]`.
pub fn string_from_range(chars: &Vec<char>, lo: usize, hi: usize) -> (res: String)
    requires
        lo <= hi <= chars.len(),
    ensures
        res@ == chars@.subrange(lo as int, hi as int),
{
    let mut s = String::new();
    push_chars(&mut s, chars, lo, hi);
    s
}

/// A string holding all of `chars`.
pub fn string_from_chars(chars: &Vec<char>) -> (res: String)
    ensures
        res@ == chars@,
{
    let res = string_from_range(chars, 0, chars.len());
    assert(chars@.subrange(0, chars@.len() as int) == chars@);
    res
}

/// A string of `n` spaces.
pub fn spaces(n: usize) -> (res: String)
    ensures
        res@ == Seq::new(n as nat, |i: int| ' '),
{
    let mut s = String::new();
    let mut i: usize = 0;
    while i < n
        invariant
            i <= n,
            s@ == Seq::new(i as nat, |j: int| ' '),
        decreases n - i,
    {
        string_push(&mut s, ' ');
        i += 1;
        assert(s@ == Seq::new(i as nat, |j: int| ' '));
    }
    s
}

// ---------------------------------------------------------------------------
// Decimal numbers
// ---------------------------------------------------------------------------
/// The decimal digit character for `d < 10`.
pub open spec fn digit_char(d: nat) -> char {
    if d == 0 {
        '0'
    } else if d == 1 {
        '1'
    } else if d == 2 {
        '2'
    } else if d == 3 {
        '3'
    } else if d == 4 {
        '4'
    } else if d == 5 {
        '5'
    } else if d == 6 {
        '6'
    } else if d == 7 {
        '7'
    } else if d == 8 {
        '8'
    } else {
        '9'
    }
}

/// Whether `c` is one of the ASCII digits `0`..`9`.
pub open spec fn is_digit(c: char) -> bool {
    '0' <= c && c <= '9'
}

/// The value of an ASCII digit.
pub open spec fn digit_value(c: char) -> nat {
    (c as u32 - '0' as u32) as nat
}

/// The shortest decimal representation of `n`, without sign or leading zeros.
pub open spec fn dec(n: nat) -> Seq<char>
    decreases n,
{
    if n < 10 {
        seq![digit_char(n)]
    } else {
        dec(n / 10).push(digit_char(n % 10))
    }
}

/// The value of a string of decimal digits (0 for the empty string).
pub open spec fn digits_value(s: Seq<char>) -> nat
    decreases s.len(),
{
    if s.len() == 0 {
        0
    } else {
        digits_value(s.drop_last()) * 10 + digit_value(s.last())
    }
}

/// Whether every character of `s` is a decimal digit.
pub open spec fn all_digits(s: Seq<char>) -> bool {
    forall|i: int| 0 <= i < s.len() ==> is_digit(#[trigger] s[i])
}

/// What `str::parse::<u16>` gives: an optional leading `+`, then one or more
/// decimal digits whose value fits in 16 bits.
pub open spec fn parse_u16_spec(s: Seq<char>) -> Option<u16> {
    let d = if s.len() > 0 && s[0] == '+' {
        s.drop_first()
    } else {
        s
    };
    if d.len() > 0 && all_digits(d) && digits_value(d) <= u16::MAX {
        Some(digits_value(d) as u16)
    } else {
        None
    }
}

pub proof fn lemma_digit_char(d: nat)
    requires
        d < 10,
    ensures
        is_digit(digit_char(d)),
        digit_value(digit_char(d)) == d,
        digit_char(d) != ':',
        digit_char(d) != ' ',
        digit_char(d) != '+',
{
}

/// `dec(n)` is a non-empty string of digits whose value is `n`.
pub proof fn lemma_dec(n: nat)
    ensures
        dec(n).len() > 0,
        all_digits(dec(n)),
        digits_value(dec(n)) == n,
        !dec(n).contains(':'),
        dec(n)[0] != '+',
    decreases n,
{
    if n < 10 {
        lemma_digit_char(n);
        assert(dec(n).drop_last() =~= Seq::<char>::empty());
        assert(digits_value(dec(n)) == digits_value(Seq::<char>::empty()) * 10 + digit_value(digit_char(n)));
    } else {
        lemma_dec(n / 10);
        lemma_digit_char(n % 10);
        let s = dec(n);
        assert(s.drop_last() =~= dec(n / 10));
        assert forall|i: int| 0 <= i < s.len() implies is_digit(#[trigger] s[i]) by {
            if i < s.len() - 1 {
                assert(s[i] == dec(n / 10)[i]);
            }
        }
        assert forall|i: int| 0 <= i < s.len() implies #[trigger] s[i] != ':' by {
            if i < s.len() - 1 {
                assert(s[i] == dec(n / 10)[i]);
            }
        }
        assert(s[0] == dec(n / 10)[0]);
        assert(s.last() == digit_char(n % 10));
        assert(digits_value(s) == digits_value(dec(n / 10)) * 10 + digit_value(s.last()));
        assert((n / 10) * 10 + n % 10 == n);
    }
}

/// Parsing the decimal form of a 16-bit number gives it back.
pub proof fn lemma_parse_dec(n: u16)
    ensures
        parse_u16_spec(dec(n as nat)) == Some(n),
{
    lemma_dec(n as nat);
}

/// Appends the decimal representation of `n` to `s`.
pub fn push_dec(s: &mut String, n: u64)
    ensures
        final(s)@ == old(s)@ + dec(n as nat),
    decreases n,
{
    if n >= 10 {
        push_dec(s, n / 10);
    }
    let d = n % 10;
    let c = if d == 0 {
        '0'
    } else if d == 1 {
        '1'
    } else if d == 2 {
        '2'
    } else if d == 3 {
        '3'
    } else if d == 4 {
        '4'
    } else if d == 5 {
        '5'
    } else if d == 6 {
        '6'
    } else if d == 7 {
        '7'
    } else if d == 8 {
        '8'
    } else {
        '9'
    };
    string_push(s, c);
    assert(c == digit_char((n % 10) as nat));
    if n >= 10 {
        assert(dec(n as nat) == dec((n / 10) as nat).push(digit_char((n % 10) as nat)));
        assert(old(s)@ + dec(n as nat) =~= old(s)@ + dec((n / 10) as nat) + seq![c]);
    } else {
        assert(old(s)@ + dec(n as nat) =~= old(s)@.push(c));
    }
}

/// The decimal representation of `n`.
pub fn dec_string(n: u64) -> (res: String)
    ensures
        res@ == dec(n as nat),
{
    let mut s = String::new();
    push_dec(&mut s, n);
    assert(Seq::<char>::empty() + dec(n as nat) =~= dec(n as nat));
    s
}

proof fn lemma_digits_value_take(s: Seq<char>, i: int)
    requires
        0 <= i < s.len(),
    ensures
        digits_value(s.take(i + 1)) == digits_value(s.take(i)) * 10 + digit_value(s[i]),
{
    assert(s.take(i + 1).drop_last() =~= s.take(i));
}

proof fn lemma_digits_value_grows(s: Seq<char>, i: int, j: int)
    requires
        0 <= i <= j <= s.len(),
    ensures
        digits_value(s.take(i)) <= digits_value(s.take(j)),
    decreases j - i,
{
    if i < j {
        lemma_digits_value_grows(s, i, j - 1);
        lemma_digits_value_take(s, j - 1);
    }
}

/// `str::parse::<u16>` on the characters `chars[lo..hi]`.
pub fn parse_u16_chars(chars: &Vec<char>, lo: usize, hi: usize) -> (res: Option<u16>)
    requires
        lo <= hi <= chars.len(),
    ensures
        res == parse_u16_spec(chars@.subrange(lo as int, hi as int)),
{
    let ghost s = chars@.subrange(lo as int, hi as int);
    let mut start = lo;
    if lo < hi && chars[lo] == '+' {
        start = lo + 1;
    }
    let ghost d = chars@.subrange(start as int, hi as int);
    assert(d == (if s.len() > 0 && s[0] == '+' {
        s.drop_first()
    } else {
        s
    }));
    if start == hi {
        return None;
    }
    let mut acc: u32 = 0;
    let mut i = start;
    while i < hi
        invariant
            start <= i <= hi <= chars.len(),
            d == chars@.subrange(start as int, hi as int),
            s == chars@.subrange(lo as int, hi as int),
            d == (if s.len() > 0 && s[0] == '+' {
                s.drop_first()
            } else {
                s
            }),
            d.len() > 0,
            forall|k: int| 0 <= k < i - start ==> is_digit(#[trigger] d[k]),
            acc as nat == digits_value(d.take(i - start)),
            acc <= 65535,
        decreases hi - i,
    {
        let c = chars[i];
        if !('0' <= c && c <= '9') {
            assert(d[i - start] == c);
            assert(!is_digit(d[i - start]));
            assert(!all_digits(d));
            return None;
        }
        let dv = (c as u32) - ('0' as u32);
        proof {
            lemma_digits_value_take(d, i - start);
        }
        if acc * 10 + dv > 65535 {
            proof {
                lemma_digits_value_grows(d, i - start + 1, d.len() as int);
                assert(d.take(d.len() as int) =~= d);
                assert(d[i - start] == c);
                assert(digits_value(d) > 65535);
            }
            return None;
        }
        acc = acc * 10 + dv;
        i += 1;
    }
    assert(d.take(d.len() as int) =~= d);
    Some(acc as u16)
}

/// `str::parse::<u16>`.
pub fn parse_u16(s: &str) -> (res: Option<u16>)
    ensures
        res == parse_u16_spec(s@),
{
    let chars = chars_of(s);
    let r = parse_u16_chars(&chars, 0, chars.len());
    assert(chars@.subrange(0, chars@.len() as int) == chars@);
    r
}

// ---------------------------------------------------------------------------
// Comparison
// ---------------------------------------------------------------------------
/// Lexicographic order of character sequences by code point, the order
/// `String`'s `Ord` gives.
pub open spec fn str_lt(a: Seq<char>, b: Seq<char>) -> bool
    decreases a.len(),
{
    if a.len() == 0 {
        b.len() > 0
    } else if b.len() == 0 {
        false
    } else if a[0] == b[0] {
        str_lt(a.drop_first(), b.drop_first())
    } else {
        (a[0] as u32) < (b[0] as u32)
    }
}

pub proof fn lemma_str_lt_irreflexive(a: Seq<char>)
    ensures
        !str_lt(a, a),
    decreases a.len(),
{
    if a.len() > 0 {
        lemma_str_lt_irreflexive(a.drop_first());
    }
}

pub proof fn lemma_str_lt_total(a: Seq<char>, b: Seq<char>)
    ensures
        str_lt(a, b) || a == b || str_lt(b, a),
        !(str_lt(a, b) && str_lt(b, a)),
    decreases a.len(),
{
    if a.len() == 0 {
        if b.len() == 0 {
            assert(a =~= b);
        }
    } else if b.len() == 0 {
    } else if a[0] == b[0] {
        lemma_str_lt_total(a.drop_first(), b.drop_first());
        if a.drop_first() == b.drop_first() {
            assert forall|i: int| 0 <= i < a.len() implies a[i] == b[i] by {
                if i > 0 {
                    assert(a[i] == a.drop_first()[i - 1]);
                    assert(b[i] == b.drop_first()[i - 1]);
                }
            }
            assert(a =~= b);
        }
    } else {
        vstd::utf8::char_u32_cast(a[0], a[0] as u32);
        vstd::utf8::char_u32_cast(b[0], b[0] as u32);
        assert(a[0] as u32 != b[0] as u32);
    }
}

pub proof fn lemma_str_lt_transitive(a: Seq<char>, b: Seq<char>, c: Seq<char>)
    requires
        str_lt(a, b),
        str_lt(b, c),
    ensures
        str_lt(a, c),
    decreases a.len(),
{
    if a.len() > 0 && b.len() > 0 && c.len() > 0 {
        if a[0] == b[0] && b[0] == c[0] {
            lemma_str_lt_transitive(a.drop_first(), b.drop_first(), c.drop_first());
        }
    }
}

/// Whether `a[i..]` comes before `b[j..]`, for the loop below.
proof fn lemma_str_lt_suffix(a: Seq<char>, b: Seq<char>, i: int)
    requires
        0 <= i <= a.len(),
        i <= b.len(),
        a.take(i) == b.take(i),
    ensures
        str_lt(a, b) == str_lt(a.skip(i), b.skip(i)),
    decreases i,
{
    if i > 0 {
        assert(a[0] == a.take(i)[0]);
        assert(b[0] == b.take(i)[0]);
        assert(a.drop_first().take(i - 1) =~= a.take(i).drop_first());
        assert(b.drop_first().take(i - 1) =~= b.take(i).drop_first());
        lemma_str_lt_suffix(a.drop_first(), b.drop_first(), i - 1);
        assert(a.drop_first().skip(i - 1) =~= a.skip(i));
        assert(b.drop_first().skip(i - 1) =~= b.skip(i));
    } else {
        assert(a.skip(0) =~= a);
        assert(b.skip(0) =~= b);
    }
}

/// Three-way comparison of two character sequences: -1, 0 or 1.
pub fn compare_chars(a: &Vec<char>, b: &Vec<char>) -> (res: i8)
    ensures
        res == -1 <==> str_lt(a@, b@),
        res == 0 <==> a@ == b@,
        res == 1 <==> str_lt(b@, a@),
        res == -1 || res == 0 || res == 1,
{
    proof {
        lemma_str_lt_total(a@, b@);
    }
    let mut i: usize = 0;
    while i < a.len() && i < b.len()
        invariant
            i <= a.len(),
            i <= b.len(),
            a@.take(i as int) == b@.take(i as int),
        decreases a.len() - i,
    {
        if a[i] != b[i] {
            proof {
                lemma_str_lt_suffix(a@, b@, i as int);
                lemma_str_lt_suffix(b@, a@, i as int);
                assert(a@.skip(i as int)[0] == a@[i as int]);
                assert(b@.skip(i as int)[0] == b@[i as int]);
                if a@ == b@ {
                    assert(a@[i as int] == b@[i as int]);
                }
            }
            let x = a[i];
            let y = b[i];
            proof {
                vstd::utf8::char_u32_cast(x, x as u32);
                vstd::utf8::char_u32_cast(y, y as u32);
            }
            if (x as u32) < (y as u32) {
                return -1;
            } else {
                return 1;
            }
        }
        proof {
            assert(a@.take(i + 1) =~= a@.take(i as int).push(a@[i as int]));
            assert(b@.take(i + 1) =~= b@.take(i as int).push(b@[i as int]));
        }
        i += 1;
    }
    proof {
        lemma_str_lt_suffix(a@, b@, i as int);
        lemma_str_lt_suffix(b@, a@, i as int);
    }
    if a.len() == b.len() {
        proof {
            assert(a@ =~= a@.take(i as int));
            assert(b@ =~= b@.take(i as int));
        }
        0
    } else if a.len() < b.len() {
        proof {
            if a@ == b@ {
                assert(a@.len() == b@.len());
            }
        }
        -1
    } else {
        proof {
            if a@ == b@ {
                assert(a@.len() == b@.len());
            }
        }
        1
    }
}

// ---------------------------------------------------------------------------
// Trimming
// ---------------------------------------------------------------------------
/// Unicode `White_Space`, the property `char::is_whitespace` tests.
pub open spec fn is_whitespace(c: char) -> bool {
    let u = c as u32;
    (0x9 <= u && u <= 0xD) || u == 0x20 || u == 0x85 || u == 0xA0 || u == 0x1680 || (0x2000 <= u
        && u <= 0x200A) || u == 0x2028 || u == 0x2029 || u == 0x202F || u == 0x205F || u == 0x3000
}

/// `s` without its leading white space.
pub open spec fn trim_start_spec(s: Seq<char>) -> Seq<char>
    decreases s.len(),
{
    if s.len() > 0 && is_whitespace(s[0]) {
        trim_start_spec(s.drop_first())
    } else {
        s
    }
}

/// `s` without its trailing white space.
pub open spec fn trim_end_spec(s: Seq<char>) -> Seq<char>
    decreases s.len(),
{
    if s.len() > 0 && is_whitespace(s.last()) {
        trim_end_spec(s.drop_last())
    } else {
        s
    }
}

/// `s` without leading and trailing white space, as `str::trim` gives.
pub open spec fn trim_spec(s: Seq<char>) -> Seq<char> {
    trim_end_spec(trim_start_spec(s))
}

/// Whether `c` is white space.
pub fn char_is_whitespace(c: char) -> (res: bool)
    ensures
        res == is_whitespace(c),
{
    let u = c as u32;
    (0x9 <= u && u <= 0xD) || u == 0x20 || u == 0x85 || u == 0xA0 || u == 0x1680 || (0x2000 <= u
        && u <= 0x200A) || u == 0x2028 || u == 0x2029 || u == 0x202F || u == 0x205F || u == 0x3000
}

/// The characters of `s` without leading and trailing white space.
pub fn trim_chars(s: &str) -> (res: Vec<char>)
    ensures
        res@ == trim_spec(s@),
{
    let chars = chars_of(s);
    let mut lo: usize = 0;
    assert(chars@.skip(0) =~= chars@);
    while lo < chars.len() && char_is_whitespace(chars[lo])
        invariant
            lo <= chars.len(),
            chars@ == s@,
            trim_start_spec(s@) == trim_start_spec(chars@.skip(lo as int)),
        decreases chars.len() - lo,
    {
        proof {
            assert(chars@.skip(lo as int).drop_first() =~= chars@.skip(lo + 1));
        }
        lo += 1;
    }
    proof {
        if lo < chars.len() {
            assert(chars@.skip(lo as int)[0] == chars@[lo as int]);
        }
        assert(trim_start_spec(s@) == chars@.skip(lo as int));
        assert(chars@.skip(lo as int) =~= chars@.subrange(lo as int, chars@.len() as int));
    }
    let mut hi: usize = chars.len();
    while hi > lo && char_is_whitespace(chars[hi - 1])
        invariant
            lo <= hi <= chars.len(),
            chars@ == s@,
            trim_start_spec(s@) == chars@.subrange(lo as int, chars@.len() as int),
            trim_spec(s@) == trim_end_spec(chars@.subrange(lo as int, hi as int)),
        decreases hi - lo,
    {
        proof {
            assert(chars@.subrange(lo as int, hi as int).drop_last() =~= chars@.subrange(lo as int, hi - 1));
            assert(chars@.subrange(lo as int, hi as int).last() == chars@[hi - 1]);
        }
        hi -= 1;
    }
    proof {
        if hi > lo {
            assert(chars@.subrange(lo as int, hi as int).last() == chars@[hi - 1]);
        }
    }
    let mut out: Vec<char> = Vec::new();
    let mut i = lo;
    while i < hi
        invariant
            lo <= i <= hi <= chars.len(),
            out@ == chars@.subrange(lo as int, i as int),
        decreases hi - i,
    {
        out.push(chars[i]);
        i += 1;
        assert(out@ =~= chars@.subrange(lo as int, i as int));
    }
    out
}

/// Whether the characters of `a` spell the string `b`.
pub fn chars_eq_str(a: &Vec<char>, b: &str) -> (res: bool)
    ensures
        res == (a@ == b@),
{
    let bc = chars_of(b);
    compare_chars(a, &bc) == 0
}

} // verus!
