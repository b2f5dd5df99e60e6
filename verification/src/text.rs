//! Text building blocks: number formatting, whitespace handling and the
//! integer grammar shared by the hex parsers of this crate.

use vstd::prelude::*;
use vstd::string::*;

verus! {

/// Lower-case hexadecimal digit for a value below 16.
pub open spec fn hex_digit(d: nat) -> char {
    if d < 10 {
        ((d + 48) as u8) as char
    } else {
        ((d + 87) as u8) as char
    }
}

/// Decimal digit for a value below 10.
pub open spec fn dec_digit(d: nat) -> char {
    ((d + 48) as u8) as char
}

/// `{:x}` rendering of a natural number: lower-case, no prefix, no leading zeros.
pub open spec fn spec_hex(n: nat) -> Seq<char>
    decreases n,
{
    if n < 16 {
        seq![hex_digit(n)]
    } else {
        spec_hex(n / 16).push(hex_digit(n % 16))
    }
}

/// `{}` rendering of a natural number in decimal.
pub open spec fn spec_decimal(n: nat) -> Seq<char>
    decreases n,
{
    if n < 10 {
        seq![dec_digit(n)]
    } else {
        spec_decimal(n / 10).push(dec_digit(n % 10))
    }
}

/// `{:0w$x}` rendering: `spec_hex(n)` left-padded with zeros to at least `width` characters.
pub open spec fn spec_hex_padded(n: nat, width: nat) -> Seq<char> {
    let digits = spec_hex(n);
    if digits.len() < width {
        Seq::new((width - digits.len()) as nat, |i: int| '0') + digits
    } else {
        digits
    }
}

/// Appends one character to a string.
/// Trusted: `String::push`, documented to append the character at the end.
#[verifier::external_body]
pub(crate) fn push_char(s: &mut String, c: char)
    ensures
        final(s)@ == old(s)@.push(c),
{
    s.push(c);
}

fn hex_digit_char(d: u64) -> (c: char)
    requires
        d < 16,
    ensures
        c == hex_digit(d as nat),
{
    if d < 10 {
        ((d as u8) + 48u8) as char
    } else {
        ((d as u8) + 87u8) as char
    }
}

/// Appends the lower-case hexadecimal digits of `n`.
pub fn push_hex(out: &mut String, n: u64)
    ensures
        final(out)@ == old(out)@ + spec_hex(n as nat),
    decreases n,
{
    if n >= 16 {
        push_hex(out, n / 16);
    }
    let d = hex_digit_char(n % 16);
    push_char(out, d);
    proof {
        if n >= 16 {
            assert(old(out)@ + spec_hex(n as nat) =~= old(out)@ + spec_hex((n / 16) as nat) + seq![d]);
        } else {
            assert(old(out)@ + spec_hex(n as nat) =~= old(out)@.push(d));
        }
    }
}

/// Appends the decimal digits of `n`.
pub fn push_decimal(out: &mut String, n: u64)
    ensures
        final(out)@ == old(out)@ + spec_decimal(n as nat),
    decreases n,
{
    if n >= 10 {
        push_decimal(out, n / 10);
    }
    let d = ((n % 10) as u8 + 48u8) as char;
    push_char(out, d);
    proof {
        if n >= 10 {
            assert(old(out)@ + spec_decimal(n as nat) =~= old(out)@ + spec_decimal((n / 10) as nat) + seq![d]);
        } else {
            assert(old(out)@ + spec_decimal(n as nat) =~= old(out)@.push(d));
        }
    }
}


/// `{:0w$x}` formatting: appends the hexadecimal digits of `n`, left-padded with zeros to `width`.
pub fn push_hex_padded(out: &mut String, n: u64, width: usize)
    ensures
        final(out)@ == old(out)@ + spec_hex_padded(n as nat, width as nat),
{
    let mut digits = String::new();
    push_hex(&mut digits, n);
    assert(digits@ =~= spec_hex(n as nat));
    let count = digits.as_str().unicode_len();
    let ghost start = out@;
    if count < width {
        let mut i: usize = 0;
        while i < width - count
            invariant
                count < width,
                i <= width - count,
                out@ == start + Seq::new(i as nat, |k: int| '0'),
            decreases width - count - i,
        {
            push_char(out, '0');
            i = i + 1;
            assert(out@ =~= start + Seq::new(i as nat, |k: int| '0'));
        }
    }
    out.append(digits.as_str());
    assert(out@ =~= start + spec_hex_padded(n as nat, width as nat));
}

/// The characters of a string slice, in order.
pub fn chars_of(s: &str) -> (v: Vec<char>)
    ensures
        v@ == s@,
{
    let mut v: Vec<char> = Vec::new();
    for c in it: s.chars()
        invariant
            v@ == it.seq().take(it.index() as int),
    {
        v.push(c);
    }
    v
}

/// A string holding exactly the given characters.
pub fn string_of(chars: &Vec<char>) -> (s: String)
    ensures
        s@ == chars@,
{
    let mut s = String::new();
    let mut i: usize = 0;
    while i < chars.len()
        invariant
            i <= chars.len(),
            s@ == chars@.take(i as int),
        decreases chars.len() - i,
    {
        push_char(&mut s, chars[i]);
        i = i + 1;
        assert(s@ =~= chars@.take(i as int));
    }
    assert(chars@.take(i as int) =~= chars@);
    s
}


/// Unicode `White_Space`, the property that `char::is_whitespace` reports.
pub open spec fn is_ws(c: char) -> bool {
    let u = c as u32;
    ||| 0x09 <= u <= 0x0d
    ||| u == 0x20
    ||| u == 0x85
    ||| u == 0xa0
    ||| u == 0x1680
    ||| 0x2000 <= u <= 0x200a
    ||| u == 0x2028
    ||| u == 0x2029
    ||| u == 0x202f
    ||| u == 0x205f
    ||| u == 0x3000
}

pub fn is_whitespace(c: char) -> (b: bool)
    ensures
        b == is_ws(c),
{
    let u = c as u32;
    (0x09 <= u && u <= 0x0d) || u == 0x20 || u == 0x85 || u == 0xa0 || u == 0x1680 || (0x2000
        <= u && u <= 0x200a) || u == 0x2028 || u == 0x2029 || u == 0x202f || u == 0x205f || u
        == 0x3000
}

/// First index at or after `i` that does not hold whitespace (or the length).
pub open spec fn skip_ws_from(s: Seq<char>, i: int) -> int
    decreases s.len() - i,
{
    if 0 <= i < s.len() && is_ws(s[i]) {
        skip_ws_from(s, i + 1)
    } else {
        i
    }
}

/// First index at or after `i` that holds whitespace (or the length).
pub open spec fn token_end_from(s: Seq<char>, i: int) -> int
    decreases s.len() - i,
{
    if 0 <= i < s.len() && !is_ws(s[i]) {
        token_end_from(s, i + 1)
    } else {
        i
    }
}

/// Index just past the last non-whitespace character of `s[..j]` (0 if there is none).
pub open spec fn trim_end_at(s: Seq<char>, j: int) -> int
    decreases j,
{
    if 0 < j <= s.len() && is_ws(s[j - 1]) {
        trim_end_at(s, j - 1)
    } else {
        j
    }
}

/// `str::trim`: the string without leading and trailing whitespace.
pub open spec fn spec_trim(s: Seq<char>) -> Seq<char> {
    let a = skip_ws_from(s, 0);
    let t = s.subrange(a, s.len() as int);
    t.subrange(0, trim_end_at(t, t.len() as int))
}

pub proof fn lemma_skip_ws_bounds(s: Seq<char>, i: int)
    requires
        0 <= i <= s.len(),
    ensures
        i <= skip_ws_from(s, i) <= s.len(),
        skip_ws_from(s, i) < s.len() ==> !is_ws(s[skip_ws_from(s, i)]),
    decreases s.len() - i,
{
    if i < s.len() && is_ws(s[i]) {
        lemma_skip_ws_bounds(s, i + 1);
    }
}

pub proof fn lemma_token_end_bounds(s: Seq<char>, i: int)
    requires
        0 <= i <= s.len(),
    ensures
        i <= token_end_from(s, i) <= s.len(),
        i < s.len() && !is_ws(s[i]) ==> i < token_end_from(s, i),
        forall|k: int| i <= k < token_end_from(s, i) ==> !is_ws(#[trigger] s[k]),
    decreases s.len() - i,
{
    if i < s.len() && !is_ws(s[i]) {
        lemma_token_end_bounds(s, i + 1);
    }
}

pub proof fn lemma_trim_end_bounds(s: Seq<char>, j: int)
    requires
        0 <= j <= s.len(),
    ensures
        0 <= trim_end_at(s, j) <= j,
    decreases j,
{
    if 0 < j && is_ws(s[j - 1]) {
        lemma_trim_end_bounds(s, j - 1);
    }
}

/// `str::split_whitespace` from index `i`: the maximal runs of non-whitespace characters.
pub open spec fn split_ws_from(s: Seq<char>, i: int) -> Seq<Seq<char>>
    decreases s.len() - i,
{
    if i < 0 || i >= s.len() {
        seq![]
    } else if is_ws(s[i]) {
        split_ws_from(s, i + 1)
    } else {
        let b = token_end_from(s, i);
        if b <= i || b > s.len() {
            seq![]
        } else {
            seq![s.subrange(i, b)] + split_ws_from(s, b)
        }
    }
}

/// `str::split_whitespace`.
pub open spec fn spec_split_ws(s: Seq<char>) -> Seq<Seq<char>> {
    split_ws_from(s, 0)
}

/// Index of the first non-whitespace character at or after `i`.
pub fn skip_ws(v: &Vec<char>, i: usize) -> (k: usize)
    requires
        i <= v.len(),
    ensures
        k as int == skip_ws_from(v@, i as int),
        i <= k <= v.len(),
{
    let mut k = i;
    while k < v.len() && is_whitespace(v[k])
        invariant
            i <= k <= v.len(),
            skip_ws_from(v@, k as int) == skip_ws_from(v@, i as int),
        decreases v.len() - k,
    {
        k = k + 1;
    }
    k
}

/// Index of the first whitespace character at or after `i`.
pub fn token_end(v: &Vec<char>, i: usize) -> (k: usize)
    requires
        i <= v.len(),
    ensures
        k as int == token_end_from(v@, i as int),
        i <= k <= v.len(),
{
    let mut k = i;
    while k < v.len() && !is_whitespace(v[k])
        invariant
            i <= k <= v.len(),
            token_end_from(v@, k as int) == token_end_from(v@, i as int),
        decreases v.len() - k,
    {
        k = k + 1;
    }
    k
}

/// Index just past the last non-whitespace character in `v[lo..hi]` (at least `lo`).
pub fn trim_end(v: &Vec<char>, lo: usize, hi: usize) -> (k: usize)
    requires
        lo <= hi <= v.len(),
    ensures
        lo <= k <= hi,
        k - lo == trim_end_at(v@.subrange(lo as int, hi as int), hi - lo),
{
    let ghost t = v@.subrange(lo as int, hi as int);
    let mut k = hi;
    while k > lo && is_whitespace(v[k - 1])
        invariant
            lo <= k <= hi,
            hi <= v.len(),
            t == v@.subrange(lo as int, hi as int),
            trim_end_at(t, k - lo) == trim_end_at(t, hi - lo),
        decreases k,
    {
        assert(t[k - 1 - lo] == v@[k - 1]);
        k = k - 1;
    }
    proof {
        if k > lo {
            assert(t[k - 1 - lo] == v@[k - 1]);
        }
    }
    k
}

/// Kinds of failure of integer parsing, as `core::num::IntErrorKind` names them.
#[derive(Clone, Copy, Debug, PartialEq, Eq)]
pub enum IntErrorKind {
    Empty,
    InvalidDigit,
    PosOverflow,
}

/// The text that the `Display` of a `ParseIntError` of this kind shows.
pub open spec fn spec_int_error_message(kind: IntErrorKind) -> Seq<char> {
    match kind {
        IntErrorKind::Empty => "cannot parse integer from empty string"@,
        IntErrorKind::InvalidDigit => "invalid digit found in string"@,
        IntErrorKind::PosOverflow => "number too large to fit in target type"@,
    }
}

pub fn int_error_message(kind: IntErrorKind) -> (s: String)
    ensures
        s@ == spec_int_error_message(kind),
{
    match kind {
        IntErrorKind::Empty => String::from_str("cannot parse integer from empty string"),
        IntErrorKind::InvalidDigit => String::from_str("invalid digit found in string"),
        IntErrorKind::PosOverflow => String::from_str("number too large to fit in target type"),
    }
}

/// Value of a hexadecimal digit of either case.
pub open spec fn hex_value(c: char) -> Option<nat> {
    let u = c as u32;
    if 48 <= u <= 57 {
        Some((u - 48) as nat)
    } else if 97 <= u <= 102 {
        Some((u - 87) as nat)
    } else if 65 <= u <= 70 {
        Some((u - 55) as nat)
    } else {
        None
    }
}

/// Digit loop of base-16 integer parsing from index `i` with accumulator `acc`;
/// values above `max` overflow.
pub open spec fn parse_hex_digits_from(s: Seq<char>, max: nat, acc: nat, i: int) -> Result<nat, IntErrorKind>
    decreases s.len() - i,
{
    if i < 0 || i >= s.len() {
        Ok(acc)
    } else {
        match hex_value(s[i]) {
            None => Err(IntErrorKind::InvalidDigit),
            Some(x) => if acc * 16 + x > max {
                Err(IntErrorKind::PosOverflow)
            } else {
                parse_hex_digits_from(s, max, acc * 16 + x, i + 1)
            },
        }
    }
}

/// `from_str_radix(s, 16)` for an unsigned type whose largest value is `max`:
/// an optional `+`, then one or more hexadecimal digits of either case.
pub open spec fn spec_parse_hex(s: Seq<char>, max: nat) -> Result<nat, IntErrorKind> {
    if s.len() == 0 {
        Err(IntErrorKind::Empty)
    } else if s.len() == 1 && (s[0] == '+' || s[0] == '-') {
        Err(IntErrorKind::InvalidDigit)
    } else if s[0] == '+' {
        parse_hex_digits_from(s, max, 0, 1)
    } else {
        parse_hex_digits_from(s, max, 0, 0)
    }
}

fn hex_value_exec(c: char) -> (r: Option<u64>)
    ensures
        r matches Some(x) ==> hex_value(c) == Some(x as nat),
        r is None ==> hex_value(c) is None,
{
    let u = c as u32;
    if 48 <= u && u <= 57 {
        Some((u - 48) as u64)
    } else if 97 <= u && u <= 102 {
        Some((u - 87) as u64)
    } else if 65 <= u && u <= 70 {
        Some((u - 55) as u64)
    } else {
        None
    }
}

/// Base-16 parse of `v[lo..hi]` into a value no larger than `max`.
pub fn parse_hex_range(v: &Vec<char>, lo: usize, hi: usize, max: u64) -> (r: Result<u64, IntErrorKind>)
    requires
        lo <= hi <= v.len(),
    ensures
        r matches Ok(x) ==> x <= max && spec_parse_hex(v@.subrange(lo as int, hi as int), max as nat)
            == Ok::<nat, IntErrorKind>(x as nat),
        r matches Err(e) ==> spec_parse_hex(v@.subrange(lo as int, hi as int), max as nat) == Err::<
            nat,
            IntErrorKind,
        >(e),
{
    let ghost s = v@.subrange(lo as int, hi as int);
    if lo == hi {
        return Err(IntErrorKind::Empty);
    }
    if hi - lo == 1 && (v[lo] == '+' || v[lo] == '-') {
        assert(s[0] == v@[lo as int]);
        return Err(IntErrorKind::InvalidDigit);
    }
    assert(s[0] == v@[lo as int]);
    let mut i = if v[lo] == '+' { lo + 1 } else { lo };
    let mut acc: u64 = 0;
    let ghost start = (i - lo) as int;
    assert(spec_parse_hex(s, max as nat) == parse_hex_digits_from(s, max as nat, 0, start));
    while i < hi
        invariant
            lo <= i <= hi <= v.len(),
            s == v@.subrange(lo as int, hi as int),
            acc <= max,
            parse_hex_digits_from(s, max as nat, acc as nat, i - lo) == spec_parse_hex(s, max as nat),
        decreases hi - i,
    {
        assert(s[i - lo] == v@[i as int]);
        match hex_value_exec(v[i]) {
            None => {
                return Err(IntErrorKind::InvalidDigit);
            },
            Some(x) => {
                if x > max || acc > (max - x) / 16 {
                    assert(acc * 16 + x > max) by (nonlinear_arith)
                        requires x > max || acc > (max - x) / 16, x <= max || acc >= 0;
                    return Err(IntErrorKind::PosOverflow);
                }
                assert(acc * 16 + x <= max) by (nonlinear_arith)
                    requires acc <= (max - x) / 16, x <= 15;
                acc = acc * 16 + x;
                i = i + 1;
            },
        }
    }
    Ok(acc)
}


/// `parts.join(sep)`.
pub open spec fn spec_join(parts: Seq<Seq<char>>, sep: Seq<char>) -> Seq<char>
    decreases parts.len(),
{
    if parts.len() == 0 {
        seq![]
    } else if parts.len() == 1 {
        parts[0]
    } else {
        spec_join(parts.drop_last(), sep) + sep + parts.last()
    }
}

/// Joins the strings with a separator.
pub fn join_strings(parts: &Vec<String>, sep: &str) -> (r: String)
    ensures
        r@ == spec_join(parts@.map_values(|p: String| p@), sep@),
{
    let ghost views = parts@.map_values(|p: String| p@);
    let mut r = String::new();
    let mut i: usize = 0;
    while i < parts.len()
        invariant
            i <= parts.len(),
            views == parts@.map_values(|p: String| p@),
            r@ == spec_join(views.take(i as int), sep@),
        decreases parts.len() - i,
    {
        assert(views.take(i + 1).drop_last() =~= views.take(i as int));
        if i > 0 {
            r.append(sep);
        } else {
            assert(r@ + parts[0 as int]@ =~= spec_join(views.take(1), sep@));
        }
        r.append(parts[i].as_str());
        i = i + 1;
    }
    assert(views.take(parts.len() as int) =~= views);
    r
}

pub proof fn lemma_split_ws_skip(s: Seq<char>, i: int)
    requires
        0 <= i <= s.len(),
    ensures
        split_ws_from(s, i) == split_ws_from(s, skip_ws_from(s, i)),
    decreases s.len() - i,
{
    if i < s.len() && is_ws(s[i]) {
        lemma_split_ws_skip(s, i + 1);
    }
}


/// ASCII lower-casing of one character; other characters are unchanged.
pub open spec fn ascii_lower(c: char) -> char {
    if 'A' <= c <= 'Z' {
        ((c as u32) + 32) as char
    } else {
        c
    }
}

/// `str::to_ascii_lowercase`.
pub open spec fn spec_to_ascii_lowercase(s: Seq<char>) -> Seq<char> {
    s.map_values(|c: char| ascii_lower(c))
}

/// `str::eq_ignore_ascii_case`.
pub open spec fn spec_eq_ignore_ascii_case(a: Seq<char>, b: Seq<char>) -> bool {
    a.len() == b.len() && forall|i: int| 0 <= i < a.len() ==> ascii_lower(#[trigger] a[i]) == ascii_lower(b[i])
}

pub fn ascii_lower_char(c: char) -> (r: char)
    ensures
        r == ascii_lower(c),
{
    if 'A' <= c && c <= 'Z' {
        ((c as u32 + 32) as u8) as char
    } else {
        c
    }
}

/// Compares two strings, ignoring ASCII case.
pub fn eq_ignore_ascii_case(a: &str, b: &str) -> (r: bool)
    ensures
        r == spec_eq_ignore_ascii_case(a@, b@),
{
    let va = chars_of(a);
    let vb = chars_of(b);
    if va.len() != vb.len() {
        return false;
    }
    let mut i: usize = 0;
    while i < va.len()
        invariant
            i <= va@.len(),
            va@.len() == vb@.len(),
            va@ == a@,
            vb@ == b@,
            forall|j: int| 0 <= j < i ==> ascii_lower(#[trigger] va@[j]) == ascii_lower(vb@[j]),
        decreases va.len() - i,
    {
        if ascii_lower_char(va[i]) != ascii_lower_char(vb[i]) {
            return false;
        }
        i = i + 1;
    }
    true
}

/// The ASCII-lower-cased copy of a string.
pub fn to_ascii_lowercase(s: &str) -> (r: String)
    ensures
        r@ == spec_to_ascii_lowercase(s@),
{
    let v = chars_of(s);
    let mut r = String::new();
    let mut i: usize = 0;
    while i < v.len()
        invariant
            i <= v@.len(),
            v@ == s@,
            r@ == v@.take(i as int).map_values(|c: char| ascii_lower(c)),
        decreases v.len() - i,
    {
        let c = ascii_lower_char(v[i]);
        push_char(&mut r, c);
        i = i + 1;
        assert(r@ =~= v@.take(i as int).map_values(|c: char| ascii_lower(c)));
    }
    assert(v@.take(i as int) =~= v@);
    r
}


/// Value of a sequence of hexadecimal digits, most significant first.
pub open spec fn hex_digits_value(d: Seq<char>) -> nat
    decreases d.len(),
{
    if d.len() == 0 {
        0
    } else {
        hex_digits_value(d.drop_last()) * 16 + match hex_value(d.last()) {
            Some(x) => x,
            None => 0,
        }
    }
}

/// Every character is a hexadecimal digit.
pub open spec fn all_hex_digits(d: Seq<char>) -> bool {
    forall|i: int| 0 <= i < d.len() ==> (#[trigger] hex_value(d[i])) is Some
}

pub proof fn lemma_hex_digit_value(k: nat)
    requires
        k < 16,
    ensures
        hex_value(hex_digit(k)) == Some(k),
        !is_ws(hex_digit(k)),
        hex_digit(k) != 'x',
        hex_digit(k) != '+',
        hex_digit(k) != '-',
        hex_digit(k) != ':',
        hex_digit(k) == '0' <==> k == 0,
{
}

pub proof fn lemma_spec_hex_digits(n: nat)
    ensures
        all_hex_digits(spec_hex(n)),
        hex_digits_value(spec_hex(n)) == n,
        spec_hex(n).len() >= 1,
        spec_hex(n)[0] == '0' ==> n == 0,
        forall|i: int| 0 <= i < spec_hex(n).len() ==> !is_ws(#[trigger] spec_hex(n)[i]) && spec_hex(n)[i] != 'x',
    decreases n,
{
    if n < 16 {
        lemma_hex_digit_value(n);
        assert(spec_hex(n).drop_last() =~= Seq::<char>::empty());
        assert(hex_digits_value(Seq::<char>::empty()) == 0);
        assert(spec_hex(n).last() == hex_digit(n));
    } else {
        lemma_spec_hex_digits(n / 16);
        lemma_hex_digit_value(n % 16);
        let d = spec_hex(n);
        assert(d.drop_last() =~= spec_hex(n / 16));
        assert forall|i: int| 0 <= i < d.len() implies (#[trigger] hex_value(d[i])) is Some by {
            if i < d.len() - 1 {
                assert(d[i] == spec_hex(n / 16)[i]);
            }
        }
        assert forall|i: int| 0 <= i < d.len() implies !is_ws(#[trigger] d[i]) && d[i] != 'x' by {
            if i < d.len() - 1 {
                assert(d[i] == spec_hex(n / 16)[i]);
            }
        }
        assert(d[0] == spec_hex(n / 16)[0]);
        assert(d.last() == hex_digit(n % 16));
        assert(n == (n / 16) * 16 + n % 16);
    }
}

proof fn lemma_hex_prefix_values(d: Seq<char>, k: int)
    requires
        0 <= k <= d.len(),
        all_hex_digits(d),
    ensures
        hex_digits_value(d.take(k)) <= hex_digits_value(d),
    decreases d.len() - k,
{
    if k < d.len() {
        lemma_hex_prefix_values(d, k + 1);
        assert(d.take(k + 1).drop_last() =~= d.take(k));
    } else {
        assert(d.take(k) =~= d);
    }
}

proof fn lemma_parse_hex_digits_value(d: Seq<char>, max: nat, k: int)
    requires
        0 <= k <= d.len(),
        all_hex_digits(d),
        hex_digits_value(d) <= max,
    ensures
        parse_hex_digits_from(d, max, hex_digits_value(d.take(k)), k) == Ok::<nat, IntErrorKind>(hex_digits_value(d)),
    decreases d.len() - k,
{
    if k < d.len() {
        assert(d.take(k + 1).drop_last() =~= d.take(k));
        assert(d.take(k + 1).last() == d[k]);
        assert(hex_value(d[k]) is Some);
        lemma_hex_prefix_values(d, k + 1);
        lemma_parse_hex_digits_value(d, max, k + 1);
    } else {
        assert(d.take(k) =~= d);
    }
}

/// Hexadecimal digits parse back to their value.
pub proof fn lemma_parse_hex_digits(d: Seq<char>, max: nat)
    requires
        d.len() >= 1,
        all_hex_digits(d),
        hex_digits_value(d) <= max,
    ensures
        spec_parse_hex(d, max) == Ok::<nat, IntErrorKind>(hex_digits_value(d)),
{
    assert(d.take(0) =~= Seq::<char>::empty());
    lemma_parse_hex_digits_value(d, max, 0);
    assert(hex_value(d[0]) is Some);
}

/// `{:x}` output parses back with `from_str_radix(.., 16)`.
pub proof fn lemma_parse_spec_hex(n: nat, max: nat)
    requires
        n <= max,
    ensures
        spec_parse_hex(spec_hex(n), max) == Ok::<nat, IntErrorKind>(n),
{
    lemma_spec_hex_digits(n);
    lemma_parse_hex_digits(spec_hex(n), max);
}

/// Lexicographic order of character sequences by code point, the order of `str`
/// (UTF-8 byte order agrees with code point order).
pub open spec fn chars_lt(a: Seq<char>, b: Seq<char>) -> bool
    decreases a.len(),
{
    if a.len() == 0 {
        b.len() > 0
    } else if b.len() == 0 {
        false
    } else if a[0] != b[0] {
        a[0] < b[0]
    } else {
        chars_lt(a.drop_first(), b.drop_first())
    }
}

/// No sequence is below itself.
pub proof fn lemma_chars_lt_irreflexive(a: Seq<char>)
    ensures
        !chars_lt(a, a),
    decreases a.len(),
{
    if a.len() > 0 {
        lemma_chars_lt_irreflexive(a.drop_first());
    }
}

/// Two different sequences are ordered one way and not the other.
pub proof fn lemma_chars_lt_total(a: Seq<char>, b: Seq<char>)
    ensures
        a != b ==> chars_lt(a, b) || chars_lt(b, a),
        !(chars_lt(a, b) && chars_lt(b, a)),
    decreases a.len(),
{
    if a.len() > 0 && b.len() > 0 {
        if a[0] == b[0] {
            lemma_chars_lt_total(a.drop_first(), b.drop_first());
            if a.drop_first() == b.drop_first() {
                assert(a =~= seq![a[0]] + a.drop_first());
                assert(b =~= seq![b[0]] + b.drop_first());
            }
        }
    } else if a.len() == 0 && b.len() == 0 {
        assert(a =~= b);
    }
}

/// The order is transitive.
pub proof fn lemma_chars_lt_transitive(a: Seq<char>, b: Seq<char>, c: Seq<char>)
    requires
        chars_lt(a, b),
        chars_lt(b, c),
    ensures
        chars_lt(a, c),
    decreases a.len(),
{
    if a.len() > 0 && b.len() > 0 && c.len() > 0 && a[0] == b[0] && b[0] == c[0] {
        lemma_chars_lt_transitive(a.drop_first(), b.drop_first(), c.drop_first());
    }
}

/// Whether `a` comes before `b` in the order of `str`.
pub fn chars_less(a: &Vec<char>, b: &Vec<char>) -> (r: bool)
    ensures
        r == chars_lt(a@, b@),
{
    let mut i: usize = 0;
    assert(a@.skip(0) =~= a@);
    assert(b@.skip(0) =~= b@);
    while i < a.len() && i < b.len()
        invariant
            i <= a@.len(),
            i <= b@.len(),
            chars_lt(a@, b@) == chars_lt(a@.skip(i as int), b@.skip(i as int)),
        decreases a.len() - i,
    {
        assert(a@.skip(i as int)[0] == a@[i as int]);
        assert(b@.skip(i as int)[0] == b@[i as int]);
        if a[i] != b[i] {
            return a[i] < b[i];
        }
        assert(a@.skip(i as int).drop_first() =~= a@.skip(i + 1));
        assert(b@.skip(i as int).drop_first() =~= b@.skip(i + 1));
        i = i + 1;
    }
    i == a.len() && i < b.len()
}

} // verus!
