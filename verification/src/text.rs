//! Text helpers shared by the decoders and the CSV writer: decimal and
//! hexadecimal rendering, fixed-width ASCII name slots, whitespace
//! trimming.
use vstd::prelude::*;

verus! {

// -------- characters and strings --------

/// Whether `c` has the Unicode `White_Space` property (PropList.txt):
/// U+0009..U+000D, U+0020, U+0085, U+00A0, U+1680, U+2000..U+200A,
/// U+2028, U+2029, U+202F, U+205F and U+3000.
pub open spec fn is_white_space(c: char) -> bool {
    let u = c as u32;
    ||| 0x09 <= u <= 0x0d
    ||| u == 0x20
    ||| u == 0x85
    ||| u == 0xa0
    ||| u == 0x1680
    ||| 0x2000 <= u <= 0x200a
    ||| u == 0x2028
    ||| u == 0x2029
    ||| u == 0x202f
    ||| u == 0x205f
    ||| u == 0x3000
}

/// Whether `c` is whitespace, as `char::is_whitespace` decides it: the
/// characters with the Unicode `White_Space` property.
pub(crate) fn char_is_whitespace(c: char) -> (b: bool)
    ensures
        b == is_white_space(c),
{
    let u = c as u32;
    (0x09 <= u && u <= 0x0d) || u == 0x20 || u == 0x85 || u == 0xa0 || u == 0x1680 || (0x2000
        <= u && u <= 0x200a) || u == 0x2028 || u == 0x2029 || u == 0x202f || u == 0x205f || u
        == 0x3000
}

/// `String::push`: appends one character.
#[verifier::external_body]
pub(crate) fn push_char(s: &mut String, c: char)
    ensures
        final(s)@ == old(s)@.push(c),
{
    s.push(c)
}

/// Append a string slice.
pub(crate) fn push_str(s: &mut String, t: &str)
    ensures
        final(s)@ == old(s)@ + t@,
{
    s.append(t)
}

/// Append every character of `t` to `s`.
pub fn push_chars(s: &mut String, t: &Vec<char>)
    ensures
        final(s)@ == old(s)@ + t@,
{
    let mut i: usize = 0;
    while i < t.len()
        invariant
            i <= t@.len(),
            s@ == old(s)@ + t@.take(i as int),
        decreases t@.len() - i,
    {
        push_char(s, t[i]);
        assert(t@.take(i + 1) =~= t@.take(i as int).push(t@[i as int]));
        i = i + 1;
    }
    assert(t@.take(i as int) =~= t@);
}

/// The characters of a string slice, in order.
pub fn str_chars(s: &str) -> (v: Vec<char>)
    ensures
        v@ == s@,
{
    let n = s.unicode_len();
    let mut v: Vec<char> = Vec::new();
    let mut i: usize = 0;
    while i < n
        invariant
            n == s@.len(),
            i <= n,
            v@ == s@.take(i as int),
        decreases n - i,
    {
        v.push(s.get_char(i));
        assert(s@.take(i + 1) =~= s@.take(i as int).push(s@[i as int]));
        i = i + 1;
    }
    assert(s@.take(n as int) =~= s@);
    v
}

/// A `String` holding exactly the characters of `t`.
pub fn string_of(t: &Vec<char>) -> (s: String)
    ensures
        s@ == t@,
{
    let mut s = String::new();
    push_chars(&mut s, t);
    s
}

// -------- numbers --------

/// The decimal digit character for `d` (`0 <= d < 10`).
pub open spec fn digit_char(d: int) -> char {
    (48 + d) as char
}

/// The lower-case hexadecimal digit character for `d` (`0 <= d < 16`).
pub open spec fn hex_digit_char(d: int) -> char {
    if d < 10 {
        (48 + d) as char
    } else {
        (87 + d) as char
    }
}

/// Decimal digits of `n`, most significant first, without leading zeros.
pub open spec fn dec_chars(n: nat) -> Seq<char>
    decreases n,
{
    if n < 10 {
        seq![digit_char(n as int)]
    } else {
        dec_chars(n / 10).push(digit_char((n % 10) as int))
    }
}

/// Lower-case hexadecimal digits of `n`, most significant first.
pub open spec fn hex_chars(n: nat) -> Seq<char>
    decreases n,
{
    if n < 16 {
        seq![hex_digit_char(n as int)]
    } else {
        hex_chars(n / 16).push(hex_digit_char((n % 16) as int))
    }
}

/// `s` left-padded with `'0'` to at least `width` characters.
pub open spec fn zero_pad(s: Seq<char>, width: nat) -> Seq<char> {
    if s.len() >= width {
        s
    } else {
        Seq::new((width - s.len()) as nat, |i: int| '0') + s
    }
}

/// Decimal rendering of `n` zero-padded to `width` (`{:0width}`).
pub open spec fn dec_padded(n: nat, width: nat) -> Seq<char> {
    zero_pad(dec_chars(n), width)
}

/// Lower-case hexadecimal rendering of `n` zero-padded to `width`
/// (`{:0widthx}`).
pub open spec fn hex_padded(n: nat, width: nat) -> Seq<char> {
    zero_pad(hex_chars(n), width)
}

/// Append `width - len` zero characters before `digits` (when `digits`
/// is shorter than `width`), then the digits themselves.
fn push_padded(s: &mut String, digits: &Vec<char>, width: usize)
    ensures
        final(s)@ == old(s)@ + zero_pad(digits@, width as nat),
{
    let mut k: usize = digits.len();
    let ghost start = s@;
    while k < width
        invariant
            digits@.len() <= k,
            k <= width || digits@.len() >= width,
            digits@.len() >= width ==> k == digits@.len(),
            s@ == start + Seq::new((k - digits@.len()) as nat, |i: int| '0'),
        decreases width - k,
    {
        push_char(s, '0');
        assert(Seq::new((k + 1 - digits@.len()) as nat, |i: int| '0') =~= Seq::new(
            (k - digits@.len()) as nat,
            |i: int| '0',
        ).push('0'));
        k = k + 1;
    }
    let ghost padded = s@;
    push_chars(s, digits);
    if digits.len() >= width {
        assert(Seq::new((k - digits@.len()) as nat, |i: int| '0') =~= Seq::<char>::empty());
        assert(s@ =~= start + digits@);
    } else {
        assert(k == width);
        assert(s@ =~= start + (Seq::new((width - digits@.len()) as nat, |i: int| '0') + digits@));
    }
}

/// Decimal digits of `n` as characters.
fn decimal_digits(n: u64) -> (v: Vec<char>)
    ensures
        v@ == dec_chars(n as nat),
{
    let mut rev: Vec<char> = Vec::new();
    let mut m: u64 = n;
    let ghost mut acc: Seq<char> = seq![];
    while m >= 10
        invariant
            dec_chars(n as nat) == dec_chars(m as nat) + acc,
            rev@.len() == acc.len(),
            forall|i: int| 0 <= i < acc.len() ==> #[trigger] acc[i] == rev@[acc.len() - 1 - i],
        decreases m,
    {
        let d = (m % 10) as u8;
        let c = (48u8 + d) as char;
        proof {
            assert(c == digit_char((m % 10) as int));
            assert(dec_chars(m as nat) == dec_chars((m / 10) as nat).push(c));
            assert(dec_chars((m / 10) as nat).push(c) + acc =~= dec_chars((m / 10) as nat) + (
            seq![c] + acc));
            acc = seq![c] + acc;
        }
        rev.push(c);
        m = m / 10;
    }
    let c = (48u8 + m as u8) as char;
    proof {
        assert(dec_chars(m as nat) == seq![c]);
        acc = seq![c] + acc;
    }
    rev.push(c);
    let mut v: Vec<char> = Vec::new();
    let mut i: usize = rev.len();
    while i > 0
        invariant
            i <= rev@.len(),
            rev@.len() == acc.len(),
            forall|j: int| 0 <= j < acc.len() ==> #[trigger] acc[j] == rev@[acc.len() - 1 - j],
            v@ == acc.take(acc.len() - i),
        decreases i,
    {
        i = i - 1;
        v.push(rev[i]);
        assert(acc.take(acc.len() - i) =~= acc.take(acc.len() - i - 1).push(
            acc[acc.len() - 1 - i],
        ));
    }
    assert(acc.take(acc.len() as int) =~= acc);
    v
}

/// Lower-case hexadecimal digits of `n` as characters.
fn hex_digits(n: u64) -> (v: Vec<char>)
    ensures
        v@ == hex_chars(n as nat),
{
    let mut rev: Vec<char> = Vec::new();
    let mut m: u64 = n;
    let ghost mut acc: Seq<char> = seq![];
    while m >= 16
        invariant
            hex_chars(n as nat) == hex_chars(m as nat) + acc,
            rev@.len() == acc.len(),
            forall|i: int| 0 <= i < acc.len() ==> #[trigger] acc[i] == rev@[acc.len() - 1 - i],
        decreases m,
    {
        let d = (m % 16) as u8;
        let c = if d < 10 {
            (48u8 + d) as char
        } else {
            (87u8 + d) as char
        };
        proof {
            assert(c == hex_digit_char((m % 16) as int));
            assert(hex_chars(m as nat) == hex_chars((m / 16) as nat).push(c));
            assert(hex_chars((m / 16) as nat).push(c) + acc =~= hex_chars((m / 16) as nat) + (
            seq![c] + acc));
            acc = seq![c] + acc;
        }
        rev.push(c);
        m = m / 16;
    }
    let d = m as u8;
    let c = if d < 10 {
        (48u8 + d) as char
    } else {
        (87u8 + d) as char
    };
    proof {
        assert(hex_chars(m as nat) == seq![c]);
        acc = seq![c] + acc;
    }
    rev.push(c);
    let mut v: Vec<char> = Vec::new();
    let mut i: usize = rev.len();
    while i > 0
        invariant
            i <= rev@.len(),
            rev@.len() == acc.len(),
            forall|j: int| 0 <= j < acc.len() ==> #[trigger] acc[j] == rev@[acc.len() - 1 - j],
            v@ == acc.take(acc.len() - i),
        decreases i,
    {
        i = i - 1;
        v.push(rev[i]);
        assert(acc.take(acc.len() - i) =~= acc.take(acc.len() - i - 1).push(
            acc[acc.len() - 1 - i],
        ));
    }
    assert(acc.take(acc.len() as int) =~= acc);
    v
}

/// Append `n` in decimal, zero-padded to `width` (`{n:0width}`).
pub fn push_decimal(s: &mut String, n: u64, width: usize)
    ensures
        final(s)@ == old(s)@ + dec_padded(n as nat, width as nat),
{
    let digits = decimal_digits(n);
    push_padded(s, &digits, width);
}

/// Append `n` in lower-case hexadecimal, zero-padded to `width`
/// (`{n:0widthx}`).
pub fn push_hex(s: &mut String, n: u64, width: usize)
    ensures
        final(s)@ == old(s)@ + hex_padded(n as nat, width as nat),
{
    let digits = hex_digits(n);
    push_padded(s, &digits, width);
}

// -------- fixed-width name slots --------

/// The bytes of a name slot up to (not including) the first NUL or
/// `0xFF`.
pub open spec fn until_terminator(bytes: Seq<u8>) -> Seq<u8>
    decreases bytes.len(),
{
    if bytes.len() == 0 || bytes[0] == 0 || bytes[0] == 0xFF {
        seq![]
    } else {
        seq![bytes[0]] + until_terminator(bytes.drop_first())
    }
}

/// Each byte read as the Latin-1 character of the same code point.
pub open spec fn latin1(bytes: Seq<u8>) -> Seq<char> {
    Seq::new(bytes.len(), |i: int| bytes[i] as char)
}

/// `s` without its leading whitespace.
pub open spec fn trim_start(s: Seq<char>) -> Seq<char>
    decreases s.len(),
{
    if s.len() > 0 && is_white_space(s[0]) {
        trim_start(s.drop_first())
    } else {
        s
    }
}

/// `s` without its trailing whitespace.
pub open spec fn trim_end(s: Seq<char>) -> Seq<char>
    decreases s.len(),
{
    if s.len() > 0 && is_white_space(s.last()) {
        trim_end(s.drop_last())
    } else {
        s
    }
}

/// `s` without leading and trailing whitespace (`str::trim`).
pub open spec fn trim(s: Seq<char>) -> Seq<char> {
    trim_end(trim_start(s))
}

/// The text of a fixed-width name slot: the bytes before the first NUL
/// or `0xFF`, as Latin-1 characters, with surrounding whitespace
/// trimmed.
pub open spec fn slot_text(bytes: Seq<u8>) -> Seq<char> {
    trim(latin1(until_terminator(bytes)))
}

/// Length of the part of `bytes` before the first NUL or `0xFF`.
fn terminator_index(bytes: &[u8]) -> (k: usize)
    ensures
        k <= bytes@.len(),
        until_terminator(bytes@) == bytes@.take(k as int),
{
    let mut k: usize = 0;
    assert(bytes@.skip(0) =~= bytes@);
    assert(bytes@.take(0) + bytes@ =~= bytes@);
    while k < bytes.len() && bytes[k] != 0 && bytes[k] != 0xFF
        invariant
            k <= bytes@.len(),
            until_terminator(bytes@) == bytes@.take(k as int) + until_terminator(
                bytes@.skip(k as int),
            ),
        decreases bytes@.len() - k,
    {
        let ghost rest = bytes@.skip(k as int);
        assert(rest.drop_first() =~= bytes@.skip(k + 1));
        assert(bytes@.take(k as int) + seq![bytes@[k as int]] =~= bytes@.take(k + 1));
        k = k + 1;
    }
    assert(until_terminator(bytes@.skip(k as int)) =~= Seq::<u8>::empty());
    assert(bytes@.take(k as int) + Seq::<u8>::empty() =~= bytes@.take(k as int));
    k
}

proof fn lemma_trim_start_skip(s: Seq<char>, a: int)
    requires
        0 <= a <= s.len(),
        forall|j: int| 0 <= j < a ==> is_white_space(#[trigger] s[j]),
        a == s.len() || !is_white_space(s[a]),
    ensures
        trim_start(s) == s.skip(a),
    decreases a,
{
    if a == 0 {
        assert(s.skip(0) =~= s);
    } else {
        let t = s.drop_first();
        assert forall|j: int| 0 <= j < a - 1 implies is_white_space(#[trigger] t[j]) by {
            assert(t[j] == s[j + 1]);
        }
        if a < s.len() {
            assert(t[a - 1] == s[a]);
        }
        lemma_trim_start_skip(t, a - 1);
        assert(t.skip(a - 1) =~= s.skip(a));
    }
}

proof fn lemma_trim_end_take(s: Seq<char>, b: int)
    requires
        0 <= b <= s.len(),
        forall|j: int| b <= j < s.len() ==> is_white_space(#[trigger] s[j]),
        b == 0 || !is_white_space(s[b - 1]),
    ensures
        trim_end(s) == s.take(b),
    decreases s.len() - b,
{
    if b == s.len() {
        assert(s.take(b) =~= s);
    } else {
        let t = s.drop_last();
        assert forall|j: int| b <= j < t.len() implies is_white_space(#[trigger] t[j]) by {
            assert(t[j] == s[j]);
        }
        lemma_trim_end_take(t, b);
        assert(t.take(b) =~= s.take(b));
    }
}

/// `s` without leading and trailing whitespace.
pub fn trim_chars(s: &Vec<char>) -> (t: Vec<char>)
    ensures
        t@ == trim(s@),
{
    let n = s.len();
    let mut a: usize = 0;
    while a < n && char_is_whitespace(s[a])
        invariant
            n == s@.len(),
            a <= n,
            forall|j: int| 0 <= j < a ==> is_white_space(#[trigger] s@[j]),
        decreases n - a,
    {
        a = a + 1;
    }
    proof {
        lemma_trim_start_skip(s@, a as int);
    }
    let ghost u = s@.skip(a as int);
    let mut b: usize = n;
    while b > a && char_is_whitespace(s[b - 1])
        invariant
            n == s@.len(),
            a <= b <= n,
            forall|j: int| b <= j < n ==> is_white_space(#[trigger] s@[j]),
        decreases b,
    {
        b = b - 1;
    }
    proof {
        assert forall|j: int| b - a <= j < u.len() implies is_white_space(#[trigger] u[j]) by {
            assert(u[j] == s@[j + a]);
        }
        if b > a {
            assert(u[b - a - 1] == s@[b - 1]);
        }
        lemma_trim_end_take(u, b - a);
    }
    let mut t: Vec<char> = Vec::new();
    let mut i: usize = a;
    while i < b
        invariant
            n == s@.len(),
            a <= i <= b <= n,
            t@ == s@.subrange(a as int, i as int),
        decreases b - i,
    {
        t.push(s[i]);
        assert(s@.subrange(a as int, i + 1) =~= s@.subrange(a as int, i as int).push(s@[i as int]));
        i = i + 1;
    }
    assert(t@ =~= u.take(b - a));
    t
}

/// The trimmed Latin-1 text of a fixed-width, NUL/`0xFF`-terminated
/// name slot.
pub fn slot_text_of(bytes: &[u8]) -> (s: String)
    ensures
        s@ == slot_text(bytes@),
{
    let k = terminator_index(bytes);
    let mut raw: Vec<char> = Vec::new();
    let mut i: usize = 0;
    while i < k
        invariant
            k <= bytes@.len(),
            i <= k,
            raw@ == latin1(bytes@.take(i as int)),
        decreases k - i,
    {
        raw.push(bytes[i] as char);
        assert(latin1(bytes@.take(i + 1)) =~= latin1(bytes@.take(i as int)).push(
            bytes@[i as int] as char,
        ));
        i = i + 1;
    }
    let t = trim_chars(&raw);
    string_of(&t)
}

} // verus!
