//! Character-level string building blocks: decimal rendering, padding, joining,
//! splitting, trimming and decimal parsing.

use vstd::prelude::*;
use vstd::string::*;
use vstd::utf8::*;

verus! {

/// Appends one character to a string.
///
/// Calls `String::push`, which std documents as appending the given `char`
/// to the end of the string; the contract says exactly that.
#[verifier::external_body]
pub(crate) fn push_char(s: &mut String, c: char)
    ensures
        final(s)@ == old(s)@.push(c),
{
    s.push(c);
}

/// The character of a decimal digit `0..=9`.
pub open spec fn digit_char(d: int) -> char {
    (d + 48) as char
}

/// Decimal rendering of a natural number, most significant digit first,
/// without leading zeros (`0` renders as `"0"`).
pub open spec fn decimal(n: nat) -> Seq<char>
    decreases n,
{
    if n < 10 {
        seq![digit_char(n as int)]
    } else {
        decimal(n / 10).push(digit_char((n % 10) as int))
    }
}

/// Decimal rendering of an integer: a `-` before the digits of a negative value.
pub open spec fn signed_decimal(n: int) -> Seq<char> {
    if n < 0 {
        seq!['-'] + decimal((-n) as nat)
    } else {
        decimal(n as nat)
    }
}

/// `k` copies of `c`.
pub open spec fn repeat_char(c: char, k: int) -> Seq<char> {
    Seq::new(if k < 0 { 0 } else { k as nat }, |_i: int| c)
}

/// An unsigned value rendered at least `width` characters wide, filled with
/// leading zeros (what `{:0width$}` writes for an unsigned value).
pub open spec fn zero_padded(n: nat, width: int) -> Seq<char> {
    repeat_char('0', width - decimal(n).len()) + decimal(n)
}

/// A signed value rendered at least `width` characters wide: the sign first,
/// then zeros, then the digits, the sign counting toward the width
/// (what `{:0width$}` writes for a signed value).
pub open spec fn signed_zero_padded(n: int, width: int) -> Seq<char> {
    if n < 0 {
        seq!['-'] + repeat_char('0', width - 1 - decimal((-n) as nat).len()) + decimal(
            (-n) as nat,
        )
    } else {
        zero_padded(n as nat, width)
    }
}

/// A text right-aligned in a field of `width` characters, filled with spaces
/// on the left (what `{:>width$}` writes).
pub open spec fn right_aligned(t: Seq<char>, width: int) -> Seq<char> {
    repeat_char(' ', width - t.len()) + t
}

/// `10^k`.
pub open spec fn pow10(k: nat) -> nat
    decreases k,
{
    if k == 0 {
        1
    } else {
        10 * pow10((k - 1) as nat)
    }
}

/// A value below `10^k` has at most `k` digits.
pub proof fn lemma_decimal_len_bound(n: nat, k: nat)
    requires
        1 <= k,
        n < pow10(k),
    ensures
        decimal(n).len() <= k,
    decreases n,
{
    if n >= 10 {
        assert(k >= 2) by {
            if k == 1 {
                assert(pow10(1) == 10 * pow10(0));
            }
        }
        assert(pow10(k) == 10 * pow10((k - 1) as nat));
        assert(n / 10 < pow10((k - 1) as nat)) by (nonlinear_arith)
            requires
                n < 10 * pow10((k - 1) as nat),
        ;
        lemma_decimal_len_bound(n / 10, (k - 1) as nat);
    }
}

pub proof fn lemma_pow10_20()
    ensures
        pow10(20) == 100000000000000000000,
{
    reveal_with_fuel(pow10, 21);
}

pub proof fn lemma_decimal_len(n: nat)
    ensures
        decimal(n).len() >= 1,
        n < 10 ==> decimal(n).len() == 1,
        n >= 10 ==> decimal(n).len() == decimal(n / 10).len() + 1,
    decreases n,
{
    if n >= 10 {
        lemma_decimal_len(n / 10);
    }
}

fn digit_to_char(d: u64) -> (c: char)
    requires
        d < 10,
    ensures
        c == digit_char(d as int),
{
    ((d as u8) + 48) as char
}

/// Appends the decimal digits of `n`.
pub fn push_decimal(s: &mut String, n: u64)
    ensures
        final(s)@ == old(s)@ + decimal(n as nat),
    decreases n,
{
    if n >= 10 {
        push_decimal(s, n / 10);
    }
    push_char(s, digit_to_char(n % 10));
    proof {
        assert(n / 10 == (n as nat) / 10);
    }
}

/// Number of decimal digits of `n`.
pub fn decimal_len(n: u64) -> (len: usize)
    ensures
        len == decimal(n as nat).len(),
        1 <= len <= 20,
    decreases n,
{
    proof {
        lemma_decimal_len(n as nat);
        lemma_pow10_20();
        lemma_decimal_len_bound(n as nat, 20);
    }
    if n < 10 {
        1
    } else {
        decimal_len(n / 10) + 1
    }
}

/// Appends `k` copies of `c`.
pub fn push_repeated(s: &mut String, c: char, k: usize)
    ensures
        final(s)@ == old(s)@ + repeat_char(c, k as int),
{
    let mut i: usize = 0;
    while i < k
        invariant
            i <= k,
            s@ == old(s)@ + repeat_char(c, i as int),
        decreases k - i,
    {
        push_char(s, c);
        i = i + 1;
        assert(s@ =~= old(s)@ + repeat_char(c, i as int));
    }
}

/// Appends `n` rendered with leading zeros to at least `width` characters.
pub fn push_zero_padded(s: &mut String, n: u64, width: usize)
    ensures
        final(s)@ == old(s)@ + zero_padded(n as nat, width as int),
{
    let len = decimal_len(n);
    if len < width {
        push_repeated(s, '0', width - len);
    } else {
        assert(repeat_char('0', width - len) =~= Seq::<char>::empty());
    }
    push_decimal(s, n);
    assert(s@ =~= old(s)@ + zero_padded(n as nat, width as int));
}

/// Magnitude of a signed 64-bit value.
pub fn magnitude(n: i64) -> (m: u64)
    ensures
        m as int == if n < 0 { -n } else { n as int },
{
    if n < 0 {
        (-(n as i128)) as u64
    } else {
        n as u64
    }
}

/// Appends the signed decimal rendering of `n`.
pub fn push_signed_decimal(s: &mut String, n: i64)
    ensures
        final(s)@ == old(s)@ + signed_decimal(n as int),
{
    if n < 0 {
        push_char(s, '-');
    }
    push_decimal(s, magnitude(n));
    assert(s@ =~= old(s)@ + signed_decimal(n as int));
}

/// Appends `n` rendered with a sign (when negative) and leading zeros to at
/// least `width` characters.
pub fn push_signed_zero_padded(s: &mut String, n: i64, width: usize)
    ensures
        final(s)@ == old(s)@ + signed_zero_padded(n as int, width as int),
{
    let m = magnitude(n);
    if n < 0 {
        push_char(s, '-');
        let len = decimal_len(m);
        if width > 1 && len < width - 1 {
            push_repeated(s, '0', width - 1 - len);
        } else {
            assert(repeat_char('0', width - 1 - len) =~= Seq::<char>::empty());
        }
        push_decimal(s, m);
    } else {
        push_zero_padded(s, m, width);
    }
    assert(s@ =~= old(s)@ + signed_zero_padded(n as int, width as int));
}

/// Appends the decimal rendering of `n`, right-aligned in `width` characters.
pub fn push_right_aligned_decimal(s: &mut String, n: u64, width: usize)
    ensures
        final(s)@ == old(s)@ + right_aligned(decimal(n as nat), width as int),
{
    let len = decimal_len(n);
    if len < width {
        push_repeated(s, ' ', width - len);
    } else {
        assert(repeat_char(' ', width - len) =~= Seq::<char>::empty());
    }
    push_decimal(s, n);
    assert(s@ =~= old(s)@ + right_aligned(decimal(n as nat), width as int));
}


/// The character contents of each string of a sequence.
pub open spec fn views(v: Seq<String>) -> Seq<Seq<char>> {
    v.map_values(|x: String| x@)
}

/// The pieces joined with `sep` between consecutive pieces (what
/// `[String]::join(sep)` builds).
pub open spec fn join_with(items: Seq<Seq<char>>, sep: Seq<char>) -> Seq<char>
    decreases items.len(),
{
    if items.len() == 0 {
        seq![]
    } else if items.len() == 1 {
        items[0]
    } else {
        join_with(items.drop_last(), sep) + sep + items.last()
    }
}

/// Joins strings with a separator.
pub fn join(items: &Vec<String>, sep: &str) -> (r: String)
    ensures
        r@ == join_with(views(items@), sep@),
{
    let mut r = String::new();
    let n = items.len();
    let mut i: usize = 0;
    while i < n
        invariant
            n == items.len(),
            i <= n,
            r@ == join_with(views(items@).take(i as int), sep@),
        decreases n - i,
    {
        let ghost before = views(items@).take(i as int);
        assert(views(items@).take((i + 1) as int).drop_last() =~= before);
        if i > 0 {
            r.append(sep);
        } else {
            assert(before =~= Seq::<Seq<char>>::empty());
        }
        r.append(items[i].as_str());
        i = i + 1;
        assert(r@ =~= join_with(views(items@).take(i as int), sep@));
    }
    assert(views(items@).take(n as int) =~= views(items@));
    r
}

/// The pieces of `s` between occurrences of `sep`, in order (what
/// `str::split` yields for a single-character pattern). There is always at
/// least one piece; adjacent separators give empty pieces.
pub open spec fn split_on(s: Seq<char>, sep: char) -> Seq<Seq<char>>
    decreases s.len(),
{
    if s.len() == 0 {
        seq![seq![]]
    } else {
        let prev = split_on(s.drop_last(), sep);
        if s.last() == sep {
            prev.push(seq![])
        } else {
            prev.update(prev.len() - 1, prev.last().push(s.last()))
        }
    }
}

pub proof fn lemma_split_on_nonempty(s: Seq<char>, sep: char)
    ensures
        split_on(s, sep).len() >= 1,
    decreases s.len(),
{
    if s.len() > 0 {
        lemma_split_on_nonempty(s.drop_last(), sep);
    }
}

/// Splits `s` at every occurrence of `sep`.
pub fn split_at_char(s: &str, sep: char) -> (parts: Vec<String>)
    ensures
        parts.len() == split_on(s@, sep).len(),
        forall|k: int| 0 <= k < parts.len() ==> #[trigger] parts[k]@ == split_on(s@, sep)[k],
{
    let n = s.unicode_len();
    let mut parts: Vec<String> = Vec::new();
    let mut start: usize = 0;
    let mut i: usize = 0;
    proof {
        assert(s@.take(0) =~= Seq::<char>::empty());
    }
    while i < n
        invariant
            n == s@.len(),
            start <= i <= n,
            parts.len() + 1 == split_on(s@.take(i as int), sep).len(),
            forall|k: int|
                0 <= k < parts.len() ==> #[trigger] parts[k]@ == split_on(s@.take(i as int), sep)[k],
            split_on(s@.take(i as int), sep).last() == s@.subrange(start as int, i as int),
        decreases n - i,
    {
        let c = s.get_char(i);
        proof {
            lemma_split_on_nonempty(s@.take(i as int), sep);
            assert(s@.take(i + 1).drop_last() =~= s@.take(i as int));
            assert(s@.take(i + 1).last() == c);
        }
        if c == sep {
            let piece = s.substring_char(start, i).to_owned();
            parts.push(piece);
            start = i + 1;
            i = i + 1;
            assert(s@.subrange(start as int, i as int) =~= Seq::<char>::empty());
        } else {
            i = i + 1;
            assert(s@.subrange(start as int, i as int) =~= s@.subrange(
                start as int,
                i - 1,
            ).push(c));
        }
    }
    let last = s.substring_char(start, n).to_owned();
    parts.push(last);
    proof {
        assert(s@.take(n as int) =~= s@);
    }
    parts
}

/// The characters that have the Unicode `White_Space` property, which is
/// what `char::is_whitespace` tests.
pub open spec fn is_white_space(c: char) -> bool {
    let u = c as u32;
    ||| 9 <= u <= 13
    ||| u == 32
    ||| u == 0x85
    ||| u == 0xA0
    ||| u == 0x1680
    ||| 0x2000 <= u <= 0x200A
    ||| u == 0x2028
    ||| u == 0x2029
    ||| u == 0x202F
    ||| u == 0x205F
    ||| u == 0x3000
}

pub fn white_space(c: char) -> (b: bool)
    ensures
        b == is_white_space(c),
{
    let u = c as u32;
    (9 <= u && u <= 13) || u == 32 || u == 0x85 || u == 0xA0 || u == 0x1680 || (0x2000 <= u
        && u <= 0x200A) || u == 0x2028 || u == 0x2029 || u == 0x202F || u == 0x205F || u
        == 0x3000
}

/// `s` without its leading white space.
pub open spec fn trim_start(s: Seq<char>) -> Seq<char>
    decreases s.len(),
{
    if s.len() > 0 && is_white_space(s[0]) {
        trim_start(s.drop_first())
    } else {
        s
    }
}

/// `s` without its trailing white space.
pub open spec fn trim_end(s: Seq<char>) -> Seq<char>
    decreases s.len(),
{
    if s.len() > 0 && is_white_space(s.last()) {
        trim_end(s.drop_last())
    } else {
        s
    }
}

/// `s` without leading and trailing white space (what `str::trim` returns).
pub open spec fn trimmed(s: Seq<char>) -> Seq<char> {
    trim_end(trim_start(s))
}

/// Removes leading and trailing white space.
pub fn trim(s: &str) -> (r: String)
    ensures
        r@ == trimmed(s@),
{
    let n = s.unicode_len();
    let mut i: usize = 0;
    assert(s@.subrange(0, n as int) =~= s@);
    while i < n && white_space(s.get_char(i))
        invariant
            n == s@.len(),
            i <= n,
            trim_start(s@) == trim_start(s@.subrange(i as int, n as int)),
        decreases n - i,
    {
        assert(s@.subrange(i as int, n as int).drop_first() =~= s@.subrange(i + 1, n as int));
        i = i + 1;
    }
    assert(trim_start(s@) == s@.subrange(i as int, n as int));
    let mut j: usize = n;
    while j > i && white_space(s.get_char(j - 1))
        invariant
            n == s@.len(),
            i <= j <= n,
            trimmed(s@) == trim_end(s@.subrange(i as int, j as int)),
        decreases j - i,
    {
        assert(s@.subrange(i as int, j as int).drop_last() =~= s@.subrange(i as int, j - 1));
        j = j - 1;
    }
    assert(trimmed(s@) == s@.subrange(i as int, j as int));
    s.substring_char(i, j).to_owned()
}

/// Upper-case form of an ASCII letter; every other character is unchanged.
pub open spec fn ascii_upper(c: char) -> char {
    if 'a' <= c <= 'z' {
        ((c as u32) - 32) as char
    } else {
        c
    }
}

pub open spec fn ascii_uppercase(s: Seq<char>) -> Seq<char> {
    s.map_values(|c: char| ascii_upper(c))
}

/// Converts the ASCII letters of `s` to upper case.
pub fn to_ascii_uppercase(s: &str) -> (r: String)
    ensures
        r@ == ascii_uppercase(s@),
{
    let n = s.unicode_len();
    let mut r = String::new();
    let mut i: usize = 0;
    while i < n
        invariant
            n == s@.len(),
            i <= n,
            r@ == ascii_uppercase(s@.take(i as int)),
        decreases n - i,
    {
        let c = s.get_char(i);
        let u = if 'a' <= c && c <= 'z' {
            ((c as u32) - 32) as u8 as char
        } else {
            c
        };
        push_char(&mut r, u);
        i = i + 1;
        assert(r@ =~= ascii_uppercase(s@.take(i as int)));
    }
    assert(s@.take(n as int) =~= s@);
    r
}


pub open spec fn is_digit(c: char) -> bool {
    '0' <= c <= '9'
}

pub open spec fn digit_value(c: char) -> nat {
    ((c as u32) - 48) as nat
}

/// Value of a string of decimal digits (0 for the empty string).
pub open spec fn digits_value(s: Seq<char>) -> nat
    decreases s.len(),
{
    if s.len() == 0 {
        0
    } else {
        digits_value(s.drop_last()) * 10 + digit_value(s.last())
    }
}

pub open spec fn all_digits(s: Seq<char>) -> bool {
    forall|i: int| 0 <= i < s.len() ==> is_digit(#[trigger] s[i])
}

/// What `str::parse` gives for an integer type whose values are `lo..=hi`:
/// an optional `+` (or, for a type with negative values, `-`), then one or
/// more ASCII digits whose value lies in the type's range. Anything else,
/// including surrounding white space, is refused (`None`).
pub open spec fn parse_int_spec(s: Seq<char>, lo: int, hi: int) -> Option<int> {
    if s.len() == 0 {
        None
    } else {
        let negative = s[0] == '-' && lo < 0;
        let digits = if s[0] == '+' || negative {
            s.drop_first()
        } else {
            s
        };
        let v = if negative {
            -(digits_value(digits) as int)
        } else {
            digits_value(digits) as int
        };
        if digits.len() > 0 && all_digits(digits) && lo <= v <= hi {
            Some(v)
        } else {
            None
        }
    }
}

/// Parses an integer of the type whose values are `lo..=hi`, as `str::parse`
/// does for Rust's integer types.
pub fn parse_integer(s: &str, lo: i128, hi: i128) -> (r: Option<i128>)
    requires
        -0x1_0000_0000_0000_0000 <= lo <= 0 <= hi <= 0x1_0000_0000_0000_0000,
    ensures
        r matches Some(v) ==> parse_int_spec(s@, lo as int, hi as int) == Some(v as int),
        r is None ==> parse_int_spec(s@, lo as int, hi as int) is None,
{
    let n = s.unicode_len();
    if n == 0 {
        return None;
    }
    let first = s.get_char(0);
    let negative = first == '-' && lo < 0;
    let k: usize = if first == '+' || negative {
        1
    } else {
        0
    };
    let ghost digits = s@.subrange(k as int, n as int);
    assert(first == s@[0]);
    proof {
        if k == 1 {
            assert(digits =~= s@.drop_first());
        } else {
            assert(digits =~= s@);
        }
    }
    if k >= n {
        return None;
    }
    let cap: u128 = 0x2_0000_0000_0000_0000;
    let mut acc: u128 = 0;
    let mut big = false;
    let mut i: usize = k;
    assert(digits.take(0) =~= Seq::<char>::empty());
    while i < n
        invariant
            n == s@.len(),
            k <= i <= n,
            digits == s@.subrange(k as int, n as int),
            n > 0,
            negative == (s@[0] == '-' && lo < 0),
            digits == (if s@[0] == '+' || negative {
                s@.drop_first()
            } else {
                s@
            }),
            all_digits(digits.take(i - k)),
            !big ==> acc == digits_value(digits.take(i - k)) && acc <= cap,
            big ==> digits_value(digits.take(i - k)) > cap,
            cap == 0x2_0000_0000_0000_0000,
        decreases n - i,
    {
        let c = s.get_char(i);
        let ghost t = digits.take(i - k);
        let ghost t1 = digits.take(i - k + 1);
        assert(t1.drop_last() =~= t);
        assert(t1.last() == c);
        if !('0' <= c && c <= '9') {
            assert(!is_digit(t1.last()));
            assert(!all_digits(digits)) by {
                assert(digits[i - k] == c);
            }
            assert(parse_int_spec(s@, lo as int, hi as int) is None);
            return None;
        }
        let d = ((c as u32) - 48) as u128;
        if !big {
            let next = acc * 10 + d;
            if next > cap {
                big = true;
            } else {
                acc = next;
            }
        }
        i = i + 1;
        assert(all_digits(digits.take(i - k))) by {
            assert forall|j: int| 0 <= j < digits.take(i - k).len() implies is_digit(
                #[trigger] digits.take(i - k)[j],
            ) by {
                if j < t.len() {
                    assert(digits.take(i - k)[j] == t[j]);
                }
            }
        }
    }
    assert(digits.take(n - k) =~= digits);
    if big {
        return None;
    }
    if negative {
        let v = -(acc as i128);
        if lo <= v {
            Some(v)
        } else {
            None
        }
    } else {
        if acc <= hi as u128 {
            Some(acc as i128)
        } else {
            None
        }
    }
}


/// The characters whose UTF-8 encoding is bytes `from..to` of the encoding
/// of `s` (what the byte-indexed slice `&s[from..to]` holds).
pub open spec fn byte_range_text(s: Seq<char>, from: int, to: int) -> Seq<char> {
    decode_utf8(encode_utf8(s).subrange(from, to))
}

/// Whether `&s[from..to]` is a valid slice: both ends on character boundaries
/// of the UTF-8 encoding and in order.
pub open spec fn byte_range_ok(s: Seq<char>, from: int, to: int) -> bool {
    &&& from <= to
    &&& is_char_boundary(encode_utf8(s), from)
    &&& is_char_boundary(encode_utf8(s), to)
}

/// Every index of an ASCII text is a character boundary.
pub proof fn lemma_ascii_boundaries(s: Seq<char>, i: int)
    requires
        is_ascii_chars(s),
        0 <= i <= s.len(),
    ensures
        is_char_boundary(encode_utf8(s), i),
        encode_utf8(s).len() == s.len(),
{
    broadcast use encode_utf8_valid_utf8, is_ascii_chars_encode_utf8;

    let b = encode_utf8(s);
    if i == s.len() {
        is_char_boundary_start_end_of_seq(b);
    } else {
        is_char_boundary_iff_not_is_continuation_byte(b, i);
        assert(s[i] as u8 == b[i]);
    }
}

/// On an ASCII text the byte range `from..to` holds exactly characters
/// `from..to`.
pub proof fn lemma_ascii_byte_range(s: Seq<char>, from: int, to: int)
    requires
        is_ascii_chars(s),
        0 <= from <= to <= s.len(),
    ensures
        byte_range_text(s, from, to) == s.subrange(from, to),
{
    broadcast use is_ascii_chars_encode_utf8, encode_utf8_decode_utf8;

    let t = s.subrange(from, to);
    assert(is_ascii_chars(t));
    assert(encode_utf8(s).subrange(from, to) =~= encode_utf8(t)) by {
        assert forall|i: int| 0 <= i < to - from implies encode_utf8(s).subrange(from, to)[i]
            == encode_utf8(t)[i] by {
            assert(s[from + i] as u8 == encode_utf8(s)[from + i]);
            assert(t[i] as u8 == encode_utf8(t)[i]);
        }
    }
}

/// The byte-indexed slice `&s[from..to]`.
pub fn byte_slice(s: &str, from: usize, to: usize) -> (r: &str)
    requires
        byte_range_ok(s@, from as int, to as int),
    ensures
        r@ == byte_range_text(s@, from as int, to as int),
{
    broadcast use encode_utf8_valid_utf8, encode_utf8_decode_utf8;

    let ghost b = encode_utf8(s@);
    proof {
        valid_utf8_split(b, to as int);
        let a = b.subrange(0, to as int);
        if from < to {
            is_char_boundary_iff_not_is_continuation_byte(b, from as int);
            is_char_boundary_iff_not_is_continuation_byte(a, from as int);
        } else {
            is_char_boundary_start_end_of_seq(a);
        }
    }
    let (a, _) = s.split_at(to);
    let (_, r) = a.split_at(from);
    proof {
        assert(r.spec_bytes() =~= b.subrange(from as int, to as int));
    }
    r
}


/// Whether two strings hold the same characters.
pub fn same_text(a: &str, b: &str) -> (r: bool)
    ensures
        r == (a@ == b@),
{
    let n = a.unicode_len();
    if n != b.unicode_len() {
        return false;
    }
    let mut i: usize = 0;
    while i < n
        invariant
            n == a@.len(),
            n == b@.len(),
            i <= n,
            forall|j: int| 0 <= j < i ==> a@[j] == b@[j],
        decreases n - i,
    {
        if a.get_char(i) != b.get_char(i) {
            return false;
        }
        i = i + 1;
    }
    assert(a@ =~= b@);
    true
}

pub open spec fn min_int(a: int, b: int) -> int {
    if a <= b {
        a
    } else {
        b
    }
}


/// Lower-case form of an ASCII letter; every other character is unchanged.
pub open spec fn ascii_lower(c: char) -> char {
    if 'A' <= c <= 'Z' {
        ((c as u32) + 32) as char
    } else {
        c
    }
}

pub open spec fn ascii_lowercase(s: Seq<char>) -> Seq<char> {
    s.map_values(|c: char| ascii_lower(c))
}

/// Converts the ASCII letters of `s` to lower case.
pub fn to_ascii_lowercase(s: &str) -> (r: String)
    ensures
        r@ == ascii_lowercase(s@),
{
    let n = s.unicode_len();
    let mut r = String::new();
    let mut i: usize = 0;
    while i < n
        invariant
            n == s@.len(),
            i <= n,
            r@ == ascii_lowercase(s@.take(i as int)),
        decreases n - i,
    {
        let c = s.get_char(i);
        let l = if 'A' <= c && c <= 'Z' {
            ((c as u32) + 32) as u8 as char
        } else {
            c
        };
        push_char(&mut r, l);
        i = i + 1;
        assert(r@ =~= ascii_lowercase(s@.take(i as int)));
    }
    assert(s@.take(n as int) =~= s@);
    r
}


/// A text without `sep` is a single piece.
pub proof fn lemma_split_without_separator(s: Seq<char>, sep: char)
    requires
        !s.contains(sep),
    ensures
        split_on(s, sep) == seq![s],
    decreases s.len(),
{
    if s.len() > 0 {
        let init = s.drop_last();
        assert(!init.contains(sep)) by {
            if init.contains(sep) {
                let i = choose|i: int| 0 <= i < init.len() && init[i] == sep;
                assert(s[i] == sep);
            }
        }
        lemma_split_without_separator(init, sep);
        assert(s.last() != sep) by {
            assert(s[s.len() - 1] == s.last());
        }
        assert(init.push(s.last()) =~= s);
        assert(seq![init].update(0, init.push(s.last())) =~= seq![s]);
    } else {
        assert(s =~= Seq::<char>::empty());
    }
}

/// Splitting `a`, `sep`, `b` where `b` holds no `sep` gives the pieces of
/// `a` followed by `b`.
pub proof fn lemma_split_after_separator(a: Seq<char>, b: Seq<char>, sep: char)
    requires
        !b.contains(sep),
    ensures
        split_on(a + seq![sep] + b, sep) == split_on(a, sep).push(b),
    decreases b.len(),
{
    if b.len() == 0 {
        assert(a + seq![sep] + b =~= a.push(sep));
        assert((a.push(sep)).drop_last() =~= a);
        assert(b =~= Seq::<char>::empty());
    } else {
        let init = b.drop_last();
        assert(!init.contains(sep)) by {
            if init.contains(sep) {
                let i = choose|i: int| 0 <= i < init.len() && init[i] == sep;
                assert(b[i] == sep);
            }
        }
        lemma_split_after_separator(a, init, sep);
        let whole = a + seq![sep] + b;
        assert(whole.drop_last() =~= a + seq![sep] + init);
        assert(whole.last() == b.last());
        assert(b.last() != sep) by {
            assert(b[b.len() - 1] == b.last());
        }
        assert(split_on(a, sep).push(init).update(
            split_on(a, sep).len() as int,
            init.push(b.last()),
        ) =~= split_on(a, sep).push(b)) by {
            assert(init.push(b.last()) =~= b);
        }
    }
}

/// Splitting `a`, `sep`, `b` gives the pieces of `a` followed by the pieces
/// of `b`.
pub proof fn lemma_split_concat(a: Seq<char>, b: Seq<char>, sep: char)
    ensures
        split_on(a + seq![sep] + b, sep) == split_on(a, sep) + split_on(b, sep),
    decreases b.len(),
{
    if b.len() == 0 {
        assert(a + seq![sep] + b =~= a.push(sep));
        assert((a.push(sep)).drop_last() =~= a);
        assert(split_on(a, sep).push(seq![]) =~= split_on(a, sep) + split_on(b, sep));
    } else {
        let init = b.drop_last();
        lemma_split_concat(a, init, sep);
        lemma_split_on_nonempty(init, sep);
        let whole = a + seq![sep] + b;
        assert(whole.drop_last() =~= a + seq![sep] + init);
        assert(whole.last() == b.last());
        let pa = split_on(a, sep);
        let pi = split_on(init, sep);
        if b.last() == sep {
            assert((pa + pi).push(seq![]) =~= pa + pi.push(seq![]));
        } else {
            assert((pa + pi).update(pa.len() + pi.len() - 1, (pa + pi).last().push(b.last())) =~= pa
                + pi.update(pi.len() - 1, pi.last().push(b.last())));
        }
    }
}

/// Splitting pieces joined by `sep`, none of which holds `sep`, gives the
/// pieces back.
pub proof fn lemma_split_join(pieces: Seq<Seq<char>>, sep: char)
    requires
        pieces.len() >= 1,
        forall|k: int| 0 <= k < pieces.len() ==> !(#[trigger] pieces[k]).contains(sep),
    ensures
        split_on(join_with(pieces, seq![sep]), sep) == pieces,
    decreases pieces.len(),
{
    if pieces.len() == 1 {
        lemma_split_without_separator(pieces[0], sep);
        assert(seq![pieces[0]] =~= pieces);
    } else {
        let init = pieces.drop_last();
        assert forall|k: int| 0 <= k < init.len() implies !(#[trigger] init[k]).contains(sep) by {
            assert(init[k] == pieces[k]);
        }
        lemma_split_join(init, sep);
        assert(!pieces.last().contains(sep)) by {
            assert(pieces[pieces.len() - 1] == pieces.last());
        }
        lemma_split_after_separator(join_with(init, seq![sep]), pieces.last(), sep);
        assert(init.push(pieces.last()) =~= pieces);
    }
}

/// The characters of a decimal rendering are digits whose value is the
/// number rendered.
pub proof fn lemma_decimal_digits(n: nat)
    ensures
        all_digits(decimal(n)),
        digits_value(decimal(n)) == n,
        decimal(n).len() >= 1,
        is_digit(decimal(n)[0]),
    decreases n,
{
    lemma_decimal_len(n);
    if n < 10 {
        assert(digits_value(decimal(n)) == digits_value(decimal(n).drop_last()) * 10 + digit_value(
            decimal(n).last(),
        ));
        assert(decimal(n).drop_last() =~= Seq::<char>::empty());
    } else {
        lemma_decimal_digits(n / 10);
        let init = decimal(n / 10);
        assert(decimal(n).drop_last() =~= init);
        assert forall|i: int| 0 <= i < decimal(n).len() implies is_digit(
            #[trigger] decimal(n)[i],
        ) by {
            if i < init.len() {
                assert(decimal(n)[i] == init[i]);
            }
        }
        assert(decimal(n)[0] == init[0]);
    }
}

/// Reading back the decimal rendering of a value of the type gives the value.
pub proof fn lemma_parse_decimal(n: nat, lo: int, hi: int)
    requires
        lo <= n <= hi,
    ensures
        parse_int_spec(decimal(n), lo, hi) == Some(n as int),
{
    lemma_decimal_digits(n);
    let s = decimal(n);
    assert(s[0] != '+' && s[0] != '-');
}

/// Reading back the signed decimal rendering of any integer gives the
/// integer when the type's values `lo..=hi` hold it, and nothing otherwise.
pub proof fn lemma_parse_signed_decimal(v: int, lo: int, hi: int)
    requires
        lo <= 0 <= hi,
    ensures
        parse_int_spec(signed_decimal(v), lo, hi) == if lo <= v <= hi {
            Some(v)
        } else {
            None::<int>
        },
{
    if v >= 0 {
        lemma_decimal_digits(v as nat);
        let s = decimal(v as nat);
        assert(s[0] != '+' && s[0] != '-');
    } else {
        let m = (-v) as nat;
        lemma_decimal_digits(m);
        let s = signed_decimal(v);
        assert(s[0] == '-');
        assert(s.drop_first() =~= decimal(m));
        if lo >= 0 {
            assert(!is_digit(s[0]));
            assert(!all_digits(s));
        }
    }
}

} // verus!
