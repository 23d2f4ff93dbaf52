//! The line numberer: the column ruler printed above the text, the numbered
//! lines, and the width of the widest of the first lines.

use vstd::prelude::*;
use vstd::string::*;
use crate::text::{
    decimal, decimal_len, digit_char, pow10, push_char, push_repeated,
    push_right_aligned_decimal, repeat_char, right_aligned,
};

verus! {

/// The longest of the lengths of the texts (0 for no texts).
pub open spec fn longest(lines: Seq<Seq<char>>) -> nat
    decreases lines.len(),
{
    if lines.len() == 0 {
        0
    } else {
        let rest = longest(lines.drop_last());
        if rest < lines.last().len() {
            lines.last().len()
        } else {
            rest
        }
    }
}

/// The number of characters of the longest line.
pub fn get_longest_line_size(lines: &Vec<String>) -> (max_len: usize)
    ensures
        max_len == longest(crate::text::views(lines@)),
{
    let n = lines.len();
    let mut max_len: usize = 0;
    let mut i: usize = 0;
    while i < n
        invariant
            n == lines.len(),
            i <= n,
            max_len == longest(crate::text::views(lines@).take(i as int)),
        decreases n - i,
    {
        let len = lines[i].as_str().unicode_len();
        assert(crate::text::views(lines@).take(i + 1).drop_last() =~= crate::text::views(
            lines@,
        ).take(i as int));
        if max_len < len {
            max_len = len;
        }
        i = i + 1;
    }
    assert(crate::text::views(lines@).take(n as int) =~= crate::text::views(lines@));
    max_len
}

/// The longest line is at least as long as every line, and is as long as
/// one of them when there is any.
pub proof fn lemma_longest_is_max(lines: Seq<Seq<char>>)
    ensures
        forall|k: int| 0 <= k < lines.len() ==> lines[k].len() <= longest(lines),
        lines.len() > 0 ==> exists|k: int| 0 <= k < lines.len() && lines[k].len() == longest(lines),
    decreases lines.len(),
{
    if lines.len() > 0 {
        let rest = lines.drop_last();
        lemma_longest_is_max(rest);
        assert forall|k: int| 0 <= k < lines.len() implies lines[k].len() <= longest(lines) by {
            if k < rest.len() {
                assert(lines[k] == rest[k]);
            }
        }
        if longest(rest) < lines.last().len() || rest.len() == 0 {
            assert(lines[lines.len() - 1].len() == longest(lines));
        } else {
            let k = choose|k: int| 0 <= k < rest.len() && rest[k].len() == longest(rest);
            assert(lines[k] == rest[k]);
        }
    }
}

/// The ruler row for the power `10^p`: `margin` spaces, then for each column
/// `j` from 0 to `width` the digit of `j` at that power where `j` is a
/// multiple of it, and a space elsewhere.
pub open spec fn ruler_row(width: nat, margin: nat, p: nat) -> Seq<char> {
    repeat_char(' ', margin as int) + Seq::new(
        width + 1,
        |j: int|
            if j % (pow10(p) as int) == 0 {
                digit_char((j / (pow10(p) as int)) % 10)
            } else {
                ' '
            },
    )
}

/// The ruler printed above the text: one row per digit of `width`, the row
/// of the highest power first.
pub open spec fn ruler(width: nat, margin: nat) -> Seq<Seq<char>> {
    let rows = decimal(width).len();
    Seq::new(rows, |r: int| ruler_row(width, margin, (rows - 1 - r) as nat))
}

proof fn lemma_pow10_positive(k: nat)
    ensures
        pow10(k) >= 1,
    decreases k,
{
    if k > 0 {
        lemma_pow10_positive((k - 1) as nat);
    }
}

/// `10^k` for the exponents that fit a `u32`.
fn power_of_ten(k: u32) -> (p: u32)
    requires
        k <= 9,
    ensures
        p == pow10(k as nat),
{
    let mut p: u32 = 1;
    let mut i: u32 = 0;
    while i < k
        invariant
            i <= k <= 9,
            p == pow10(i as nat),
        decreases k - i,
    {
        proof {
            reveal_with_fuel(pow10, 10);
            assert(pow10((i + 1) as nat) == 10 * pow10(i as nat));
            assert(pow10(i as nat) <= 100000000) by {
                assert(pow10(9) == 1000000000);
                lemma_pow10_monotonic(i as nat, 8);
            }
        }
        p = p * 10;
        i = i + 1;
    }
    p
}

proof fn lemma_pow10_monotonic(a: nat, b: nat)
    requires
        a <= b,
    ensures
        pow10(a) <= pow10(b),
    decreases b,
{
    if a < b {
        lemma_pow10_monotonic(a, (b - 1) as nat);
        lemma_pow10_positive((b - 1) as nat);
    }
}

/// One row of the ruler.
fn ruler_line(width: u32, margin_width: usize, p: u32) -> (r: String)
    requires
        width < u32::MAX,
        p <= 9,
    ensures
        r@ == ruler_row(width as nat, margin_width as nat, p as nat),
{
    let mut r = String::new();
    push_repeated(&mut r, ' ', margin_width);
    let p10 = power_of_ten(p);
    proof {
        lemma_pow10_positive(p as nat);
    }
    let ghost cells = Seq::new(
        (width + 1) as nat,
        |j: int|
            if j % (pow10(p as nat) as int) == 0 {
                digit_char((j / (pow10(p as nat) as int)) % 10)
            } else {
                ' '
            },
    );
    let mut j: u32 = 0;
    while j < width + 1
        invariant
            width < u32::MAX,
            p10 == pow10(p as nat),
            p10 >= 1,
            j <= width + 1,
            r@ == repeat_char(' ', margin_width as int) + cells.take(j as int),
            cells == Seq::new(
                (width + 1) as nat,
                |i: int|
                    if i % (pow10(p as nat) as int) == 0 {
                        digit_char((i / (pow10(p as nat) as int)) % 10)
                    } else {
                        ' '
                    },
            ),
        decreases width + 1 - j,
    {
        if j % p10 == 0 {
            let d = ((j / p10) % 10) as u8;
            push_char(&mut r, (d + 48) as char);
        } else {
            push_char(&mut r, ' ');
        }
        j = j + 1;
        assert(r@ =~= repeat_char(' ', margin_width as int) + cells.take(j as int));
    }
    assert(cells.take((width + 1) as int) =~= cells);
    r
}

/// The rows of the ruler for lines up to `width` characters wide, indented
/// by `margin_width` spaces.
pub fn header_lines(width: u32, margin_width: usize) -> (rows: Vec<String>)
    requires
        0 < width < u32::MAX,
    ensures
        rows.len() == ruler(width as nat, margin_width as nat).len(),
        forall|r: int|
            0 <= r < rows.len() ==> #[trigger] rows[r]@ == ruler(width as nat, margin_width as nat)[r],
{
    let loop_count = decimal_len(width as u64);
    proof {
        reveal_with_fuel(pow10, 11);
        assert(pow10(10) == 10000000000);
        crate::text::lemma_decimal_len_bound(width as nat, 10);
    }
    let mut rows: Vec<String> = Vec::new();
    let mut i: usize = loop_count;
    while i > 0
        invariant
            loop_count == decimal(width as nat).len(),
            loop_count <= 10,
            0 < width < u32::MAX,
            i <= loop_count,
            rows.len() == loop_count - i,
            forall|r: int|
                0 <= r < rows.len() ==> #[trigger] rows[r]@ == ruler(
                    width as nat,
                    margin_width as nat,
                )[r],
        decreases i,
    {
        let row = ruler_line(width, margin_width, (i - 1) as u32);
        rows.push(row);
        i = i - 1;
    }
    rows
}

/// A numbered line: the number right-aligned in `margin_width` characters,
/// then `": "`, then the line.
pub open spec fn numbered(margin_width: nat, line_number: nat, line: Seq<char>) -> Seq<char> {
    right_aligned(decimal(line_number), margin_width as int) + seq![':', ' '] + line
}

pub fn numbered_line(margin_width: usize, line_number: u32, line: &str) -> (r: String)
    ensures
        r@ == numbered(margin_width as nat, line_number as nat, line@),
{
    let mut r = String::new();
    push_right_aligned_decimal(&mut r, line_number as u64, margin_width);
    push_char(&mut r, ':');
    push_char(&mut r, ' ');
    r.append(line);
    assert(r@ =~= numbered(margin_width as nat, line_number as nat, line@));
    r
}

/// A line as the numberer prints it: numbered in a margin one narrower than
/// `margin` when there is a margin, as it is when there is none.
pub open spec fn shown_line(margin: nat, line_number: nat, line: Seq<char>) -> Seq<char> {
    if margin > 0 {
        numbered((margin - 1) as nat, line_number, line)
    } else {
        line
    }
}

pub fn show_line(margin: usize, line_number: u32, line: &str) -> (r: String)
    ensures
        r@ == shown_line(margin as nat, line_number as nat, line@),
{
    if margin > 0 {
        numbered_line(margin - 1, line_number, line)
    } else {
        line.to_owned()
    }
}


/// A numbered line carries the input line unchanged after its prefix: the
/// line numbered is the empty line numbered followed by the line itself.
/// The prefix is the number's digits, padded on the left with spaces to the
/// margin width, then `": "`; it is the same for every line.
pub proof fn lemma_numbered_keeps_line(margin_width: nat, line_number: nat, line: Seq<char>)
    ensures
        numbered(margin_width, line_number, line) == numbered(margin_width, line_number, seq![])
            + line,
        numbered(margin_width, line_number, seq![]).len() == 2 + if decimal(line_number).len()
            < margin_width {
            margin_width as int
        } else {
            decimal(line_number).len() as int
        },
        ({
            let p = numbered(margin_width, line_number, seq![]);
            let d = decimal(line_number);
            &&& p.subrange(p.len() - 2, p.len() as int) == seq![':', ' ']
            &&& p.subrange(p.len() - 2 - d.len(), p.len() - 2) == d
            &&& forall|i: int| 0 <= i < p.len() - 2 - d.len() ==> p[i] == ' '
        }),
        shown_line(margin_width + 1, line_number, line) == numbered(
            margin_width,
            line_number,
            line,
        ),
        shown_line(0, line_number, line) == line,
{
    let d = decimal(line_number);
    let pad = repeat_char(' ', margin_width as int - d.len());
    let p = numbered(margin_width, line_number, seq![]);
    assert(p =~= pad + d + seq![':', ' ']);
    assert(numbered(margin_width, line_number, line) =~= p + line);
    assert(p.subrange(p.len() - 2, p.len() as int) =~= seq![':', ' ']);
    assert(p.subrange(p.len() - 2 - d.len(), p.len() - 2) =~= d);
    assert forall|i: int| 0 <= i < p.len() - 2 - d.len() implies p[i] == ' ' by {
        assert(p[i] == pad[i]);
    }
}

/// Every ruler row is as wide as the margin plus the columns `0..=width`,
/// and the last row gives every column the last digit of its number.
pub proof fn lemma_ruler_shape(width: nat, margin: nat)
    ensures
        ruler(width, margin).len() == decimal(width).len(),
        forall|r: int|
            0 <= r < ruler(width, margin).len() ==> (#[trigger] ruler(width, margin)[r]).len()
                == margin + width + 1,
        forall|j: int|
            0 <= j <= width ==> (#[trigger] ruler(width, margin).last()[margin + j]) == digit_char(
                j % 10,
            ),
{
    crate::text::lemma_decimal_len(width);
    assert(pow10(0) == 1);
    assert forall|j: int| 0 <= j <= width implies (#[trigger] ruler(width, margin).last()[margin
        + j]) == digit_char(j % 10) by {
        let row = ruler(width, margin).last();
        assert(row == ruler_row(width, margin, 0));
        assert(j % 1 == 0 && j / 1 == j);
    }
}

} // verus!
