//! Column layouts of fixed-width files and the splitting of a line into its
//! columns, with the text forms that the delimited output writes.

use vstd::prelude::*;
use vstd::string::*;
use vstd::utf8::*;
use crate::text::{
    all_digits, byte_range_text, byte_slice, decimal, is_digit, join, join_with,
    lemma_ascii_boundaries, lemma_ascii_byte_range, lemma_decimal_digits, lemma_parse_decimal,
    lemma_split_concat, lemma_split_join, min_int, parse_int_spec, parse_integer, push_char, same_text, split_at_char,
    split_on, trim, trimmed, views,
};

verus! {

broadcast use encode_utf8_valid_utf8;

/// Layout of one column of a fixed-width file: its name, its data type and
/// its width in characters.
#[derive(Debug, Clone)]
pub struct ColumnSpec {
    pub name: String,
    pub data_type: String,
    pub width: usize,
}

/// What a `ColumnSpec` holds, as plain values.
pub struct ColumnModel {
    pub name: Seq<char>,
    pub data_type: Seq<char>,
    pub width: usize,
}

impl View for ColumnSpec {
    type V = ColumnModel;

    open spec fn view(&self) -> ColumnModel {
        ColumnModel { name: self.name@, data_type: self.data_type@, width: self.width }
    }
}

/// The data type whose cells are written between double quotes.
pub open spec fn quoted_type() -> Seq<char> {
    seq!['s', 't', 'r']
}

/// The column that a spec text `NAME:TYPE:WIDTH` describes: the text is cut
/// at every `:`; the first piece names the column, the second gives its type
/// and the third, a decimal `usize`, its width. Pieces after the third are
/// ignored. `None` when there are fewer than three pieces or the third is no
/// `usize`.
pub open spec fn spec_column(text: Seq<char>) -> Option<ColumnModel> {
    let parts = split_on(text, ':');
    if parts.len() >= 3 && parse_int_spec(parts[2], 0, usize::MAX as int) is Some {
        Some(
            ColumnModel {
                name: parts[0],
                data_type: parts[1],
                width: parse_int_spec(parts[2], 0, usize::MAX as int)->0 as usize,
            },
        )
    } else {
        None
    }
}

/// Whether every `,`-separated piece of a spec list text describes a column.
pub open spec fn spec_columns_valid(text: Seq<char>) -> bool {
    forall|k: int|
        0 <= k < split_on(text, ',').len() ==> (#[trigger] spec_column(split_on(text, ',')[k]))
            is Some
}

/// The columns that a spec list text `SPEC,SPEC,...` describes, in order.
pub open spec fn spec_columns(text: Seq<char>) -> Seq<ColumnModel> {
    split_on(text, ',').map_values(|piece: Seq<char>| spec_column(piece)->0)
}

/// A cell as written: a cell of the quoted type between double quotes, any
/// other cell as it is.
pub open spec fn render_cell(data_type: Seq<char>, input: Seq<char>) -> Seq<char> {
    if data_type == quoted_type() {
        seq!['"'] + input + seq!['"']
    } else {
        input
    }
}

/// The widths of a sequence of columns.
pub open spec fn widths(specs: Seq<ColumnSpec>) -> Seq<usize> {
    specs.map_values(|c: ColumnSpec| c.width)
}

/// Where column `k` starts in a line of `len` characters: each column starts
/// where the one before it ends, and no column reaches past the line's end.
pub open spec fn column_start(ws: Seq<usize>, len: int, k: int) -> int
    decreases k,
{
    if k <= 0 {
        0
    } else {
        min_int(len, column_start(ws, len, k - 1) + ws[k - 1])
    }
}

/// Whether a line can be cut into the columns: no position overflows a
/// `usize`, and every cut falls on a character boundary of the line's UTF-8
/// encoding (the cuts are counted in characters but applied to bytes).
pub open spec fn columns_fit(line: Seq<char>, ws: Seq<usize>) -> bool {
    &&& forall|k: int|
        0 <= k < ws.len() ==> #[trigger] column_start(ws, line.len() as int, k) + ws[k]
            <= usize::MAX
    &&& forall|k: int|
        0 <= k <= ws.len() ==> is_char_boundary(
            encode_utf8(line),
            #[trigger] column_start(ws, line.len() as int, k),
        )
}

/// The text of column `k` of a line.
pub open spec fn column_text(line: Seq<char>, ws: Seq<usize>, k: int) -> Seq<char> {
    byte_range_text(
        line,
        column_start(ws, line.len() as int, k),
        column_start(ws, line.len() as int, k + 1),
    )
}

pub proof fn lemma_column_start_bounds(ws: Seq<usize>, len: int, k: int)
    requires
        0 <= len,
    ensures
        0 <= column_start(ws, len, k) <= len,
        k >= 0 ==> column_start(ws, len, k) <= column_start(ws, len, k + 1),
    decreases k,
{
    if k > 0 {
        lemma_column_start_bounds(ws, len, k - 1);
    }
}

/// The sum of the first `k` widths.
pub open spec fn width_sum(ws: Seq<usize>, k: int) -> int
    decreases k,
{
    if k <= 0 {
        0
    } else {
        width_sum(ws, k - 1) + ws[k - 1]
    }
}

/// Column `k` starts at the sum of the widths of the columns before it, or
/// at the line's end where that sum reaches past it.
pub proof fn lemma_column_start_is_capped_sum(ws: Seq<usize>, len: int, k: int)
    requires
        0 <= len,
        0 <= k,
    ensures
        column_start(ws, len, k) == min_int(len, width_sum(ws, k)),
    decreases k,
{
    if k > 0 {
        lemma_column_start_is_capped_sum(ws, len, k - 1);
        assert(width_sum(ws, k - 1) >= 0) by {
            lemma_width_sum_nonnegative(ws, k - 1);
        }
    }
}

proof fn lemma_width_sum_nonnegative(ws: Seq<usize>, k: int)
    ensures
        width_sum(ws, k) >= 0,
    decreases k,
{
    if k > 0 {
        lemma_width_sum_nonnegative(ws, k - 1);
    }
}

impl ColumnSpec {
    /// Reads one column from a spec text `NAME:TYPE:WIDTH`, or `None` where
    /// it describes none.
    pub fn try_from_spec_str(spec: &str) -> (r: Option<ColumnSpec>)
        ensures
            r is Some <==> spec_column(spec@) is Some,
            r matches Some(c) ==> c@ == spec_column(spec@)->0,
    {
        let mut parts = split_at_char(spec, ':');
        if parts.len() < 3 {
            return None;
        }
        let width = parse_integer(parts[2].as_str(), 0, usize::MAX as i128);
        match width {
            None => None,
            Some(w) => {
                let data_type = parts.remove(1);
                let name = parts.remove(0);
                proof {
                    assert(name@ == split_on(spec@, ':')[0]);
                    assert(data_type@ == split_on(spec@, ':')[1]);
                }
                Some(ColumnSpec { name, data_type, width: w as usize })
            },
        }
    }

    fn from_spec_str(spec: &str) -> (c: ColumnSpec)
        requires
            spec_column(spec@) is Some,
        ensures
            c@ == spec_column(spec@)->0,
    {
        match ColumnSpec::try_from_spec_str(spec) {
            Some(c) => c,
            None => {
                assert(false);
                ColumnSpec { name: String::new(), data_type: String::new(), width: 0 }
            },
        }
    }

    /// Reads the columns from a spec list text, or `None` where a piece of
    /// it describes no column.
    pub fn try_from_specs_str(spec: &str) -> (r: Option<Vec<ColumnSpec>>)
        ensures
            r is Some <==> spec_columns_valid(spec@),
            r matches Some(v) ==> v@.map_values(|c: ColumnSpec| c@) == spec_columns(spec@),
    {
        let pieces = split_at_char(spec, ',');
        let n = pieces.len();
        let mut out: Vec<ColumnSpec> = Vec::new();
        let mut i: usize = 0;
        while i < n
            invariant
                n == pieces.len(),
                n == split_on(spec@, ',').len(),
                forall|k: int| 0 <= k < n ==> #[trigger] pieces[k]@ == split_on(spec@, ',')[k],
                i <= n,
                out.len() == i,
                forall|k: int| 0 <= k < i ==> spec_column(#[trigger] split_on(spec@, ',')[k]) is Some,
                forall|k: int|
                    0 <= k < i ==> #[trigger] out[k]@ == spec_column(split_on(spec@, ',')[k])->0,
            decreases n - i,
        {
            match ColumnSpec::try_from_spec_str(pieces[i].as_str()) {
                Some(c) => {
                    out.push(c);
                },
                None => {
                    return None;
                },
            }
            i = i + 1;
        }
        assert(out@.map_values(|c: ColumnSpec| c@) =~= spec_columns(spec@));
        Some(out)
    }

    /// Reads the columns from a spec list text such as
    /// `COLUMN1_NAME:str:10,COLUMN2_NAME:d:8`.
    pub fn from_specs_str(spec: &str) -> (v: Vec<ColumnSpec>)
        requires
            spec_columns_valid(spec@),
        ensures
            v@.map_values(|c: ColumnSpec| c@) == spec_columns(spec@),
    {
        match ColumnSpec::try_from_specs_str(spec) {
            Some(v) => v,
            None => {
                assert(false);
                Vec::new()
            },
        }
    }

    /// The cell text for this column: quoted for the `str` type, as it is
    /// otherwise.
    pub fn parse(&self, input: &str) -> (r: String)
        ensures
            r@ == render_cell(self.data_type@, input@),
    {
        let quoted = "str";
        proof {
            reveal_strlit("str");
            assert(quoted@ =~= quoted_type());
        }
        if same_text(self.data_type.as_str(), quoted) {
            let mut r = String::new();
            push_char(&mut r, '"');
            r.append(input);
            push_char(&mut r, '"');
            assert(r@ =~= render_cell(self.data_type@, input@));
            r
        } else {
            input.to_owned()
        }
    }
}


/// Cuts a line into its columns, each rendered by its column's type, or
/// `None` where the line cannot be cut (see `columns_fit`).
pub fn try_split_line_into_columns(line: &String, spec: &Vec<ColumnSpec>) -> (r: Option<
    Vec<String>,
>)
    ensures
        r is Some <==> columns_fit(line@, widths(spec@)),
        r matches Some(cells) ==> {
            &&& cells.len() == spec.len()
            &&& forall|k: int|
                0 <= k < spec.len() ==> #[trigger] cells[k]@ == render_cell(
                    spec[k].data_type@,
                    column_text(line@, widths(spec@), k),
                )
        },
{
    let ghost ws = widths(spec@);
    let ghost len = line@.len() as int;
    let line_str = line.as_str();
    let line_length = line_str.unicode_len();
    let n = spec.len();
    let mut pos: usize = 0;
    let mut cells: Vec<String> = Vec::new();
    let mut k: usize = 0;
    proof {
        is_char_boundary_start_end_of_seq(encode_utf8(line@));
    }
    while k < n
        invariant
            n == spec.len(),
            ws == widths(spec@),
            len == line@.len(),
            line_str@ == line@,
            line_length == len,
            k <= n,
            pos == column_start(ws, len, k as int),
            is_char_boundary(encode_utf8(line@), pos as int),
            forall|j: int| 0 <= j < k ==> #[trigger] column_start(ws, len, j) + ws[j] <= usize::MAX,
            forall|j: int|
                0 <= j <= k ==> is_char_boundary(encode_utf8(line@), #[trigger] column_start(ws, len, j)),
            cells.len() == k,
            forall|j: int|
                0 <= j < k ==> #[trigger] cells[j]@ == render_cell(
                    spec[j].data_type@,
                    column_text(line@, ws, j),
                ),
        decreases n - k,
    {
        let column = &spec[k];
        assert(ws[k as int] == column.width);
        proof {
            lemma_column_start_bounds(ws, len, k as int);
        }
        if column.width > usize::MAX - pos {
            assert(column_start(ws, len, k as int) + ws[k as int] > usize::MAX);
            return None;
        }
        let end = if line_length < pos + column.width {
            line_length
        } else {
            pos + column.width
        };
        assert(end == column_start(ws, len, k + 1));
        if !line_str.is_char_boundary(end) {
            assert(!is_char_boundary(encode_utf8(line@), column_start(ws, len, k + 1)));
            return None;
        }
        let substring = byte_slice(line_str, pos, end);
        let parsed = column.parse(substring);
        pos = if line_length < pos + column.width {
            line_length
        } else {
            pos + column.width
        };
        cells.push(parsed);
        k = k + 1;
    }
    Some(cells)
}

/// Cuts a line into its columns, each rendered by its column's type.
pub fn split_line_into_columns(line: &String, spec: &Vec<ColumnSpec>) -> (cells: Vec<String>)
    requires
        columns_fit(line@, widths(spec@)),
    ensures
        cells.len() == spec.len(),
        forall|k: int|
            0 <= k < spec.len() ==> #[trigger] cells[k]@ == render_cell(
                spec[k].data_type@,
                column_text(line@, widths(spec@), k),
            ),
{
    match try_split_line_into_columns(line, spec) {
        Some(cells) => cells,
        None => {
            assert(false);
            Vec::new()
        },
    }
}


/// The names of the columns joined by the delimiter (the header line of the
/// delimited output).
pub fn header_line(specs: &Vec<ColumnSpec>, delimiter: &str) -> (r: String)
    ensures
        r@ == join_with(specs@.map_values(|c: ColumnSpec| c.name@), delimiter@),
{
    let n = specs.len();
    let mut names: Vec<String> = Vec::new();
    let mut i: usize = 0;
    while i < n
        invariant
            n == specs.len(),
            i <= n,
            names.len() == i,
            forall|k: int| 0 <= k < i ==> #[trigger] names[k]@ == specs[k].name@,
        decreases n - i,
    {
        names.push(specs[i].name.clone());
        i = i + 1;
    }
    assert(views(names@) =~= specs@.map_values(|c: ColumnSpec| c.name@));
    join(&names, delimiter)
}

/// The cells with their surrounding white space removed, joined by the
/// delimiter (a data line of the delimited output).
pub fn delimited_row(items: &Vec<String>, delimiter: &str) -> (r: String)
    ensures
        r@ == join_with(views(items@).map_values(|t: Seq<char>| trimmed(t)), delimiter@),
{
    let n = items.len();
    let mut cells: Vec<String> = Vec::new();
    let mut i: usize = 0;
    while i < n
        invariant
            n == items.len(),
            i <= n,
            cells.len() == i,
            forall|k: int| 0 <= k < i ==> #[trigger] cells[k]@ == trimmed(items[k]@),
        decreases n - i,
    {
        cells.push(trim(items[i].as_str()));
        i = i + 1;
    }
    assert(views(cells@) =~= views(items@).map_values(|t: Seq<char>| trimmed(t)));
    join(&cells, delimiter)
}

/// The output formats of the fixed-width converter.
#[derive(Clone, Copy, PartialEq, Eq, Structural, Debug)]
pub enum OutputFormat {
    Delimited,
    Parquet,
}

/// The output format that a format name selects: `delimited` or `parquet`.
pub fn output_format_of(name: &str) -> (r: Option<OutputFormat>)
    ensures
        r == (if name@ == "delimited"@ {
            Some(OutputFormat::Delimited)
        } else if name@ == "parquet"@ {
            Some(OutputFormat::Parquet)
        } else {
            None
        }),
{
    if same_text(name, "delimited") {
        Some(OutputFormat::Delimited)
    } else if same_text(name, "parquet") {
        Some(OutputFormat::Parquet)
    } else {
        None
    }
}

/// The estimate of a file's line count shown with the progress: the file's
/// length divided by the length of its first line, both in bytes.
pub fn approximate_line_count(file_len: u64, first_line_bytes: usize) -> (r: u64)
    requires
        first_line_bytes > 0,
    ensures
        r == file_len / (first_line_bytes as u64),
{
    file_len / first_line_bytes as u64
}

/// The error of the std I/O operations that the output sinks perform.
#[verifier::external_type_specification]
#[verifier::external_body]
pub struct ExIoError(std::io::Error);

/// A sink for the rows of a converted fixed-width file: `begin` before the
/// first row, `write_row` once per line, `end` after the last row.
pub trait RowWriter {
    fn begin(&mut self) -> std::io::Result<()>;

    fn write_row(&mut self, row: Vec<String>) -> std::io::Result<()>;

    fn end(&mut self) -> std::io::Result<()>;
}


/// The spec text of one column: `NAME:TYPE:WIDTH`.
pub open spec fn render_column(m: ColumnModel) -> Seq<char> {
    m.name + seq![':'] + m.data_type + seq![':'] + decimal(m.width as nat)
}

/// The spec list text of columns: their spec texts joined by commas.
pub open spec fn render_columns(ms: Seq<ColumnModel>) -> Seq<char> {
    join_with(ms.map_values(|m: ColumnModel| render_column(m)), seq![','])
}

/// Whether a column's name and type can be written in a spec text: neither
/// holds a `:` or a `,`.
pub open spec fn writable_column(m: ColumnModel) -> bool {
    &&& !m.name.contains(':')
    &&& !m.name.contains(',')
    &&& !m.data_type.contains(':')
    &&& !m.data_type.contains(',')
}

proof fn lemma_digits_lack(s: Seq<char>, c: char)
    requires
        all_digits(s),
        !is_digit(c),
    ensures
        !s.contains(c),
{
    if s.contains(c) {
        let i = choose|i: int| 0 <= i < s.len() && s[i] == c;
        assert(is_digit(s[i]));
    }
}

proof fn lemma_concat_lacks(a: Seq<char>, b: Seq<char>, c: char)
    requires
        !a.contains(c),
        !b.contains(c),
    ensures
        !(a + b).contains(c),
{
    if (a + b).contains(c) {
        let i = choose|i: int| 0 <= i < (a + b).len() && (a + b)[i] == c;
        if i < a.len() {
            assert(a[i] == c);
        } else {
            assert(b[i - a.len()] == c);
        }
    }
}

/// Reading the spec text of one column gives the column back.
pub proof fn lemma_column_round_trip(m: ColumnModel)
    requires
        writable_column(m),
    ensures
        spec_column(render_column(m)) == Some(m),
        !render_column(m).contains(','),
{
    let dec = decimal(m.width as nat);
    lemma_decimal_digits(m.width as nat);
    lemma_digits_lack(dec, ':');
    lemma_digits_lack(dec, ',');
    let parts = seq![m.name, m.data_type, dec];
    assert(join_with(parts, seq![':']) =~= render_column(m)) by {
        reveal_with_fuel(join_with, 3);
        assert(parts.drop_last().drop_last() =~= seq![m.name]);
        assert(parts.drop_last() =~= seq![m.name, m.data_type]);
        assert(join_with(seq![m.name], seq![':']) == m.name);
        assert(join_with(seq![m.name, m.data_type], seq![':']) == m.name + seq![':'] + m.data_type);
    }
    assert forall|k: int| 0 <= k < parts.len() implies !(#[trigger] parts[k]).contains(':') by {}
    lemma_split_join(parts, ':');
    lemma_parse_decimal(m.width as nat, 0, usize::MAX as int);
    assert(!seq![':'].contains(',')) by {
        assert(seq![':'][0] == ':');
    }
    lemma_concat_lacks(m.name, seq![':'], ',');
    lemma_concat_lacks(m.name + seq![':'], m.data_type, ',');
    lemma_concat_lacks(m.name + seq![':'] + m.data_type, seq![':'], ',');
    lemma_concat_lacks(m.name + seq![':'] + m.data_type + seq![':'], dec, ',');
}

/// A spec list text made of two spec lists joined by a comma describes the
/// columns of the first followed by those of the second, and is valid
/// exactly when both are.
pub proof fn lemma_spec_list_concat(a: Seq<char>, b: Seq<char>)
    ensures
        spec_columns_valid(a + seq![','] + b) <==> (spec_columns_valid(a)
            && spec_columns_valid(b)),
        spec_columns(a + seq![','] + b) == spec_columns(a) + spec_columns(b),
{
    lemma_split_concat(a, b, ',');
    let pa = split_on(a, ',');
    let pb = split_on(b, ',');
    let whole = split_on(a + seq![','] + b, ',');
    assert(whole == pa + pb);
    if spec_columns_valid(a + seq![','] + b) {
        assert forall|k: int| 0 <= k < pa.len() implies (#[trigger] spec_column(pa[k])) is Some by {
            assert(whole[k] == pa[k]);
        }
        assert forall|k: int| 0 <= k < pb.len() implies (#[trigger] spec_column(pb[k])) is Some by {
            assert(whole[pa.len() + k] == pb[k]);
        }
    }
    if spec_columns_valid(a) && spec_columns_valid(b) {
        assert forall|k: int| 0 <= k < whole.len() implies (#[trigger] spec_column(whole[k])) is Some by {
            if k < pa.len() {
                assert(whole[k] == pa[k]);
            } else {
                assert(whole[k] == pb[k - pa.len()]);
            }
        }
    }
    assert(spec_columns(a + seq![','] + b) =~= spec_columns(a) + spec_columns(b));
}

/// Reading the spec list text of columns gives the columns back: the
/// layout text of a fixed-width file and its columns carry the same
/// information, for every non-empty list of columns whose names and types
/// hold no `:` or `,`.
pub proof fn lemma_spec_list_round_trip(ms: Seq<ColumnModel>)
    requires
        ms.len() >= 1,
        forall|k: int| 0 <= k < ms.len() ==> writable_column(#[trigger] ms[k]),
    ensures
        spec_columns_valid(render_columns(ms)),
        spec_columns(render_columns(ms)) == ms,
{
    let pieces = ms.map_values(|m: ColumnModel| render_column(m));
    assert forall|k: int| 0 <= k < pieces.len() implies !(#[trigger] pieces[k]).contains(',') by {
        lemma_column_round_trip(ms[k]);
    }
    lemma_split_join(pieces, ',');
    assert forall|k: int|
        0 <= k < split_on(render_columns(ms), ',').len() implies (#[trigger] spec_column(
        split_on(render_columns(ms), ',')[k],
    )) is Some by {
        lemma_column_round_trip(ms[k]);
    }
    assert forall|k: int| 0 <= k < ms.len() implies spec_columns(render_columns(ms))[k] == ms[k] by {
        lemma_column_round_trip(ms[k]);
    }
    assert(spec_columns(render_columns(ms)) =~= ms);
}


/// On an ASCII line every cut falls on a character boundary, so the line can
/// be cut whenever no position overflows; and each column holds exactly the
/// characters between its start and the next column's start.
pub proof fn lemma_ascii_line_columns(line: Seq<char>, ws: Seq<usize>)
    requires
        is_ascii_chars(line),
        forall|k: int|
            0 <= k < ws.len() ==> #[trigger] column_start(ws, line.len() as int, k) + ws[k]
                <= usize::MAX,
    ensures
        columns_fit(line, ws),
        forall|k: int|
            0 <= k < ws.len() ==> #[trigger] column_text(line, ws, k) == line.subrange(
                column_start(ws, line.len() as int, k),
                column_start(ws, line.len() as int, k + 1),
            ),
{
    let len = line.len() as int;
    assert forall|k: int| 0 <= k <= ws.len() implies is_char_boundary(
        encode_utf8(line),
        #[trigger] column_start(ws, len, k),
    ) by {
        lemma_column_start_bounds(ws, len, k);
        lemma_ascii_boundaries(line, column_start(ws, len, k));
    }
    assert forall|k: int| 0 <= k < ws.len() implies #[trigger] column_text(line, ws, k)
        == line.subrange(column_start(ws, len, k), column_start(ws, len, k + 1)) by {
        lemma_column_start_bounds(ws, len, k);
        lemma_column_start_bounds(ws, len, k + 1);
        lemma_ascii_byte_range(line, column_start(ws, len, k), column_start(ws, len, k + 1));
    }
}

/// The fields laid end to end.
pub open spec fn concat_fields(fields: Seq<Seq<char>>) -> Seq<char> {
    join_with(fields, seq![])
}

proof fn lemma_concat_fields_step(fields: Seq<Seq<char>>, k: int)
    requires
        0 <= k < fields.len(),
    ensures
        concat_fields(fields.take(k + 1)) == concat_fields(fields.take(k)) + fields[k],
{
    if k == 0 {
        assert(fields.take(1) =~= seq![fields[0]]);
        assert(fields.take(0) =~= Seq::<Seq<char>>::empty());
        assert(concat_fields(fields.take(0)) + fields[0] =~= fields[0]);
    } else {
        assert(fields.take(k + 1).drop_last() =~= fields.take(k));
        assert(concat_fields(fields.take(k)) + seq![] + fields[k] =~= concat_fields(fields.take(k))
            + fields[k]);
    }
}

proof fn lemma_concat_fields_prefix(fields: Seq<Seq<char>>, j: int, k: int)
    requires
        0 <= j <= k <= fields.len(),
    ensures
        concat_fields(fields.take(j)).len() <= concat_fields(fields.take(k)).len(),
        concat_fields(fields.take(k)).subrange(0, concat_fields(fields.take(j)).len() as int)
            == concat_fields(fields.take(j)),
    decreases k - j,
{
    if j == k {
        assert(concat_fields(fields.take(k)).subrange(0, concat_fields(fields.take(j)).len() as int)
            =~= concat_fields(fields.take(j)));
    } else {
        lemma_concat_fields_prefix(fields, j, k - 1);
        lemma_concat_fields_step(fields, k - 1);
        let a = concat_fields(fields.take(k - 1));
        let b = concat_fields(fields.take(j));
        assert((a + fields[k - 1]).subrange(0, b.len() as int) =~= a.subrange(0, b.len() as int));
    }
}

/// A line made of fields laid end to end, each as wide as its column, is cut
/// back into exactly those fields: what the fixed-width layout writes, the
/// cutting reads back. Stated for ASCII lines whose length fits a `usize`.
pub proof fn lemma_fixed_width_round_trip(fields: Seq<Seq<char>>, ws: Seq<usize>)
    requires
        fields.len() == ws.len(),
        forall|k: int| 0 <= k < ws.len() ==> (#[trigger] fields[k]).len() == ws[k],
        is_ascii_chars(concat_fields(fields)),
        concat_fields(fields).len() <= usize::MAX,
    ensures
        columns_fit(concat_fields(fields), ws),
        forall|k: int|
            0 <= k < ws.len() ==> #[trigger] column_text(concat_fields(fields), ws, k) == fields[k],
{
    let line = concat_fields(fields);
    let len = line.len() as int;
    let n = ws.len() as int;
    assert(fields.take(n) =~= fields);
    assert forall|k: int| 0 <= k <= n implies #[trigger] column_start(ws, len, k) == concat_fields(
        fields.take(k),
    ).len() by {
        lemma_starts_are_prefix_lengths(fields, ws, k);
    }
    assert forall|k: int| 0 <= k < n implies #[trigger] column_start(ws, len, k) + ws[k]
        <= usize::MAX by {
        lemma_concat_fields_step(fields, k);
        lemma_concat_fields_prefix(fields, k + 1, n);
        assert(column_start(ws, len, k + 1) == concat_fields(fields.take(k + 1)).len());
    }
    lemma_ascii_line_columns(line, ws);
    assert forall|k: int| 0 <= k < n implies #[trigger] column_text(line, ws, k) == fields[k] by {
        lemma_concat_fields_step(fields, k);
        lemma_concat_fields_prefix(fields, k + 1, n);
        let a = concat_fields(fields.take(k));
        let b = concat_fields(fields.take(k + 1));
        assert(column_start(ws, len, k + 1) == b.len());
        assert(line.subrange(0, b.len() as int) == b);
        assert(line.subrange(a.len() as int, b.len() as int) =~= b.subrange(
            a.len() as int,
            b.len() as int,
        ));
        assert(b.subrange(a.len() as int, b.len() as int) =~= fields[k]);
    }
}

proof fn lemma_starts_are_prefix_lengths(fields: Seq<Seq<char>>, ws: Seq<usize>, k: int)
    requires
        fields.len() == ws.len(),
        forall|i: int| 0 <= i < ws.len() ==> (#[trigger] fields[i]).len() == ws[i],
        0 <= k <= ws.len(),
    ensures
        column_start(ws, concat_fields(fields).len() as int, k) == concat_fields(
            fields.take(k),
        ).len(),
    decreases k,
{
    let n = ws.len() as int;
    assert(fields.take(n) =~= fields);
    if k == 0 {
        assert(fields.take(0) =~= Seq::<Seq<char>>::empty());
    } else {
        lemma_starts_are_prefix_lengths(fields, ws, k - 1);
        lemma_concat_fields_step(fields, k - 1);
        lemma_concat_fields_prefix(fields, k, n);
    }
}

} // verus!
