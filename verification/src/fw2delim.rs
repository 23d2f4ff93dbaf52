//! The fixed-width to delimited converter: its own column layouts, the
//! cutting of a line into cells and the header it prints.

use vstd::prelude::*;
use vstd::string::*;
use vstd::utf8::*;
use crate::column_spec::{
    column_start, column_text, columns_fit, lemma_column_start_bounds, spec_column, spec_columns,
    spec_columns_valid, ColumnModel,
};
use crate::text::{
    byte_slice, join, join_with, push_char, same_text, split_at_char,
    split_on,
};

verus! {

broadcast use encode_utf8_valid_utf8;

/// Layout of one column of a fixed-width file: its name, its data type and
/// its width in characters.
#[derive(Debug, Clone)]
pub struct ColumnSpec {
    pub name: String,
    pub data_type: String,
    pub width: usize,
}

impl View for ColumnSpec {
    type V = ColumnModel;

    open spec fn view(&self) -> ColumnModel {
        ColumnModel { name: self.name@, data_type: self.data_type@, width: self.width }
    }
}

/// A cell as printed: a cell of type `s` between double quotes, any other
/// cell as it is.
pub open spec fn format_cell(data_type: Seq<char>, input: Seq<char>) -> Seq<char> {
    if data_type == seq!['s'] {
        seq!['"'] + input + seq!['"']
    } else {
        input
    }
}

/// The widths of a sequence of columns.
pub open spec fn widths(specs: Seq<ColumnSpec>) -> Seq<usize> {
    specs.map_values(|c: ColumnSpec| c.width)
}

impl ColumnSpec {
    /// Reads one column from a spec text `NAME:TYPE:WIDTH`, or `None` where
    /// it describes none.
    pub fn try_parse(spec: &str) -> (r: Option<ColumnSpec>)
        ensures
            r is Some <==> spec_column(spec@) is Some,
            r matches Some(c) ==> c@ == spec_column(spec@)->0,
    {
        match crate::column_spec::ColumnSpec::try_from_spec_str(spec) {
            Some(c) => Some(ColumnSpec { name: c.name, data_type: c.data_type, width: c.width }),
            None => None,
        }
    }

    /// Reads one column from a spec text `NAME:TYPE:WIDTH`.
    pub fn parse(spec: &str) -> (c: ColumnSpec)
        requires
            spec_column(spec@) is Some,
        ensures
            c@ == spec_column(spec@)->0,
    {
        match ColumnSpec::try_parse(spec) {
            Some(c) => c,
            None => {
                assert(false);
                ColumnSpec { name: String::new(), data_type: String::new(), width: 0 }
            },
        }
    }

    /// Reads the columns of a spec list text, or `None` where a piece of it
    /// describes no column.
    pub fn try_parse_all(spec: &str) -> (r: Option<Vec<ColumnSpec>>)
        ensures
            r is Some <==> spec_columns_valid(spec@),
            r matches Some(v) ==> v@.map_values(|c: ColumnSpec| c@) == spec_columns(spec@),
    {
        let pieces = split_at_char(spec, ',');
        let n = pieces.len();
        let mut out: Vec<ColumnSpec> = Vec::new();
        let mut i: usize = 0;
        while i < n
            invariant
                n == pieces.len(),
                n == split_on(spec@, ',').len(),
                forall|k: int| 0 <= k < n ==> #[trigger] pieces[k]@ == split_on(spec@, ',')[k],
                i <= n,
                out.len() == i,
                forall|k: int| 0 <= k < i ==> spec_column(#[trigger] split_on(spec@, ',')[k]) is Some,
                forall|k: int|
                    0 <= k < i ==> #[trigger] out[k]@ == spec_column(split_on(spec@, ',')[k])->0,
            decreases n - i,
        {
            match ColumnSpec::try_parse(pieces[i].as_str()) {
                Some(c) => {
                    out.push(c);
                },
                None => {
                    return None;
                },
            }
            i = i + 1;
        }
        assert(out@.map_values(|c: ColumnSpec| c@) =~= spec_columns(spec@));
        Some(out)
    }

    /// Reads the columns of a spec list text.
    pub fn parse_all(spec: &str) -> (v: Vec<ColumnSpec>)
        requires
            spec_columns_valid(spec@),
        ensures
            v@.map_values(|c: ColumnSpec| c@) == spec_columns(spec@),
    {
        match ColumnSpec::try_parse_all(spec) {
            Some(v) => v,
            None => {
                assert(false);
                Vec::new()
            },
        }
    }

    /// The cell as printed: quoted for type `s`, as it is otherwise.
    pub fn format(&self, input: &str) -> (r: String)
        ensures
            r@ == format_cell(self.data_type@, input@),
    {
        let quoted = "s";
        proof {
            reveal_strlit("s");
            assert(quoted@ =~= seq!['s']);
        }
        if same_text(self.data_type.as_str(), quoted) {
            let mut r = String::new();
            push_char(&mut r, '"');
            r.append(input);
            push_char(&mut r, '"');
            assert(r@ =~= format_cell(self.data_type@, input@));
            r
        } else {
            input.to_owned()
        }
    }
}

/// Cuts a line into its cells, each formatted by its column's type, or
/// `None` where the line cannot be cut (see `columns_fit`). The cells are
/// consecutive fixed-width fields: each starts where the one before it ends,
/// at the sum of the earlier widths, never past the line's end.
pub fn try_parse_line(line: &String, spec: &Vec<ColumnSpec>) -> (r: Option<Vec<String>>)
    ensures
        r is Some <==> columns_fit(line@, widths(spec@)),
        r matches Some(cells) ==> {
            &&& cells.len() == spec.len()
            &&& forall|k: int|
                0 <= k < spec.len() ==> #[trigger] cells[k]@ == format_cell(
                    spec[k].data_type@,
                    column_text(line@, widths(spec@), k),
                )
        },
{
    let ghost ws = widths(spec@);
    let ghost len = line@.len() as int;
    let mut result = Vec::<String>::new();
    let line_str = line.as_str();
    let line_length = line_str.unicode_len();
    let n = spec.len();
    let mut pos: usize = 0;
    let mut k: usize = 0;
    proof {
        is_char_boundary_start_end_of_seq(encode_utf8(line@));
    }
    while k < n
        invariant
            n == spec.len(),
            ws == widths(spec@),
            len == line@.len(),
            line_str@ == line@,
            line_length == len,
            k <= n,
            pos == column_start(ws, len, k as int),
            is_char_boundary(encode_utf8(line@), pos as int),
            forall|j: int| 0 <= j < k ==> #[trigger] column_start(ws, len, j) + ws[j] <= usize::MAX,
            forall|j: int|
                0 <= j <= k ==> is_char_boundary(encode_utf8(line@), #[trigger] column_start(ws, len, j)),
            result.len() == k,
            forall|j: int|
                0 <= j < k ==> #[trigger] result[j]@ == format_cell(
                    spec[j].data_type@,
                    column_text(line@, ws, j),
                ),
        decreases n - k,
    {
        let column = &spec[k];
        assert(ws[k as int] == column.width);
        proof {
            lemma_column_start_bounds(ws, len, k as int);
        }
        if column.width > usize::MAX - pos {
            return None;
        }
        let end = if line_length < pos + column.width {
            line_length
        } else {
            pos + column.width
        };
        assert(end == column_start(ws, len, k + 1));
        if !line_str.is_char_boundary(end) {
            return None;
        }
        let substring = byte_slice(line_str, pos, end);
        let formatted_string = column.format(substring);
        pos = end;
        result.push(formatted_string);
        k = k + 1;
    }
    Some(result)
}

/// Cuts a line into its cells, each formatted by its column's type.
pub fn parse_line(line: &String, spec: &Vec<ColumnSpec>) -> (cells: Vec<String>)
    requires
        columns_fit(line@, widths(spec@)),
    ensures
        cells.len() == spec.len(),
        forall|k: int|
            0 <= k < spec.len() ==> #[trigger] cells[k]@ == format_cell(
                spec[k].data_type@,
                column_text(line@, widths(spec@), k),
            ),
{
    match try_parse_line(line, spec) {
        Some(cells) => cells,
        None => {
            assert(false);
            Vec::new()
        },
    }
}

/// The header the converter prints: the column names joined by commas,
/// whatever the output delimiter.
pub fn header_text(spec: &Vec<ColumnSpec>) -> (r: String)
    ensures
        r@ == join_with(spec@.map_values(|c: ColumnSpec| c.name@), seq![',']),
{
    let n = spec.len();
    let mut names: Vec<String> = Vec::new();
    let mut i: usize = 0;
    while i < n
        invariant
            n == spec.len(),
            i <= n,
            names.len() == i,
            forall|k: int| 0 <= k < i ==> #[trigger] names[k]@ == spec[k].name@,
        decreases n - i,
    {
        names.push(spec[i].name.clone());
        i = i + 1;
    }
    let comma = ",";
    proof {
        reveal_strlit(",");
        assert(comma@ =~= seq![',']);
        assert(crate::text::views(names@) =~= spec@.map_values(|c: ColumnSpec| c.name@));
    }
    join(&names, comma)
}

} // verus!
