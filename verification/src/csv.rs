//! The benchmark result table: one header row naming the measured backends,
//! then one row of decimal numerals per sample.
//!
//! Rows are separated by a line feed (an optional carriage return before it
//! is dropped, and so is one empty line at the end of the file); cells are
//! separated by commas.  A file is well formed when every data row has
//! exactly as many cells as the header and every data cell is a
//! floating-point numeral (`is_float_token`).

use crate::text::{chars_to_string, spec_split, split_chars, subrange_vec, to_chars};
use crate::types::BenchError;
use vstd::prelude::*;

verus! {

pub open spec fn is_digit(c: char) -> bool {
    48 <= c as u32 && c as u32 <= 57
}

/// How many consecutive digits stand in `s` at position `i`.
pub open spec fn digits_from(s: Seq<char>, i: int) -> int
    decreases s.len() - i,
{
    if i < 0 || i >= s.len() {
        0
    } else if is_digit(s[i]) {
        1 + digits_from(s, i + 1)
    } else {
        0
    }
}

pub proof fn lemma_digits_bound(s: Seq<char>, i: int)
    requires
        0 <= i <= s.len(),
    ensures
        0 <= digits_from(s, i),
        i + digits_from(s, i) <= s.len(),
    decreases s.len() - i,
{
    if i < s.len() && is_digit(s[i]) {
        lemma_digits_bound(s, i + 1);
    }
}

/// Whether an exponent part (`e` or `E`, an optional sign, one or more
/// digits) stands at position `i` and reaches the end of `s`.
pub open spec fn exp_from(s: Seq<char>, i: int) -> bool {
    &&& 0 <= i < s.len()
    &&& (s[i] == 'e' || s[i] == 'E')
    &&& {
        let j = if i + 1 < s.len() && (s[i + 1] == '+' || s[i + 1] == '-') {
            i + 2
        } else {
            i + 1
        };
        digits_from(s, j) > 0 && j + digits_from(s, j) == s.len()
    }
}

/// Whether an unsigned numeral (digits with an optional fractional part,
/// then an optional exponent) stands at position `i` and reaches the end.
pub open spec fn number_from(s: Seq<char>, i: int) -> bool {
    let d1 = digits_from(s, i);
    if 0 <= i && i + d1 == s.len() {
        d1 > 0
    } else if 0 <= i < s.len() && i + d1 < s.len() && s[i + d1] == '.' {
        let d2 = digits_from(s, i + d1 + 1);
        &&& (d1 > 0 || d2 > 0)
        &&& (i + d1 + 1 + d2 == s.len() || exp_from(s, i + d1 + 1 + d2))
    } else {
        d1 > 0 && exp_from(s, i + d1)
    }
}

/// A well-formed floating-point numeral: an optional sign, digits with an
/// optional fractional part, and an optional exponent.
pub open spec fn is_float_token(s: Seq<char>) -> bool {
    s.len() > 0 && {
        let i: int = if s[0] == '+' || s[0] == '-' {
            1
        } else {
            0
        };
        number_from(s, i)
    }
}

/// Counts the consecutive digits standing in `v` at position `i`.
fn count_digits(v: &Vec<char>, i: usize) -> (r: usize)
    requires
        i <= v@.len(),
    ensures
        r == digits_from(v@, i as int),
        i + r <= v@.len(),
{
    let n = v.len();
    let mut j: usize = i;
    loop
        invariant
            i <= j <= n,
            n == v@.len(),
            digits_from(v@, i as int) == (j - i) + digits_from(v@, j as int),
        ensures
            i <= j <= n,
            digits_from(v@, i as int) == j - i,
        decreases n - j,
    {
        if j >= n {
            break ;
        }
        let c = v[j];
        if !(48 <= c as u32 && c as u32 <= 57) {
            proof {
                assert(digits_from(v@, j as int) == 0);
            }
            break ;
        }
        proof {
            lemma_digits_bound(v@, j as int);
        }
        j = j + 1;
    }
    j - i
}

/// Whether an exponent part stands in `v` at position `i`, reaching the end.
fn exp_check(v: &Vec<char>, i: usize) -> (r: bool)
    requires
        i <= v@.len(),
    ensures
        r == exp_from(v@, i as int),
{
    let n = v.len();
    if i >= n {
        return false;
    }
    let c = v[i];
    if !(c == 'e' || c == 'E') {
        return false;
    }
    let mut j: usize = i + 1;
    if i + 1 < n {
        let c1 = v[i + 1];
        if c1 == '+' || c1 == '-' {
            j = i + 2;
        }
    }
    let d = count_digits(v, j);
    d > 0 && j + d == n
}

/// Tests whether `v` is a well-formed floating-point numeral.
pub fn is_float(v: &Vec<char>) -> (r: bool)
    ensures
        r == is_float_token(v@),
{
    let n = v.len();
    if n == 0 {
        return false;
    }
    let c0 = v[0];
    let i: usize = if c0 == '+' || c0 == '-' {
        1
    } else {
        0
    };
    let d1 = count_digits(v, i);
    let p1 = i + d1;
    if p1 == n {
        return d1 > 0;
    }
    if v[p1] == '.' {
        let d2 = count_digits(v, p1 + 1);
        let p2 = p1 + 1 + d2;
        if !(d1 > 0 || d2 > 0) {
            return false;
        }
        if p2 == n {
            return true;
        }
        return exp_check(v, p2);
    }
    if d1 == 0 {
        return false;
    }
    exp_check(v, p1)
}

/// One line with a trailing carriage return dropped.
pub open spec fn strip_cr(l: Seq<char>) -> Seq<char> {
    if l.len() > 0 && l[l.len() - 1] == '\r' {
        l.drop_last()
    } else {
        l
    }
}

/// The lines of the file: split on line feeds, each stripped of a trailing
/// carriage return, one empty last line (a trailing newline) dropped.
pub open spec fn csv_lines(t: Seq<char>) -> Seq<Seq<char>> {
    let raw = spec_split(t, '\n').map_values(|l: Seq<char>| strip_cr(l));
    if raw.len() > 0 && raw.last().len() == 0 {
        raw.drop_last()
    } else {
        raw
    }
}

/// The cells of one line.
pub open spec fn csv_cells(l: Seq<char>) -> Seq<Seq<char>> {
    spec_split(l, ',')
}

/// The header row: one backend name per column.
pub open spec fn csv_headers(t: Seq<char>) -> Seq<Seq<char>> {
    csv_cells(csv_lines(t)[0])
}

/// How many data rows the file has.
pub open spec fn csv_row_count(t: Seq<char>) -> int {
    csv_lines(t).len() - 1
}

/// The numerals of column `j`, top to bottom.
pub open spec fn csv_column(t: Seq<char>, j: int) -> Seq<Seq<char>> {
    Seq::new(csv_row_count(t) as nat, |r: int| csv_cells(csv_lines(t)[r + 1])[j])
}

/// All columns of the file, one numeral sequence per header.
pub open spec fn csv_columns(t: Seq<char>) -> Seq<Seq<Seq<char>>> {
    Seq::new(csv_headers(t).len(), |j: int| csv_column(t, j))
}

/// A well-formed result file: a header line, every data row exactly as wide
/// as the header, every data cell a floating-point numeral.
pub open spec fn csv_wf(t: Seq<char>) -> bool {
    let lines = csv_lines(t);
    &&& lines.len() >= 1
    &&& forall|r: int|
        1 <= r < lines.len() ==> #[trigger] csv_cells(lines[r]).len() == csv_headers(t).len()
    &&& forall|r: int, j: int|
        1 <= r < lines.len() && 0 <= j < csv_cells(lines[r]).len() ==> is_float_token(
            #[trigger] csv_cells(lines[r])[j],
        )
}

/// Parses a result file into its header names and one numeral column per
/// header, exactly when the file is well formed.
pub fn parse_csv(text: &str) -> (r: Result<(Vec<String>, Vec<Vec<String>>), BenchError>)
    ensures
        match r {
            Ok(p) => {
                &&& csv_wf(text@)
                &&& p.0.deep_view() == csv_headers(text@)
                &&& p.1.deep_view().len() == csv_headers(text@).len()
                &&& forall|j: int|
                    0 <= j < p.1.deep_view().len() ==> #[trigger] p.1.deep_view()[j] == csv_column(
                        text@,
                        j,
                    )
            },
            Err(e) => !csv_wf(text@) && e == BenchError::Parse,
        },
{
    let chars = to_chars(text);
    let raw = split_chars(&chars, '\n');
    let ghost raw_stripped = spec_split(text@, '\n').map_values(|l: Seq<char>| strip_cr(l));
    let nraw = raw.len();
    proof {
        assert(raw.deep_view().len() == nraw);
    }
    let mut lines: Vec<Vec<char>> = Vec::new();
    let mut k: usize = 0;
    while k < nraw
        invariant
            k <= nraw,
            nraw == raw@.len(),
            raw.deep_view() == spec_split(text@, '\n'),
            raw_stripped == spec_split(text@, '\n').map_values(|l: Seq<char>| strip_cr(l)),
            lines.deep_view() == raw_stripped.take(k as int),
        decreases nraw - k,
    {
        let line = &raw[k];
        proof {
            crate::text::lemma_index_deep_view(raw, k as int);
            crate::text::lemma_chars_deep(raw@[k as int]);
            assert(line@ == raw.deep_view()[k as int]);
        }
        let ll = line.len();
        let stripped: Vec<char> = if ll > 0 && line[ll - 1] == '\r' {
            subrange_vec(line, 0, ll - 1)
        } else {
            subrange_vec(line, 0, ll)
        };
        proof {
            assert(line@.subrange(0, ll as int) =~= line@);
            if ll > 0 && line@[ll - 1] == '\r' {
                assert(line@.drop_last() =~= line@.subrange(0, ll - 1));
            }
            assert(stripped@ == strip_cr(raw.deep_view()[k as int]));
            assert(raw_stripped[k as int] == strip_cr(raw.deep_view()[k as int]));
        }
        let ghost lines0 = lines;
        lines.push(stripped);
        k = k + 1;
        proof {
            crate::text::lemma_push_deep_view(lines0, lines, stripped);
            crate::text::lemma_chars_deep(stripped);
            assert(raw_stripped.take(k as int) =~= raw_stripped.take(k - 1).push(
                raw_stripped[k - 1],
            ));
        }
    }
    proof {
        assert(raw_stripped.take(nraw as int) =~= raw_stripped);
        crate::text::lemma_split_len(text@, '\n');
    }
    // Drop one empty final line (a trailing newline).
    let nl = lines.len();
    if nl > 0 {
        let last = &lines[nl - 1];
        proof {
            crate::text::lemma_index_deep_view(lines, nl - 1);
            crate::text::lemma_chars_deep(lines@[nl - 1]);
            assert(last@ == raw_stripped.last());
        }
        if last.len() == 0 {
            let ghost lines1 = lines;
            lines.pop();
            proof {
                assert(lines.deep_view() =~= lines1.deep_view().drop_last());
                assert(lines.deep_view() =~= raw_stripped.drop_last());
            }
        }
    }
    proof {
        assert(lines.deep_view() == csv_lines(text@));
    }
    if lines.len() == 0 {
        return Err(BenchError::Parse);
    }
    // Header row.
    let line0 = &lines[0];
    proof {
        crate::text::lemma_index_deep_view(lines, 0);
        crate::text::lemma_chars_deep(lines@[0]);
        assert(line0@ == csv_lines(text@)[0]);
    }
    let header_cells = split_chars(line0, ',');
    proof {
        assert(header_cells.deep_view() == csv_headers(text@));
    }
    let w = header_cells.len();
    let mut headers: Vec<String> = Vec::new();
    let mut j: usize = 0;
    while j < w
        invariant
            j <= w,
            w == header_cells@.len(),
            header_cells.deep_view() == csv_headers(text@),
            headers.deep_view() == csv_headers(text@).take(j as int),
        decreases w - j,
    {
        let cell = &header_cells[j];
        proof {
            crate::text::lemma_index_deep_view(header_cells, j as int);
            crate::text::lemma_chars_deep(header_cells@[j as int]);
            assert(cell@ == csv_headers(text@)[j as int]);
        }
        let s = chars_to_string(cell);
        let ghost headers0 = headers;
        headers.push(s);
        j = j + 1;
        proof {
            crate::text::lemma_push_deep_view(headers0, headers, s);
            assert(csv_headers(text@).take(j as int) =~= csv_headers(text@).take(j - 1).push(
                csv_headers(text@)[j - 1],
            ));
        }
    }
    proof {
        assert(csv_headers(text@).take(w as int) =~= csv_headers(text@));
    }
    // Data rows: check width and numerals.
    let nlines = lines.len();
    let mut cells_by_row: Vec<Vec<Vec<char>>> = Vec::new();
    let mut rr: usize = 1;
    while rr < nlines
        invariant
            1 <= rr <= nlines,
            nlines == lines.deep_view().len(),
            lines.deep_view() == csv_lines(text@),
            w == csv_headers(text@).len(),
            cells_by_row.deep_view().len() == rr - 1,
            forall|r: int|
                0 <= r < rr - 1 ==> #[trigger] cells_by_row.deep_view()[r] == csv_cells(
                    csv_lines(text@)[r + 1],
                ),
            forall|r: int|
                1 <= r < rr ==> #[trigger] csv_cells(csv_lines(text@)[r]).len() == w,
            forall|r: int, jj: int|
                1 <= r < rr && 0 <= jj < csv_cells(csv_lines(text@)[r]).len() ==> is_float_token(
                    #[trigger] csv_cells(csv_lines(text@)[r])[jj],
                ),
        decreases nlines - rr,
    {
        let line = &lines[rr];
        proof {
            crate::text::lemma_index_deep_view(lines, rr as int);
            crate::text::lemma_chars_deep(lines@[rr as int]);
            assert(line@ == lines.deep_view()[rr as int]);
        }
        let cells = split_chars(line, ',');
        if cells.len() != w {
            proof {
                assert(csv_cells(csv_lines(text@)[rr as int]).len() != csv_headers(text@).len());
            }
            return Err(BenchError::Parse);
        }
        let mut cj: usize = 0;
        while cj < w
            invariant
                cj <= w,
                w == cells.deep_view().len(),
                cells.deep_view() == csv_cells(csv_lines(text@)[rr as int]),
                1 <= rr < nlines,
                nlines == csv_lines(text@).len(),
                forall|jj: int|
                    0 <= jj < cj ==> is_float_token(
                        #[trigger] csv_cells(csv_lines(text@)[rr as int])[jj],
                    ),
            decreases w - cj,
        {
            let cell = &cells[cj];
            proof {
                crate::text::lemma_index_deep_view(cells, cj as int);
                crate::text::lemma_chars_deep(cells@[cj as int]);
                assert(cell@ == cells.deep_view()[cj as int]);
            }
            if !is_float(cell) {
                proof {
                    assert(!is_float_token(csv_cells(csv_lines(text@)[rr as int])[cj as int]));
                }
                return Err(BenchError::Parse);
            }
            cj = cj + 1;
        }
        let ghost cbr0 = cells_by_row;
        cells_by_row.push(cells);
        rr = rr + 1;
        proof {
            crate::text::lemma_push_deep_view(cbr0, cells_by_row, cells);
            assert(forall|r: int|
                0 <= r < rr - 1 ==> #[trigger] cells_by_row.deep_view()[r] == csv_cells(
                    csv_lines(text@)[r + 1],
                ));
        }
    }
    proof {
        assert(csv_wf(text@));
    }
    // Columns: one numeral sequence per header.
    let rows = cells_by_row.len();
    proof {
        assert(rows == csv_row_count(text@));
    }
    let mut columns: Vec<Vec<String>> = Vec::new();
    let mut cj: usize = 0;
    while cj < w
        invariant
            cj <= w,
            w == csv_headers(text@).len(),
            rows == csv_row_count(text@),
            rows == cells_by_row.deep_view().len(),
            forall|r: int|
                0 <= r < rows ==> #[trigger] cells_by_row.deep_view()[r] == csv_cells(
                    csv_lines(text@)[r + 1],
                ),
            forall|r: int|
                0 <= r < rows ==> #[trigger] cells_by_row.deep_view()[r].len() == w,
            columns.deep_view().len() == cj,
            forall|jj: int|
                0 <= jj < cj ==> #[trigger] columns.deep_view()[jj] == csv_column(text@, jj),
        decreases w - cj,
    {
        let mut col: Vec<String> = Vec::new();
        let mut r: usize = 0;
        while r < rows
            invariant
                r <= rows,
                cj < w,
                w == csv_headers(text@).len(),
                rows == csv_row_count(text@),
                rows == cells_by_row.deep_view().len(),
                forall|rx: int|
                    0 <= rx < rows ==> #[trigger] cells_by_row.deep_view()[rx] == csv_cells(
                        csv_lines(text@)[rx + 1],
                    ),
                forall|rx: int|
                    0 <= rx < rows ==> #[trigger] cells_by_row.deep_view()[rx].len() == w,
                col.deep_view() == csv_column(text@, cj as int).take(r as int),
            decreases rows - r,
        {
            let row = &cells_by_row[r];
            proof {
                crate::text::lemma_index_deep_view(cells_by_row, r as int);
                assert(row.deep_view() == cells_by_row.deep_view()[r as int]);
                assert(row@.len() == row.deep_view().len());
            }
            let cell = &row[cj];
            proof {
                crate::text::lemma_index_deep_view(*row, cj as int);
                crate::text::lemma_chars_deep(row@[cj as int]);
                assert(cell@ == row.deep_view()[cj as int]);
                assert(cell@ == csv_column(text@, cj as int)[r as int]);
            }
            let s = chars_to_string(cell);
            let ghost col0 = col;
            col.push(s);
            r = r + 1;
            proof {
                crate::text::lemma_push_deep_view(col0, col, s);
                assert(csv_column(text@, cj as int).take(r as int) =~= csv_column(
                    text@,
                    cj as int,
                ).take(r - 1).push(csv_column(text@, cj as int)[r - 1]));
            }
        }
        proof {
            assert(csv_column(text@, cj as int).take(rows as int) =~= csv_column(
                text@,
                cj as int,
            ));
        }
        let ghost columns0 = columns;
        columns.push(col);
        cj = cj + 1;
        proof {
            crate::text::lemma_push_deep_view(columns0, columns, col);
        }
    }
    Ok((headers, columns))
}

} // verus!
