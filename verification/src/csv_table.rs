//! Reading a whole CSV document into a table: all its rows, the first as
//! the header when there is one, blank lines skipped, and each record cut or
//! padded to the header's width; and building the value of a table whose
//! cells have been read into values: an array of objects keyed by the
//! header, or an array of row arrays.
use vstd::prelude::*;
use crate::value::Value;
use crate::heap::{Heap, HeapObj, Field, fields_view, keys_distinct, set_field};
use crate::csv::{FastCsvParser, CsvError, RowEnd, ScanState, read_row, scan_row, byte_rows, written_row, delim_ok, cell_ok};

verus! {

/// A scan that starts at or after `s0` within the data ends a row after
/// `s0`, within the data.
proof fn lemma_scan_progress(b: Seq<u8>, d: u8, t: bool, st: ScanState, s0: int)
    requires
        0 <= s0 <= st.pos <= b.len(),
        s0 < b.len(),
    ensures
        scan_row(b, d, t, st) matches RowEnd::Row { pos, fields } ==> s0 < pos <= b.len() && fields.len() >= 1,
    decreases b.len() - st.pos,
{
    if st.pos < b.len() {
        let c = b[st.pos];
        if st.in_quotes {
            if c == crate::csv::QUOTE {
                if st.pos + 1 < b.len() && b[st.pos + 1] == crate::csv::QUOTE {
                    let buf = match st.escaped {
                        Some(e) => e,
                        None => b.subrange(st.field_start + 1, st.pos),
                    };
                    lemma_scan_progress(b, d, t, ScanState { pos: st.pos + 2, escaped: Some(buf.push(crate::csv::QUOTE)), ..st }, s0);
                } else {
                    lemma_scan_progress(b, d, t, ScanState { pos: st.pos + 1, in_quotes: false, ..st }, s0);
                }
            } else {
                lemma_scan_progress(b, d, t, ScanState { pos: st.pos + 1, escaped: crate::csv::add_byte(st.escaped, c), ..st }, s0);
            }
        } else if c == crate::csv::QUOTE && st.pos == st.field_start {
            lemma_scan_progress(b, d, t, ScanState { pos: st.pos + 1, in_quotes: true, ..st }, s0);
        } else if c == d {
            match crate::csv::close_cell(b, t, st) {
                Some(cell) => lemma_scan_progress(
                    b,
                    d,
                    t,
                    ScanState { pos: st.pos + 1, field_start: st.pos + 1, in_quotes: false, escaped: None, fields: st.fields.push(cell) },
                    s0,
                ),
                None => {},
            }
        } else if c == crate::csv::CR || c == crate::csv::LF {
        } else {
            lemma_scan_progress(b, d, t, ScanState { pos: st.pos + 1, escaped: crate::csv::add_byte(st.escaped, c), ..st }, s0);
        }
    }
}

/// A row read from within the data ends after where it started.
proof fn lemma_row_progress(b: Seq<u8>, d: u8, t: bool, pos: int)
    requires
        0 <= pos,
    ensures
        read_row(b, d, t, pos) matches RowEnd::Row { pos: p, fields } ==> pos < p <= b.len() && fields.len() >= 1,
{
    if pos < b.len() {
        lemma_scan_progress(b, d, t, ScanState { pos, field_start: pos, in_quotes: false, escaped: None, fields: seq![] }, pos);
    }
}

/// The rows of `b` from position `pos` on, or the first error met.
pub open spec fn rows_from(b: Seq<u8>, d: u8, t: bool, pos: int) -> Result<Seq<Seq<Seq<u8>>>, CsvError>
    decreases b.len() - pos,
{
    if pos < 0 {
        Ok(seq![])
    } else {
        match read_row(b, d, t, pos) {
            RowEnd::NoRow => Ok(seq![]),
            RowEnd::Row { fields, pos: p } => if pos < p <= b.len() {
                match rows_from(b, d, t, p) {
                    Ok(rest) => Ok(seq![fields] + rest),
                    Err(e) => Err(e),
                }
            } else {
                Ok(seq![fields])
            },
            RowEnd::Failed { err, .. } => Err(err),
        }
    }
}

/// How a document of rows is written: each row written in turn.
pub open spec fn written_doc(rows: Seq<Seq<Seq<u8>>>, d: u8) -> Seq<u8>
    decreases rows.len(),
{
    if rows.len() == 0 {
        Seq::empty()
    } else {
        written_row(rows[0], d) + written_doc(rows.skip(1), d)
    }
}

/// Rows that read back as written: each has a cell, and every cell reads
/// back.
pub open spec fn rows_ok(rows: Seq<Seq<Seq<u8>>>, d: u8, t: bool) -> bool {
    forall|i: int| 0 <= i < rows.len() ==> #[trigger] rows[i].len() >= 1
        && forall|j: int| 0 <= j < rows[i].len() ==> #[trigger] cell_ok(rows[i][j], d, t)
}

proof fn lemma_doc_at(b: Seq<u8>, rows: Seq<Seq<Seq<u8>>>, p: int, d: u8, t: bool)
    requires
        delim_ok(d),
        rows_ok(rows, d, t),
        0 <= p,
        p + written_doc(rows, d).len() == b.len(),
        b.subrange(p, b.len() as int) == written_doc(rows, d),
    ensures
        rows_from(b, d, t, p) == Ok::<Seq<Seq<Seq<u8>>>, CsvError>(rows),
    decreases rows.len(),
{
    if rows.len() == 0 {
        assert(written_doc(rows, d).len() == 0);
        assert(read_row(b, d, t, p) == RowEnd::NoRow);
        assert(rows =~= Seq::<Seq<Seq<u8>>>::empty());
    } else {
        let r0 = written_row(rows[0], d);
        let rest = rows.skip(1);
        let tail = written_doc(rest, d);
        let q = p + r0.len();
        assert(rows[0].len() >= 1);
        assert forall|j: int| 0 <= j < rows[0].len() implies #[trigger] cell_ok(rows[0][j], d, t) by {
            assert(rows[0].len() >= 1 && forall|k: int| 0 <= k < rows[0].len() ==> #[trigger] cell_ok(rows[0][k], d, t));
        }
        assert(b.subrange(p, q) =~= r0) by {
            assert forall|k: int| 0 <= k < r0.len() implies b.subrange(p, q)[k] == r0[k] by {
                assert(b[p + k] == written_doc(rows, d)[k]);
            }
        }
        crate::csv::lemma_written_row_at(b, rows[0], p, d, t);
        assert(r0.len() > 0) by {
            reveal_with_fuel(written_row, 2);
        }
        assert(rows_ok(rest, d, t)) by {
            assert forall|i: int| 0 <= i < rest.len() implies #[trigger] rest[i].len() >= 1
                && forall|j: int| 0 <= j < rest[i].len() ==> #[trigger] cell_ok(rest[i][j], d, t) by {
                assert(rest[i] == rows[i + 1]);
            }
        }
        assert(b.subrange(q, b.len() as int) =~= tail) by {
            assert forall|k: int| 0 <= k < tail.len() implies b.subrange(q, b.len() as int)[k] == tail[k] by {
                assert(b[q + k] == written_doc(rows, d)[r0.len() + k]);
            }
        }
        lemma_doc_at(b, rest, q, d, t);
        assert(read_row(b, d, t, p) == (RowEnd::Row { fields: rows[0], pos: q }));
        assert(p < q <= b.len());
        assert(seq![rows[0]] + rest =~= rows);
    }
}

/// A document that the writer writes reads back as the same rows — each
/// row with at least one cell, for a delimiter that is an ASCII character
/// other than a quote or a line break, and cells that read back (see
/// [`crate::csv::cell_ok`]).
pub proof fn lemma_written_doc_reads_back(rows: Seq<Seq<Seq<u8>>>, delim: u8, trim: bool)
    requires
        delim_ok(delim),
        rows_ok(rows, delim, trim),
    ensures
        rows_from(written_doc(rows, delim), delim, trim, 0) == Ok::<Seq<Seq<Seq<u8>>>, CsvError>(rows),
{
    let b = written_doc(rows, delim);
    assert(b.subrange(0, b.len() as int) =~= b);
    lemma_doc_at(b, rows, 0, delim, trim);
}

/// `done` followed by the rows of `rest`, or its error.
pub open spec fn after(done: Seq<Seq<Seq<u8>>>, rest: Result<Seq<Seq<Seq<u8>>>, CsvError>) -> Result<Seq<Seq<Seq<u8>>>, CsvError> {
    match rest {
        Ok(r) => Ok(done + r),
        Err(e) => Err(e),
    }
}

/// A line with nothing on it: one empty cell (or none).
pub open spec fn blank_row(row: Seq<Seq<u8>>) -> bool {
    row.len() == 0 || (row.len() == 1 && row[0].len() == 0)
}

/// The records of a table: the rows after the first, blank ones left out.
pub open spec fn records(rows: Seq<Seq<Seq<u8>>>, n: nat) -> Seq<Seq<Seq<u8>>>
    decreases n,
{
    if n <= 1 {
        seq![]
    } else if blank_row(rows[n - 1]) {
        records(rows, (n - 1) as nat)
    } else {
        records(rows, (n - 1) as nat).push(rows[n - 1])
    }
}

/// A record cut or padded to `width` cells; `None` stands for a missing cell.
pub open spec fn fitted(row: Seq<Seq<u8>>, width: nat) -> Seq<Option<Seq<u8>>> {
    Seq::new(width, |c: int| if c < row.len() { Some(row[c]) } else { None })
}

/// A table cell's bytes.
pub open spec fn cell_view(c: Option<Vec<u8>>) -> Option<Seq<u8>> {
    match c {
        Some(v) => Some(v@),
        None => None,
    }
}

/// A table row's cells.
pub open spec fn row_view(r: Seq<Option<Vec<u8>>>) -> Seq<Option<Seq<u8>>> {
    r.map_values(|c: Option<Vec<u8>>| cell_view(c))
}

/// The cells of a table's rows.
pub open spec fn table_rows(rows: Seq<Vec<Option<Vec<u8>>>>) -> Seq<Seq<Option<Seq<u8>>>> {
    rows.map_values(|r: Vec<Option<Vec<u8>>>| row_view(r@))
}

/// Rows fitted to `width` cells.
pub open spec fn fit_all(rs: Seq<Seq<Seq<u8>>>, width: nat) -> Seq<Seq<Option<Seq<u8>>>> {
    rs.map_values(|r: Seq<Seq<u8>>| fitted(r, width))
}

/// Rows with every cell present.
pub open spec fn fit_each(rs: Seq<Seq<Seq<u8>>>) -> Seq<Seq<Option<Seq<u8>>>> {
    rs.map_values(|r: Seq<Seq<u8>>| fitted(r, r.len()))
}

/// A CSV document as a table.
pub struct CsvTable {
    /// The header's cells, when the document has a header.
    pub header: Option<Vec<Vec<u8>>>,
    /// The rows: with a header, one per record, fitted to the header's
    /// width; without, every row, the first as it is and the rest unless blank.
    pub rows: Vec<Vec<Option<Vec<u8>>>>,
}

/// The table of `b`: empty when the document has no rows or an empty first
/// row; otherwise by `has_header`.
pub open spec fn table_of(rows: Seq<Seq<Seq<u8>>>, has_header: bool) -> (Option<Seq<Seq<u8>>>, Seq<Seq<Option<Seq<u8>>>>) {
    if rows.len() == 0 || rows[0].len() == 0 {
        (None, seq![])
    } else if has_header {
        let rs = records(rows, rows.len());
        (Some(rows[0]), fit_all(rs, rows[0].len()))
    } else {
        let rs = seq![rows[0]] + records(rows, rows.len());
        (None, fit_each(rs))
    }
}

/// A row's cells as table cells: all of them, or cut or padded to `width`.
fn fit_row(row: &Vec<Vec<u8>>, width: usize) -> (r: Vec<Option<Vec<u8>>>)
    ensures
        row_view(r@) == fitted(byte_rows(row@), width as nat),
{
    let mut r: Vec<Option<Vec<u8>>> = Vec::new();
    let mut c: usize = 0;
    while c < width
        invariant
            c <= width,
            row_view(r@) == fitted(byte_rows(row@), width as nat).take(c as int),
        decreases width - c,
    {
        let cell: Option<Vec<u8>> = if c < row.len() { Some(copy_bytes(&row[c])) } else { None };
        let ghost prev = r@;
        r.push(cell);
        assert(row_view(r@) =~= row_view(prev).push(cell_view(cell)));
        assert(row_view(r@) =~= fitted(byte_rows(row@), width as nat).take(c + 1));
        c = c + 1;
    }
    assert(fitted(byte_rows(row@), width as nat).take(width as int) =~= fitted(byte_rows(row@), width as nat));
    r
}

/// A copy of a byte vector.
fn copy_bytes(v: &Vec<u8>) -> (r: Vec<u8>)
    ensures
        r@ == v@,
{
    let mut r: Vec<u8> = Vec::new();
    let mut k: usize = 0;
    while k < v.len()
        invariant
            k <= v@.len(),
            r@ == v@.take(k as int),
        decreases v@.len() - k,
    {
        r.push(v[k]);
        assert(v@.take(k + 1) =~= v@.take(k as int).push(v@[k as int]));
        k = k + 1;
    }
    assert(v@.take(v@.len() as int) =~= v@);
    r
}

/// A copy of a row's cells.
fn copy_row(row: &Vec<Vec<u8>>) -> (r: Vec<Vec<u8>>)
    ensures
        byte_rows(r@) == byte_rows(row@),
{
    let mut r: Vec<Vec<u8>> = Vec::new();
    let mut k: usize = 0;
    while k < row.len()
        invariant
            k <= row@.len(),
            byte_rows(r@) == byte_rows(row@).take(k as int),
        decreases row@.len() - k,
    {
        let c = copy_bytes(&row[k]);
        let ghost prev = r@;
        r.push(c);
        assert(byte_rows(r@) =~= byte_rows(prev).push(c@));
        assert(byte_rows(r@) =~= byte_rows(row@).take(k + 1));
        k = k + 1;
    }
    assert(byte_rows(row@).take(row@.len() as int) =~= byte_rows(row@));
    r
}

/// Whether a row is blank.
fn is_blank_row(row: &Vec<Vec<u8>>) -> (b: bool)
    ensures
        b == blank_row(byte_rows(row@)),
{
    row.len() == 0 || (row.len() == 1 && row[0].len() == 0)
}

/// Records of a longer list of rows agree on a prefix.
proof fn lemma_records_prefix(rows: Seq<Seq<Seq<u8>>>, extra: Seq<Seq<u8>>, n: nat)
    requires
        n <= rows.len(),
    ensures
        records(rows.push(extra), n) == records(rows, n),
    decreases n,
{
    if n > 1 {
        lemma_records_prefix(rows, extra, (n - 1) as nat);
        assert(rows.push(extra)[n - 1] == rows[n - 1]);
    }
}

/// The table cells of a row list, extended by one row.
proof fn lemma_table_rows_push(rows: Seq<Vec<Option<Vec<u8>>>>, r: Vec<Option<Vec<u8>>>)
    ensures
        table_rows(rows.push(r)) == table_rows(rows).push(row_view(r@)),
{
    assert(table_rows(rows.push(r)) =~= table_rows(rows).push(row_view(r@)));
}

/// Reads the CSV document `text` into a table.
pub fn parse_csv(text: &[u8], delimiter: u8, has_header: bool, trim: bool) -> (r: Result<CsvTable, CsvError>)
    ensures
        match rows_from(text@, delimiter, trim, 0) {
            Ok(rows) => r matches Ok(tb) && {
                let (h, rs) = table_of(rows, has_header);
                &&& (match tb.header {
                    Some(hv) => h == Some(byte_rows(hv@)),
                    None => h is None,
                })
                &&& table_rows(tb.rows@) == rs
            },
            Err(e) => r == Err::<CsvTable, CsvError>(e),
        },
{
    let ghost b = text@;
    let mut parser = FastCsvParser::new(text, delimiter, trim);
    let mut row_buf: Vec<Vec<u8>> = Vec::new();
    proof {
        lemma_row_progress(b, delimiter, trim, 0);
    }
    let first = parser.next_row_into(&mut row_buf);
    match first {
        Err(e) => {
            assert(rows_from(b, delimiter, trim, 0) == Err::<Seq<Seq<Seq<u8>>>, CsvError>(e));
            return Err(e);
        },
        Ok(false) => {
            assert(rows_from(b, delimiter, trim, 0) == Ok::<Seq<Seq<Seq<u8>>>, CsvError>(seq![]));
            let tb = CsvTable { header: None, rows: Vec::new() };
            assert(table_rows(tb.rows@) =~= Seq::<Seq<Option<Seq<u8>>>>::empty());
            return Ok(tb);
        },
        Ok(true) => {},
    }
    let ghost first_row = byte_rows(row_buf@);
    assert(rows_from(b, delimiter, trim, 0) == after(seq![first_row], rows_from(b, delimiter, trim, parser.position())));
    assert(row_buf@.len() == first_row.len());
    let width = row_buf.len();
    let header = copy_row(&row_buf);
    let mut out: Vec<Vec<Option<Vec<u8>>>> = Vec::new();
    if !has_header {
        let r0 = fit_row(&row_buf, width);
        out.push(r0);
    }
    let ghost mut acc: Seq<Seq<Seq<u8>>> = seq![first_row];
    proof {
        lemma_table_rows_push(Seq::empty(), out@.last());
    }
    loop
        invariant
            b == text@,
            parser.wf(),
            parser.data() == b,
            parser.delim() == delimiter,
            parser.trims() == trim,
            0 <= parser.position() <= b.len(),
            acc.len() >= 1,
            acc[0] == first_row,
            first_row.len() == width,
            width > 0,
            byte_rows(header@) == first_row,
            rows_from(b, delimiter, trim, 0) == after(acc, rows_from(b, delimiter, trim, parser.position())),
            has_header ==> table_rows(out@) == fit_all(records(acc, acc.len()), width as nat),
            !has_header ==> table_rows(out@) == fit_each(seq![first_row] + records(acc, acc.len())),
        decreases b.len() - parser.position(),
    {
        let ghost pos0 = parser.position();
        proof {
            lemma_row_progress(b, delimiter, trim, pos0);
        }
        match parser.next_row_into(&mut row_buf) {
            Err(e) => {
                assert(rows_from(b, delimiter, trim, pos0) == Err::<Seq<Seq<Seq<u8>>>, CsvError>(e));
                return Err(e);
            },
            Ok(false) => {
                assert(rows_from(b, delimiter, trim, pos0) == Ok::<Seq<Seq<Seq<u8>>>, CsvError>(seq![]));
                assert(acc + Seq::<Seq<Seq<u8>>>::empty() =~= acc);
                let tb = CsvTable { header: if has_header { Some(header) } else { None }, rows: out };
                return Ok(tb);
            },
            Ok(true) => {
                let ghost f = byte_rows(row_buf@);
                proof {
                    assert(rows_from(b, delimiter, trim, pos0) == after(seq![f], rows_from(b, delimiter, trim, parser.position())));
                    match rows_from(b, delimiter, trim, parser.position()) {
                        Ok(rest) => {
                            assert(acc + (seq![f] + rest) =~= acc.push(f) + rest);
                        },
                        Err(_) => {},
                    }
                    lemma_records_prefix(acc, f, acc.len());
                }
                if !is_blank_row(&row_buf) {
                    let fit = if has_header { width } else { row_buf.len() };
                    let rr = fit_row(&row_buf, fit);
                    let ghost before = out@;
                    out.push(rr);
                    proof {
                        lemma_table_rows_push(before, rr);
                        if has_header {
                            assert(records(acc.push(f), acc.len() + 1) == records(acc, acc.len()).push(f));
                            assert(table_rows(out@) =~= fit_all(records(acc.push(f), acc.len() + 1), width as nat));
                        } else {
                            assert(records(acc.push(f), acc.len() + 1) == records(acc, acc.len()).push(f));
                            assert(table_rows(out@) =~= fit_each(seq![first_row] + records(acc.push(f), acc.len() + 1)));
                        }
                    }
                } else {
                    proof {
                        assert(records(acc.push(f), acc.len() + 1) == records(acc, acc.len()));
                    }
                }
                proof {
                    acc = acc.push(f);
                }
            },
        }
    }
}

/// The fields of a record of a table with header `names` and cells
/// `cells`: each of the first `n` names set, in order, to its cell.
pub open spec fn row_fields(names: Seq<Seq<char>>, cells: Seq<Value>, n: nat) -> Seq<(Seq<char>, Value)>
    decreases n,
{
    if n == 0 {
        Seq::empty()
    } else {
        set_field(row_fields(names, cells, (n - 1) as nat), names[n - 1], cells[n - 1])
    }
}

/// How many cells of a row of `cells` cells meet a header of `names` names.
pub open spec fn paired(names: nat, cells: nat) -> nat {
    if names < cells { names } else { cells }
}

/// Row `r` of a table built on heap `h` from `l` on: an object of the row's
/// cells keyed by the header, or an array of the cells.
pub open spec fn row_built(h: Seq<HeapObj>, l: int, r: int, names: Option<Seq<Seq<char>>>, cells: Seq<Value>) -> bool {
    match names {
        Some(ns) => h[l + r] matches HeapObj::Object(fs)
            && fields_view(fs@) == row_fields(ns, cells, paired(ns.len(), cells.len())),
        None => h[l + r] matches HeapObj::Array(a) && a@ == cells,
    }
}

/// The header's names as texts.
pub open spec fn header_names(names: Option<Vec<Vec<char>>>) -> Option<Seq<Seq<char>>> {
    match names {
        Some(ns) => Some(ns@.map_values(|n: Vec<char>| n@)),
        None => None,
    }
}

/// A copy of a row's cells.
fn copy_cells(cells: &Vec<Value>) -> (r: Vec<Value>)
    ensures
        r@ == cells@,
{
    let mut r: Vec<Value> = Vec::new();
    let mut k: usize = 0;
    while k < cells.len()
        invariant
            k <= cells@.len(),
            r@ == cells@.take(k as int),
        decreases cells@.len() - k,
    {
        r.push(cells[k]);
        k = k + 1;
        assert(r@ =~= cells@.take(k as int));
    }
    assert(cells@.take(cells@.len() as int) =~= cells@);
    r
}

/// The record of one row: the header's names set to the row's cells.
fn record_of(names: &Vec<Vec<char>>, cells: &Vec<Value>) -> (fs: Vec<Field>)
    ensures
        keys_distinct(fields_view(fs@)),
        fields_view(fs@) == row_fields(names@.map_values(|n: Vec<char>| n@), cells@, paired(names@.len(), cells@.len())),
{
    let ghost nv = names@.map_values(|n: Vec<char>| n@);
    let m: usize = if names.len() < cells.len() { names.len() } else { cells.len() };
    let mut fs: Vec<Field> = Vec::new();
    let mut k: usize = 0;
    while k < m
        invariant
            k <= m,
            m <= names@.len(),
            m <= cells@.len(),
            nv == names@.map_values(|n: Vec<char>| n@),
            keys_distinct(fields_view(fs@)),
            fields_view(fs@) == row_fields(nv, cells@, k as nat),
        decreases m - k,
    {
        assert(nv[k as int] == names@[k as int]@);
        crate::collections::store_field(&mut fs, &names[k], cells[k]);
        k = k + 1;
    }
    fs
}

/// The value of a table whose cells have been read into `rows`: with a
/// header `names`, an array of one object per row keyed by the header (a
/// repeated name set again; cells past the header, or names past the row,
/// left out); without, an array of the rows as arrays. The rows are
/// allocated first, in order, then the outer array.
pub fn table_value(names: &Option<Vec<Vec<char>>>, rows: &Vec<Vec<Value>>, heap: &mut Heap) -> (v: Value)
    requires
        old(heap).wf(),
    ensures
        final(heap).wf(),
        final(heap)@.len() == old(heap)@.len() + rows@.len() + 1,
        final(heap)@.take(old(heap)@.len() as int) == old(heap)@,
        v == Value::Obj((old(heap)@.len() + rows@.len()) as usize),
        forall|r: int| 0 <= r < rows@.len() ==> #[trigger] row_built(final(heap)@, old(heap)@.len() as int, r, header_names(*names), rows@[r]@),
        final(heap)@.last() matches HeapObj::Array(a)
            && a@ == Seq::new(rows@.len(), |r: int| Value::Obj((old(heap)@.len() + r) as usize)),
{
    let ghost h0 = heap@;
    let ghost l = heap@.len() as int;
    let mut refs: Vec<Value> = Vec::new();
    let mut r: usize = 0;
    while r < rows.len()
        invariant
            r <= rows@.len(),
            heap.wf(),
            heap@.len() == l + r,
            l == h0.len(),
            heap@.take(l) == h0,
            refs@ == Seq::new(r as nat, |k: int| Value::Obj((l + k) as usize)),
            forall|k: int| 0 <= k < r ==> #[trigger] row_built(heap@, l, k, header_names(*names), rows@[k]@),
        decreases rows@.len() - r,
    {
        let ghost before = heap@;
        let obj = match names {
            Some(ns) => HeapObj::Object(record_of(ns, &rows[r])),
            None => HeapObj::Array(copy_cells(&rows[r])),
        };
        let v = heap.allocate(obj);
        refs.push(v);
        assert(heap@.take(l) =~= before.take(l));
        assert forall|k: int| 0 <= k < r + 1 implies #[trigger] row_built(heap@, l, k, header_names(*names), rows@[k]@) by {
            if k < r {
                assert(heap@[l + k] == before[l + k]);
                assert(row_built(before, l, k, header_names(*names), rows@[k]@));
            }
        }
        r = r + 1;
        assert(refs@ =~= Seq::new(r as nat, |k: int| Value::Obj((l + k) as usize)));
    }
    let ghost before = heap@;
    let out = heap.allocate(HeapObj::Array(refs));
    assert(heap@.take(l) =~= before.take(l));
    assert forall|k: int| 0 <= k < rows@.len() implies #[trigger] row_built(heap@, l, k, header_names(*names), rows@[k]@) by {
        assert(heap@[l + k] == before[l + k]);
        assert(row_built(before, l, k, header_names(*names), rows@[k]@));
    }
    out
}

} // verus!
