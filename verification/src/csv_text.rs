//! Writing values as CSV text: an array of objects (a header line of field
//! names, then one line per object) or an array of rows (one line per row).
//! Finite floats are left for the caller to write, as in JSON text.
use vstd::prelude::*;
use crate::value::Value;
use crate::heap::{Heap, HeapObj, Field, fields_view};
use crate::arith::str_of;
use crate::json::{Chunk, char_chunks, int_text, float_is_finite, push_text, push_char, write_int};
use crate::csv::{CellValue, cell_value, text_true, text_false, text_null, lemma_int_text_reads_back, read_row, written_row, written_cell, needs_quotes, double_quotes, cell_ok, RowEnd, LF, QUOTE, CR,
    lemma_written_row_reads_back, occurs, occurs_at, latin1_utf8, ascii_bytes, ascii_after_first_quote, delim_ok};
use vstd::utf8::{is_ascii_chars, encode_utf8, is_ascii_chars_encode_utf8, encode_utf8_valid_utf8};

verus! {

/// Why a value cannot be written as CSV.
#[derive(Clone, Copy, PartialEq, Eq, Structural, Debug)]
pub enum CsvWriteError {
    /// The value is not a reference to a heap object.
    NotRows,
    /// The value is not an array.
    NotAnArray,
    /// The first item is not a reference to a heap object.
    ItemNotRow,
    /// The first item is neither an object, a record nor an array.
    UnsupportedRow,
}

/// A cell's text must be quoted: it holds the delimiter, a quote or a line
/// break.
pub open spec fn needs_quoting(s: Seq<char>, d: char) -> bool {
    s.contains(d) || s.contains('"') || s.contains('\n') || s.contains('\r')
}

/// `s` with each quote doubled.
pub open spec fn quotes_doubled(s: Seq<char>) -> Seq<char>
    decreases s.len(),
{
    if s.len() == 0 {
        seq![]
    } else {
        quotes_doubled(s.drop_last()) + if s.last() == '"' { seq!['"', '"'] } else { seq![s.last()] }
    }
}

/// The text of a cell holding `s`: `s` itself, or quoted with its quotes
/// doubled when it needs quoting.
pub open spec fn cell_text(s: Seq<char>, d: char) -> Seq<char> {
    if needs_quoting(s, d) { seq!['"'] + quotes_doubled(s) + seq!['"'] } else { s }
}

/// The text of value `v` as a cell: nothing for `null`, a non-finite float
/// or a non-string object; `true`/`false`; the decimal text of an integer;
/// a finite float for the caller; a string as its cell text.
pub open spec fn value_cell(h: Seq<HeapObj>, v: Value, d: char) -> Seq<Chunk> {
    match v {
        Value::Null => seq![],
        Value::Bool(b) => if b { char_chunks(seq!['t', 'r', 'u', 'e']) } else { char_chunks(seq!['f', 'a', 'l', 's', 'e']) },
        Value::Int(n) => char_chunks(int_text(n as int)),
        Value::Float(bits) => if float_is_finite(bits) { seq![Chunk::Float(bits)] } else { seq![] },
        Value::Obj(i) => if i < h.len() {
            match h[i as int] {
                HeapObj::Str(cs) => char_chunks(cell_text(cs@, d)),
                _ => seq![],
            }
        } else {
            seq![]
        },
    }
}

/// The first `n` values of a row, separated by the delimiter.
pub open spec fn row_text(h: Seq<HeapObj>, vals: Seq<Value>, d: char, n: nat) -> Seq<Chunk>
    decreases n,
{
    if n == 0 {
        seq![]
    } else if n == 1 {
        value_cell(h, vals[0], d)
    } else {
        row_text(h, vals, d, (n - 1) as nat) + char_chunks(seq![d]) + value_cell(h, vals[n - 1], d)
    }
}

/// The first `n` header names, as cells separated by the delimiter.
pub open spec fn header_text(names: Seq<Seq<char>>, d: char, n: nat) -> Seq<Chunk>
    decreases n,
{
    if n == 0 {
        seq![]
    } else if n == 1 {
        char_chunks(cell_text(names[0], d))
    } else {
        header_text(names, d, (n - 1) as nat) + char_chunks(seq![d]) + char_chunks(cell_text(names[n - 1], d))
    }
}

/// The values an object row writes under a header of `m` names: its fields
/// by position, `null` past its last field.
pub open spec fn slot_values(fs: Seq<(Seq<char>, Value)>, m: nat) -> Seq<Value> {
    Seq::new(m, |slot: int| if slot < fs.len() { fs[slot].1 } else { Value::Null })
}

/// The lines of the first `n` items written as objects under `m` header
/// names; items that are not objects or records are skipped.
pub open spec fn object_lines(h: Seq<HeapObj>, items: Seq<Value>, d: char, m: nat, n: nat) -> Seq<Chunk>
    decreases n,
{
    if n == 0 {
        seq![]
    } else {
        object_lines(h, items, d, m, (n - 1) as nat) + match items[n - 1] {
            Value::Obj(i) => if i < h.len() {
                match h[i as int] {
                    HeapObj::Object(fs) => row_text(h, slot_values(fields_view(fs@), m), d, m) + char_chunks(seq!['\n']),
                    HeapObj::Record(fs) => row_text(h, slot_values(fields_view(fs@), m), d, m) + char_chunks(seq!['\n']),
                    _ => seq![],
                }
            } else {
                seq![]
            },
            _ => seq![],
        }
    }
}

/// The lines of the first `n` items written as rows; items that are not
/// arrays are skipped.
pub open spec fn array_lines(h: Seq<HeapObj>, items: Seq<Value>, d: char, n: nat) -> Seq<Chunk>
    decreases n,
{
    if n == 0 {
        seq![]
    } else {
        array_lines(h, items, d, (n - 1) as nat) + match items[n - 1] {
            Value::Obj(i) => if i < h.len() {
                match h[i as int] {
                    HeapObj::Array(a) => row_text(h, a@, d, a@.len()) + char_chunks(seq!['\n']),
                    _ => seq![],
                }
            } else {
                seq![]
            },
            _ => seq![],
        }
    }
}

/// The CSV text of `value`: an array whose first item decides the layout.
/// Objects write a header of the first object's field names, then a line per
/// object or record; arrays write a line per array.
pub open spec fn csv_text(h: Seq<HeapObj>, value: Value, d: char) -> Result<Seq<Chunk>, CsvWriteError> {
    match value {
        Value::Obj(i) => if i < h.len() {
            match h[i as int] {
                HeapObj::Array(items) => if items@.len() == 0 {
                    Ok(seq![])
                } else {
                    match items@[0] {
                        Value::Obj(f) => if f < h.len() {
                            match h[f as int] {
                                HeapObj::Object(fs) => {
                                    let names = fields_view(fs@).map_values(|p: (Seq<char>, Value)| p.0);
                                    Ok(header_text(names, d, names.len()) + char_chunks(seq!['\n'])
                                        + object_lines(h, items@, d, names.len(), items@.len()))
                                },
                                HeapObj::Record(fs) => {
                                    let names = fields_view(fs@).map_values(|p: (Seq<char>, Value)| p.0);
                                    Ok(header_text(names, d, names.len()) + char_chunks(seq!['\n'])
                                        + object_lines(h, items@, d, names.len(), items@.len()))
                                },
                                HeapObj::Array(_) => Ok(array_lines(h, items@, d, items@.len())),
                                _ => Err(CsvWriteError::UnsupportedRow),
                            }
                        } else {
                            Err(CsvWriteError::UnsupportedRow)
                        },
                        _ => Err(CsvWriteError::ItemNotRow),
                    }
                },
                _ => Err(CsvWriteError::NotAnArray),
            }
        } else {
            Err(CsvWriteError::NotAnArray)
        },
        _ => Err(CsvWriteError::NotRows),
    }
}

/// Whether `c` occurs in `s`.
fn has_char(s: &Vec<char>, c: char) -> (b: bool)
    ensures
        b == s@.contains(c),
{
    let mut i: usize = 0;
    while i < s.len()
        invariant
            i <= s@.len(),
            forall|k: int| 0 <= k < i ==> s@[k] != c,
        decreases s@.len() - i,
    {
        if s[i] == c {
            assert(s@[i as int] == c);
            return true;
        }
        i = i + 1;
    }
    false
}

/// The cell text of `s`.
pub fn write_cell_text(s: &Vec<char>, d: char) -> (t: Vec<char>)
    ensures
        t@ == cell_text(s@, d),
{
    let quote = has_char(s, d) || has_char(s, '"') || has_char(s, '\n') || has_char(s, '\r');
    if !quote {
        return crate::collections::copy_chars(s);
    }
    let mut t: Vec<char> = Vec::new();
    t.push('"');
    let mut i: usize = 0;
    while i < s.len()
        invariant
            i <= s@.len(),
            t@ == seq!['"'] + quotes_doubled(s@.take(i as int)),
        decreases s@.len() - i,
    {
        let c = s[i];
        assert(s@.take(i + 1).drop_last() =~= s@.take(i as int));
        if c == '"' {
            t.push('"');
            t.push('"');
        } else {
            t.push(c);
        }
        assert(t@ =~= seq!['"'] + quotes_doubled(s@.take(i + 1)));
        i = i + 1;
    }
    assert(s@.take(s@.len() as int) =~= s@);
    t.push('"');
    assert(t@ =~= seq!['"'] + quotes_doubled(s@) + seq!['"']);
    t
}

/// Appends the cell text of value `v`.
fn write_value_cell(out: &mut Vec<Chunk>, heap: &Heap, v: Value, d: char)
    ensures
        final(out)@ == old(out)@ + value_cell(heap@, v, d),
{
    match v {
        Value::Null => {
            assert(final(out)@ =~= old(out)@ + value_cell(heap@, v, d));
        },
        Value::Bool(b) => {
            let mut t: Vec<char> = Vec::new();
            if b {
                t.push('t');
                t.push('r');
                t.push('u');
                t.push('e');
                assert(t@ =~= seq!['t', 'r', 'u', 'e']);
            } else {
                t.push('f');
                t.push('a');
                t.push('l');
                t.push('s');
                t.push('e');
                assert(t@ =~= seq!['f', 'a', 'l', 's', 'e']);
            }
            push_text(out, &t);
        },
        Value::Int(n) => {
            let mut t: Vec<char> = Vec::new();
            write_int(n, &mut t);
            assert(t@ =~= int_text(n as int));
            push_text(out, &t);
        },
        Value::Float(bits) => {
            let mag = bits & 0x7FFF_FFFF_FFFF_FFFFu64;
            assert(mag == bits as int % 0x8000_0000_0000_0000) by (bit_vector)
                requires
                    mag == bits & 0x7FFF_FFFF_FFFF_FFFFu64,
            ;
            if mag < 0x7FF0_0000_0000_0000u64 {
                out.push(Chunk::Float(bits));
                assert(final(out)@ =~= old(out)@ + seq![Chunk::Float(bits)]);
            } else {
                assert(final(out)@ =~= old(out)@ + value_cell(heap@, v, d));
            }
        },
        Value::Obj(i) => match heap.get(i) {
            Some(HeapObj::Str(cs)) => {
                let t = write_cell_text(cs, d);
                push_text(out, &t);
            },
            _ => {
                assert(final(out)@ =~= old(out)@ + value_cell(heap@, v, d));
            },
        },
    }
}

/// Appends a row of values separated by the delimiter.
fn write_row(out: &mut Vec<Chunk>, heap: &Heap, vals: &Vec<Value>, d: char)
    ensures
        final(out)@ == old(out)@ + row_text(heap@, vals@, d, vals@.len()),
{
    let ghost start = out@;
    let mut k: usize = 0;
    assert(out@ =~= start + row_text(heap@, vals@, d, 0));
    while k < vals.len()
        invariant
            k <= vals@.len(),
            out@ == start + row_text(heap@, vals@, d, k as nat),
        decreases vals@.len() - k,
    {
        if k > 0 {
            push_char(out, d);
        }
        write_value_cell(out, heap, vals[k], d);
        assert(out@ =~= start + row_text(heap@, vals@, d, (k + 1) as nat));
        k = k + 1;
    }
}

/// The values an object row writes under `m` header names.
fn slot_values_of(fs: &Vec<Field>, m: usize) -> (v: Vec<Value>)
    ensures
        v@ == slot_values(fields_view(fs@), m as nat),
{
    let mut v: Vec<Value> = Vec::new();
    let mut slot: usize = 0;
    while slot < m
        invariant
            slot <= m,
            v@ == slot_values(fields_view(fs@), m as nat).take(slot as int),
        decreases m - slot,
    {
        let x = if slot < fs.len() { fs[slot].value } else { Value::Null };
        v.push(x);
        assert(v@ =~= slot_values(fields_view(fs@), m as nat).take(slot + 1));
        slot = slot + 1;
    }
    assert(slot_values(fields_view(fs@), m as nat).take(m as int) =~= slot_values(fields_view(fs@), m as nat));
    v
}

/// Appends the header line: the field names as cells.
fn write_header(out: &mut Vec<Chunk>, fs: &Vec<Field>, d: char)
    ensures
        final(out)@ == old(out)@ + header_text(fields_view(fs@).map_values(|p: (Seq<char>, Value)| p.0), d, fs@.len()),
{
    let ghost names = fields_view(fs@).map_values(|p: (Seq<char>, Value)| p.0);
    let ghost start = out@;
    let mut k: usize = 0;
    assert(out@ =~= start + header_text(names, d, 0));
    while k < fs.len()
        invariant
            k <= fs@.len(),
            names == fields_view(fs@).map_values(|p: (Seq<char>, Value)| p.0),
            out@ == start + header_text(names, d, k as nat),
        decreases fs@.len() - k,
    {
        if k > 0 {
            push_char(out, d);
        }
        let t = write_cell_text(&fs[k].key, d);
        assert(names[k as int] == fs@[k as int].key@);
        push_text(out, &t);
        assert(out@ =~= start + header_text(names, d, (k + 1) as nat));
        k = k + 1;
    }
}

/// The CSV text of an array of objects or of rows, with `delimiter` between
/// cells.
pub fn stringify_csv(value: Value, heap: &Heap, delimiter: u8) -> (r: Result<Vec<Chunk>, CsvWriteError>)
    ensures
        match csv_text(heap@, value, delimiter as char) {
            Ok(t) => r matches Ok(out) && out@ == t,
            Err(e) => r == Err::<Vec<Chunk>, CsvWriteError>(e),
        },
{
    let d = delimiter as char;
    let i = match value {
        Value::Obj(i) => i,
        _ => return Err(CsvWriteError::NotRows),
    };
    let items = match heap.get(i) {
        Some(HeapObj::Array(items)) => items,
        _ => return Err(CsvWriteError::NotAnArray),
    };
    let mut out: Vec<Chunk> = Vec::new();
    if items.len() == 0 {
        return Ok(out);
    }
    let f = match items[0] {
        Value::Obj(f) => f,
        _ => return Err(CsvWriteError::ItemNotRow),
    };
    let as_objects = match heap.get(f) {
        Some(HeapObj::Object(_)) | Some(HeapObj::Record(_)) => true,
        Some(HeapObj::Array(_)) => false,
        _ => return Err(CsvWriteError::UnsupportedRow),
    };
    if as_objects {
        let m = match heap.get(f) {
            Some(HeapObj::Object(fs)) | Some(HeapObj::Record(fs)) => {
                write_header(&mut out, fs, d);
                fs.len()
            },
            _ => 0,
        };
        push_char(&mut out, '\n');
        let ghost names = match heap@[f as int] {
            HeapObj::Object(fs) => fields_view(fs@).map_values(|p: (Seq<char>, Value)| p.0),
            HeapObj::Record(fs) => fields_view(fs@).map_values(|p: (Seq<char>, Value)| p.0),
            _ => seq![],
        };
        assert(names.len() == m);
        let ghost start = out@;
        let mut k: usize = 0;
        assert(out@ =~= start + object_lines(heap@, items@, d, m as nat, 0));
        while k < items.len()
            invariant
                k <= items@.len(),
                out@ == start + object_lines(heap@, items@, d, m as nat, k as nat),
            decreases items@.len() - k,
        {
            match items[k] {
                Value::Obj(j) => match heap.get(j) {
                    Some(HeapObj::Object(fs)) | Some(HeapObj::Record(fs)) => {
                        let vals = slot_values_of(fs, m);
                        write_row(&mut out, heap, &vals, d);
                        push_char(&mut out, '\n');
                    },
                    _ => {},
                },
                _ => {},
            }
            assert(out@ =~= start + object_lines(heap@, items@, d, m as nat, (k + 1) as nat));
            k = k + 1;
        }
        Ok(out)
    } else {
        let ghost start = out@;
        let mut k: usize = 0;
        while k < items.len()
            invariant
                k <= items@.len(),
                out@ == start + array_lines(heap@, items@, d, k as nat),
                start == Seq::<Chunk>::empty(),
            decreases items@.len() - k,
        {
            match items[k] {
                Value::Obj(j) => match heap.get(j) {
                    Some(HeapObj::Array(row)) => {
                        write_row(&mut out, heap, row, d);
                        push_char(&mut out, '\n');
                    },
                    _ => {},
                },
                _ => {},
            }
            assert(out@ =~= start + array_lines(heap@, items@, d, (k + 1) as nat));
            k = k + 1;
        }
        assert(out@ =~= array_lines(heap@, items@, d, items@.len()));
        Ok(out)
    }
}

/// A cell holding a line break, a quote or the delimiter is written
/// between quotes; any other is written as it stands.
pub proof fn lemma_cell_text_quoted(s: Seq<char>, d: char)
    ensures
        s.contains('\n') || s.contains('\r') || s.contains('"') || s.contains(d) ==> {
            let t = cell_text(s, d);
            &&& t.len() >= 2
            &&& t[0] == '"'
            &&& t[t.len() - 1] == '"'
        },
        !(s.contains('\n') || s.contains('\r') || s.contains('"') || s.contains(d)) ==> cell_text(s, d) == s,
{
}

/// The bytes of ASCII characters, one by one.
proof fn lemma_ascii_bytes_concat(a: Seq<char>, b: Seq<char>)
    ensures
        ascii_bytes(a + b) == ascii_bytes(a) + ascii_bytes(b),
{
    assert(ascii_bytes(a + b) =~= ascii_bytes(a) + ascii_bytes(b));
}

/// An ASCII character is the byte it is written as.
proof fn lemma_ascii_byte(c: char, e: char)
    requires
        (c as u32) < 0x80,
        (e as u32) < 0x80,
    ensures
        (c as u8 == e as u8) == (c == e),
{
    assert((c as u8) as int == c as int);
    assert((e as u8) as int == e as int);
}

/// Doubling the quotes of ASCII text doubles the quotes of its bytes and
/// keeps it ASCII.
proof fn lemma_doubled_bytes(s: Seq<char>)
    requires
        is_ascii_chars(s),
    ensures
        ascii_bytes(quotes_doubled(s)) == double_quotes(ascii_bytes(s)),
        is_ascii_chars(quotes_doubled(s)),
    decreases s.len(),
{
    if s.len() > 0 {
        let t = s.drop_last();
        let c = s.last();
        assert(is_ascii_chars(t)) by {
            assert forall|i: int| 0 <= i < t.len() implies '\0' <= #[trigger] t[i] <= '\u{7f}' by {
                assert(t[i] == s[i]);
            }
        }
        lemma_doubled_bytes(t);
        let tail = if c == '"' { seq!['"', '"'] } else { seq![c] };
        lemma_ascii_bytes_concat(quotes_doubled(t), tail);
        assert(ascii_bytes(s).drop_last() =~= ascii_bytes(t));
        assert(ascii_bytes(s).last() == c as u8);
        assert(s[s.len() - 1] == c);
        lemma_ascii_byte(c, '"');
        assert(('"' as u8) == QUOTE);
        if c == '"' {
            assert(ascii_bytes(tail) =~= seq![QUOTE, QUOTE]);
        } else {
            assert(ascii_bytes(tail) =~= seq![c as u8]);
        }
        assert(is_ascii_chars(quotes_doubled(s))) by {
            let q = quotes_doubled(s);
            assert(q =~= quotes_doubled(t) + tail);
            assert forall|i: int| 0 <= i < q.len() implies '\0' <= #[trigger] q[i] <= '\u{7f}' by {
                if i < quotes_doubled(t).len() {
                    assert(q[i] == quotes_doubled(t)[i]);
                } else {
                    assert(q[i] == tail[i - quotes_doubled(t).len()]);
                }
            }
        }
    }
}

/// An ASCII text holds character `e` exactly when its bytes hold `e`'s byte.
proof fn lemma_contains_byte(s: Seq<char>, e: char)
    requires
        is_ascii_chars(s),
        (e as u32) < 0x80,
    ensures
        s.contains(e) == ascii_bytes(s).contains(e as u8),
        s.contains(e) == occurs(ascii_bytes(s), seq![e as u8]),
{
    let b = ascii_bytes(s);
    if s.contains(e) {
        let i = choose|i: int| 0 <= i < s.len() && s[i] == e;
        assert(b[i] == e as u8);
        assert(occurs_at(b, seq![e as u8], i)) by {
            assert(b.subrange(i, i + 1) =~= seq![e as u8]);
        }
    }
    if b.contains(e as u8) {
        let i = choose|i: int| 0 <= i < b.len() && b[i] == e as u8;
        assert('\0' <= s[i] <= '\u{7f}');
        lemma_ascii_byte(s[i], e);
        assert(s[i] == e);
    }
    if occurs(b, seq![e as u8]) {
        let i = choose|i: int| #[trigger] occurs_at(b, seq![e as u8], i);
        assert(b.subrange(i, i + 1)[0] == b[i]);
        assert(b[i] == e as u8);
        assert('\0' <= s[i] <= '\u{7f}');
        lemma_ascii_byte(s[i], e);
    }
}

/// The bytes of an ASCII cell's text are the bytes the row writer writes
/// for the bytes of the cell, and they are ASCII and read back whole.
proof fn lemma_cell_text_bytes(s: Seq<char>, d: char)
    requires
        is_ascii_chars(s),
        (d as u32) < 0x80,
        d != '"',
        d != '\n',
        d != '\r',
    ensures
        ascii_bytes(cell_text(s, d)) == written_cell(ascii_bytes(s), d as u8),
        is_ascii_chars(cell_text(s, d)),
        encode_utf8(s) == ascii_bytes(s),
        cell_ok(ascii_bytes(s), d as u8, false),
        delim_ok(d as u8),
{
    let db = d as u8;
    let bs = ascii_bytes(s);
    lemma_doubled_bytes(s);
    lemma_contains_byte(s, d);
    lemma_contains_byte(s, '"');
    lemma_contains_byte(s, '\n');
    lemma_contains_byte(s, '\r');
    assert(('"' as u8) == QUOTE && ('\n' as u8) == LF && ('\r' as u8) == CR);
    assert((d as u8) as int == d as int);
    assert(latin1_utf8(db) == seq![d as u8]);
    assert(needs_quoting(s, d) == needs_quotes(bs, db));
    let t = cell_text(s, d);
    assert(ascii_bytes(t) == written_cell(bs, db)) by {
        if needs_quoting(s, d) {
            lemma_ascii_bytes_concat(seq!['"'], quotes_doubled(s));
            lemma_ascii_bytes_concat(seq!['"'] + quotes_doubled(s), seq!['"']);
            assert(ascii_bytes(seq!['"']) =~= seq![QUOTE]);
        }
    }
    assert(is_ascii_chars(t)) by {
        if needs_quoting(s, d) {
            let q = quotes_doubled(s);
            assert forall|i: int| 0 <= i < t.len() implies '\0' <= #[trigger] t[i] <= '\u{7f}' by {
                if 0 < i < t.len() - 1 {
                    assert(t[i] == q[i - 1]);
                }
            }
        }
    }
    is_ascii_chars_encode_utf8(s);
    assert(encode_utf8(s) =~= bs);
    encode_utf8_valid_utf8(s);
    assert(cell_ok(bs, db, false)) by {
        assert forall|i: int, j: int| 0 <= i < j < bs.len() && bs[i] == QUOTE implies bs[j] < 0x80 by {
            assert('\0' <= s[j] <= '\u{7f}');
            assert((s[j] as u8) as int == s[j] as int);
        }
    }
}

/// A string cell that the CSV writer writes reads back as that one cell:
/// for ASCII text `s` and a delimiter that is an ASCII character other than
/// a quote or a line break, the reader, given the UTF-8 bytes of the cell's
/// text and a line feed, reads one row holding exactly the bytes of `s`.
pub proof fn lemma_cell_text_reads_back(s: Seq<char>, d: char)
    requires
        is_ascii_chars(s),
        (d as u32) < 0x80,
        d != '"',
        d != '\n',
        d != '\r',
    ensures
        ({
            let b = encode_utf8(cell_text(s, d)) + seq![LF];
            read_row(b, d as u8, false, 0) == (RowEnd::Row { fields: seq![encode_utf8(s)], pos: b.len() as int })
        }),
{
    let db = d as u8;
    let bs = ascii_bytes(s);
    lemma_cell_text_bytes(s, d);
    let t = cell_text(s, d);
    is_ascii_chars_encode_utf8(t);
    assert(encode_utf8(t) =~= ascii_bytes(t));
    let cells = seq![bs];
    assert(written_row(cells, db) == written_cell(bs, db) + seq![LF]);
    lemma_written_row_reads_back(cells, db, false);
}

/// Chunks of joined characters are the joined chunks.
pub(crate) proof fn lemma_char_chunks_concat(a: Seq<char>, b: Seq<char>)
    ensures
        char_chunks(a + b) == char_chunks(a) + char_chunks(b),
    decreases b.len(),
{
    if b.len() == 0 {
        assert(a + b =~= a);
        assert(char_chunks(a) + char_chunks(b) =~= char_chunks(a));
    } else {
        let b1 = b.drop_last();
        lemma_char_chunks_concat(a, b1);
        assert((a + b).drop_last() =~= a + b1);
        assert((a + b).last() == b.last());
        assert(char_chunks(a) + char_chunks(b) =~= (char_chunks(a) + char_chunks(b1)).push(Chunk::Char(b.last() as u32)));
    }
}

/// The characters of the first `n` header cells, separated by the delimiter.
spec fn header_chars(names: Seq<Seq<char>>, d: char, n: nat) -> Seq<char>
    decreases n,
{
    if n == 0 {
        seq![]
    } else if n == 1 {
        cell_text(names[0], d)
    } else {
        header_chars(names, d, (n - 1) as nat) + seq![d] + cell_text(names[n - 1], d)
    }
}

/// A written row with one more cell at its end.
proof fn lemma_written_row_push(cells: Seq<Seq<u8>>, c: Seq<u8>, d: u8)
    requires
        cells.len() >= 1,
    ensures
        written_row(cells, d).len() >= 1,
        written_row(cells.push(c), d) == written_row(cells, d).drop_last() + seq![d] + written_cell(c, d) + seq![LF],
    decreases cells.len(),
{
    let cp = cells.push(c);
    assert(cp.skip(1) =~= cells.skip(1).push(c));
    assert(cp[0] == cells[0]);
    if cells.len() == 1 {
        assert(cp.skip(1) =~= seq![c]);
        assert(written_row(seq![c], d) == written_cell(c, d) + seq![LF]);
        assert(written_row(cells, d).drop_last() =~= written_cell(cells[0], d));
        assert(written_row(cp, d) =~= written_row(cells, d).drop_last() + seq![d] + written_cell(c, d) + seq![LF]);
    } else {
        let t = cells.skip(1);
        lemma_written_row_push(t, c, d);
        let w = written_row(t, d);
        assert(written_row(cells, d).drop_last() =~= written_cell(cells[0], d) + seq![d] + w.drop_last());
        assert(written_row(cp, d) =~= written_row(cells, d).drop_last() + seq![d] + written_cell(c, d) + seq![LF]);
    }
}

/// The first `n` header cells, as characters, ASCII, and as the bytes of
/// the row the row writer writes for the names' bytes.
proof fn lemma_header_bytes(names: Seq<Seq<char>>, d: char, n: nat)
    requires
        1 <= n <= names.len(),
        forall|i: int| 0 <= i < names.len() ==> is_ascii_chars(#[trigger] names[i]),
        (d as u32) < 0x80,
        d != '"',
        d != '\n',
        d != '\r',
    ensures
        header_text(names, d, n) == char_chunks(header_chars(names, d, n)),
        is_ascii_chars(header_chars(names, d, n)),
        ascii_bytes(header_chars(names, d, n)) + seq![LF]
            == written_row(Seq::new(n, |i: int| ascii_bytes(names[i])), d as u8),
    decreases n,
{
    let cells = Seq::new(n, |i: int| ascii_bytes(names[i]));
    assert(is_ascii_chars(names[n - 1]));
    lemma_cell_text_bytes(names[n - 1], d);
    let ct = cell_text(names[n - 1], d);
    if n == 1 {
        assert(cells =~= seq![ascii_bytes(names[0])]);
        assert(written_row(cells, d as u8) == written_cell(ascii_bytes(names[0]), d as u8) + seq![LF]);
    } else {
        let m = (n - 1) as nat;
        lemma_header_bytes(names, d, m);
        let prev = Seq::new(m, |i: int| ascii_bytes(names[i]));
        assert(cells =~= prev.push(ascii_bytes(names[n - 1])));
        lemma_written_row_push(prev, ascii_bytes(names[n - 1]), d as u8);
        let hc = header_chars(names, d, m);
        lemma_char_chunks_concat(hc, seq![d]);
        lemma_char_chunks_concat(hc + seq![d], ct);
        lemma_ascii_bytes_concat(hc, seq![d]);
        lemma_ascii_bytes_concat(hc + seq![d], ct);
        assert(ascii_bytes(seq![d]) =~= seq![d as u8]);
        assert(written_row(prev, d as u8).drop_last() =~= ascii_bytes(hc)) by {
            assert((ascii_bytes(hc) + seq![LF]).drop_last() =~= ascii_bytes(hc));
        }
        let all = hc + seq![d] + ct;
        assert(header_chars(names, d, n) == all);
        assert(is_ascii_chars(all)) by {
            assert forall|i: int| 0 <= i < all.len() implies '\0' <= #[trigger] all[i] <= '\u{7f}' by {
                if i < hc.len() {
                    assert(all[i] == hc[i]);
                } else if i == hc.len() {
                    assert(all[i] == d);
                } else {
                    assert(all[i] == ct[i - hc.len() - 1]);
                }
            }
        }
        assert(ascii_bytes(all) + seq![LF] =~= written_row(cells, d as u8));
    }
}

/// A header line reads back as its names: for ASCII field names (at least
/// one) and a delimiter that is an ASCII character other than a quote or a
/// line break, the text the CSV writer writes for the names, read as UTF-8
/// bytes with its line feed, is one row whose fields are the names, in
/// order.
pub proof fn lemma_header_reads_back(names: Seq<Seq<char>>, d: char)
    requires
        names.len() >= 1,
        forall|i: int| 0 <= i < names.len() ==> is_ascii_chars(#[trigger] names[i]),
        (d as u32) < 0x80,
        d != '"',
        d != '\n',
        d != '\r',
    ensures
        exists|t: Seq<char>| #[trigger] char_chunks(t) == header_text(names, d, names.len()) && {
            let b = encode_utf8(t) + seq![LF];
            read_row(b, d as u8, false, 0) == (RowEnd::Row {
                fields: names.map_values(|s: Seq<char>| encode_utf8(s)),
                pos: b.len() as int,
            })
        },
{
    let n = names.len();
    let db = d as u8;
    lemma_header_bytes(names, d, n);
    let t = header_chars(names, d, n);
    let cells = Seq::new(n, |i: int| ascii_bytes(names[i]));
    is_ascii_chars_encode_utf8(t);
    assert(encode_utf8(t) =~= ascii_bytes(t));
    assert forall|i: int| 0 <= i < cells.len() implies #[trigger] cell_ok(cells[i], db, false) by {
        lemma_cell_text_bytes(names[i], d);
    }
    assert(names.map_values(|s: Seq<char>| encode_utf8(s)) =~= cells) by {
        assert forall|i: int| 0 <= i < n implies #[trigger] encode_utf8(names[i]) == cells[i] by {
            lemma_cell_text_bytes(names[i], d);
        }
    }
    lemma_cell_text_bytes(names[0], d);
    lemma_written_row_reads_back(cells, db, false);
    assert(char_chunks(t) == header_text(names, d, n));
}

/// A row of string values is written as a header of those strings.
proof fn lemma_string_row_text(h: Seq<HeapObj>, vals: Seq<Value>, d: char, k: nat)
    requires
        k <= vals.len(),
        forall|i: int| 0 <= i < vals.len() ==> (#[trigger] str_of(h, vals[i])) is Some,
    ensures
        row_text(h, vals, d, k) == header_text(vals.map_values(|v: Value| str_of(h, v)->0), d, k),
    decreases k,
{
    let names = vals.map_values(|v: Value| str_of(h, v)->0);
    if k > 0 {
        assert(str_of(h, vals[k - 1]) is Some);
        assert(names[k - 1] == str_of(h, vals[k - 1])->0);
        assert(value_cell(h, vals[k - 1], d) == char_chunks(cell_text(names[k - 1], d)));
        if k == 1 {
            assert(names[0] == str_of(h, vals[0])->0);
        } else {
            lemma_string_row_text(h, vals, d, (k - 1) as nat);
        }
    }
}

/// A row of strings reads back as its strings: for values that all refer
/// to ASCII strings (at least one) and a delimiter that is an ASCII
/// character other than a quote or a line break, the text the CSV writer
/// writes for the row, read as UTF-8 bytes with its line feed, is one row
/// whose fields are the strings, in order.
pub proof fn lemma_string_row_reads_back(h: Seq<HeapObj>, vals: Seq<Value>, d: char)
    requires
        vals.len() >= 1,
        forall|i: int| 0 <= i < vals.len() ==> (#[trigger] str_of(h, vals[i])) is Some && is_ascii_chars(str_of(h, vals[i])->0),
        (d as u32) < 0x80,
        d != '"',
        d != '\n',
        d != '\r',
    ensures
        exists|t: Seq<char>| #[trigger] char_chunks(t) == row_text(h, vals, d, vals.len()) && {
            let b = encode_utf8(t) + seq![LF];
            read_row(b, d as u8, false, 0) == (RowEnd::Row {
                fields: vals.map_values(|v: Value| encode_utf8(str_of(h, v)->0)),
                pos: b.len() as int,
            })
        },
{
    let names = vals.map_values(|v: Value| str_of(h, v)->0);
    assert forall|i: int| 0 <= i < names.len() implies is_ascii_chars(#[trigger] names[i]) by {
        assert(str_of(h, vals[i]) is Some);
    }
    lemma_string_row_text(h, vals, d, vals.len());
    lemma_header_reads_back(names, d);
    assert(names.map_values(|s: Seq<char>| encode_utf8(s)) =~= vals.map_values(|v: Value| encode_utf8(str_of(h, v)->0)));
}

/// What a CSV cell holding scalar `v` reads back as.
pub open spec fn scalar_cell(v: Value) -> CellValue {
    match v {
        Value::Bool(b) => CellValue::Bool(b),
        Value::Int(n) => CellValue::Int(n),
        _ => CellValue::Null,
    }
}

/// Scalars written as text read back: the CSV writer's cell and the JSON
/// writer's text of `null`, a boolean or an integer (other than
/// `i64::MIN`, whose digits alone overflow when read) are texts that the
/// CSV cell reader reads as that same scalar.
pub proof fn lemma_scalar_text_reads_back(h: Seq<HeapObj>, v: Value, d: char, depth: nat)
    requires
        v is Null || v is Bool || (v is Int && v->Int_0 != i64::MIN),
    ensures
        exists|t: Seq<char>| #[trigger] char_chunks(t) == value_cell(h, v, d) && cell_value(ascii_bytes(t)) == scalar_cell(v),
        exists|t: Seq<char>| #[trigger] char_chunks(t) == crate::json::json_text(h, v, depth) && cell_value(ascii_bytes(t)) == scalar_cell(v),
{
    let tt = seq!['t', 'r', 'u', 'e'];
    let ff = seq!['f', 'a', 'l', 's', 'e'];
    let nn = seq!['n', 'u', 'l', 'l'];
    assert(ascii_bytes(tt) =~= text_true());
    assert(ascii_bytes(ff) =~= text_false());
    assert(ascii_bytes(nn) =~= text_null());
    match v {
        Value::Null => {
            let e = Seq::<char>::empty();
            assert(ascii_bytes(e) =~= Seq::<u8>::empty());
            assert(char_chunks(e) == value_cell(h, v, d));
            assert(char_chunks(nn) == crate::json::json_text(h, v, depth));
        },
        Value::Bool(b) => {
            let t = if b { tt } else { ff };
            assert(char_chunks(t) == value_cell(h, v, d));
            assert(char_chunks(t) == crate::json::json_text(h, v, depth));
            assert(text_true() != text_false());
            assert(text_true() != text_null());
            assert(text_false() != text_null()) by {
                assert(text_false().len() != text_null().len());
            }
        },
        Value::Int(n) => {
            let t = int_text(n as int);
            lemma_int_text_reads_back(n);
            assert(char_chunks(t) == value_cell(h, v, d));
            assert(char_chunks(t) == crate::json::json_text(h, v, depth));
        },
        _ => {},
    }
}

} // verus!
