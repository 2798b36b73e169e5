//! The CSV text format: a row reader over the bytes of a document, and the
//! cell quoting of the writer.
//!
//! A row ends at a line feed, a carriage return or a CR LF pair. A field that
//! starts with a double quote runs to the matching quote, and a doubled quote
//! inside it stands for one quote. Cells are handed out as UTF-8 bytes.
use vstd::prelude::*;
use vstd::slice::slice_to_vec;
use vstd::utf8::valid_utf8;

verus! {

pub const QUOTE: u8 = 0x22;
pub const CR: u8 = 0x0D;
pub const LF: u8 = 0x0A;

/// Why a CSV row could not be read.
#[derive(Clone, Copy, PartialEq, Eq, Structural, Debug)]
pub enum CsvError {
    /// The data ended inside a quoted field.
    UnclosedQuote,
    /// A cell is not well-formed UTF-8.
    InvalidUtf8,
}

/// A space or a tab: what trimming removes.
pub open spec fn is_blank(b: u8) -> bool {
    b == 0x20 || b == 0x09
}

/// `s` without its leading blanks.
pub open spec fn trim_front(s: Seq<u8>) -> Seq<u8>
    decreases s.len(),
{
    if s.len() > 0 && is_blank(s[0]) {
        trim_front(s.drop_first())
    } else {
        s
    }
}

/// `s` without its trailing blanks.
pub open spec fn trim_back(s: Seq<u8>) -> Seq<u8>
    decreases s.len(),
{
    if s.len() > 0 && is_blank(s.last()) {
        trim_back(s.drop_last())
    } else {
        s
    }
}

/// `s` without its leading and trailing blanks.
pub open spec fn trimmed(s: Seq<u8>) -> Seq<u8> {
    trim_back(trim_front(s))
}

proof fn lemma_trim_front_skip(s: Seq<u8>, i: int)
    requires
        0 <= i <= s.len(),
        forall|k: int| 0 <= k < i ==> is_blank(s[k]),
    ensures
        trim_front(s) == trim_front(s.subrange(i, s.len() as int)),
    decreases i,
{
    if i > 0 {
        assert(s.drop_first() =~= s.subrange(1, s.len() as int));
        lemma_trim_front_skip(s.drop_first(), i - 1);
        assert(s.drop_first().subrange(i - 1, s.drop_first().len() as int)
            =~= s.subrange(i, s.len() as int));
    } else {
        assert(s.subrange(0, s.len() as int) =~= s);
    }
}

proof fn lemma_trim_back_skip(s: Seq<u8>, j: int)
    requires
        0 <= j <= s.len(),
        forall|k: int| j <= k < s.len() ==> is_blank(s[k]),
    ensures
        trim_back(s) == trim_back(s.subrange(0, j)),
    decreases s.len() - j,
{
    if j < s.len() {
        assert(s.drop_last() =~= s.subrange(0, s.len() - 1));
        lemma_trim_back_skip(s.drop_last(), j);
        assert(s.drop_last().subrange(0, j) =~= s.subrange(0, j));
    } else {
        assert(s.subrange(0, s.len() as int) =~= s);
    }
}

/// `b` without its leading and trailing spaces and tabs.
pub fn trim_bytes(b: &[u8]) -> (r: &[u8])
    ensures
        r@ == trimmed(b@),
{
    let n = b.len();
    let mut start: usize = 0;
    while start < n && (b[start] == 0x20 || b[start] == 0x09)
        invariant
            start <= n,
            n == b@.len(),
            forall|k: int| 0 <= k < start ==> is_blank(b@[k]),
        decreases n - start,
    {
        start = start + 1;
    }
    proof {
        lemma_trim_front_skip(b@, start as int);
    }
    let ghost front = b@.subrange(start as int, n as int);
    assert(trim_front(front) == front);
    let mut end: usize = n;
    while end > start && (b[end - 1] == 0x20 || b[end - 1] == 0x09)
        invariant
            start <= end <= n,
            n == b@.len(),
            front == b@.subrange(start as int, n as int),
            forall|k: int| end <= k < n ==> is_blank(b@[k]),
        decreases end,
    {
        end = end - 1;
    }
    proof {
        lemma_trim_back_skip(front, end - start);
        assert(front.subrange(0, end - start) =~= b@.subrange(start as int, end as int));
    }
    &b[start..end]
}

/// The text of an unescaped field `s`: its content when it is quoted,
/// trimmed when asked for, else as it stands.
pub open spec fn plain_cell(s: Seq<u8>, trim: bool) -> Seq<u8> {
    if s.len() >= 2 && s[0] == QUOTE && s[s.len() - 1] == QUOTE {
        s.subrange(1, s.len() - 1)
    } else if trim {
        trimmed(s)
    } else {
        s
    }
}

/// The UTF-8 encoding of the character whose code point is the byte `b`.
pub open spec fn latin1_utf8(b: u8) -> Seq<u8> {
    if b < 0x80 {
        seq![b]
    } else {
        seq![(0xC0 + b / 64) as u8, (0x80 + b % 64) as u8]
    }
}

/// The escaped text so far with byte `b` added, when a field has escapes.
pub open spec fn add_byte(esc: Option<Seq<u8>>, b: u8) -> Option<Seq<u8>> {
    match esc {
        Some(buf) => Some(buf + latin1_utf8(b)),
        None => None,
    }
}

/// Where a scan of a row stands.
pub struct ScanState {
    pub pos: int,
    pub field_start: int,
    pub in_quotes: bool,
    /// The text of the current field once it has met a doubled quote.
    pub escaped: Option<Seq<u8>>,
    /// The cells of the row so far.
    pub fields: Seq<Seq<u8>>,
}

/// How the reading of a row ended.
pub enum RowEnd {
    /// No data was left: no row.
    NoRow,
    /// A row, and the position after its line end.
    Row { fields: Seq<Seq<u8>>, pos: int },
    /// An error, the cells read before it and the position it was met at.
    Failed { err: CsvError, fields: Seq<Seq<u8>>, pos: int },
}

/// The current cell when the field ends at `st.pos`: `None` when its text
/// is not UTF-8.
pub open spec fn close_cell(b: Seq<u8>, trim: bool, st: ScanState) -> Option<Seq<u8>> {
    match st.escaped {
        Some(buf) => Some(buf),
        None => {
            let s = plain_cell(b.subrange(st.field_start, st.pos), trim);
            if valid_utf8(s) {
                Some(s)
            } else {
                None
            }
        },
    }
}

/// A scan state of `b` that the reader can be in.
pub open spec fn scan_ok(b: Seq<u8>, st: ScanState) -> bool {
    &&& 0 <= st.field_start <= st.pos <= b.len()
    &&& st.in_quotes ==> st.field_start < st.pos && b[st.field_start] == QUOTE
}

/// The rest of the reading of a row of `b` from scan state `st`.
pub open spec fn scan_row(b: Seq<u8>, delim: u8, trim: bool, st: ScanState) -> RowEnd
    decreases b.len() - st.pos,
{
    if st.pos >= b.len() || st.pos < 0 {
        if st.in_quotes {
            RowEnd::Failed { err: CsvError::UnclosedQuote, fields: st.fields, pos: st.pos }
        } else {
            match close_cell(b, trim, st) {
                Some(cell) => RowEnd::Row { fields: st.fields.push(cell), pos: st.pos },
                None => RowEnd::Failed { err: CsvError::InvalidUtf8, fields: st.fields, pos: st.pos },
            }
        }
    } else {
        let c = b[st.pos];
        if st.in_quotes {
            if c == QUOTE {
                if st.pos + 1 < b.len() && b[st.pos + 1] == QUOTE {
                    let buf = match st.escaped {
                        Some(e) => e,
                        None => b.subrange(st.field_start + 1, st.pos),
                    };
                    scan_row(b, delim, trim, ScanState { pos: st.pos + 2, escaped: Some(buf.push(QUOTE)), ..st })
                } else {
                    scan_row(b, delim, trim, ScanState { pos: st.pos + 1, in_quotes: false, ..st })
                }
            } else {
                scan_row(b, delim, trim, ScanState { pos: st.pos + 1, escaped: add_byte(st.escaped, c), ..st })
            }
        } else if c == QUOTE && st.pos == st.field_start {
            scan_row(b, delim, trim, ScanState { pos: st.pos + 1, in_quotes: true, ..st })
        } else if c == delim {
            match close_cell(b, trim, st) {
                Some(cell) => scan_row(
                    b,
                    delim,
                    trim,
                    ScanState {
                        pos: st.pos + 1,
                        field_start: st.pos + 1,
                        in_quotes: false,
                        escaped: None,
                        fields: st.fields.push(cell),
                    },
                ),
                None => RowEnd::Failed { err: CsvError::InvalidUtf8, fields: st.fields, pos: st.pos },
            }
        } else if c == CR || c == LF {
            match close_cell(b, trim, st) {
                Some(cell) => RowEnd::Row {
                    fields: st.fields.push(cell),
                    pos: if c == CR && st.pos + 1 < b.len() && b[st.pos + 1] == LF {
                        st.pos + 2
                    } else {
                        st.pos + 1
                    },
                },
                None => RowEnd::Failed { err: CsvError::InvalidUtf8, fields: st.fields, pos: st.pos },
            }
        } else {
            scan_row(b, delim, trim, ScanState { pos: st.pos + 1, escaped: add_byte(st.escaped, c), ..st })
        }
    }
}

/// The reading of the row of `b` that starts at `pos`.
pub open spec fn read_row(b: Seq<u8>, delim: u8, trim: bool, pos: int) -> RowEnd {
    if pos >= b.len() {
        RowEnd::NoRow
    } else {
        scan_row(
            b,
            delim,
            trim,
            ScanState { pos, field_start: pos, in_quotes: false, escaped: None, fields: seq![] },
        )
    }
}

/// `std::str::from_utf8` succeeds on `bytes` exactly when they are
/// well-formed UTF-8 (the check its documentation promises); only that
/// success is used, not the decoded text nor the error.
#[verifier::external_body]
fn is_utf8(bytes: &[u8]) -> (b: bool)
    ensures
        b == valid_utf8(bytes@),
{
    std::str::from_utf8(bytes).is_ok()
}

/// Appends the UTF-8 encoding of the character with code point `b`.
fn push_latin1(buf: &mut Vec<u8>, b: u8)
    ensures
        final(buf)@ == old(buf)@ + latin1_utf8(b),
{
    if b < 0x80 {
        buf.push(b);
    } else {
        buf.push(0xC0 + b / 64);
        buf.push(0x80 + b % 64);
    }
    proof {
        assert(final(buf)@ =~= old(buf)@ + latin1_utf8(b));
    }
}

/// The contents of a list of byte vectors.
pub open spec fn byte_rows(v: Seq<Vec<u8>>) -> Seq<Seq<u8>> {
    v.map_values(|c: Vec<u8>| c@)
}

/// A reader of CSV rows over the bytes of a document.
pub struct FastCsvParser<'a> {
    bytes: &'a [u8],
    pos: usize,
    delimiter: u8,
    trim: bool,
}

impl<'a> FastCsvParser<'a> {
    pub closed spec fn data(&self) -> Seq<u8> {
        self.bytes@
    }

    pub closed spec fn position(&self) -> int {
        self.pos as int
    }

    pub closed spec fn delim(&self) -> u8 {
        self.delimiter
    }

    pub closed spec fn trims(&self) -> bool {
        self.trim
    }

    /// The reader is within its data.
    pub closed spec fn wf(&self) -> bool {
        self.pos <= self.bytes@.len()
    }

    /// A reader at the start of `bytes`.
    pub fn new(bytes: &'a [u8], delimiter: u8, trim: bool) -> (p: Self)
        ensures
            p.wf(),
            p.data() == bytes@,
            p.position() == 0,
            p.delim() == delimiter,
            p.trims() == trim,
    {
        FastCsvParser { bytes, pos: 0, delimiter, trim }
    }

    /// The cell that ends at the current position.
    fn close_field(&self, field_start: usize, has_escapes: bool, escaped_buf: Vec<u8>) -> (r: Option<Vec<u8>>)
        requires
            field_start <= self.pos <= self.bytes@.len(),
        ensures
            r matches Some(c) ==> Some(c@) == close_cell(
                self.bytes@,
                self.trim,
                ScanState {
                    pos: self.pos as int,
                    field_start: field_start as int,
                    in_quotes: false,
                    escaped: if has_escapes { Some(escaped_buf@) } else { None },
                    fields: seq![],
                },
            ),
            r is None ==> close_cell(
                self.bytes@,
                self.trim,
                ScanState {
                    pos: self.pos as int,
                    field_start: field_start as int,
                    in_quotes: false,
                    escaped: if has_escapes { Some(escaped_buf@) } else { None },
                    fields: seq![],
                },
            ) is None,
    {
        if has_escapes {
            return Some(escaped_buf);
        }
        let mut slice = &self.bytes[field_start..self.pos];
        let n = slice.len();
        if n >= 2 && slice[0] == QUOTE && slice[n - 1] == QUOTE {
            slice = &slice[1..n - 1];
        } else if self.trim {
            slice = trim_bytes(slice);
        }
        if is_utf8(slice) {
            Some(slice_to_vec(slice))
        } else {
            None
        }
    }
}


impl<'a> FastCsvParser<'a> {
    /// The scan state the loop variables stand for.
    spec fn state_of(
        &self,
        field_start: usize,
        in_quotes: bool,
        has_escapes: bool,
        escaped_buf: Seq<u8>,
        fields: Seq<Seq<u8>>,
    ) -> ScanState {
        ScanState {
            pos: self.pos as int,
            field_start: field_start as int,
            in_quotes,
            escaped: if has_escapes { Some(escaped_buf) } else { None },
            fields,
        }
    }

    /// Reads the next row into `fields` (cleared first). `Ok(false)` when no
    /// data is left; on an error `fields` holds the cells read before it.
    pub fn next_row_into(&mut self, fields: &mut Vec<Vec<u8>>) -> (r: Result<bool, CsvError>)
        requires
            old(self).wf(),
        ensures
            final(self).wf(),
            final(self).data() == old(self).data(),
            final(self).delim() == old(self).delim(),
            final(self).trims() == old(self).trims(),
            match read_row(old(self).data(), old(self).delim(), old(self).trims(), old(self).position()) {
                RowEnd::NoRow => r == Ok::<bool, CsvError>(false) && final(fields)@.len() == 0
                    && final(self).position() == old(self).position(),
                RowEnd::Row { fields: cells, pos } => r == Ok::<bool, CsvError>(true)
                    && byte_rows(final(fields)@) == cells && final(self).position() == pos,
                RowEnd::Failed { err, fields: cells, pos } => r == Err::<bool, CsvError>(err)
                    && byte_rows(final(fields)@) == cells && final(self).position() == pos,
            },
    {
        fields.clear();
        let len = self.bytes.len();
        if self.pos >= len {
            return Ok(false);
        }
        let ghost b = self.bytes@;
        let ghost d = self.delimiter;
        let ghost t = self.trim;
        let mut field_start = self.pos;
        let mut in_quotes = false;
        let mut has_escapes = false;
        let mut escaped_buf: Vec<u8> = Vec::new();
        let ghost target = read_row(b, d, t, self.pos as int);
        assert(byte_rows(fields@) =~= Seq::<Seq<u8>>::empty());
        while self.pos < len
            invariant
                len == b.len(),
                b == self.bytes@,
                d == self.delimiter,
                t == self.trim,
                self.bytes@ == old(self).bytes@,
                self.delimiter == old(self).delimiter,
                self.trim == old(self).trim,
                target == read_row(old(self).bytes@, old(self).delimiter, old(self).trim, old(self).pos as int),
                scan_ok(b, self.state_of(field_start, in_quotes, has_escapes, escaped_buf@, byte_rows(fields@))),
                scan_row(b, d, t, self.state_of(field_start, in_quotes, has_escapes, escaped_buf@, byte_rows(fields@)))
                    == target,
            decreases len - self.pos,
        {
            let ghost st = self.state_of(field_start, in_quotes, has_escapes, escaped_buf@, byte_rows(fields@));
            let c = self.bytes[self.pos];
            if in_quotes {
                if c == QUOTE {
                    if self.pos + 1 < len && self.bytes[self.pos + 1] == QUOTE {
                        if !has_escapes {
                            has_escapes = true;
                            escaped_buf = slice_to_vec(&self.bytes[field_start + 1..self.pos]);
                        }
                        escaped_buf.push(QUOTE);
                        self.pos = self.pos + 2;
                    } else {
                        in_quotes = false;
                        self.pos = self.pos + 1;
                    }
                } else {
                    if has_escapes {
                        push_latin1(&mut escaped_buf, c);
                    }
                    self.pos = self.pos + 1;
                }
            } else if c == QUOTE && self.pos == field_start {
                in_quotes = true;
                self.pos = self.pos + 1;
            } else if c == self.delimiter {
                let buf = escaped_buf;
                escaped_buf = Vec::new();
                match self.close_field(field_start, has_escapes, buf) {
                    Some(cell) => {
                        fields.push(cell);
                        proof {
                            assert(byte_rows(fields@) =~= st.fields.push(cell@));
                        }
                    },
                    None => {
                        proof {
                            assert(close_cell(b, t, st) is None);
                            assert(scan_row(b, d, t, st) == RowEnd::Failed { err: CsvError::InvalidUtf8, fields: st.fields, pos: st.pos });
                        }
                        return Err(CsvError::InvalidUtf8);
                    },
                }
                has_escapes = false;
                self.pos = self.pos + 1;
                field_start = self.pos;
            } else if c == CR || c == LF {
                let buf = escaped_buf;
                escaped_buf = Vec::new();
                match self.close_field(field_start, has_escapes, buf) {
                    Some(cell) => {
                        fields.push(cell);
                        proof {
                            assert(byte_rows(fields@) =~= st.fields.push(cell@));
                        }
                    },
                    None => {
                        proof {
                            assert(close_cell(b, t, st) is None);
                            assert(scan_row(b, d, t, st) == RowEnd::Failed { err: CsvError::InvalidUtf8, fields: st.fields, pos: st.pos });
                        }
                        return Err(CsvError::InvalidUtf8);
                    },
                }
                if c == CR && self.pos + 1 < len && self.bytes[self.pos + 1] == LF {
                    self.pos = self.pos + 2;
                } else {
                    self.pos = self.pos + 1;
                }
                return Ok(true);
            } else {
                if has_escapes {
                    push_latin1(&mut escaped_buf, c);
                }
                self.pos = self.pos + 1;
            }
        }
        if in_quotes {
            return Err(CsvError::UnclosedQuote);
        }
        let buf = escaped_buf;
        match self.close_field(field_start, has_escapes, buf) {
            Some(cell) => {
                let ghost before = byte_rows(fields@);
                fields.push(cell);
                proof {
                    assert(byte_rows(fields@) =~= before.push(cell@));
                }
            },
            None => {
                return Err(CsvError::InvalidUtf8);
            },
        }
        Ok(true)
    }
}


/// What a CSV cell's text reads as, before floats and strings.
#[derive(Clone, Copy, PartialEq, Eq, Structural, Debug)]
pub enum CellValue {
    Null,
    Bool(bool),
    Int(i64),
    /// Anything else: a float when the text parses as a finite one, else a string.
    Text,
}

pub open spec fn is_digit(b: u8) -> bool {
    0x30 <= b <= 0x39
}

/// The number that the decimal digits `s` write.
pub open spec fn digits_value(s: Seq<u8>) -> int
    decreases s.len(),
{
    if s.len() == 0 {
        0
    } else {
        digits_value(s.drop_last()) * 10 + (s.last() - 0x30)
    }
}

pub open spec fn text_true() -> Seq<u8> {
    seq![0x74u8, 0x72, 0x75, 0x65]
}

pub open spec fn text_false() -> Seq<u8> {
    seq![0x66u8, 0x61, 0x6c, 0x73, 0x65]
}

pub open spec fn text_null() -> Seq<u8> {
    seq![0x6eu8, 0x75, 0x6c, 0x6c]
}

/// `s` without a leading minus sign.
pub open spec fn unsigned_part(s: Seq<u8>) -> Seq<u8> {
    if s.len() > 0 && s[0] == 0x2d { s.drop_first() } else { s }
}

pub open spec fn all_digits(d: Seq<u8>) -> bool {
    forall|i: int| 0 <= i < d.len() ==> is_digit(#[trigger] d[i])
}

/// What the cell text `s` reads as: empty and `null` are null, `true` and
/// `false` booleans, an optional minus sign and one or more digits an
/// integer when it fits in 64 bits, anything else text.
pub open spec fn cell_value(s: Seq<u8>) -> CellValue {
    if s.len() == 0 || s == text_null() {
        CellValue::Null
    } else if s == text_true() {
        CellValue::Bool(true)
    } else if s == text_false() {
        CellValue::Bool(false)
    } else {
        let d = unsigned_part(s);
        if d.len() > 0 && all_digits(d) && digits_value(d) <= i64::MAX {
            CellValue::Int((if s[0] == 0x2d { -digits_value(d) } else { digits_value(d) }) as i64)
        } else {
            CellValue::Text
        }
    }
}

proof fn lemma_digits_value_nonneg(s: Seq<u8>)
    requires
        forall|i: int| 0 <= i < s.len() ==> is_digit(#[trigger] s[i]),
    ensures
        digits_value(s) >= 0,
    decreases s.len(),
{
    if s.len() > 0 {
        lemma_digits_value_nonneg(s.drop_last());
    }
}

proof fn lemma_digits_value_mono(s: Seq<u8>, i: int)
    requires
        0 <= i <= s.len(),
        forall|k: int| 0 <= k < s.len() ==> is_digit(#[trigger] s[k]),
    ensures
        digits_value(s.take(i)) <= digits_value(s),
    decreases s.len() - i,
{
    if i < s.len() {
        assert(s.drop_last().take(i) =~= s.take(i));
        lemma_digits_value_mono(s.drop_last(), i);
        lemma_digits_value_nonneg(s.drop_last());
    } else {
        assert(s.take(i) =~= s);
    }
}

fn bytes_eq(s: &[u8], lit: &[u8]) -> (b: bool)
    ensures
        b == (s@ == lit@),
{
    if s.len() != lit.len() {
        return false;
    }
    let mut i: usize = 0;
    while i < s.len()
        invariant
            s@.len() == lit@.len(),
            i <= s@.len(),
            forall|k: int| 0 <= k < i ==> s@[k] == lit@[k],
        decreases s@.len() - i,
    {
        if s[i] != lit[i] {
            return false;
        }
        i = i + 1;
    }
    assert(s@ =~= lit@);
    true
}

/// What the text of a CSV cell reads as.
#[verifier::spinoff_prover]
pub fn parse_cell_value(s: &[u8]) -> (v: CellValue)
    ensures
        v == cell_value(s@),
{
    if s.len() == 0 {
        return CellValue::Null;
    }
    let t: [u8; 4] = [0x74, 0x72, 0x75, 0x65];
    let f: [u8; 5] = [0x66, 0x61, 0x6c, 0x73, 0x65];
    let n: [u8; 4] = [0x6e, 0x75, 0x6c, 0x6c];
    assert(t@ == text_true());
    assert(f@ == text_false());
    assert(n@ == text_null());
    if bytes_eq(s, &t) {
        return CellValue::Bool(true);
    }
    if bytes_eq(s, &f) {
        return CellValue::Bool(false);
    }
    if bytes_eq(s, &n) {
        return CellValue::Null;
    }
    let neg = s[0] == 0x2d;
    let start: usize = if neg { 1 } else { 0 };
    let ghost d = unsigned_part(s@);
    assert(d =~= s@.subrange(start as int, s@.len() as int));
    if start >= s.len() {
        return CellValue::Text;
    }
    let mut k = start;
    while k < s.len()
        invariant
            start <= k <= s@.len(),
            d =~= s@.subrange(start as int, s@.len() as int),
            d == unsigned_part(s@),
            neg == (s@[0] == 0x2d),
            s@.len() > 0,
            s@ != text_true() && s@ != text_false() && s@ != text_null(),
            forall|i: int| start <= i < k ==> is_digit(#[trigger] s@[i]),
        decreases s@.len() - k,
    {
        if s[k] < 0x30 || s[k] > 0x39 {
            assert(!is_digit(d[k - start]));
            assert(!all_digits(d));
            return CellValue::Text;
        }
        k = k + 1;
    }
    assert(all_digits(d)) by {
        assert forall|i: int| 0 <= i < d.len() implies is_digit(#[trigger] d[i]) by {
            assert(d[i] == s@[i + start]);
        }
    }
    let mut acc: i64 = 0;
    let mut j = start;
    while j < s.len()
        invariant
            start <= j <= s@.len(),
            d =~= s@.subrange(start as int, s@.len() as int),
            d == unsigned_part(s@),
            neg == (s@[0] == 0x2d),
            s@.len() > 0,
            s@ != text_true() && s@ != text_false() && s@ != text_null(),
            forall|i: int| 0 <= i < d.len() ==> is_digit(#[trigger] d[i]),
            acc as int == digits_value(d.take(j - start)),
            acc >= 0,
        decreases s@.len() - j,
    {
        assert(is_digit(d[j - start]));
        assert(d[j - start] == s@[j as int]);
        let digit = (s[j] - 0x30) as i64;
        let ghost prefix = d.take(j - start);
        assert(d.take(j + 1 - start).drop_last() =~= prefix);
        assert(d.take(j + 1 - start).last() == s@[j as int]);
        match acc.checked_mul(10) {
            Some(m) => match m.checked_add(digit) {
                Some(next) => {
                    acc = next;
                },
                None => {
                    proof {
                        lemma_digits_value_mono(d, j + 1 - start);
                    }
                    return CellValue::Text;
                },
            },
            None => {
                proof {
                    lemma_digits_value_mono(d, j + 1 - start);
                    assert(d[j - start] == s@[j as int]);
                }
                return CellValue::Text;
            },
        }
        j = j + 1;
    }
    assert(d.take(d.len() as int) =~= d);
    proof {
        lemma_digits_value_nonneg(d);
    }
    if neg {
        CellValue::Int(-acc)
    } else {
        CellValue::Int(acc)
    }
}


/// Whether `pat` occurs in `s` starting at `i`.
pub open spec fn occurs_at(s: Seq<u8>, pat: Seq<u8>, i: int) -> bool {
    0 <= i && i + pat.len() <= s.len() && s.subrange(i, i + pat.len()) == pat
}

/// Whether `pat` occurs in `s`.
pub open spec fn occurs(s: Seq<u8>, pat: Seq<u8>) -> bool {
    exists|i: int| occurs_at(s, pat, i)
}

/// Whether a cell must be quoted: it holds the delimiter, a quote or a line break.
pub open spec fn needs_quotes(s: Seq<u8>, delim: u8) -> bool {
    occurs(s, latin1_utf8(delim)) || s.contains(QUOTE) || s.contains(LF) || s.contains(CR)
}

/// `s` with every quote doubled.
pub open spec fn double_quotes(s: Seq<u8>) -> Seq<u8>
    decreases s.len(),
{
    if s.len() == 0 {
        seq![]
    } else {
        double_quotes(s.drop_last()) + if s.last() == QUOTE { seq![QUOTE, QUOTE] } else { seq![s.last()] }
    }
}

/// How a cell is written: as it stands, or quoted with its quotes doubled.
pub open spec fn written_cell(s: Seq<u8>, delim: u8) -> Seq<u8> {
    if needs_quotes(s, delim) {
        seq![QUOTE] + double_quotes(s) + seq![QUOTE]
    } else {
        s
    }
}

/// Whether `pat` occurs in `s`.
fn find_bytes(s: &[u8], pat: &Vec<u8>) -> (b: bool)
    requires
        pat@.len() > 0,
    ensures
        b == occurs(s@, pat@),
{
    let n = s.len();
    let m = pat.len();
    if m > n {
        assert forall|i: int| !occurs_at(s@, pat@, i) by {}
        return false;
    }
    let mut i: usize = 0;
    while i <= n - m
        invariant
            n == s@.len(),
            m == pat@.len(),
            m <= n,
            i <= n,
            forall|k: int| 0 <= k < i ==> !occurs_at(s@, pat@, k),
        decreases n - i,
    {
        let mut j: usize = 0;
        let mut matched = true;
        while j < m
            invariant
                n == s@.len(),
                m == pat@.len(),
                i + m <= n,
                j <= m,
                matched == (forall|k: int| 0 <= k < j ==> s@[i + k] == pat@[k]),
            decreases m - j,
        {
            if s[i + j] != pat[j] {
                matched = false;
            }
            j = j + 1;
        }
        if matched {
            assert(s@.subrange(i as int, i + m) =~= pat@);
            assert(occurs_at(s@, pat@, i as int));
            return true;
        }
        assert(!occurs_at(s@, pat@, i as int)) by {
            if occurs_at(s@, pat@, i as int) {
                assert forall|k: int| 0 <= k < m implies s@[i + k] == pat@[k] by {
                    assert(s@.subrange(i as int, i + m)[k] == s@[i + k]);
                }
            }
        }
        i = i + 1;
    }
    assert forall|k: int| !occurs_at(s@, pat@, k) by {
        if k >= i {
            assert(k + m > n);
        }
    }
    false
}

/// Whether byte `x` occurs in `s`.
fn has_byte(s: &[u8], x: u8) -> (b: bool)
    ensures
        b == s@.contains(x),
{
    let mut i: usize = 0;
    while i < s.len()
        invariant
            i <= s@.len(),
            forall|k: int| 0 <= k < i ==> s@[k] != x,
        decreases s@.len() - i,
    {
        if s[i] == x {
            return true;
        }
        i = i + 1;
    }
    false
}

/// The UTF-8 encoding of the character with code point `b`.
fn latin1_bytes(b: u8) -> (v: Vec<u8>)
    ensures
        v@ == latin1_utf8(b),
{
    let mut v = Vec::new();
    push_latin1(&mut v, b);
    v
}

/// Appends cell `s` as CSV writes it, for a document delimited by the
/// character with code point `delimiter`.
pub fn write_csv_cell(out: &mut Vec<u8>, s: &[u8], delimiter: u8)
    ensures
        final(out)@ == old(out)@ + written_cell(s@, delimiter),
{
    let d = latin1_bytes(delimiter);
    let needs = find_bytes(s, &d) || has_byte(s, QUOTE) || has_byte(s, LF) || has_byte(s, CR);
    if !needs {
        let ghost before = out@;
        let mut i: usize = 0;
        while i < s.len()
            invariant
                i <= s@.len(),
                out@ == before + s@.take(i as int),
            decreases s@.len() - i,
        {
            out.push(s[i]);
            assert(s@.take(i + 1) =~= s@.take(i as int).push(s@[i as int]));
            i = i + 1;
        }
        assert(s@.take(s@.len() as int) =~= s@);
        return;
    }
    let ghost before = out@;
    out.push(QUOTE);
    let mut i: usize = 0;
    while i < s.len()
        invariant
            i <= s@.len(),
            out@ == before + seq![QUOTE] + double_quotes(s@.take(i as int)),
        decreases s@.len() - i,
    {
        let c = s[i];
        assert(s@.take(i + 1).drop_last() =~= s@.take(i as int));
        if c == QUOTE {
            out.push(QUOTE);
            out.push(QUOTE);
        } else {
            out.push(c);
        }
        assert(out@ =~= before + seq![QUOTE] + double_quotes(s@.take(i + 1)));
        i = i + 1;
    }
    assert(s@.take(s@.len() as int) =~= s@);
    out.push(QUOTE);
    assert(out@ =~= before + written_cell(s@, delimiter));
}


/// Every byte of `s` after its first quote is ASCII.
pub open spec fn ascii_after_first_quote(s: Seq<u8>) -> bool {
    forall|i: int, j: int| 0 <= i < j < s.len() && s[i] == QUOTE ==> s[j] < 0x80
}

proof fn lemma_double_quotes_append(a: Seq<u8>, b: Seq<u8>)
    ensures
        double_quotes(a + b) == double_quotes(a) + double_quotes(b),
    decreases b.len(),
{
    if b.len() == 0 {
        assert(a + b =~= a);
        assert(double_quotes(a) + double_quotes(b) =~= double_quotes(a));
    } else {
        assert((a + b).drop_last() =~= a + b.drop_last());
        lemma_double_quotes_append(a, b.drop_last());
        assert((a + b).last() == b.last());
        assert(double_quotes(a + b) =~= double_quotes(a) + double_quotes(b));
    }
}

proof fn lemma_double_quotes_plain(s: Seq<u8>)
    requires
        !s.contains(QUOTE),
    ensures
        double_quotes(s) == s,
    decreases s.len(),
{
    if s.len() > 0 {
        assert(!s.drop_last().contains(QUOTE)) by {
            if s.drop_last().contains(QUOTE) {
                let dl = s.drop_last();
                let k = choose|k: int| 0 <= k < dl.len() && #[trigger] dl[k] == QUOTE;
                assert(s[k] == QUOTE);
            }
        }
        lemma_double_quotes_plain(s.drop_last());
        assert(s.last() != QUOTE) by {
            assert(s[s.len() - 1] == s.last());
        }
        assert(double_quotes(s) =~= s);
    }
}

proof fn lemma_double_quotes_len(s: Seq<u8>)
    ensures
        double_quotes(s).len() >= s.len(),
    decreases s.len(),
{
    if s.len() > 0 {
        lemma_double_quotes_len(s.drop_last());
    }
}

/// The scan of an unquoted run: bytes that are none of quote, delimiter and
/// line break only move the position.
proof fn lemma_scan_plain_run(b: Seq<u8>, d: u8, t: bool, st: ScanState, k: int)
    requires
        scan_ok(b, st),
        !st.in_quotes,
        st.escaped is None,
        st.pos <= k <= b.len(),
        forall|i: int| st.pos <= i < k ==> b[i] != QUOTE && b[i] != d && b[i] != CR && b[i] != LF,
    ensures
        scan_row(b, d, t, st) == scan_row(b, d, t, ScanState { pos: k, ..st }),
    decreases k - st.pos,
{
    if st.pos < k {
        let next = ScanState { pos: st.pos + 1, ..st };
        assert(scan_row(b, d, t, st) == scan_row(b, d, t, next));
        lemma_scan_plain_run(b, d, t, next, k);
        assert(ScanState { pos: k, ..next } == ScanState { pos: k, ..st });
    } else {
        assert(ScanState { pos: k, ..st } == st);
    }
}

/// The scan state at the start of a field at `p`, with cells `fields` read.
pub open spec fn field_start_state(p: int, fields: Seq<Seq<u8>>) -> ScanState {
    ScanState { pos: p, field_start: p, in_quotes: false, escaped: None, fields }
}

/// The scan state inside a written quoted cell that starts at `p`, once the
/// first `j` bytes of the cell have been read.
pub open spec fn quoted_at(s: Seq<u8>, p: int, fields: Seq<Seq<u8>>, j: int) -> ScanState {
    ScanState {
        pos: p + 1 + double_quotes(s.take(j)).len() as int,
        field_start: p,
        in_quotes: true,
        escaped: if s.take(j).contains(QUOTE) { Some(s.take(j)) } else { None },
        fields,
    }
}

/// The quoted form of `s`: quotes around it, its own quotes doubled.
pub open spec fn quoted(s: Seq<u8>) -> Seq<u8> {
    seq![QUOTE] + double_quotes(s) + seq![QUOTE]
}

proof fn lemma_quoted_step(b: Seq<u8>, s: Seq<u8>, p: int, fs: Seq<Seq<u8>>, d: u8, t: bool, j: int)
    requires
        0 <= j < s.len(),
        ascii_after_first_quote(s),
        0 <= p,
        p + quoted(s).len() <= b.len(),
        b.subrange(p, p + quoted(s).len()) == quoted(s),
    ensures
        scan_row(b, d, t, quoted_at(s, p, fs, j)) == scan_row(b, d, t, quoted_at(s, p, fs, j + 1)),
{
    let seg = quoted(s);
    let pre = s.take(j);
    let c = s[j];
    let enc = if c == QUOTE { seq![QUOTE, QUOTE] } else { seq![c] };
    assert(s.take(j + 1).drop_last() =~= pre);
    assert(s.take(j + 1).last() == c);
    assert(double_quotes(s.take(j + 1)) == double_quotes(pre) + enc);
    assert(s =~= s.take(j + 1) + s.skip(j + 1));
    lemma_double_quotes_append(s.take(j + 1), s.skip(j + 1));
    lemma_double_quotes_len(s.skip(j + 1));
    let e = double_quotes(pre);
    let el: int = e.len() as int;
    let pos: int = p + 1 + el;
    assert(b[pos] == seg[1 + el]);
    assert(seg[1 + el] == enc[0]);
    if c == QUOTE {
        assert(b[pos + 1] == seg[2 + el]);
        assert(b[pos + 1] == QUOTE);
        let buf = match quoted_at(s, p, fs, j).escaped {
            Some(x) => x,
            None => b.subrange(p + 1, pos),
        };
        if !pre.contains(QUOTE) {
            lemma_double_quotes_plain(pre);
            assert(b.subrange(p + 1, pos) =~= seg.subrange(1, 1 + el));
            assert(seg.subrange(1, 1 + el) =~= pre);
        }
        assert(buf == pre);
        assert(pre.push(QUOTE) =~= s.take(j + 1));
        assert(s.take(j + 1).contains(QUOTE)) by {
            assert(s.take(j + 1)[j] == QUOTE);
        }
        assert(quoted_at(s, p, fs, j + 1) == ScanState {
            pos: pos + 2,
            escaped: Some(buf.push(QUOTE)),
            ..quoted_at(s, p, fs, j)
        });
    } else {
        assert(s.take(j + 1).contains(QUOTE) == pre.contains(QUOTE)) by {
            if s.take(j + 1).contains(QUOTE) {
                let tk = s.take(j + 1);
                let k = choose|k: int| 0 <= k < tk.len() && #[trigger] tk[k] == QUOTE;
                assert(k < j);
                assert(pre[k] == QUOTE);
            }
            if pre.contains(QUOTE) {
                let k = choose|k: int| 0 <= k < pre.len() && #[trigger] pre[k] == QUOTE;
                assert(s.take(j + 1)[k] == QUOTE);
            }
        }
        if pre.contains(QUOTE) {
            let k = choose|k: int| 0 <= k < pre.len() && #[trigger] pre[k] == QUOTE;
            assert(s[k] == QUOTE);
            assert(c < 0x80);
            assert(pre + latin1_utf8(c) =~= s.take(j + 1));
        }
        assert(quoted_at(s, p, fs, j + 1) == ScanState {
            pos: pos + 1,
            escaped: add_byte(quoted_at(s, p, fs, j).escaped, c),
            ..quoted_at(s, p, fs, j)
        });
    }
}

proof fn lemma_quoted_run(b: Seq<u8>, s: Seq<u8>, p: int, fs: Seq<Seq<u8>>, d: u8, t: bool, j: int)
    requires
        0 <= j <= s.len(),
        ascii_after_first_quote(s),
        0 <= p,
        p + quoted(s).len() <= b.len(),
        b.subrange(p, p + quoted(s).len()) == quoted(s),
    ensures
        scan_row(b, d, t, quoted_at(s, p, fs, j)) == scan_row(b, d, t, quoted_at(s, p, fs, s.len() as int)),
    decreases s.len() - j,
{
    if j < s.len() {
        lemma_quoted_step(b, s, p, fs, d, t, j);
        lemma_quoted_run(b, s, p, fs, d, t, j + 1);
    }
}

/// A delimiter that the reader and the writer agree on: an ASCII character
/// other than a quote or a line break.
pub open spec fn delim_ok(d: u8) -> bool {
    d < 0x80 && d != QUOTE && d != CR && d != LF
}

/// A cell that reads back as written: UTF-8 text, ASCII after its first
/// quote (if any), and left alone by trimming when it is written unquoted
/// and the reader trims.
pub open spec fn cell_ok(s: Seq<u8>, d: u8, trim: bool) -> bool {
    &&& valid_utf8(s)
    &&& ascii_after_first_quote(s)
    &&& trim && !needs_quotes(s, d) ==> trimmed(s) == s
}

/// Reading a written cell that starts at `p` and ends at a delimiter or a
/// line feed: at a delimiter the reading goes on with the next field and
/// the cell added; at a line feed the row ends with the cell.
proof fn lemma_cell_at(b: Seq<u8>, s: Seq<u8>, p: int, fs: Seq<Seq<u8>>, d: u8, t: bool)
    requires
        delim_ok(d),
        cell_ok(s, d, t),
        0 <= p,
        p + written_cell(s, d).len() < b.len(),
        b.subrange(p, p + written_cell(s, d).len()) == written_cell(s, d),
        b[p + written_cell(s, d).len()] == d || b[p + written_cell(s, d).len()] == LF,
    ensures
        ({
            let q = p + written_cell(s, d).len();
            &&& b[q] == d ==> scan_row(b, d, t, field_start_state(p, fs))
                == scan_row(b, d, t, field_start_state(q + 1, fs.push(s)))
            &&& b[q] == LF ==> scan_row(b, d, t, field_start_state(p, fs))
                == (RowEnd::Row { fields: fs.push(s), pos: q + 1 })
        }),
{
    let w = written_cell(s, d);
    let q = p + w.len();
    let st0 = field_start_state(p, fs);
    assert(latin1_utf8(d) == seq![d]);
    if !needs_quotes(s, d) {
        assert forall|i: int| p <= i < q implies b[i] != QUOTE && b[i] != d && b[i] != CR && b[i] != LF by {
            assert(b[i] == w[i - p]);
            assert(w[i - p] == s[i - p]);
            if s[i - p] == d {
                assert(s.subrange(i - p, i - p + 1) =~= seq![d]);
                assert(occurs_at(s, latin1_utf8(d), i - p));
            }
            if s[i - p] == QUOTE {
                assert(s.contains(QUOTE));
            }
            if s[i - p] == CR {
                assert(s.contains(CR));
            }
            if s[i - p] == LF {
                assert(s.contains(LF));
            }
        }
        lemma_scan_plain_run(b, d, t, st0, q);
        let st1 = ScanState { pos: q, ..st0 };
        assert(b.subrange(p, q) =~= s);
        assert(s.len() >= 2 ==> s[0] != QUOTE) by {
            if s.len() >= 2 && s[0] == QUOTE {
                assert(s.contains(QUOTE));
            }
        }
        assert(close_cell(b, t, st1) == Some(s));
        assert(s.len() == 0 ==> b[q] != QUOTE);
        if b[q] == d {
            assert(scan_row(b, d, t, st1) == scan_row(b, d, t, field_start_state(q + 1, fs.push(s))));
        }
    } else {
        assert(w == quoted(s));
        assert(s.take(0) =~= Seq::<u8>::empty());
        assert(!s.take(0).contains(QUOTE));
        assert(b[p] == w[0]);
        assert(quoted_at(s, p, fs, 0) == ScanState { pos: p + 1, in_quotes: true, ..st0 });
        assert(scan_row(b, d, t, st0) == scan_row(b, d, t, quoted_at(s, p, fs, 0)));
        lemma_quoted_run(b, s, p, fs, d, t, 0);
        let fin = quoted_at(s, p, fs, s.len() as int);
        assert(s.take(s.len() as int) =~= s);
        let e: int = double_quotes(s).len() as int;
        assert(fin.pos == p + 1 + e);
        assert(q == p + 2 + e);
        assert(b[p + 1 + e] == w[1 + e]);
        assert(b[p + 1 + e] == QUOTE);
        assert(b[q] != QUOTE);
        let closed = ScanState { pos: q, in_quotes: false, ..fin };
        assert(scan_row(b, d, t, fin) == scan_row(b, d, t, closed));
        if s.contains(QUOTE) {
            assert(close_cell(b, t, closed) == Some(s));
        } else {
            lemma_double_quotes_plain(s);
            assert(b.subrange(p, q) =~= seq![QUOTE] + s + seq![QUOTE]);
            assert(b.subrange(p, q).subrange(1, q - p - 1) =~= s);
            assert(close_cell(b, t, closed) == Some(s));
        }
        assert(closed.pos != closed.field_start);
        if b[q] == d {
            assert(scan_row(b, d, t, closed) == scan_row(b, d, t, field_start_state(q + 1, fs.push(s))));
        }
    }
}

/// How a row of cells is written: the written cells, separated by the
/// delimiter, and a line feed after the last.
pub open spec fn written_row(cells: Seq<Seq<u8>>, d: u8) -> Seq<u8>
    decreases cells.len(),
{
    if cells.len() <= 1 {
        written_cell(cells[0], d) + seq![LF]
    } else {
        written_cell(cells[0], d) + seq![d] + written_row(cells.skip(1), d)
    }
}

proof fn lemma_row_at(b: Seq<u8>, cells: Seq<Seq<u8>>, p: int, fs: Seq<Seq<u8>>, d: u8, t: bool)
    requires
        delim_ok(d),
        cells.len() >= 1,
        forall|i: int| 0 <= i < cells.len() ==> #[trigger] cell_ok(cells[i], d, t),
        0 <= p,
        p + written_row(cells, d).len() <= b.len(),
        b.subrange(p, p + written_row(cells, d).len()) == written_row(cells, d),
    ensures
        scan_row(b, d, t, field_start_state(p, fs))
            == (RowEnd::Row { fields: fs + cells, pos: p + written_row(cells, d).len() }),
    decreases cells.len(),
{
    let w = written_cell(cells[0], d);
    let r = written_row(cells, d);
    let q = p + w.len();
    assert(cell_ok(cells[0], d, t));
    assert(b.subrange(p, q) =~= r.subrange(0, w.len() as int));
    assert(r.subrange(0, w.len() as int) =~= w);
    assert(b[q] == r[w.len() as int]);
    if cells.len() <= 1 {
        assert(r[w.len() as int] == LF);
        lemma_cell_at(b, cells[0], p, fs, d, t);
        assert(fs.push(cells[0]) =~= fs + cells);
    } else {
        let rest = cells.skip(1);
        let rr = written_row(rest, d);
        assert(r[w.len() as int] == d);
        lemma_cell_at(b, cells[0], p, fs, d, t);
        assert forall|i: int| 0 <= i < rest.len() implies #[trigger] cell_ok(rest[i], d, t) by {
            assert(rest[i] == cells[i + 1]);
        }
        assert(b.subrange(q + 1, q + 1 + rr.len()) =~= rr) by {
            assert forall|k: int| 0 <= k < rr.len() implies b.subrange(q + 1, q + 1 + rr.len())[k] == rr[k] by {
                assert(b[q + 1 + k] == r[w.len() + 1 + k]);
            }
        }
        lemma_row_at(b, rest, q + 1, fs.push(cells[0]), d, t);
        assert(fs.push(cells[0]) + rest =~= fs + cells);
    }
}

/// A row that the writer writes reads back as the same cells wherever it
/// stands in the data: read from the position where it starts, it gives
/// its cells and ends just past its line feed — for a delimiter that is an
/// ASCII character other than a quote or a line break, and cells that read
/// back (see [`cell_ok`]).
pub proof fn lemma_written_row_at(b: Seq<u8>, cells: Seq<Seq<u8>>, p: int, d: u8, t: bool)
    requires
        delim_ok(d),
        cells.len() >= 1,
        forall|i: int| 0 <= i < cells.len() ==> #[trigger] cell_ok(cells[i], d, t),
        0 <= p,
        p + written_row(cells, d).len() <= b.len(),
        b.subrange(p, p + written_row(cells, d).len()) == written_row(cells, d),
    ensures
        read_row(b, d, t, p) == (RowEnd::Row { fields: cells, pos: p + written_row(cells, d).len() }),
{
    assert(written_row(cells, d).len() > 0) by {
        reveal_with_fuel(written_row, 2);
    }
    lemma_row_at(b, cells, p, Seq::empty(), d, t);
    assert(Seq::<Seq<u8>>::empty() + cells =~= cells);
    assert(field_start_state(p, Seq::empty()) == ScanState { pos: p, field_start: p, in_quotes: false, escaped: None, fields: seq![] });
}

/// A row that the writer writes reads back as the same cells, ending after
/// its line feed — for a delimiter that is an ASCII character other than a
/// quote or a line break, and cells in UTF-8 whose bytes after their first
/// quote (if any) are ASCII and that trimming leaves alone when they are
/// written unquoted.
pub proof fn lemma_written_row_reads_back(cells: Seq<Seq<u8>>, delim: u8, trim: bool)
    requires
        delim_ok(delim),
        cells.len() >= 1,
        forall|i: int| 0 <= i < cells.len() ==> #[trigger] cell_ok(cells[i], delim, trim),
    ensures
        read_row(written_row(cells, delim), delim, trim, 0) == (RowEnd::Row {
            fields: cells,
            pos: written_row(cells, delim).len() as int,
        }),
{
    let r = written_row(cells, delim);
    assert(r.subrange(0, r.len() as int) =~= r);
    lemma_written_row_at(r, cells, 0, delim, trim);
}


/// The bytes of an ASCII text.
pub open spec fn ascii_bytes(cs: Seq<char>) -> Seq<u8> {
    cs.map_values(|c: char| c as u8)
}

proof fn lemma_digits_read_back(m: nat)
    ensures
        ({
            let b = ascii_bytes(crate::json::digits(m));
            &&& b.len() > 0
            &&& all_digits(b)
            &&& digits_value(b) == m
        }),
    decreases m,
{
    let b = ascii_bytes(crate::json::digits(m));
    if m < 10 {
        let c = crate::json::digit_char(m as int);
        assert(c as u8 == m + 48);
        assert(b =~= seq![(m + 48) as u8]);
        assert(b.drop_last() =~= Seq::<u8>::empty());
        assert(b.last() == m + 48);
        assert(digits_value(b) == digits_value(b.drop_last()) * 10 + (b.last() - 0x30));
    } else {
        lemma_digits_read_back(m / 10);
        let p = ascii_bytes(crate::json::digits(m / 10));
        let c = crate::json::digit_char((m % 10) as int);
        assert(c as u8 == (m % 10) + 48);
        assert(b =~= p + seq![((m % 10) + 48) as u8]);
        assert(b.drop_last() =~= p);
        assert(b.last() == (m % 10) + 48);
        assert(digits_value(b) == digits_value(p) * 10 + (m % 10));
        assert(all_digits(b)) by {
            assert forall|i: int| 0 <= i < b.len() implies is_digit(#[trigger] b[i]) by {
                if i < p.len() {
                    assert(b[i] == p[i]);
                }
            }
        }
    }
}

/// An integer other than `i64::MIN`, written as decimal text, reads back as
/// itself from a CSV cell. (`i64::MIN` reads as text: its digits alone
/// overflow before the sign applies.)
pub proof fn lemma_int_text_reads_back(n: i64)
    requires
        n != i64::MIN,
    ensures
        cell_value(ascii_bytes(crate::json::int_text(n as int))) == CellValue::Int(n),
{
    let s = ascii_bytes(crate::json::int_text(n as int));
    if n < 0 {
        lemma_digits_read_back((-n) as nat);
        let d = ascii_bytes(crate::json::digits((-n) as nat));
        assert(s =~= seq![0x2du8] + d);
        assert(s.drop_first() =~= d);
        assert(s[0] == 0x2d);
    } else {
        lemma_digits_read_back(n as nat);
        assert(is_digit(s[0]));
    }
    assert(s != text_true()) by {
        assert(text_true()[0] == 0x74);
    }
    assert(s != text_false()) by {
        assert(text_false()[0] == 0x66);
    }
    assert(s != text_null()) by {
        assert(text_null()[0] == 0x6e);
    }
}

} // verus!
