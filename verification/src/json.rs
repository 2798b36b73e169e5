//! JSON text of values. A finite float is written by the caller (in its
//! shortest round-trip decimal form), so the writer produces chunks:
//! characters, and the floats left to render.
use vstd::prelude::*;
use crate::value::Value;
use crate::heap::{Heap, HeapObj, Field, fields_view};

verus! {

/// The decimal digit for `d` in `0..10`.
pub open spec fn digit_char(d: int) -> char {
    (d + 48) as char
}

/// The decimal digits of `m`, without leading zeros (`"0"` for zero).
pub open spec fn digits(m: nat) -> Seq<char>
    decreases m,
{
    if m < 10 {
        seq![digit_char(m as int)]
    } else {
        digits(m / 10) + seq![digit_char((m % 10) as int)]
    }
}

/// The decimal text of `n`: a minus sign for a negative number, then its digits.
pub open spec fn int_text(n: int) -> Seq<char> {
    if n < 0 { seq!['-'] + digits((-n) as nat) } else { digits(n as nat) }
}

fn push_digits(m: u64, out: &mut Vec<char>)
    ensures
        final(out)@ == old(out)@ + digits(m as nat),
    decreases m,
{
    if m < 10 {
        out.push(((m as u8) + 48u8) as char);
    } else {
        push_digits(m / 10, out);
        out.push((((m % 10) as u8) + 48u8) as char);
    }
    assert(final(out)@ =~= old(out)@ + digits(m as nat));
}

/// Appends the decimal text of `n`.
pub fn write_int(n: i64, out: &mut Vec<char>)
    ensures
        final(out)@ == old(out)@ + int_text(n as int),
{
    if n < 0 {
        out.push('-');
        let m: u64 = if n == i64::MIN { 0x8000_0000_0000_0000u64 } else { (-n) as u64 };
        push_digits(m, out);
        assert(final(out)@ =~= old(out)@ + int_text(n as int));
    } else {
        push_digits(n as u64, out);
    }
}


/// How a character of a string is written inside JSON quotes.
pub open spec fn escape_char(c: char) -> Seq<char> {
    if c == '"' {
        seq!['\\', '"']
    } else if c == '\\' {
        seq!['\\', '\\']
    } else if c == '\x08' {
        seq!['\\', 'b']
    } else if c == '\x0c' {
        seq!['\\', 'f']
    } else if c == '\n' {
        seq!['\\', 'n']
    } else if c == '\r' {
        seq!['\\', 'r']
    } else if c == '\t' {
        seq!['\\', 't']
    } else if (c as u32) < 0x20 {
        seq!['\\', 'u', '0', '0', hex_digit((c as u32) as int / 16), hex_digit((c as u32) as int % 16)]
    } else {
        seq![c]
    }
}

/// The lowercase hexadecimal digit of `n`, for `n < 16`.
pub open spec fn hex_digit(n: int) -> char {
    if n < 10 { (48 + n) as char } else { (87 + n) as char }
}

/// The hexadecimal digit of `n`.
fn hex_char(n: u32) -> (c: char)
    requires
        n < 16,
    ensures
        c == hex_digit(n as int),
{
    if n < 10 {
        ((n as u8) + 48u8) as char
    } else {
        ((n as u8) + 87u8) as char
    }
}

/// The characters of `s` as JSON writes them between quotes.
pub open spec fn escaped(s: Seq<char>) -> Seq<char>
    decreases s.len(),
{
    if s.len() == 0 {
        seq![]
    } else {
        escaped(s.drop_last()) + escape_char(s.last())
    }
}

/// The JSON string literal of `s`.
pub open spec fn json_string(s: Seq<char>) -> Seq<char> {
    seq!['"'] + escaped(s) + seq!['"']
}

/// Appends the JSON string literal of `s`: quotes, backslashes and the
/// control characters with a short escape are escaped, the other control
/// characters (below U+0020) are written `\u00XX`; every other character
/// is written as it is.
pub fn write_json_str(s: &Vec<char>, out: &mut Vec<char>)
    ensures
        final(out)@ == old(out)@ + json_string(s@),
{
    let ghost start = out@;
    out.push('"');
    let mut i: usize = 0;
    while i < s.len()
        invariant
            i <= s@.len(),
            out@ == start + seq!['"'] + escaped(s@.take(i as int)),
        decreases s@.len() - i,
    {
        let c = s[i];
        assert(s@.take(i + 1).drop_last() =~= s@.take(i as int));
        if c == '"' {
            out.push('\\');
            out.push('"');
        } else if c == '\\' {
            out.push('\\');
            out.push('\\');
        } else if c == '\x08' {
            out.push('\\');
            out.push('b');
        } else if c == '\x0c' {
            out.push('\\');
            out.push('f');
        } else if c == '\n' {
            out.push('\\');
            out.push('n');
        } else if c == '\r' {
            out.push('\\');
            out.push('r');
        } else if c == '\t' {
            out.push('\\');
            out.push('t');
        } else if (c as u32) < 0x20 {
            let v = c as u32;
            out.push('\\');
            out.push('u');
            out.push('0');
            out.push('0');
            out.push(hex_char(v / 16));
            out.push(hex_char(v % 16));
        } else {
            out.push(c);
        }
        assert(out@ =~= start + seq!['"'] + escaped(s@.take(i + 1)));
        i = i + 1;
    }
    assert(s@.take(s@.len() as int) =~= s@);
    out.push('"');
    assert(out@ =~= start + json_string(s@));
}


/// A piece of JSON text: a character, or a finite float for the caller to
/// write in its shortest round-trip decimal form.
#[derive(Clone, Copy, PartialEq, Eq, Structural, Debug)]
pub enum Chunk {
    Char(u32),
    Float(u64),
}

/// Characters as chunks.
pub open spec fn char_chunks(cs: Seq<char>) -> Seq<Chunk>
    decreases cs.len(),
{
    if cs.len() == 0 {
        Seq::empty()
    } else {
        char_chunks(cs.drop_last()).push(Chunk::Char(cs.last() as u32))
    }
}

/// Whether a binary64 pattern is a finite number (its exponent bits are not all set).
pub open spec fn float_is_finite(bits: u64) -> bool {
    crate::value::float_magnitude_bits(bits) < 0x7FF0_0000_0000_0000
}

/// The JSON text of `v` on heap `h`, looking `d` levels into arrays and
/// objects. Values without a JSON form (non-finite floats, characters,
/// tuples, records, ranges, buffers, enum values, dangling references) and
/// anything deeper than `d` are written `null`.
pub open spec fn json_text(h: Seq<HeapObj>, v: Value, d: nat) -> Seq<Chunk>
    decreases d, 1nat, 0nat,
{
    match v {
        Value::Null => char_chunks(seq!['n', 'u', 'l', 'l']),
        Value::Bool(b) => if b { char_chunks(seq!['t', 'r', 'u', 'e']) } else { char_chunks(seq!['f', 'a', 'l', 's', 'e']) },
        Value::Int(n) => char_chunks(int_text(n as int)),
        Value::Float(bits) => if float_is_finite(bits) { seq![Chunk::Float(bits)] } else { char_chunks(seq!['n', 'u', 'l', 'l']) },
        Value::Obj(i) => if i >= h.len() || d == 0 {
            char_chunks(seq!['n', 'u', 'l', 'l'])
        } else {
            match h[i as int] {
                HeapObj::Str(cs) => char_chunks(json_string(cs@)),
                HeapObj::Array(a) => char_chunks(seq!['[']) + json_elems(h, a@, (d - 1) as nat, a@.len()) + char_chunks(seq![']']),
                HeapObj::Object(fs) => char_chunks(seq!['{']) + json_fields(h, fields_view(fs@), (d - 1) as nat, fs@.len()) + char_chunks(seq!['}']),
                _ => char_chunks(seq!['n', 'u', 'l', 'l']),
            }
        },
    }
}

/// The first `n` elements of `a`, comma-separated.
pub open spec fn json_elems(h: Seq<HeapObj>, a: Seq<Value>, d: nat, n: nat) -> Seq<Chunk>
    decreases d, 2nat, n,
{
    if n == 0 {
        seq![]
    } else if n == 1 {
        json_text(h, a[0], d)
    } else {
        json_elems(h, a, d, (n - 1) as nat) + char_chunks(seq![',']) + json_text(h, a[n - 1], d)
    }
}

/// The first `n` fields of `fs` as `"key":value`, comma-separated.
pub open spec fn json_fields(h: Seq<HeapObj>, fs: Seq<(Seq<char>, Value)>, d: nat, n: nat) -> Seq<Chunk>
    decreases d, 2nat, n,
{
    if n == 0 {
        seq![]
    } else if n == 1 {
        char_chunks(json_string(fs[0].0)) + char_chunks(seq![':']) + json_text(h, fs[0].1, d)
    } else {
        json_fields(h, fs, d, (n - 1) as nat) + char_chunks(seq![',']) + char_chunks(json_string(fs[n - 1].0))
            + char_chunks(seq![':']) + json_text(h, fs[n - 1].1, d)
    }
}

/// Appends characters as chunks.
pub(crate) fn push_text(out: &mut Vec<Chunk>, cs: &Vec<char>)
    ensures
        final(out)@ == old(out)@ + char_chunks(cs@),
{
    let ghost start = out@;
    let mut i: usize = 0;
    assert(out@ =~= start + char_chunks(cs@.take(0)));
    while i < cs.len()
        invariant
            i <= cs@.len(),
            out@ == start + char_chunks(cs@.take(i as int)),
        decreases cs@.len() - i,
    {
        let ghost before = out@;
        out.push(Chunk::Char(cs[i] as u32));
        assert(cs@.take(i + 1).drop_last() =~= cs@.take(i as int));
        assert(char_chunks(cs@.take(i + 1)) =~= char_chunks(cs@.take(i as int)).push(Chunk::Char(cs@[i as int] as u32)));
        assert(out@ =~= start + char_chunks(cs@.take(i + 1)));
        i = i + 1;
    }
    assert(cs@.take(cs@.len() as int) =~= cs@);
}

fn push_null(out: &mut Vec<Chunk>)
    ensures
        final(out)@ == old(out)@ + char_chunks(seq!['n', 'u', 'l', 'l']),
{
    out.push(Chunk::Char('n' as u32));
    out.push(Chunk::Char('u' as u32));
    out.push(Chunk::Char('l' as u32));
    out.push(Chunk::Char('l' as u32));
    proof {
        reveal_with_fuel(char_chunks, 5);
        assert(seq!['n', 'u', 'l', 'l'].drop_last() =~= seq!['n', 'u', 'l']);
        assert(seq!['n', 'u', 'l'].drop_last() =~= seq!['n', 'u']);
        assert(seq!['n', 'u'].drop_last() =~= seq!['n']);
        assert(seq!['n'].drop_last() =~= Seq::<char>::empty());
    }
    assert(final(out)@ =~= old(out)@ + char_chunks(seq!['n', 'u', 'l', 'l']));
}

pub(crate) fn push_char(out: &mut Vec<Chunk>, c: char)
    ensures
        final(out)@ == old(out)@ + char_chunks(seq![c]),
{
    out.push(Chunk::Char(c as u32));
    proof {
        reveal_with_fuel(char_chunks, 2);
        assert(seq![c].drop_last() =~= Seq::<char>::empty());
        assert(char_chunks(seq![c]) =~= seq![Chunk::Char(c as u32)]);
    }
    assert(final(out)@ =~= old(out)@ + char_chunks(seq![c]));
}

fn write_elems(h: &Heap, a: &Vec<Value>, out: &mut Vec<Chunk>, d: usize)
    ensures
        final(out)@ == old(out)@ + json_elems(h@, a@, d as nat, a@.len()),
    decreases d, 2nat, a@.len(),
{
    let ghost start = out@;
    let mut k: usize = 0;
    while k < a.len()
        invariant
            k <= a@.len(),
            out@ == start + json_elems(h@, a@, d as nat, k as nat),
        decreases a@.len() - k,
    {
        let ghost mid = out@;
        if k > 0 {
            push_char(out, ',');
        }
        write_json_at(h, a[k], out, d);
        assert(out@ =~= start + json_elems(h@, a@, d as nat, (k + 1) as nat));
        k = k + 1;
    }
}

fn write_fields(h: &Heap, fs: &Vec<Field>, out: &mut Vec<Chunk>, d: usize)
    ensures
        final(out)@ == old(out)@ + json_fields(h@, fields_view(fs@), d as nat, fs@.len()),
    decreases d, 2nat, fs@.len(),
{
    let ghost start = out@;
    let ghost fv = fields_view(fs@);
    let mut k: usize = 0;
    while k < fs.len()
        invariant
            k <= fs@.len(),
            fv == fields_view(fs@),
            out@ == start + json_fields(h@, fv, d as nat, k as nat),
        decreases fs@.len() - k,
    {
        if k > 0 {
            push_char(out, ',');
        }
        let mut key_text: Vec<char> = Vec::new();
        write_json_str(&fs[k].key, &mut key_text);
        push_text(out, &key_text);
        push_char(out, ':');
        write_json_at(h, fs[k].value, out, d);
        assert(out@ =~= start + json_fields(h@, fv, d as nat, (k + 1) as nat));
        k = k + 1;
    }
}

fn write_json_at(h: &Heap, v: Value, out: &mut Vec<Chunk>, d: usize)
    ensures
        final(out)@ == old(out)@ + json_text(h@, v, d as nat),
    decreases d, 1nat, 0nat,
{
    match v {
        Value::Null => push_null(out),
        Value::Bool(b) => {
            let mut t: Vec<char> = Vec::new();
            if b {
                t.push('t');
                t.push('r');
                t.push('u');
                t.push('e');
                assert(t@ =~= seq!['t', 'r', 'u', 'e']);
            } else {
                t.push('f');
                t.push('a');
                t.push('l');
                t.push('s');
                t.push('e');
                assert(t@ =~= seq!['f', 'a', 'l', 's', 'e']);
            }
            push_text(out, &t);
        },
        Value::Int(n) => {
            let mut t: Vec<char> = Vec::new();
            write_int(n, &mut t);
            assert(t@ =~= int_text(n as int));
            push_text(out, &t);
        },
        Value::Float(bits) => {
            let mag = bits & 0x7FFF_FFFF_FFFF_FFFFu64;
            assert(mag == bits as int % 0x8000_0000_0000_0000) by (bit_vector)
                requires
                    mag == bits & 0x7FFF_FFFF_FFFF_FFFFu64,
            ;
            if mag < 0x7FF0_0000_0000_0000u64 {
                out.push(Chunk::Float(bits));
                assert(final(out)@ =~= old(out)@ + seq![Chunk::Float(bits)]);
            } else {
                push_null(out);
            }
        },
        Value::Obj(i) => {
            if d == 0 {
                push_null(out);
                return;
            }
            match h.get(i) {
                Some(HeapObj::Str(cs)) => {
                    let mut t: Vec<char> = Vec::new();
                    write_json_str(cs, &mut t);
                    assert(t@ =~= json_string(cs@));
                    push_text(out, &t);
                },
                Some(HeapObj::Array(a)) => {
                    push_char(out, '[');
                    write_elems(h, a, out, d - 1);
                    push_char(out, ']');
                },
                Some(HeapObj::Object(fs)) => {
                    push_char(out, '{');
                    write_fields(h, fs, out, d - 1);
                    push_char(out, '}');
                },
                _ => push_null(out),
            }
        },
    }
}

/// How deep the writer looks: more than any value of a heap without cycles
/// nests, since each level is a different object.
pub open spec fn json_depth(h: Seq<HeapObj>) -> nat {
    h.len()
}

/// The JSON text of `val`.
pub fn json_stringify(val: Value, heap: &Heap) -> (out: Vec<Chunk>)
    ensures
        out@ == json_text(heap@, val, json_depth(heap@)),
{
    let mut out: Vec<Chunk> = Vec::new();
    write_json_at(heap, val, &mut out, heap.len());
    assert(out@ =~= json_text(heap@, val, json_depth(heap@)));
    out
}

/// A string with no quote, backslash or escaped control character is
/// written between quotes as it is.
pub proof fn lemma_plain_json_string(s: Seq<char>)
    requires
        forall|i: int| 0 <= i < s.len() ==> #[trigger] escape_char(s[i]) == seq![s[i]],
    ensures
        json_string(s) == seq!['"'] + s + seq!['"'],
    decreases s.len(),
{
    lemma_plain_escaped(s);
}

proof fn lemma_plain_escaped(s: Seq<char>)
    requires
        forall|i: int| 0 <= i < s.len() ==> #[trigger] escape_char(s[i]) == seq![s[i]],
    ensures
        escaped(s) == s,
    decreases s.len(),
{
    if s.len() > 0 {
        let t = s.drop_last();
        assert forall|i: int| 0 <= i < t.len() implies #[trigger] escape_char(t[i]) == seq![t[i]] by {
            assert(t[i] == s[i]);
        }
        lemma_plain_escaped(t);
        assert(escape_char(s[s.len() - 1]) == seq![s[s.len() - 1]]);
        assert(escaped(s) =~= s);
    } else {
        assert(escaped(s) =~= s);
    }
}

/// The JSON literals: `null` is written `null` (codes 6E 75 6C 6C), and a
/// boolean by its truth, `true` (74 72 75 65) or `false` (66 61 6C 73 65);
/// the two booleans are written differently, wherever they stand.
pub proof fn lemma_json_literals(h: Seq<HeapObj>, b: bool, d: nat)
    ensures
        json_text(h, Value::Bool(b), d) == if b {
            seq![Chunk::Char(0x74u32), Chunk::Char(0x72u32), Chunk::Char(0x75u32), Chunk::Char(0x65u32)]
        } else {
            seq![Chunk::Char(0x66u32), Chunk::Char(0x61u32), Chunk::Char(0x6Cu32), Chunk::Char(0x73u32), Chunk::Char(0x65u32)]
        },
        json_text(h, Value::Null, d) == seq![Chunk::Char(0x6Eu32), Chunk::Char(0x75u32), Chunk::Char(0x6Cu32), Chunk::Char(0x6Cu32)],
        json_text(h, Value::Bool(true), d) != json_text(h, Value::Bool(false), d),
{
    reveal_with_fuel(char_chunks, 6);
    let t = seq!['t', 'r', 'u', 'e'];
    let f = seq!['f', 'a', 'l', 's', 'e'];
    let n = seq!['n', 'u', 'l', 'l'];
    assert(t.drop_last().drop_last().drop_last().drop_last() =~= Seq::<char>::empty());
    assert(f.drop_last().drop_last().drop_last().drop_last().drop_last() =~= Seq::<char>::empty());
    assert(n.drop_last().drop_last().drop_last().drop_last() =~= Seq::<char>::empty());
    assert(char_chunks(t) =~= seq![Chunk::Char(0x74u32), Chunk::Char(0x72u32), Chunk::Char(0x75u32), Chunk::Char(0x65u32)]);
    assert(char_chunks(f) =~= seq![Chunk::Char(0x66u32), Chunk::Char(0x61u32), Chunk::Char(0x6Cu32), Chunk::Char(0x73u32), Chunk::Char(0x65u32)]);
    assert(char_chunks(n) =~= seq![Chunk::Char(0x6Eu32), Chunk::Char(0x75u32), Chunk::Char(0x6Cu32), Chunk::Char(0x6Cu32)]);
}

/// The value of a lowercase hexadecimal digit.
pub open spec fn hex_value(c: char) -> int {
    if c <= '9' { c as int - 48 } else { c as int - 87 }
}

/// A character's JSON escape holds no control character (below U+0020).
proof fn lemma_escape_printable(c: char)
    ensures
        forall|k: int| 0 <= k < escape_char(c).len() ==> #[trigger] escape_char(c)[k] as u32 >= 0x20,
{
    if (c as u32) < 0x20 && c != '\x08' && c != '\x0c' && c != '\n' && c != '\r' && c != '\t' {
        let v = (c as u32) as int;
        assert(0 <= v / 16 < 16 && 0 <= v % 16 < 16);
        assert(hex_digit(v / 16) as u32 >= 0x20);
        assert(hex_digit(v % 16) as u32 >= 0x20);
    }
}

/// JSON string literals are printable and decode their control
/// characters: the literal of any text starts and ends with a quote and
/// holds no raw control character (below U+0020); a control character
/// without a short escape is written `\u00` and two lowercase hexadecimal
/// digits whose value is its code.
pub proof fn lemma_json_string_printable(s: Seq<char>, c: char)
    ensures
        json_string(s).len() >= 2,
        json_string(s)[0] == '"',
        json_string(s)[json_string(s).len() - 1] == '"',
        forall|k: int| 0 <= k < json_string(s).len() ==> #[trigger] json_string(s)[k] as u32 >= 0x20,
        (c as u32) < 0x20 && c != '\x08' && c != '\x0c' && c != '\n' && c != '\r' && c != '\t' ==> {
            let e = escape_char(c);
            &&& e.len() == 6
            &&& e[0] == '\\' && e[1] == 'u' && e[2] == '0' && e[3] == '0'
            &&& hex_value(e[4]) * 16 + hex_value(e[5]) == c as u32
        },
{
    lemma_escaped_printable(s);
    let e = escaped(s);
    let j = json_string(s);
    assert forall|k: int| 0 <= k < j.len() implies #[trigger] j[k] as u32 >= 0x20 by {
        if 0 < k < j.len() - 1 {
            assert(j[k] == e[k - 1]);
        }
    }
    if (c as u32) < 0x20 && c != '\x08' && c != '\x0c' && c != '\n' && c != '\r' && c != '\t' {
        let v = (c as u32) as int;
        assert(v == (v / 16) * 16 + v % 16);
        assert(hex_value(hex_digit(v / 16)) == v / 16);
        assert(hex_value(hex_digit(v % 16)) == v % 16);
    }
}

/// The character that the short escape `\e` stands for in a JSON string.
pub open spec fn short_unescape(e: char) -> Option<char> {
    if e == '"' {
        Some('"')
    } else if e == '\\' {
        Some('\\')
    } else if e == '/' {
        Some('/')
    } else if e == 'b' {
        Some('\x08')
    } else if e == 'f' {
        Some('\x0c')
    } else if e == 'n' {
        Some('\n')
    } else if e == 'r' {
        Some('\r')
    } else if e == 't' {
        Some('\t')
    } else {
        None
    }
}

/// Whether `c` is a hexadecimal digit, in either case.
pub open spec fn is_hex(c: char) -> bool {
    ('0' <= c && c <= '9') || ('a' <= c && c <= 'f') || ('A' <= c && c <= 'F')
}

/// The value of hexadecimal digit `c`, in either case.
pub open spec fn hex_digit_value(c: char) -> int {
    if c <= '9' { c as int - 48 } else if c <= 'F' { c as int - 55 } else { c as int - 87 }
}

/// The text that the body of a JSON string literal (what stands between its
/// quotes) stands for, read from the front as a JSON reader reads it: a
/// character other than a quote, a backslash or a control character stands
/// for itself, `\` and one of `" \ / b f n r t` for the character it names,
/// `\u` and four hexadecimal digits for the character with that code.
/// `None` where the body is not such text; a `\u` escape of a surrogate is
/// not read here.
pub open spec fn json_unescape(b: Seq<char>) -> Option<Seq<char>>
    decreases b.len(),
{
    if b.len() == 0 {
        Some(seq![])
    } else if b[0] == '"' || (b[0] as u32) < 0x20 {
        None
    } else if b[0] != '\\' {
        let r = json_unescape(b.skip(1));
        if r is Some { Some(seq![b[0]] + r->0) } else { None }
    } else if b.len() >= 2 && short_unescape(b[1]) is Some {
        let r = json_unescape(b.skip(2));
        if r is Some { Some(seq![short_unescape(b[1])->0] + r->0) } else { None }
    } else if b.len() >= 6 && b[1] == 'u' && is_hex(b[2]) && is_hex(b[3]) && is_hex(b[4]) && is_hex(b[5]) {
        let code = hex_digit_value(b[2]) * 4096 + hex_digit_value(b[3]) * 256 + hex_digit_value(b[4]) * 16
            + hex_digit_value(b[5]);
        let r = json_unescape(b.skip(6));
        if code < 0xD800 && r is Some { Some(seq![code as char] + r->0) } else { None }
    } else {
        None
    }
}

/// Escaping a text is escaping its parts.
proof fn lemma_escaped_concat(a: Seq<char>, b: Seq<char>)
    ensures
        escaped(a + b) == escaped(a) + escaped(b),
    decreases b.len(),
{
    if b.len() == 0 {
        assert(a + b =~= a);
        assert(escaped(a) + escaped(b) =~= escaped(a));
    } else {
        let b1 = b.drop_last();
        lemma_escaped_concat(a, b1);
        assert((a + b).drop_last() =~= a + b1);
        assert((a + b).last() == b.last());
        assert(escaped(a) + escaped(b) =~= escaped(a) + escaped(b1) + escape_char(b.last()));
    }
}

/// Reading a character's escape, then the rest.
proof fn lemma_unescape_char(c: char, rest: Seq<char>, r: Seq<char>)
    requires
        json_unescape(rest) == Some(r),
    ensures
        json_unescape(escape_char(c) + rest) == Some(seq![c] + r),
{
    let e = escape_char(c);
    let b = e + rest;
    assert(b.skip(e.len() as int) =~= rest);
    if (c as u32) < 0x20 && c != '\x08' && c != '\x0c' && c != '\n' && c != '\r' && c != '\t' {
        let v = (c as u32) as int;
        assert(0 <= v / 16 < 2 && 0 <= v % 16 < 16);
        assert(v == (v / 16) * 16 + v % 16);
        let h1 = hex_digit(v / 16);
        let h2 = hex_digit(v % 16);
        assert(b[0] == '\\' && b[1] == 'u' && b[2] == '0' && b[3] == '0' && b[4] == h1 && b[5] == h2);
        assert(is_hex(h1) && hex_digit_value(h1) == v / 16);
        assert(is_hex(h2) && hex_digit_value(h2) == v % 16);
        assert(hex_digit_value('0') == 0);
        assert(short_unescape('u') is None);
        let code = hex_digit_value(b[2]) * 4096 + hex_digit_value(b[3]) * 256 + hex_digit_value(b[4]) * 16
            + hex_digit_value(b[5]);
        assert(code == v);
        assert(code as char == c);
    } else if c == '"' || c == '\\' || c == '\x08' || c == '\x0c' || c == '\n' || c == '\r' || c == '\t' {
        assert(b[0] == '\\');
        assert(short_unescape(b[1]) == Some(c));
    } else {
        assert(b[0] == c);
    }
}

/// Reading the escaped text gives the text back.
proof fn lemma_escaped_reads_back(s: Seq<char>)
    ensures
        json_unescape(escaped(s)) == Some(s),
    decreases s.len(),
{
    if s.len() == 0 {
        assert(escaped(s) =~= Seq::<char>::empty());
    } else {
        let t = s.skip(1);
        assert(s =~= seq![s[0]] + t);
        lemma_escaped_concat(seq![s[0]], t);
        let one = seq![s[0]];
        assert(one.drop_last() =~= Seq::<char>::empty());
        assert(escaped(one.drop_last()) =~= Seq::<char>::empty());
        assert(one.last() == s[0]);
        assert(escaped(one) =~= escape_char(s[0]));
        lemma_escaped_reads_back(t);
        lemma_unescape_char(s[0], escaped(t), t);
    }
}

/// A string reads back from its JSON text: the JSON text of a reference to
/// a string is a literal between quotes, and what stands between them, read
/// as JSON reads a string, is that string again.
pub proof fn lemma_json_string_reads_back(h: Seq<HeapObj>, i: usize, d: nat)
    requires
        i < h.len(),
        d > 0,
        h[i as int] is Str,
    ensures
        exists|t: Seq<char>| #[trigger] char_chunks(t) == json_text(h, Value::Obj(i), d) && {
            &&& t.len() >= 2
            &&& t[0] == '"'
            &&& t[t.len() - 1] == '"'
            &&& json_unescape(t.subrange(1, t.len() - 1)) == Some(h[i as int]->Str_0@)
        },
{
    let s = h[i as int]->Str_0@;
    let t = json_string(s);
    lemma_escaped_reads_back(s);
    assert(t.subrange(1, t.len() - 1) =~= escaped(s));
    assert(char_chunks(t) == json_text(h, Value::Obj(i), d));
}

/// `s` cut at each `c`: the pieces between the separators, in order (one
/// piece, `s` itself, where `c` does not occur).
pub open spec fn split_at_char(s: Seq<char>, c: char) -> Seq<Seq<char>>
    decreases s.len(),
{
    if s.len() == 0 {
        seq![Seq::<char>::empty()]
    } else {
        let rest = split_at_char(s.skip(1), c);
        if s[0] == c {
            seq![Seq::<char>::empty()] + rest
        } else {
            rest.update(0, seq![s[0]] + rest[0])
        }
    }
}

proof fn lemma_split_len(s: Seq<char>, c: char)
    ensures
        split_at_char(s, c).len() >= 1,
    decreases s.len(),
{
    if s.len() > 0 {
        lemma_split_len(s.skip(1), c);
    }
}

/// Cutting at a separator splits the pieces on either side of it.
proof fn lemma_split_concat(x: Seq<char>, y: Seq<char>, c: char)
    ensures
        split_at_char(x + seq![c] + y, c) == split_at_char(x, c) + split_at_char(y, c),
    decreases x.len(),
{
    let s = x + seq![c] + y;
    if x.len() == 0 {
        assert(s.skip(1) =~= y);
        assert(s[0] == c);
        assert(split_at_char(x, c) =~= seq![Seq::<char>::empty()]);
        assert(split_at_char(s, c) =~= split_at_char(x, c) + split_at_char(y, c));
    } else {
        let x1 = x.skip(1);
        assert(s.skip(1) =~= x1 + seq![c] + y);
        assert(s[0] == x[0]);
        lemma_split_concat(x1, y, c);
        lemma_split_len(x1, c);
        let r = split_at_char(x1, c);
        if x[0] == c {
            assert(split_at_char(s, c) =~= split_at_char(x, c) + split_at_char(y, c));
        } else {
            assert((r + split_at_char(y, c))[0] == r[0]);
            assert(split_at_char(s, c) =~= split_at_char(x, c) + split_at_char(y, c));
        }
    }
}

/// A text without the separator is one piece.
proof fn lemma_split_none(s: Seq<char>, c: char)
    requires
        !s.contains(c),
    ensures
        split_at_char(s, c) == seq![s],
    decreases s.len(),
{
    if s.len() == 0 {
        assert(s =~= Seq::<char>::empty());
        assert(split_at_char(s, c) =~= seq![s]);
    } else {
        let s1 = s.skip(1);
        assert(!s1.contains(c)) by {
            if s1.contains(c) {
                let k = choose|k: int| 0 <= k < s1.len() && s1[k] == c;
                assert(s[k + 1] == c);
            }
        }
        lemma_split_none(s1, c);
        assert(s[0] != c);
        assert(seq![s[0]] + s1 =~= s);
        assert(split_at_char(s, c) =~= seq![s]);
    }
}

/// The decimal digits of a number are the characters `0` to `9`.
proof fn lemma_digit_chars(m: nat)
    ensures
        forall|k: int| 0 <= k < digits(m).len() ==> '0' <= #[trigger] digits(m)[k] && digits(m)[k] <= '9',
    decreases m,
{
    if m < 10 {
        assert(digit_char(m as int) as int == m + 48);
    } else {
        lemma_digit_chars(m / 10);
        let r = (m % 10) as int;
        assert(digit_char(r) as int == r + 48);
        let a = digits(m / 10);
        assert forall|k: int| 0 <= k < digits(m).len() implies '0' <= #[trigger] digits(m)[k] && digits(m)[k] <= '9' by {
            if k < a.len() {
                assert(digits(m)[k] == a[k]);
            } else {
                assert(digits(m)[k] == digit_char(r));
            }
        }
    }
}

/// Whether `v` is a value that JSON writes as a literal or a number:
/// `null`, a boolean or an integer.
pub open spec fn is_scalar(v: Value) -> bool {
    v is Null || v is Bool || v is Int
}

/// The characters of a scalar's JSON text.
spec fn scalar_chars(v: Value) -> Seq<char> {
    match v {
        Value::Bool(b) => if b { seq!['t', 'r', 'u', 'e'] } else { seq!['f', 'a', 'l', 's', 'e'] },
        Value::Int(n) => int_text(n as int),
        _ => seq!['n', 'u', 'l', 'l'],
    }
}

/// A scalar's JSON text holds no comma and no colon.
proof fn lemma_scalar_lacks(v: Value, x: char)
    requires
        x == ',' || x == ':',
    ensures
        !scalar_chars(v).contains(x),
{
    let t = scalar_chars(v);
    if t.contains(x) {
        let k = choose|k: int| 0 <= k < t.len() && t[k] == x;
        match v {
            Value::Int(n) => {
                let m = if n < 0 { (-(n as int)) as nat } else { n as nat };
                lemma_digit_chars(m);
                if n < 0 {
                    if k > 0 {
                        assert(t[k] == digits(m)[k - 1]);
                    }
                } else {
                    assert(t[k] == digits(m)[k]);
                }
            },
            _ => {
                assert(k == 0 || k == 1 || k == 2 || k == 3 || k == 4);
            },
        }
    }
}

/// A scalar's JSON text holds no comma, and what it reads as.
proof fn lemma_scalar_chars(h: Seq<HeapObj>, v: Value, d: nat)
    requires
        is_scalar(v),
    ensures
        json_text(h, v, d) == char_chunks(scalar_chars(v)),
        !scalar_chars(v).contains(','),
        !scalar_chars(v).contains(':'),
        (v is Int ==> v->Int_0 != i64::MIN) ==> crate::csv::cell_value(crate::csv::ascii_bytes(scalar_chars(v)))
            == crate::csv_text::scalar_cell(v),
{
    lemma_scalar_lacks(v, ',');
    lemma_scalar_lacks(v, ':');
    let tt = seq!['t', 'r', 'u', 'e'];
    let ff = seq!['f', 'a', 'l', 's', 'e'];
    let nn = seq!['n', 'u', 'l', 'l'];
    assert(crate::csv::ascii_bytes(tt) =~= crate::csv::text_true());
    assert(crate::csv::ascii_bytes(ff) =~= crate::csv::text_false());
    assert(crate::csv::ascii_bytes(nn) =~= crate::csv::text_null());
    assert(crate::csv::text_true() != crate::csv::text_null());
    assert(crate::csv::text_false() != crate::csv::text_null()) by {
        assert(crate::csv::text_false().len() != crate::csv::text_null().len());
    }
    assert(crate::csv::text_true() != crate::csv::text_false()) by {
        assert(crate::csv::text_true().len() != crate::csv::text_false().len());
    }
    if v is Int && v->Int_0 != i64::MIN {
        crate::csv::lemma_int_text_reads_back(v->Int_0);
    }
}

/// The characters of the first `n` scalar elements, comma-separated.
spec fn scalar_elems_chars(a: Seq<Value>, n: nat) -> Seq<char>
    decreases n,
{
    if n == 0 {
        seq![]
    } else if n == 1 {
        scalar_chars(a[0])
    } else {
        scalar_elems_chars(a, (n - 1) as nat) + seq![','] + scalar_chars(a[n - 1])
    }
}

proof fn lemma_scalar_elems(h: Seq<HeapObj>, a: Seq<Value>, d: nat, n: nat)
    requires
        1 <= n <= a.len(),
        forall|k: int| 0 <= k < a.len() ==> is_scalar(#[trigger] a[k]),
    ensures
        json_elems(h, a, d, n) == char_chunks(scalar_elems_chars(a, n)),
        split_at_char(scalar_elems_chars(a, n), ',') == Seq::new(n, |k: int| scalar_chars(a[k])),
    decreases n,
{
    assert(is_scalar(a[n - 1]));
    lemma_scalar_chars(h, a[n - 1], d);
    let last = scalar_chars(a[n - 1]);
    lemma_split_none(last, ',');
    if n == 1 {
        assert(Seq::new(n, |k: int| scalar_chars(a[k])) =~= seq![last]);
    } else {
        let m = (n - 1) as nat;
        lemma_scalar_elems(h, a, d, m);
        let prev = scalar_elems_chars(a, m);
        lemma_split_concat(prev, last, ',');
        crate::csv_text::lemma_char_chunks_concat(prev, seq![',']);
        crate::csv_text::lemma_char_chunks_concat(prev + seq![','], last);
        assert(Seq::new(n, |k: int| scalar_chars(a[k])) =~= Seq::new(m, |k: int| scalar_chars(a[k])) + seq![last]);
    }
}

/// An array of scalars reads back from its JSON text: the JSON text of a
/// reference to an array whose elements are `null`, booleans or integers
/// (other than `i64::MIN`, whose digits alone overflow when read) is a body
/// between `[` and `]`; an empty array has an empty body, and otherwise
/// the body cut at its commas has one piece per element, in order, each
/// reading back as that element.
pub proof fn lemma_json_scalar_array_reads_back(h: Seq<HeapObj>, i: usize, d: nat)
    requires
        i < h.len(),
        d > 0,
        h[i as int] is Array,
        forall|k: int| 0 <= k < h[i as int]->Array_0@.len() ==> {
            let v = #[trigger] h[i as int]->Array_0@[k];
            is_scalar(v) && (v is Int ==> v->Int_0 != i64::MIN)
        },
    ensures
        exists|t: Seq<char>| #[trigger] char_chunks(t) == json_text(h, Value::Obj(i), d) && {
            let a = h[i as int]->Array_0@;
            let parts = split_at_char(t.subrange(1, t.len() - 1), ',');
            &&& t.len() >= 2
            &&& t[0] == '['
            &&& t[t.len() - 1] == ']'
            &&& a.len() == 0 ==> t.len() == 2
            &&& a.len() > 0 ==> parts.len() == a.len()
            &&& a.len() > 0 ==> forall|k: int| 0 <= k < a.len() ==>
                crate::csv::cell_value(crate::csv::ascii_bytes(#[trigger] parts[k])) == crate::csv_text::scalar_cell(a[k])
        },
{
    let a = h[i as int]->Array_0@;
    let n = a.len();
    assert forall|k: int| 0 <= k < a.len() implies is_scalar(#[trigger] a[k]) by {
        assert(is_scalar(h[i as int]->Array_0@[k]));
    }
    let body = if n == 0 { Seq::<char>::empty() } else { scalar_elems_chars(a, n) };
    let t = seq!['['] + body + seq![']'];
    assert(t.subrange(1, t.len() - 1) =~= body);
    if n == 0 {
        assert(json_elems(h, a, (d - 1) as nat, 0) == Seq::<Chunk>::empty());
    } else {
        lemma_scalar_elems(h, a, (d - 1) as nat, n);
        assert forall|k: int| 0 <= k < a.len() implies
            crate::csv::cell_value(crate::csv::ascii_bytes(#[trigger] split_at_char(body, ',')[k])) == crate::csv_text::scalar_cell(a[k]) by {
            assert(split_at_char(body, ',')[k] == scalar_chars(a[k]));
            assert(is_scalar(h[i as int]->Array_0@[k]));
            lemma_scalar_chars(h, a[k], (d - 1) as nat);
        }
    }
    crate::csv_text::lemma_char_chunks_concat(seq!['['], body);
    crate::csv_text::lemma_char_chunks_concat(seq!['['] + body, seq![']']);
    assert(char_chunks(t) == json_text(h, Value::Obj(i), d));
}

/// Escaping brings in no comma and no colon: the literal of a text
/// without one holds none.
proof fn lemma_escaped_lacks(s: Seq<char>, x: char)
    requires
        x == ',' || x == ':',
        !s.contains(x),
    ensures
        !escaped(s).contains(x),
        !json_string(s).contains(x),
    decreases s.len(),
{
    if s.len() > 0 {
        let t = s.drop_last();
        assert(!t.contains(x)) by {
            if t.contains(x) {
                let k = choose|k: int| 0 <= k < t.len() && t[k] == x;
                assert(s[k] == x);
            }
        }
        lemma_escaped_lacks(t, x);
        let c = s.last();
        assert(s[s.len() - 1] == c);
        let e = escape_char(c);
        assert(!e.contains(x)) by {
            if e.contains(x) {
                let k = choose|k: int| 0 <= k < e.len() && e[k] == x;
                if (c as u32) < 0x20 && c != '\x08' && c != '\x0c' && c != '\n' && c != '\r' && c != '\t' {
                    let v = (c as u32) as int;
                    assert(0 <= v / 16 < 16 && 0 <= v % 16 < 16);
                    assert(hex_digit(v / 16) != x);
                    assert(hex_digit(v % 16) != x);
                    assert(k == 0 || k == 1 || k == 2 || k == 3 || k == 4 || k == 5);
                } else {
                    assert(k == 0 || k == 1);
                }
            }
        }
        let a = escaped(t);
        assert(!escaped(s).contains(x)) by {
            if escaped(s).contains(x) {
                let k = choose|k: int| 0 <= k < escaped(s).len() && escaped(s)[k] == x;
                if k < a.len() {
                    assert(escaped(s)[k] == a[k]);
                } else {
                    assert(escaped(s)[k] == e[k - a.len()]);
                }
            }
        }
    }
    let j = json_string(s);
    assert(!j.contains(x)) by {
        if j.contains(x) {
            let k = choose|k: int| 0 <= k < j.len() && j[k] == x;
            if 0 < k < j.len() - 1 {
                assert(j[k] == escaped(s)[k - 1]);
            }
        }
    }
}

/// Whether field `f` has a key with no comma and no colon and a scalar
/// value.
pub open spec fn plain_scalar_field(f: (Seq<char>, Value)) -> bool {
    !f.0.contains(',') && !f.0.contains(':') && is_scalar(f.1)
}

/// The characters of a field with a scalar value, as JSON writes it.
spec fn field_chars(f: (Seq<char>, Value)) -> Seq<char> {
    json_string(f.0) + seq![':'] + scalar_chars(f.1)
}

proof fn lemma_field_chars(h: Seq<HeapObj>, f: (Seq<char>, Value), d: nat)
    requires
        plain_scalar_field(f),
    ensures
        !field_chars(f).contains(','),
        split_at_char(field_chars(f), ':') == seq![json_string(f.0), scalar_chars(f.1)],
        char_chunks(json_string(f.0)) + char_chunks(seq![':']) + json_text(h, f.1, d) == char_chunks(field_chars(f)),
{
    let k = json_string(f.0);
    let v = scalar_chars(f.1);
    lemma_escaped_lacks(f.0, ',');
    lemma_escaped_lacks(f.0, ':');
    lemma_scalar_chars(h, f.1, d);
    lemma_split_concat(k, v, ':');
    lemma_split_none(k, ':');
    lemma_split_none(v, ':');
    assert(seq![k] + seq![v] =~= seq![k, v]);
    let fc = field_chars(f);
    assert(!fc.contains(',')) by {
        if fc.contains(',') {
            let j = choose|j: int| 0 <= j < fc.len() && fc[j] == ',';
            if j < k.len() {
                assert(fc[j] == k[j]);
            } else if j > k.len() {
                assert(fc[j] == v[j - k.len() - 1]);
            }
        }
    }
    crate::csv_text::lemma_char_chunks_concat(k, seq![':']);
    crate::csv_text::lemma_char_chunks_concat(k + seq![':'], v);
}

/// The characters of the first `n` fields, comma-separated.
spec fn scalar_fields_chars(fs: Seq<(Seq<char>, Value)>, n: nat) -> Seq<char>
    decreases n,
{
    if n == 0 {
        seq![]
    } else if n == 1 {
        field_chars(fs[0])
    } else {
        scalar_fields_chars(fs, (n - 1) as nat) + seq![','] + field_chars(fs[n - 1])
    }
}

proof fn lemma_scalar_fields(h: Seq<HeapObj>, fs: Seq<(Seq<char>, Value)>, d: nat, n: nat)
    requires
        1 <= n <= fs.len(),
        forall|k: int| 0 <= k < fs.len() ==> plain_scalar_field(#[trigger] fs[k]),
    ensures
        json_fields(h, fs, d, n) == char_chunks(scalar_fields_chars(fs, n)),
        split_at_char(scalar_fields_chars(fs, n), ',') == Seq::new(n, |k: int| field_chars(fs[k])),
    decreases n,
{
    let f = fs[n - 1];
    assert(plain_scalar_field(f));
    lemma_field_chars(h, f, d);
    let last = field_chars(f);
    lemma_split_none(last, ',');
    if n == 1 {
        assert(Seq::new(n, |k: int| field_chars(fs[k])) =~= seq![last]);
    } else {
        let m = (n - 1) as nat;
        lemma_scalar_fields(h, fs, d, m);
        let prev = scalar_fields_chars(fs, m);
        lemma_split_concat(prev, last, ',');
        crate::csv_text::lemma_char_chunks_concat(prev, seq![',']);
        crate::csv_text::lemma_char_chunks_concat(prev + seq![','], last);
        assert(json_fields(h, fs, d, n) =~= char_chunks(prev) + char_chunks(seq![','])
            + (char_chunks(json_string(f.0)) + char_chunks(seq![':']) + json_text(h, f.1, d)));
        assert(Seq::new(n, |k: int| field_chars(fs[k])) =~= Seq::new(m, |k: int| field_chars(fs[k])) + seq![last]);
    }
}

/// An object of scalars reads back from its JSON text: the JSON text of a
/// reference to an object whose keys hold no comma and no colon and whose
/// values are `null`, booleans or integers (other than `i64::MIN`) is a
/// body between `{` and `}`; an empty object has an empty body, and
/// otherwise the body cut at its commas has one piece per field, in order,
/// and each piece cut at its colon is the key's string literal, which reads
/// back as the key, and the value's text, which reads back as the value.
pub proof fn lemma_json_scalar_object_reads_back(h: Seq<HeapObj>, i: usize, d: nat)
    requires
        i < h.len(),
        d > 0,
        h[i as int] is Object,
        forall|k: int| 0 <= k < fields_view(h[i as int]->Object_0@).len() ==> {
            let f = #[trigger] fields_view(h[i as int]->Object_0@)[k];
            plain_scalar_field(f) && (f.1 is Int ==> f.1->Int_0 != i64::MIN)
        },
    ensures
        exists|t: Seq<char>| #[trigger] char_chunks(t) == json_text(h, Value::Obj(i), d) && {
            let fs = fields_view(h[i as int]->Object_0@);
            let parts = split_at_char(t.subrange(1, t.len() - 1), ',');
            &&& t.len() >= 2
            &&& t[0] == '{'
            &&& t[t.len() - 1] == '}'
            &&& fs.len() == 0 ==> t.len() == 2
            &&& fs.len() > 0 ==> parts.len() == fs.len()
            &&& fs.len() > 0 ==> forall|k: int| 0 <= k < fs.len() ==> {
                let kv = split_at_char(#[trigger] parts[k], ':');
                &&& kv.len() == 2
                &&& kv[0].len() >= 2
                &&& kv[0][0] == '"'
                &&& kv[0][kv[0].len() - 1] == '"'
                &&& json_unescape(kv[0].subrange(1, kv[0].len() - 1)) == Some(fs[k].0)
                &&& crate::csv::cell_value(crate::csv::ascii_bytes(kv[1])) == crate::csv_text::scalar_cell(fs[k].1)
            }
        },
{
    let fs = fields_view(h[i as int]->Object_0@);
    let n = fs.len();
    assert forall|k: int| 0 <= k < fs.len() implies plain_scalar_field(#[trigger] fs[k]) by {
        assert(plain_scalar_field(fields_view(h[i as int]->Object_0@)[k]));
    }
    let body = if n == 0 { Seq::<char>::empty() } else { scalar_fields_chars(fs, n) };
    let t = seq!['{'] + body + seq!['}'];
    assert(t.subrange(1, t.len() - 1) =~= body);
    if n == 0 {
        assert(json_fields(h, fs, (d - 1) as nat, 0) == Seq::<Chunk>::empty());
    } else {
        lemma_scalar_fields(h, fs, (d - 1) as nat, n);
        assert forall|k: int| 0 <= k < fs.len() implies {
            let kv = split_at_char(#[trigger] split_at_char(body, ',')[k], ':');
            &&& kv.len() == 2
            &&& kv[0].len() >= 2
            &&& kv[0][0] == '"'
            &&& kv[0][kv[0].len() - 1] == '"'
            &&& json_unescape(kv[0].subrange(1, kv[0].len() - 1)) == Some(fs[k].0)
            &&& crate::csv::cell_value(crate::csv::ascii_bytes(kv[1])) == crate::csv_text::scalar_cell(fs[k].1)
        } by {
            let f = fs[k];
            assert(split_at_char(body, ',')[k] == field_chars(f));
            assert(plain_scalar_field(f) && (f.1 is Int ==> f.1->Int_0 != i64::MIN)) by {
                assert(fields_view(h[i as int]->Object_0@)[k] == f);
            }
            lemma_field_chars(h, f, (d - 1) as nat);
            lemma_scalar_chars(h, f.1, (d - 1) as nat);
            let ks = json_string(f.0);
            assert(ks.subrange(1, ks.len() - 1) =~= escaped(f.0));
            lemma_escaped_reads_back(f.0);
        }
    }
    crate::csv_text::lemma_char_chunks_concat(seq!['{'], body);
    crate::csv_text::lemma_char_chunks_concat(seq!['{'] + body, seq!['}']);
    assert(char_chunks(t) == json_text(h, Value::Obj(i), d));
}

proof fn lemma_escaped_printable(s: Seq<char>)
    ensures
        forall|k: int| 0 <= k < escaped(s).len() ==> #[trigger] escaped(s)[k] as u32 >= 0x20,
    decreases s.len(),
{
    if s.len() > 0 {
        lemma_escaped_printable(s.drop_last());
        let c = s.last();
        let a = escaped(s.drop_last());
        let b = escape_char(c);
        lemma_escape_printable(c);
        assert forall|k: int| 0 <= k < escaped(s).len() implies #[trigger] escaped(s)[k] as u32 >= 0x20 by {
            if k < a.len() {
                assert(escaped(s)[k] == a[k]);
            } else {
                assert(escaped(s)[k] == b[k - a.len()]);
            }
        }
    }
}

} // verus!
