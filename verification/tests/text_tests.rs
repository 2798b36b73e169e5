use varn_vm::csv::{parse_cell_value, trim_bytes, write_csv_cell, CellValue, CsvError, FastCsvParser};
use varn_vm::csv_table::{parse_csv, table_value};
use varn_vm::csv_text::{stringify_csv, write_cell_text, CsvWriteError};
use varn_vm::heap::{Field, Heap, HeapObj};
use varn_vm::json::{json_stringify, write_int, write_json_str, Chunk};
use varn_vm::strings::{char_index_of, ends_with, intrinsic_method, starts_with, Intrinsic};
use varn_vm::value::Value;

fn render(chunks: &[Chunk]) -> String {
    let mut out = String::new();
    for c in chunks {
        match c {
            Chunk::Char(code) => out.push(char::from_u32(*code).unwrap()),
            Chunk::Float(bits) => out.push_str(ryu::Buffer::new().format(f64::from_bits(*bits))),
        }
    }
    out
}

fn chars(s: &str) -> Vec<char> {
    s.chars().collect()
}

fn string(heap: &mut Heap, s: &str) -> Value {
    heap.allocate(HeapObj::Str(chars(s)))
}

fn object(heap: &mut Heap, fields: Vec<(&str, Value)>) -> Value {
    let fs = fields.into_iter().map(|(k, v)| Field { key: chars(k), value: v }).collect();
    heap.allocate(HeapObj::Object(fs))
}

fn rows_of(text: &str, delimiter: u8, trim: bool) -> Result<Vec<Vec<String>>, CsvError> {
    let mut p = FastCsvParser::new(text.as_bytes(), delimiter, trim);
    let mut out = Vec::new();
    let mut row = Vec::new();
    while p.next_row_into(&mut row)? {
        out.push(row.iter().map(|c| String::from_utf8(c.clone()).unwrap()).collect());
    }
    Ok(out)
}

#[test]
fn csv_rows_and_quotes() {
    let rows = rows_of("a,b\r\n\"x,y\",\"say \"\"hi\"\"\"\n", b',', false).unwrap();
    assert_eq!(rows, vec![vec!["a", "b"], vec!["x,y", "say \"hi\""]]);
    let rows = rows_of("  a ;\tb\n", b';', true).unwrap();
    assert_eq!(rows, vec![vec!["a", "b"]]);
    let rows = rows_of("  a ;\tb\n", b';', false).unwrap();
    assert_eq!(rows, vec![vec!["  a ", "\tb"]]);
    assert_eq!(rows_of("\"open", b',', false), Err(CsvError::UnclosedQuote));
}

#[test]
fn csv_rejects_invalid_utf8_cells() {
    let bytes = [b'a', b',', 0xFF, b'\n'];
    let mut p = FastCsvParser::new(&bytes, b',', false);
    let mut row = Vec::new();
    assert_eq!(p.next_row_into(&mut row), Err(CsvError::InvalidUtf8));
    assert_eq!(row, vec![b"a".to_vec()]);
}

#[test]
fn csv_escaped_field_keeps_latin1_bytes_as_characters() {
    let bytes = [b'"', b'a', b'"', b'"', 0xE9, b'"', b'\n'];
    let rows = {
        let mut p = FastCsvParser::new(&bytes, b',', false);
        let mut row = Vec::new();
        assert_eq!(p.next_row_into(&mut row), Ok(true));
        row
    };
    assert_eq!(String::from_utf8(rows[0].clone()).unwrap(), "a\"é");
}

#[test]
fn csv_trim_and_cell_values() {
    assert_eq!(trim_bytes(b" \t x y \t"), b"x y");
    assert_eq!(trim_bytes(b"   "), b"");
    assert_eq!(parse_cell_value(b""), CellValue::Null);
    assert_eq!(parse_cell_value(b"null"), CellValue::Null);
    assert_eq!(parse_cell_value(b"true"), CellValue::Bool(true));
    assert_eq!(parse_cell_value(b"false"), CellValue::Bool(false));
    assert_eq!(parse_cell_value(b"-42"), CellValue::Int(-42));
    assert_eq!(parse_cell_value(b"9223372036854775807"), CellValue::Int(i64::MAX));
    assert_eq!(parse_cell_value(b"9223372036854775808"), CellValue::Text);
    assert_eq!(parse_cell_value(b"-9223372036854775808"), CellValue::Text);
    assert_eq!(parse_cell_value(b"1.5"), CellValue::Text);
    assert_eq!(parse_cell_value(b"-"), CellValue::Text);
    assert_eq!(parse_cell_value(b"True"), CellValue::Text);
}

#[test]
fn csv_written_cell_reads_back() {
    for s in ["plain", "with,comma", "with \"quote\"", "line\nbreak", "", "é,\""] {
        let mut out = Vec::new();
        write_csv_cell(&mut out, s.as_bytes(), b',');
        out.push(b'\n');
        let text = String::from_utf8(out).unwrap();
        assert_eq!(rows_of(&text, b',', false).unwrap(), vec![vec![s.to_string()]]);
    }
    let mut out = Vec::new();
    write_csv_cell(&mut out, b"a;b", b';');
    assert_eq!(out, b"\"a;b\"".to_vec());
}

#[test]
fn csv_int_text_reads_back_as_int() {
    for n in [0i64, 7, -7, 1234567890123, i64::MAX, i64::MIN + 1] {
        let mut t = Vec::new();
        write_int(n, &mut t);
        let s: String = t.iter().collect();
        assert_eq!(parse_cell_value(s.as_bytes()), CellValue::Int(n));
    }
}

#[test]
fn csv_table_with_header() {
    let text = "name,age\nann,30\n\nbob\ncy,4,extra\n";
    let t = parse_csv(text.as_bytes(), b',', true, false).unwrap();
    let header: Vec<String> = t.header.unwrap().iter().map(|c| String::from_utf8(c.clone()).unwrap()).collect();
    assert_eq!(header, vec!["name", "age"]);
    let rows: Vec<Vec<Option<String>>> = t
        .rows
        .iter()
        .map(|r| r.iter().map(|c| c.as_ref().map(|v| String::from_utf8(v.clone()).unwrap())).collect())
        .collect();
    assert_eq!(
        rows,
        vec![
            vec![Some("ann".to_string()), Some("30".to_string())],
            vec![Some("bob".to_string()), None],
            vec![Some("cy".to_string()), Some("4".to_string())],
        ]
    );
}

#[test]
fn csv_table_without_header_and_errors() {
    let t = parse_csv(b"1,2\n\n3\n", b',', false, false).unwrap();
    assert!(t.header.is_none());
    assert_eq!(t.rows.len(), 2);
    assert_eq!(t.rows[1].len(), 1);
    let empty = parse_csv(b"", b',', true, false).unwrap();
    assert!(empty.header.is_none());
    assert!(empty.rows.is_empty());
    assert!(matches!(parse_csv(b"a\n\"b", b',', false, false), Err(CsvError::UnclosedQuote)));
}

#[test]
fn csv_stringify_objects_and_rows() {
    let mut h = Heap::new();
    let name = string(&mut h, "a,b");
    let o1 = object(&mut h, vec![("n", name), ("x", Value::Int(1)), ("f", Value::Float(1.5f64.to_bits()))]);
    let o2 = object(&mut h, vec![("n", Value::Null), ("x", Value::Bool(true))]);
    let arr = h.allocate(HeapObj::Array(vec![o1, Value::Int(3), o2]));
    let out = stringify_csv(arr, &h, b',').unwrap();
    assert_eq!(render(&out), "n,x,f\n\"a,b\",1,1.5\n,true,\n");

    let r1 = h.allocate(HeapObj::Array(vec![Value::Int(1), Value::Float(f64::NAN.to_bits())]));
    let rows = h.allocate(HeapObj::Array(vec![r1, r1]));
    assert_eq!(render(&stringify_csv(rows, &h, b';').unwrap()), "1;\n1;\n");

    let empty = h.allocate(HeapObj::Array(vec![]));
    assert_eq!(render(&stringify_csv(empty, &h, b',').unwrap()), "");
    assert_eq!(stringify_csv(Value::Int(1), &h, b','), Err(CsvWriteError::NotRows));
    let s = string(&mut h, "x");
    assert_eq!(stringify_csv(s, &h, b','), Err(CsvWriteError::NotAnArray));
    let bad = h.allocate(HeapObj::Array(vec![Value::Int(1)]));
    assert_eq!(stringify_csv(bad, &h, b','), Err(CsvWriteError::ItemNotRow));
    let bad2 = h.allocate(HeapObj::Array(vec![s]));
    assert_eq!(stringify_csv(bad2, &h, b','), Err(CsvWriteError::UnsupportedRow));
    assert_eq!(write_cell_text(&chars("q\""), ','), chars("\"q\"\"\""));
}

#[test]
fn json_strings_and_values() {
    let mut out = Vec::new();
    write_json_str(&chars("a\"b\\c\nd\te\u{1}"), &mut out);
    let s: String = out.iter().collect();
    assert_eq!(s, "\"a\\\"b\\\\c\\nd\\te\\u0001\"");
    let mut out = Vec::new();
    write_json_str(&chars("\u{1f}\u{0}"), &mut out);
    assert_eq!(out.iter().collect::<String>(), "\"\\u001f\\u0000\"");

    let mut h = Heap::new();
    let name = string(&mut h, "x");
    let inner = h.allocate(HeapObj::Array(vec![Value::Int(-3), Value::Float(0.25f64.to_bits()), Value::Null]));
    let o = object(&mut h, vec![("k", name), ("v", inner), ("b", Value::Bool(false))]);
    assert_eq!(render(&json_stringify(o, &h)), "{\"k\":\"x\",\"v\":[-3,0.25,null],\"b\":false}");
    assert_eq!(render(&json_stringify(Value::Float(f64::INFINITY.to_bits()), &h)), "null");
    assert_eq!(render(&json_stringify(Value::Int(i64::MIN), &h)), "-9223372036854775808");
    let t = h.allocate(HeapObj::Tuple(vec![]));
    assert_eq!(render(&json_stringify(t, &h)), "null");
}

#[test]
fn string_intrinsics() {
    let s = chars("hello wörld");
    assert!(starts_with(&s, &chars("hell")));
    assert!(!starts_with(&s, &chars("world")));
    assert!(ends_with(&s, &chars("wörld")));
    assert!(starts_with(&s, &chars("")) && ends_with(&s, &chars("")));
    assert_eq!(char_index_of(&s, &chars("ö")), 7);
    assert_eq!(char_index_of(&s, &chars("l")), 2);
    assert_eq!(char_index_of(&s, &chars("")), 0);
    assert_eq!(char_index_of(&s, &chars("xyz")), -1);
    assert_eq!(char_index_of(&chars("ab"), &chars("abc")), -1);
    // startsWith holds exactly when indexOf is 0
    for p in ["he", "el", ""] {
        assert_eq!(starts_with(&s, &chars(p)), char_index_of(&s, &chars(p)) == 0);
    }
}

#[test]
fn intrinsic_methods_on_arrays_and_strings() {
    let mut h = Heap::new();
    let a = h.allocate(HeapObj::Array(vec![]));
    assert_eq!(intrinsic_method(a, Intrinsic::Push, &vec![Value::Int(4)], &mut h), Some(Value::Null));
    assert_eq!(intrinsic_method(a, Intrinsic::Pop, &vec![], &mut h), Some(Value::Int(4)));
    assert_eq!(intrinsic_method(a, Intrinsic::Pop, &vec![], &mut h), Some(Value::Null));
    assert_eq!(intrinsic_method(a, Intrinsic::StartsWith, &vec![a], &mut h), None);
    let s = string(&mut h, "banana");
    let p = string(&mut h, "na");
    assert_eq!(intrinsic_method(s, Intrinsic::IndexOf, &vec![p], &mut h), Some(Value::Int(2)));
    assert_eq!(intrinsic_method(s, Intrinsic::EndsWith, &vec![p], &mut h), Some(Value::Bool(true)));
    assert_eq!(intrinsic_method(s, Intrinsic::StartsWith, &vec![Value::Int(1)], &mut h), None);
    assert_eq!(intrinsic_method(s, Intrinsic::Push, &vec![p], &mut h), None);
}

#[test]
fn plain_strings_are_written_verbatim_in_json() {
    let mut out = Vec::new();
    write_json_str(&chars("plain text é"), &mut out);
    assert_eq!(out.iter().collect::<String>(), "\"plain text é\"");
}

#[test]
fn csv_written_document_reads_back() {
    let rows: Vec<Vec<&str>> = vec![
        vec!["name", "note"],
        vec!["a,b", "say \"hi\""],
        vec!["", "x"],
        vec!["multi\nline"],
    ];
    let mut out = Vec::new();
    for row in &rows {
        for (i, cell) in row.iter().enumerate() {
            if i > 0 {
                out.push(b',');
            }
            write_csv_cell(&mut out, cell.as_bytes(), b',');
        }
        out.push(b'\n');
    }
    let text = String::from_utf8(out).unwrap();
    let read = rows_of(&text, b',', false).unwrap();
    let expected: Vec<Vec<String>> = rows.iter().map(|r| r.iter().map(|c| c.to_string()).collect()).collect();
    assert_eq!(read, expected);
}

use varn_vm::modules::{canonical_id_str, ModuleId};

fn text(s: &str) -> Vec<char> {
    s.chars().collect()
}

#[test]
fn module_ids_carry_their_prefix_once() {
    assert_eq!(canonical_id_str(&ModuleId::Core(text("math"))), text("core:math"));
    assert_eq!(canonical_id_str(&ModuleId::Core(text("core:math"))), text("core:math"));
    assert_eq!(canonical_id_str(&ModuleId::Std(text("io"))), text("std:io"));
    assert_eq!(canonical_id_str(&ModuleId::Std(text("std:io"))), text("std:io"));
    assert_eq!(canonical_id_str(&ModuleId::Runtime(text("gc"))), text("runtime:gc"));
    assert_eq!(canonical_id_str(&ModuleId::Runtime(text("runtime"))), text("runtime:runtime"));
    assert_eq!(canonical_id_str(&ModuleId::Path(text("./a.vr"))), text("./a.vr"));
}

#[test]
fn tables_become_objects_or_arrays() {
    let mut h = Heap::new();
    let names = Some(vec![text("a"), text("b"), text("a")]);
    let rows = vec![vec![Value::Int(1), Value::Int(2), Value::Int(3)], vec![Value::Int(4)]];
    let v = table_value(&names, &rows, &mut h);
    assert_eq!(v, Value::Obj(2));
    match h.get(0) {
        Some(HeapObj::Object(fs)) => {
            let got: Vec<(String, Value)> = fs.iter().map(|f| (f.key.iter().collect(), f.value)).collect();
            assert_eq!(got, vec![("a".to_string(), Value::Int(3)), ("b".to_string(), Value::Int(2))]);
        }
        _ => panic!("no record"),
    }
    match h.get(1) {
        Some(HeapObj::Object(fs)) => assert_eq!(fs.len(), 1),
        _ => panic!("no record"),
    }
    assert!(matches!(h.get(2), Some(HeapObj::Array(a)) if a == &vec![Value::Obj(0), Value::Obj(1)]));
    let plain = table_value(&None, &rows, &mut h);
    assert_eq!(plain, Value::Obj(5));
    assert!(matches!(h.get(3), Some(HeapObj::Array(a)) if a == &rows[0]));
}
