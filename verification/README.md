# varn-vm

Parts of the execution of the Varn virtual machine, written in Verus: its
values and heap, arithmetic and comparisons, collection and object
operations, classes and properties, calls and method calls, `try` handlers
and the frame loop's decisions, one interpreter step, and the CSV and JSON
formats of its standard library. Every function under `src/`
carries a contract; Verus proves all of them except the few marked
`#[verifier::external_body]`, which call `num-bigint`, `bigdecimal` and
`std::str::from_utf8` and whose contracts state what those crates do.

## Layout

- `src/value.rs`, `src/heap.rs`: machine values and the heap of compound
  objects (strings, arrays, tuples, objects, records, maps, ranges, enum
  values, bigints, decimals, classes, instances, closures, host functions,
  bound methods), with the heap's well-formedness.
- `src/int_ops.rs`, `src/arith.rs`, `src/bigint.rs`, `src/decimal.rs`:
  checked 64-bit integer arithmetic, the arithmetic opcodes' rules,
  arbitrary-precision integers through `num-bigint`, and exact decimals
  through `bigdecimal`.
- `src/compare.rs`: equality and ordering of values.
- `src/collections.rs`, `src/advanced.rs`, `src/objects.rs`: indexing,
  array and object operations, type tests, the `in` operator, object
  literals and the rest pattern.
- `src/classes.rs`, `src/calls.rs`, `src/prepare.rs`: class definition and
  inheritance, the argument handling of calls, and what calling each kind
  of value prepares.
- `src/props.rs`: reading and writing named properties, through the class
  chain for instances and classes.
- `src/methods.rs`: calls of values and method calls, with the call depth
  limit, the arguments a host function receives and the delivery of its
  result.
- `src/modules.rs`: the canonical text of module ids.
- `src/handlers.rs`, `src/run.rs`: `try` handlers, the delivery of errors to
  them, and what the frame loop does on each event of a run.
- `src/convert.rs`: explicit numeric conversions.
- `src/strings.rs`: the string and array methods that calls dispatch
  directly.
- `src/control.rs`, `src/dispatch.rs`: jumps, the counting of loop back
  edges, instruction decoding and one step of the interpreter.
- `src/csv.rs`, `src/csv_table.rs`, `src/csv_text.rs`, `src/json.rs`: the
  CSV reader and writer, the building of a parsed table's value, and the
  JSON writer of the standard library.
- `app/`: the parts that need floats or a parser crate: float rendering,
  JSON parsing into heap values, float arithmetic, error messages, and the
  loop that feeds the frame loop's decisions.
- `tests/`: tests of the library on concrete values.

Floating-point results are not computed in the library: where an opcode
works on floats it reports `VmError::Deferred`, and `app/` finishes float
arithmetic, comparisons and the joining of a string with a float. A decimal
division, and decimals whose scale lies beyond ±2^30, are reported as
`Deferred` too; `app/` does not finish them and reports the operands as
unsupported.
