//! Parts of the execution of the Varn virtual machine: values and the heap,
//! integer arithmetic, comparisons, collection and object operations,
//! classes, properties and calls, `try` handlers and the frame loop's
//! decisions, the interpreter step, and the CSV and JSON text formats of its
//! standard library.
use vstd::prelude::*;

pub mod advanced;
pub mod control;
pub mod convert;
pub mod dispatch;
pub mod arith;
pub mod bigint;
pub mod calls;
pub mod classes;
pub mod collections;
pub mod compare;
pub mod csv;
pub mod csv_table;
pub mod csv_text;
pub mod decimal;
pub mod error;
pub mod handlers;
pub mod heap;
pub mod int_ops;
pub mod json;
pub mod methods;
pub mod modules;
pub mod objects;
pub mod prepare;
pub mod props;
pub mod run;
pub mod strings;
pub mod value;

verus! {

} // verus!
