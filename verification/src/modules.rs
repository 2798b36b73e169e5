//! Module identities: the canonical text of a module's id, by which loaded
//! modules are found again. A core, standard-library or runtime module's
//! text carries its namespace prefix exactly once.
use vstd::prelude::*;
use crate::strings::{occurs_at, starts_with};

verus! {

/// A module's id: a module of the core, the standard library or the
/// runtime, by name, or any other module by its path.
#[derive(Debug)]
pub enum ModuleId {
    Core(Vec<char>),
    Std(Vec<char>),
    Runtime(Vec<char>),
    Path(Vec<char>),
}

/// `s` with prefix `p`, unless it already begins with it.
pub open spec fn prefixed(p: Seq<char>, s: Seq<char>) -> Seq<char> {
    if occurs_at(s, p, 0) { s } else { p + s }
}

/// The prefixes of the three namespaces.
pub open spec fn core_prefix() -> Seq<char> {
    seq!['c', 'o', 'r', 'e', ':']
}

pub open spec fn std_prefix() -> Seq<char> {
    seq!['s', 't', 'd', ':']
}

pub open spec fn runtime_prefix() -> Seq<char> {
    seq!['r', 'u', 'n', 't', 'i', 'm', 'e', ':']
}

/// The canonical text of module id `id`.
pub open spec fn canonical_text(id: ModuleId) -> Seq<char> {
    match id {
        ModuleId::Core(s) => prefixed(core_prefix(), s@),
        ModuleId::Std(s) => prefixed(std_prefix(), s@),
        ModuleId::Runtime(s) => prefixed(runtime_prefix(), s@),
        ModuleId::Path(s) => s@,
    }
}

/// `s` with prefix `p` unless it begins with it.
fn with_prefix(p: &Vec<char>, s: &Vec<char>) -> (r: Vec<char>)
    ensures
        r@ == prefixed(p@, s@),
{
    if starts_with(s, p) {
        return crate::collections::copy_chars(s);
    }
    let mut r = crate::collections::copy_chars(p);
    let mut k: usize = 0;
    while k < s.len()
        invariant
            k <= s@.len(),
            r@ == p@ + s@.take(k as int),
        decreases s@.len() - k,
    {
        r.push(s[k]);
        k = k + 1;
        assert(r@ =~= p@ + s@.take(k as int));
    }
    assert(s@.take(s@.len() as int) =~= s@);
    r
}

/// The canonical text of module id `id`.
pub fn canonical_id_str(id: &ModuleId) -> (r: Vec<char>)
    ensures
        r@ == canonical_text(*id),
{
    match id {
        ModuleId::Core(s) => {
            let p = vec!['c', 'o', 'r', 'e', ':'];
            assert(p@ =~= core_prefix());
            with_prefix(&p, s)
        },
        ModuleId::Std(s) => {
            let p = vec!['s', 't', 'd', ':'];
            assert(p@ =~= std_prefix());
            with_prefix(&p, s)
        },
        ModuleId::Runtime(s) => {
            let p = vec!['r', 'u', 'n', 't', 'i', 'm', 'e', ':'];
            assert(p@ =~= runtime_prefix());
            with_prefix(&p, s)
        },
        ModuleId::Path(s) => crate::collections::copy_chars(s),
    }
}

/// Canonical text is canonical: a text already carrying its prefix is kept.
pub proof fn lemma_prefix_once(p: Seq<char>, s: Seq<char>)
    ensures
        prefixed(p, prefixed(p, s)) == prefixed(p, s),
{
    if !occurs_at(s, p, 0) {
        assert((p + s).subrange(0, p.len() as int) =~= p);
    }
}

} // verus!
