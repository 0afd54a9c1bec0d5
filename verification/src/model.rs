//! The mathematical model of the interner.
//!
//! A builder is modelled as the sequence of distinct, non-empty strings it
//! has interned so far, in symbol order: the string at index `i` carries
//! symbol `i + 1`. A resolver is modelled as the full symbol table: the same
//! sequence with the empty-string sentinel prepended at index `0`, so that
//! the string at index `k` is exactly what symbol `k` resolves to.

use vstd::prelude::*;

verus! {

/// Well-formedness of a builder's table: every entry is non-empty (the empty
/// string is never stored, it is always denoted by the reserved symbol `0`),
/// no two entries are equal, and the symbol space is not exceeded.
pub open spec fn table_wf(t: Seq<Seq<char>>) -> bool {
    &&& t.len() <= u32::MAX
    &&& forall|i: int| 0 <= i < t.len() ==> #[trigger] t[i].len() > 0
    &&& forall|i: int, j: int| 0 <= i < j < t.len() ==> t[i] != t[j]
}

/// Whether `s` occurs in the table `t`.
pub open spec fn table_contains(t: Seq<Seq<char>>, s: Seq<char>) -> bool {
    exists|i: int| 0 <= i < t.len() && t[i] == s
}

/// The index at which `s` occurs in `t`; meaningful only when
/// `table_contains(t, s)`, and unique when `t` has no duplicates.
pub open spec fn table_index(t: Seq<Seq<char>>, s: Seq<char>) -> int {
    choose|i: int| 0 <= i < t.len() && t[i] == s
}

/// Whether interning `s` into the builder table `t` succeeds: it always does
/// unless `s` is a fresh non-empty string and the symbol space is exhausted.
pub open spec fn intern_ok(t: Seq<Seq<char>>, s: Seq<char>) -> bool {
    s.len() == 0 || table_contains(t, s) || t.len() < u32::MAX
}

/// The symbol that interning `s` into the builder table `t` yields (when
/// `intern_ok(t, s)`): `0` for the empty string, the existing symbol for a
/// string already present, and the next fresh symbol otherwise.
pub open spec fn intern_sym(t: Seq<Seq<char>>, s: Seq<char>) -> int {
    if s.len() == 0 {
        0
    } else if table_contains(t, s) {
        table_index(t, s) + 1
    } else {
        t.len() as int + 1
    }
}

/// The builder table after interning `s` into `t`: unchanged unless `s` is a
/// fresh non-empty string and a symbol is available, in which case `s` is
/// appended.
pub open spec fn intern_next(t: Seq<Seq<char>>, s: Seq<char>) -> Seq<Seq<char>> {
    if s.len() == 0 || table_contains(t, s) || t.len() >= u32::MAX {
        t
    } else {
        t.push(s)
    }
}

/// The resolver table frozen from the builder table `t`: the empty-string
/// sentinel at index `0`, followed by the interned strings in symbol order.
pub open spec fn resolver_table(t: Seq<Seq<char>>) -> Seq<Seq<char>> {
    seq![Seq::<char>::empty()] + t
}

/// Well-formedness of a resolver's table: the sentinel at index `0` is the
/// empty string, and the remaining entries are non-empty and pairwise
/// distinct, so each string content belongs to exactly one symbol.
pub open spec fn resolver_table_wf(t: Seq<Seq<char>>) -> bool {
    &&& 1 <= t.len() <= u32::MAX + 1
    &&& t[0] == Seq::<char>::empty()
    &&& forall|k: int| 1 <= k < t.len() ==> #[trigger] t[k].len() > 0
    &&& forall|i: int, j: int| 1 <= i < j < t.len() ==> t[i] != t[j]
}

/// Freezing a well-formed builder table yields a well-formed resolver
/// table.
pub proof fn lemma_freeze_wf(t: Seq<Seq<char>>)
    requires
        table_wf(t),
    ensures
        resolver_table_wf(resolver_table(t)),
{
    let r = resolver_table(t);
    assert(r[0] == Seq::<char>::empty());
    assert forall|k: int| 1 <= k < r.len() implies #[trigger] r[k].len() > 0 by {
        assert(r[k] == t[k - 1]);
    }
    assert forall|i: int, j: int| 1 <= i < j < r.len() implies r[i] != r[j] by {
        assert(r[i] == t[i - 1]);
        assert(r[j] == t[j - 1]);
    }
}

/// The remainder of an encoded sequence once the sentinel position is
/// skipped.
pub open spec fn tail_of(v: Seq<Seq<char>>) -> Seq<Seq<char>> {
    if v.len() == 0 {
        v
    } else {
        v.skip(1)
    }
}

/// Whether the remainder entry at index `i` is rejected by decoding: it
/// repeats an earlier entry, or it is the empty string, whose symbol is
/// already taken by the sentinel.
pub open spec fn entry_bad(tail: Seq<Seq<char>>, i: int) -> bool {
    tail[i].len() == 0 || exists|j: int| 0 <= j < i && tail[j] == tail[i]
}

/// Whether decoding accepts a remainder as a whole: no entry is rejected and
/// the symbol space suffices.
pub open spec fn decode_accepts(tail: Seq<Seq<char>>) -> bool {
    &&& tail.len() <= u32::MAX
    &&& forall|i: int| 0 <= i < tail.len() ==> !#[trigger] entry_bad(tail, i)
}

/// Whether decoding a remainder fails on a duplicated value: some entry
/// within the reachable symbol range is rejected. (Beyond that range the
/// symbol space runs out first.)
pub open spec fn decode_duplicate(tail: Seq<Seq<char>>) -> bool {
    exists|i: int| 0 <= i < tail.len() && i <= u32::MAX && #[trigger] entry_bad(tail, i)
}

} // verus!
