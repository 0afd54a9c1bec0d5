//! The laws of the interner, proved over the model that the executable
//! contracts speak of: `get_or_intern` is described by `intern_sym` /
//! `intern_next`, `build` by `resolver_table`, `encode` by the resolver's
//! table itself, and `decode` by `decode_accepts` / `decode_duplicate`.

use vstd::prelude::*;
use crate::interner::Resolver;
use crate::model::{
    decode_accepts, decode_duplicate, entry_bad, intern_next, intern_ok, intern_sym,
    resolver_table, resolver_table_wf, table_contains, table_index, table_wf, tail_of,
};

verus! {

/// Interning keeps the table well formed, and a non-empty string ends up
/// stored at the index its symbol points at.
pub proof fn lemma_intern_preserves_wf(t: Seq<Seq<char>>, s: Seq<char>)
    requires
        table_wf(t),
    ensures
        table_wf(intern_next(t, s)),
        s.len() > 0 && intern_ok(t, s) ==> {
            let t1 = intern_next(t, s);
            let k = intern_sym(t, s);
            &&& 1 <= k <= t1.len()
            &&& t1[k - 1] == s
        },
{
    let t1 = intern_next(t, s);
    if s.len() == 0 || table_contains(t, s) || t.len() >= u32::MAX {
        if s.len() > 0 && table_contains(t, s) {
            let i = table_index(t, s);
            assert(t[i] == s);
        }
    } else {
        assert forall|i: int, j: int| 0 <= i < j < t1.len() implies t1[i] != t1[j] by {
            if j < t.len() {
                assert(t[i] != t[j]);
            } else {
                assert(t1[j] == s);
                if t1[i] == s {
                    assert(table_contains(t, s));
                }
            }
        }
    }
}

/// Two distinct strings interned one after the other never share a symbol.
pub proof fn lemma_distinct_strings_distinct_symbols(t: Seq<Seq<char>>, s1: Seq<char>, s2: Seq<char>)
    requires
        table_wf(t),
        s1 != s2,
        intern_ok(t, s1),
        intern_ok(intern_next(t, s1), s2),
    ensures
        intern_sym(intern_next(t, s1), s2) != intern_sym(t, s1),
{
    let t1 = intern_next(t, s1);
    let k1 = intern_sym(t, s1);
    let k2 = intern_sym(t1, s2);
    lemma_intern_preserves_wf(t, s1);
    if s1.len() == 0 {
        assert(k1 == 0);
        assert(s2.len() > 0) by {
            if s2.len() == 0 {
                assert(s1 =~= s2);
            }
        }
        assert(k2 >= 1);
    } else if s2.len() == 0 {
        assert(k2 == 0 && k1 >= 1);
    } else {
        assert(t1[k1 - 1] == s1);
        if table_contains(t1, s2) {
            let i2 = table_index(t1, s2);
            assert(t1[i2] == s2);
            assert(i2 != k1 - 1);
            assert(k2 == i2 + 1);
        } else {
            assert(k2 == t1.len() + 1 && k1 <= t1.len());
        }
    }
}

/// Interning the same string twice returns the identical symbol and leaves
/// the table unchanged the second time.
pub proof fn lemma_intern_idempotent(t: Seq<Seq<char>>, s: Seq<char>)
    requires
        table_wf(t),
        intern_ok(t, s),
    ensures
        intern_ok(intern_next(t, s), s),
        intern_next(intern_next(t, s), s) == intern_next(t, s),
        intern_sym(intern_next(t, s), s) == intern_sym(t, s),
{
    let t1 = intern_next(t, s);
    lemma_intern_preserves_wf(t, s);
    if s.len() == 0 {
    } else if table_contains(t, s) {
        assert(t1 == t);
    } else {
        assert(t1 == t.push(s));
        assert(t1[t.len() as int] == s);
        assert(table_contains(t1, s));
        let i = table_index(t1, s);
        assert(t1[i] == s);
        assert(i == t.len()) by {
            if i < t.len() {
                assert(t[i] == s);
                assert(table_contains(t, s));
            }
        }
    }
}

/// Resolving the symbol a string was interned under, on the resolver frozen
/// afterwards, gives that string back exactly.
pub proof fn lemma_intern_resolve_round_trip(t: Seq<Seq<char>>, s: Seq<char>)
    requires
        table_wf(t),
        intern_ok(t, s),
    ensures
        0 <= intern_sym(t, s) < resolver_table(intern_next(t, s)).len(),
        resolver_table(intern_next(t, s))[intern_sym(t, s)] == s,
{
    let t1 = intern_next(t, s);
    let k = intern_sym(t, s);
    lemma_intern_preserves_wf(t, s);
    if s.len() == 0 {
        assert(resolver_table(t1)[0] == Seq::<char>::empty());
        assert(s =~= Seq::<char>::empty());
    } else {
        assert(t1[k - 1] == s);
        assert(resolver_table(t1)[k] == t1[k - 1]);
    }
}

/// Symbol `0` resolves to the empty string on every well-formed resolver,
/// the one frozen from an empty builder included.
pub proof fn lemma_resolver_sentinel(r: &Resolver)
    requires
        r.wf(),
    ensures
        r@.len() >= 1,
        r@[0] == Seq::<char>::empty(),
{
    r.lemma_wf_table();
}

/// A resolver's length is the number of distinct strings interned plus one
/// for the sentinel: the builder's table gains an entry exactly when a
/// fresh, non-empty string is interned within the symbol space, and
/// freezing prepends the sentinel alone.
pub proof fn lemma_len_counts_interned(t: Seq<Seq<char>>, s: Seq<char>)
    ensures
        resolver_table(t).len() == t.len() + 1,
        intern_next(t, s).len() == t.len() + (if s.len() > 0 && !table_contains(t, s)
            && t.len() < u32::MAX {
            1int
        } else {
            0int
        }),
{
}

/// Decoding the encoding of a well-formed resolver succeeds and rebuilds
/// the very same table: every symbol-to-string association survives the
/// round trip.
pub proof fn lemma_encode_decode_round_trip(t: Seq<Seq<char>>)
    requires
        resolver_table_wf(t),
    ensures
        decode_accepts(tail_of(t)),
        resolver_table(tail_of(t)) == t,
{
    let tail = tail_of(t);
    assert(tail == t.skip(1));
    assert forall|i: int| 0 <= i < tail.len() implies !#[trigger] entry_bad(tail, i) by {
        assert(tail[i] == t[i + 1]);
        assert(t[i + 1].len() > 0);
        assert forall|j: int| 0 <= j < i implies tail[j] != tail[i] by {
            assert(tail[j] == t[j + 1]);
        }
    }
    assert(resolver_table(tail) =~= t);
}

/// A sequence that repeats a non-sentinel value is rejected by decoding
/// with the duplicate-value error, so no resolver comes out of it.
pub proof fn lemma_duplicate_rejected(vals: Seq<Seq<char>>, i: int, j: int)
    requires
        1 <= i < j < vals.len(),
        vals[i] == vals[j],
        vals.len() <= u32::MAX + 1,
    ensures
        !decode_accepts(tail_of(vals)),
        decode_duplicate(tail_of(vals)),
{
    let tail = tail_of(vals);
    assert(tail == vals.skip(1));
    assert(tail[j - 1] == vals[j]);
    assert(tail[i - 1] == vals[i]);
    assert(entry_bad(tail, j - 1));
}

} // verus!
