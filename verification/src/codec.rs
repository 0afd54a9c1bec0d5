//! The round-trippable sequence-of-strings encoding of a resolver.
//!
//! Encoding emits the symbol table in symbol order, the empty-string
//! sentinel at position `0` included. Decoding skips the sentinel position,
//! assigns symbols to the remaining entries in ascending encounter order
//! starting at `1`, and rejects any entry that repeats a value a symbol
//! already holds — an earlier entry, or the empty string, whose symbol is
//! the sentinel.

use vstd::prelude::*;
use vstd::string::StrSliceExecFns;
use crate::interner::{InternError, InternerBuilder, Resolver};
use crate::model::{
    decode_accepts, decode_duplicate, entry_bad, resolver_table, table_contains, tail_of,
};

verus! {

impl Resolver {
    /// The encoding of this resolver: its strings in symbol order, the
    /// sentinel first.
    pub fn encode(&self) -> (r: Vec<String>)
        requires
            self.wf(),
        ensures
            r.deep_view() == self@,
            r@.len() == self@.len(),
    {
        proof {
            self.lemma_wf_table();
        }
        let n = self.len();
        let mut out: Vec<String> = Vec::new();
        let mut k: usize = 0;
        while k < n
            invariant
                self.wf(),
                n == self@.len(),
                n <= u32::MAX + 1,
                k <= n,
                out@.len() == k,
                forall|j: int| 0 <= j < k ==> (#[trigger] out@[j])@ == self@[j],
            decreases n - k,
        {
            out.push(self.resolve(k as u32).to_owned());
            k = k + 1;
        }
        proof {
            assert(out.deep_view() =~= self@);
        }
        out
    }
}

/// Decodes an encoded sequence back into a resolver: position `0` is
/// skipped as the sentinel, and the remaining entries receive symbols `1`,
/// `2`, ... in order. Fails with [`InternError::DuplicateValue`] on the
/// first entry whose value a symbol already holds, and with
/// [`InternError::SymbolSpaceExhausted`] if the remainder outgrows the
/// 32-bit symbol space before any such entry.
pub fn decode(values: &Vec<String>) -> (r: Result<Resolver, InternError>)
    ensures
        r is Ok <==> decode_accepts(tail_of(values.deep_view())),
        r matches Ok(res) ==> res.wf() && res@ == resolver_table(tail_of(values.deep_view())),
        r matches Err(e) ==> (e == InternError::DuplicateValue <==> decode_duplicate(
            tail_of(values.deep_view()),
        )),
{
    let ghost vd = values.deep_view();
    let ghost tail = tail_of(vd);
    let mut b = InternerBuilder::new();
    let n = values.len();
    let mut idx: usize = 1;
    while idx < n
        invariant
            b.wf(),
            n == vd.len(),
            vd == values.deep_view(),
            tail == tail_of(vd),
            1 <= idx,
            idx - 1 <= tail.len(),
            n >= 1 ==> idx <= n,
            b@ == tail.take(idx - 1),
            forall|j: int| 0 <= j < idx - 1 ==> !#[trigger] entry_bad(tail, j),
        decreases n - idx,
    {
        let ghost i = idx - 1;
        let val = &values[idx];
        proof {
            assert(vd[idx as int] == val@);
            assert(tail[i] == val@);
            assert(b@.len() == i);
        }
        if val.as_str().unicode_len() == 0 {
            proof {
                assert(entry_bad(tail, i));
            }
            return Err(InternError::DuplicateValue);
        }
        match b.lookup(val.as_str()) {
            Some(k) => {
                proof {
                    assert(b@[k - 1] == val@);
                    assert(tail[k - 1] == tail[i]);
                    assert(entry_bad(tail, i));
                }
                return Err(InternError::DuplicateValue);
            },
            None => {},
        }
        let ghost bt = b@;
        match b.get_or_intern(val.as_str()) {
            Ok(_) => {
                proof {
                    assert(!table_contains(bt, val@));
                    assert forall|j: int| 0 <= j < i implies tail[j] != tail[i] by {
                        if tail[j] == tail[i] {
                            assert(bt[j] == val@);
                            assert(table_contains(bt, val@));
                        }
                    }
                    assert(!entry_bad(tail, i));
                    assert(b@ =~= tail.take(i + 1));
                }
            },
            Err(_) => {
                proof {
                    assert(!table_contains(bt, val@));
                    assert(i == u32::MAX);
                    assert forall|j: int| 0 <= j < i implies tail[j] != tail[i] by {
                        if tail[j] == tail[i] {
                            assert(bt[j] == val@);
                            assert(table_contains(bt, val@));
                        }
                    }
                    assert(!entry_bad(tail, i));
                    assert forall|j: int|
                        0 <= j < tail.len() && j <= u32::MAX implies !entry_bad(tail, j) by {
                        if j < i {
                            assert(!entry_bad(tail, j));
                        }
                    }
                }
                return Err(InternError::SymbolSpaceExhausted);
            },
        }
        idx = idx + 1;
    }
    proof {
        assert(b@ =~= tail);
    }
    Ok(b.build())
}

} // verus!
