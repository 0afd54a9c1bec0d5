//! The two-phase interning engine.
//!
//! [`InternerBuilder`] is the mutable accumulation phase: it deduplicates
//! strings and assigns dense symbols starting at `1`; symbol `0` is reserved
//! for the empty string and never stored. [`InternerBuilder::build`] consumes
//! the builder and freezes its table into a [`Resolver`]: one contiguous
//! arena holding every interned string's characters back-to-back in symbol
//! order, indexed by a sequence of `(start, end)` spans, so that both lookup
//! directions work without touching the builder again.

use vstd::prelude::*;
use vstd::string::{StrSliceExecFns, StringExecFns};
use crate::model::{
    intern_next, intern_ok, intern_sym, resolver_table, resolver_table_wf, table_contains,
    table_index, table_wf,
};
use crate::text::str_eq;

verus! {

/// The error cases of the interner.
#[derive(Clone, Copy, Debug, PartialEq, Eq, Structural)]
pub enum InternError {
    /// A decoded sequence repeats a string value, or holds the empty string
    /// outside the sentinel position.
    DuplicateValue,
    /// Every symbol a 32-bit identifier can address is already taken.
    SymbolSpaceExhausted,
}

/// The mutable builder. It owns one copy of every distinct non-empty string
/// interned so far; the string stored at index `i` carries symbol `i + 1`.
pub struct InternerBuilder {
    strs: Vec<String>,
}

impl View for InternerBuilder {
    type V = Seq<Seq<char>>;

    closed spec fn view(&self) -> Seq<Seq<char>> {
        self.strs.deep_view()
    }
}

impl InternerBuilder {
    /// Whether the builder is well formed: its table is.
    pub open spec fn wf(&self) -> bool {
        table_wf(self@)
    }

    /// A fresh, empty builder; the first symbol it will issue is `1`.
    pub fn new() -> (r: InternerBuilder)
        ensures
            r.wf(),
            r@ == Seq::<Seq<char>>::empty(),
    {
        let b = InternerBuilder { strs: Vec::new() };
        proof {
            assert(b@ =~= Seq::<Seq<char>>::empty());
        }
        b
    }

    /// The symbol already assigned to `val`, if any. The empty string is not
    /// stored, so it is not found here; it always denotes symbol `0`.
    pub fn lookup(&self, val: &str) -> (r: Option<u32>)
        requires
            self.wf(),
        ensures
            match r {
                Some(k) => 1 <= k <= self@.len() && self@[k - 1] == val@,
                None => !table_contains(self@, val@),
            },
    {
        let n = self.strs.len();
        let mut i: usize = 0;
        while i < n
            invariant
                self.wf(),
                n == self@.len(),
                i <= n,
                forall|j: int| 0 <= j < i ==> self@[j] != val@,
            decreases n - i,
        {
            if str_eq(self.strs[i].as_str(), val) {
                return Some((i + 1) as u32);
            }
            i = i + 1;
        }
        None
    }

    /// Interns `val`: returns its existing symbol unchanged if it was seen
    /// before, returns `0` for the empty string, and otherwise stores one
    /// owned copy of `val` under the next fresh symbol. Fails only when the
    /// 32-bit symbol space is exhausted.
    pub fn get_or_intern(&mut self, val: &str) -> (r: Result<u32, InternError>)
        requires
            old(self).wf(),
        ensures
            final(self).wf(),
            final(self)@ == intern_next(old(self)@, val@),
            r is Ok <==> intern_ok(old(self)@, val@),
            r matches Ok(k) ==> k as int == intern_sym(old(self)@, val@),
            r matches Err(e) ==> e == InternError::SymbolSpaceExhausted
                && final(self)@ == old(self)@,
    {
        if val.unicode_len() == 0 {
            return Ok(0);
        }
        match self.lookup(val) {
            Some(k) => {
                proof {
                    let t = self@;
                    let i = table_index(t, val@);
                    assert(table_contains(t, val@)) by {
                        assert(t[k - 1] == val@);
                    }
                    assert(t[i] == val@);
                    assert(i == k - 1);
                }
                Ok(k)
            },
            None => {
                let n = self.strs.len();
                if n < u32::MAX as usize {
                    let ghost t = self@;
                    self.strs.push(val.to_owned());
                    proof {
                        assert(self@ =~= t.push(val@));
                    }
                    Ok((n + 1) as u32)
                } else {
                    Err(InternError::SymbolSpaceExhausted)
                }
            },
        }
    }

    /// Consumes the builder and freezes its table: packs every interned
    /// string's characters into one arena, back-to-back in ascending symbol
    /// order, and records each string's span, with the sentinel span at
    /// index `0`.
    pub fn build(self) -> (r: Resolver)
        requires
            self.wf(),
        ensures
            r.wf(),
            r@ == resolver_table(self@),
    {
        let mut arena = String::new();
        let mut spans: Vec<(usize, usize)> = Vec::new();
        spans.push((0, 0));
        let n = self.strs.len();
        let mut i: usize = 0;
        while i < n
            invariant
                self.wf(),
                n == self@.len(),
                i <= n,
                spans@.len() == i + 1,
                spans@[0].0 == 0 && spans@[0].1 == 0,
                forall|k: int| 0 <= k <= i ==> #[trigger] spans@[k].0 <= spans@[k].1 <= arena@.len(),
                forall|k: int| 0 <= k < i ==> #[trigger] spans@[k].1 == spans@[k + 1].0,
                spans@[i as int].1 == arena@.len(),
                forall|k: int|
                    1 <= k <= i ==> arena@.subrange(
                        #[trigger] spans@[k].0 as int,
                        spans@[k].1 as int,
                    ) == self@[k - 1],
            decreases n - i,
        {
            let ghost arena0 = arena@;
            let start = arena.as_str().unicode_len();
            arena.append(self.strs[i].as_str());
            let end = arena.as_str().unicode_len();
            spans.push((start, end));
            proof {
                let s = self@[i as int];
                assert(arena@ == arena0 + s);
                assert(arena@.subrange(start as int, end as int) =~= s);
                assert forall|k: int| 1 <= k <= i implies arena@.subrange(
                    #[trigger] spans@[k].0 as int,
                    spans@[k].1 as int,
                ) == self@[k - 1] by {
                    lemma_extend_keeps_subrange(arena0, s, spans@[k].0 as int, spans@[k].1 as int);
                }
            }
            i = i + 1;
        }
        let r = Resolver { arena, spans };
        proof {
            assert forall|k: int| 0 <= k < r@.len() implies r@[k] == resolver_table(self@)[k] by {
                assert(r@[k] == r.arena@.subrange(r.spans@[k].0 as int, r.spans@[k].1 as int));
                if k == 0 {
                    assert(r@[0] =~= Seq::<char>::empty());
                } else {
                    assert(resolver_table(self@)[k] == self@[k - 1]);
                }
            }
            assert(r@ =~= resolver_table(self@));
            crate::model::lemma_freeze_wf(self@);
        }
        r
    }
}

/// Keeps a span's contents unchanged when the arena is extended at its end.
proof fn lemma_extend_keeps_subrange(s1: Seq<char>, s2: Seq<char>, a: int, b: int)
    requires
        0 <= a <= b <= s1.len(),
    ensures
        (s1 + s2).subrange(a, b) == s1.subrange(a, b),
{
    assert((s1 + s2).subrange(a, b) =~= s1.subrange(a, b));
}

/// The immutable, frozen phase. The arena holds the characters of every
/// interned string back-to-back in symbol order; `spans[k]` delimits the
/// characters of the string that symbol `k` denotes, with `spans[0]` the
/// empty sentinel span.
pub struct Resolver {
    arena: String,
    spans: Vec<(usize, usize)>,
}

impl View for Resolver {
    type V = Seq<Seq<char>>;

    closed spec fn view(&self) -> Seq<Seq<char>> {
        Seq::new(
            self.spans@.len() as nat,
            |k: int| self.arena@.subrange(self.spans@[k].0 as int, self.spans@[k].1 as int),
        )
    }
}

impl Resolver {
    /// Whether the resolver is well formed: the spans partition a prefix of
    /// the arena back-to-back starting at the empty sentinel span, and the
    /// table they carve out satisfies the resolver invariants.
    pub closed spec fn wf(&self) -> bool {
        &&& self.spans@.len() >= 1
        &&& self.spans@[0].0 == 0 && self.spans@[0].1 == 0
        &&& forall|k: int|
            0 <= k < self.spans@.len() ==> #[trigger] self.spans@[k].0 <= self.spans@[k].1
                <= self.arena@.len()
        &&& forall|k: int|
            0 <= k < self.spans@.len() - 1 ==> #[trigger] self.spans@[k].1 == self.spans@[k + 1].0
        &&& self.spans@[self.spans@.len() - 1].1 == self.arena@.len()
        &&& resolver_table_wf(self@)
    }

    /// A well-formed resolver's table satisfies the table invariants: the
    /// sentinel resolves to the empty string, and the remaining entries are
    /// non-empty and pairwise distinct.
    pub proof fn lemma_wf_table(&self)
        requires
            self.wf(),
        ensures
            resolver_table_wf(self@),
    {
    }

    /// The number of valid symbols: the number of distinct interned strings
    /// plus one for the sentinel.
    pub fn len(&self) -> (r: usize)
        requires
            self.wf(),
        ensures
            r == self@.len(),
    {
        self.spans.len()
    }

    /// The string that `sym` denotes, as a view into the arena. The caller
    /// must hand a symbol of this resolver, that is one below `len()`; the
    /// bound is a precondition, not a run-time check.
    pub fn resolve<'a>(&'a self, sym: u32) -> (r: &'a str)
        requires
            self.wf(),
            sym < self@.len(),
        ensures
            r@ == self@[sym as int],
    {
        let (start, end) = self.spans[sym as usize];
        self.arena.as_str().substring_char(start, end)
    }

    /// The checked companion of [`Resolver::resolve`]: `None` exactly on
    /// symbols no string was assigned to.
    pub fn try_resolve<'a>(&'a self, sym: u32) -> (r: Option<&'a str>)
        requires
            self.wf(),
        ensures
            match r {
                Some(s) => sym < self@.len() && s@ == self@[sym as int],
                None => sym >= self@.len(),
            },
    {
        if (sym as usize) < self.spans.len() {
            Some(self.resolve(sym))
        } else {
            None
        }
    }

    /// Elementwise [`Resolver::resolve`]: input order and length are kept,
    /// under the same per-element precondition.
    pub fn resolve_many<'a>(&'a self, syms: &[u32]) -> (r: Vec<&'a str>)
        requires
            self.wf(),
            forall|i: int| 0 <= i < syms@.len() ==> (#[trigger] syms@[i]) < self@.len(),
        ensures
            r@.len() == syms@.len(),
            forall|i: int| 0 <= i < syms@.len() ==> (#[trigger] r@[i])@ == self@[syms@[i] as int],
    {
        let mut r: Vec<&str> = Vec::new();
        let n = syms.len();
        let mut i: usize = 0;
        while i < n
            invariant
                self.wf(),
                n == syms@.len(),
                i <= n,
                r@.len() == i,
                forall|k: int| 0 <= k < syms@.len() ==> (#[trigger] syms@[k]) < self@.len(),
                forall|j: int| 0 <= j < i ==> (#[trigger] r@[j])@ == self@[syms@[j] as int],
            decreases n - i,
        {
            r.push(self.resolve(syms[i]));
            i = i + 1;
        }
        r
    }

    /// The symbol assigned to `val` by the originating builder, if any. The
    /// sentinel is not an assignment: the empty string is not found here.
    pub fn get(&self, val: &str) -> (r: Option<u32>)
        requires
            self.wf(),
        ensures
            match r {
                Some(k) => 1 <= k < self@.len() && self@[k as int] == val@,
                None => forall|k: int| 1 <= k < self@.len() ==> self@[k] != val@,
            },
    {
        let n = self.spans.len();
        let mut k: usize = 1;
        while k < n
            invariant
                self.wf(),
                n == self@.len(),
                1 <= k <= n,
                forall|j: int| 1 <= j < k ==> self@[j] != val@,
            decreases n - k,
        {
            if str_eq(self.resolve(k as u32), val) {
                return Some(k as u32);
            }
            k = k + 1;
        }
        None
    }
}

} // verus!
