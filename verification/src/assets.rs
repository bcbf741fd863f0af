//! The immutable symbol-to-internal-index mapping supplied at session
//! start. Lookups are exact: a symbol resolves iff it was registered.

use vstd::prelude::*;
use crate::types::HandleError;

verus! {

/// One mapping entry: a venue symbol and the engine's internal index.
#[derive(Clone, Debug)]
pub struct Asset {
    pub symbol: String,
    pub asset_no: u64,
}

pub open spec fn has_symbol(s: Seq<Asset>, sym: Seq<char>) -> bool {
    exists|i: int| 0 <= i < s.len() && (#[trigger] s[i]).symbol@ == sym
}

pub open spec fn distinct_symbols(s: Seq<Asset>) -> bool {
    forall|i: int, j: int|
        0 <= i < j < s.len() ==> (#[trigger] s[i]).symbol@ != (#[trigger] s[j]).symbol@
}

/// The internal index registered for `sym`; meaningful when the symbol is
/// present and the mapping has no duplicates.
pub open spec fn asset_no_of(s: Seq<Asset>, sym: Seq<char>) -> u64 {
    let i = choose|i: int| 0 <= i < s.len() && (#[trigger] s[i]).symbol@ == sym;
    s[i].asset_no
}

/// In a duplicate-free mapping the registered index is the index of any
/// entry carrying the symbol.
pub proof fn lemma_asset_no_of(s: Seq<Asset>, sym: Seq<char>, i: int)
    requires
        distinct_symbols(s),
        0 <= i < s.len(),
        s[i].symbol@ == sym,
    ensures
        asset_no_of(s, sym) == s[i].asset_no,
{
    let j = choose|j: int| 0 <= j < s.len() && (#[trigger] s[j]).symbol@ == sym;
    if i < j {
        assert(s[i].symbol@ != s[j].symbol@);
    } else if j < i {
        assert(s[j].symbol@ != s[i].symbol@);
    }
}

/// The completed asset mapping; read-only during a session's lifetime.
pub struct AssetMap {
    entries: Vec<Asset>,
}

impl View for AssetMap {
    type V = Seq<Asset>;

    closed spec fn view(&self) -> Seq<Asset> {
        self.entries@
    }
}

impl AssetMap {
    /// No symbol is registered twice.
    pub open spec fn wf(self) -> bool {
        distinct_symbols(self@)
    }

    pub fn new() -> (r: AssetMap)
        ensures
            r.wf(),
            r@.len() == 0,
    {
        AssetMap { entries: Vec::new() }
    }

    pub fn len(&self) -> (r: usize)
        ensures
            r == self@.len(),
    {
        self.entries.len()
    }

    pub fn symbol_at(&self, i: usize) -> (r: &String)
        requires
            i < self@.len(),
        ensures
            r@ == self@[i as int].symbol@,
    {
        &self.entries[i].symbol
    }

    /// Registers one entry; fails, leaving the map unchanged, iff the
    /// symbol is already present.
    pub fn add(&mut self, asset: Asset) -> (r: Result<(), HandleError>)
        requires
            old(self).wf(),
        ensures
            final(self).wf(),
            match r {
                Ok(()) => !has_symbol(old(self)@, asset.symbol@) && final(self)@ == old(self)@.push(
                    asset,
                ),
                Err(e) => e == HandleError::DuplicateClientId && final(self)@ == old(self)@
                    && has_symbol(old(self)@, asset.symbol@),
            },
    {
        let mut i: usize = 0;
        while i < self.entries.len()
            invariant
                i <= self@.len(),
                self@ == old(self)@,
                old(self).wf(),
                forall|k: int| 0 <= k < i ==> (#[trigger] self@[k]).symbol@ != asset.symbol@,
            decreases self@.len() - i,
        {
            if self.entries[i].symbol == asset.symbol {
                return Err(HandleError::DuplicateClientId);
            }
            i = i + 1;
        }
        self.entries.push(asset);
        Ok(())
    }

    /// Resolves a venue symbol to its internal index: `Some` iff the
    /// symbol is registered, and then the registered index.
    pub fn lookup(&self, symbol: &String) -> (r: Option<u64>)
        ensures
            match r {
                Some(no) => exists|i: int|
                    0 <= i < self@.len() && (#[trigger] self@[i]).symbol@ == symbol@
                        && self@[i].asset_no == no,
                None => !has_symbol(self@, symbol@),
            },
    {
        let mut i: usize = 0;
        while i < self.entries.len()
            invariant
                i <= self@.len(),
                forall|k: int| 0 <= k < i ==> (#[trigger] self@[k]).symbol@ != symbol@,
            decreases self@.len() - i,
        {
            if self.entries[i].symbol == *symbol {
                return Some(self.entries[i].asset_no);
            }
            i = i + 1;
        }
        None
    }
}

} // verus!
