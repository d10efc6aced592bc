//! Laws of a pass over declarations, whatever is declared.
use crate::model::{index_each, Outcome, SymbolTable};
use vstd::prelude::*;

verus! {

/// Once indexing has failed, the declarations that follow change nothing.
pub proof fn lemma_index_each_stops<D>(
    symbols: SymbolTable,
    decls: Seq<D>,
    step: spec_fn(SymbolTable, D) -> Outcome,
    n: int,
)
    requires
        0 <= n <= decls.len(),
        index_each(symbols, decls.take(n), step).result is Err,
    ensures
        index_each(symbols, decls, step) == index_each(symbols, decls.take(n), step),
    decreases decls.len() - n,
{
    if n < decls.len() {
        assert(decls.take(n + 1).drop_last() =~= decls.take(n));
        lemma_index_each_stops(symbols, decls, step, n + 1);
    } else {
        assert(decls.take(n) =~= decls);
    }
}

/// Indexing that fails has failed at one of the declarations, all before it
/// indexed: it ends as the indexing of that declaration ends, and what follows
/// the declaration changes nothing. The position of the declaration is
/// returned.
pub proof fn lemma_index_each_fails_at<D>(
    st: SymbolTable,
    decls: Seq<D>,
    step: spec_fn(SymbolTable, D) -> Outcome,
) -> (n: int)
    requires
        index_each(st, decls, step).result is Err,
    ensures
        0 <= n < decls.len(),
        index_each(st, decls.take(n), step).result is Ok,
        index_each(st, decls, step) == step(index_each(st, decls.take(n), step).symbols, decls[n]),
    decreases decls.len(),
{
    let init = decls.drop_last();
    if index_each(st, init, step).result is Err {
        let n = lemma_index_each_fails_at(st, init, step);
        assert(init.take(n) =~= decls.take(n));
        n
    } else {
        assert(decls.take(decls.len() - 1) =~= init);
        decls.len() - 1
    }
}

/// What holds before indexing and is kept by the indexing of each
/// declaration holds after indexing, whether it succeeds or fails.
pub proof fn lemma_index_each_keeps<D>(
    st: SymbolTable,
    decls: Seq<D>,
    step: spec_fn(SymbolTable, D) -> Outcome,
    kept: spec_fn(SymbolTable) -> bool,
)
    requires
        kept(st),
        forall|s: SymbolTable, d: D| kept(s) ==> kept(#[trigger] step(s, d).symbols),
    ensures
        kept(index_each(st, decls, step).symbols),
    decreases decls.len(),
{
    if decls.len() > 0 {
        lemma_index_each_keeps(st, decls.drop_last(), step, kept);
    }
}

} // verus!
