//! The rate-feature codec table, set once from the engine's announcement,
//! and the mapping from 24-bit rate-feature masks to feature names.
use crate::error::{validation_error, RZError, RZErrorView};
use crate::protocol::Codecs;
use once_cell::sync::OnceCell;
use vstd::prelude::*;

verus! {

/// once_cell's `sync::OnceCell`, known to Verus as an opaque type: a cell
/// written at most once. What it holds is read through the names below.
#[verifier::external_type_specification]
#[verifier::external_body]
#[verifier::reject_recursive_types(T)]
pub struct ExOnceCell<T>(OnceCell<T>);

/// Name for whether a rate-feature cell holds a value.
pub uninterp spec fn feature_cell_is_set(cell: OnceCell<Vec<String>>) -> bool;

/// Name for the feature names a rate-feature cell holds once it is set.
pub uninterp spec fn feature_cell_names(cell: OnceCell<Vec<String>>) -> Seq<Seq<char>>;

/// once_cell's `OnceCell::new`: an empty cell.
#[verifier::external_body]
fn feature_cell_new() -> (c: OnceCell<Vec<String>>)
    ensures
        !feature_cell_is_set(c),
{
    OnceCell::new()
}

/// once_cell's `OnceCell::get`: the value when the cell is set, `None`
/// otherwise (no other thread can be initializing a cell behind `&`
/// obtained from exclusive ownership here).
#[verifier::external_body]
fn feature_cell_get(cell: &OnceCell<Vec<String>>) -> (r: Option<&Vec<String>>)
    ensures
        r is Some <==> feature_cell_is_set(*cell),
        r matches Some(v) ==> v.deep_view() == feature_cell_names(*cell),
{
    cell.get()
}

/// once_cell's `OnceCell::set`: stores the value into an empty cell;
/// a set cell is left as it was and the value handed back.
#[verifier::external_body]
fn feature_cell_set(cell: &mut OnceCell<Vec<String>>, value: Vec<String>) -> (r: Result<(), Vec<String>>)
    ensures
        feature_cell_is_set(*old(cell)) ==> r is Err && feature_cell_is_set(*final(cell))
            && feature_cell_names(*final(cell)) == feature_cell_names(*old(cell)),
        !feature_cell_is_set(*old(cell)) ==> r is Ok && feature_cell_is_set(*final(cell))
            && feature_cell_names(*final(cell)) == value.deep_view(),
{
    cell.set(value)
}

/// Holder of the rate-feature names announced by the engine.
pub struct CodecStore {
    rate_features: OnceCell<Vec<String>>,
}

impl View for CodecStore {
    type V = Option<Seq<Seq<char>>>;

    /// `None` until the names are set, then the names in bit order.
    closed spec fn view(&self) -> Option<Seq<Seq<char>>> {
        if feature_cell_is_set(self.rate_features) {
            Some(feature_cell_names(self.rate_features))
        } else {
            None
        }
    }
}

impl CodecStore {
    /// An empty store.
    pub fn new() -> (s: Self)
        ensures
            s@ is None,
    {
        CodecStore { rate_features: feature_cell_new() }
    }
}

/// The store after an attempt to set `names`: only the first setting sticks.
pub open spec fn store_after_set(store: Option<Seq<Seq<char>>>, names: Seq<Seq<char>>) -> Option<Seq<Seq<char>>> {
    match store {
        Some(s) => Some(s),
        None => Some(names),
    }
}

/// What `get_codecs` reads from a store: its names, or none at all.
pub open spec fn codecs_read(store: Option<Seq<Seq<char>>>) -> Seq<Seq<char>> {
    match store {
        Some(s) => s,
        None => Seq::empty(),
    }
}

/// The rate-feature names, or a validation error when they are not set yet.
pub fn get_rate_features(store: &CodecStore) -> (r: Result<&Vec<String>, RZError>)
    ensures
        match store@ {
            Some(names) => r matches Ok(v) && v.deep_view() == names,
            None => r matches Err(e) && e@ == RZErrorView::Validation("RATE_FEATURES not initialized"@),
        },
{
    match feature_cell_get(&store.rate_features) {
        Some(v) => Ok(v),
        None => Err(validation_error("RATE_FEATURES not initialized")),
    }
}

/// Copies a list of names.
fn clone_names(v: &Vec<String>) -> (r: Vec<String>)
    ensures
        r.deep_view() == v.deep_view(),
{
    let mut out: Vec<String> = Vec::new();
    let mut i: usize = 0;
    while i < v.len()
        invariant
            i <= v@.len(),
            out@.len() == i,
            forall|k: int| 0 <= k < i ==> #[trigger] out@[k]@ == v@[k]@,
        decreases v@.len() - i,
    {
        let name = v[i].clone();
        out.push(name);
        i = i + 1;
    }
    assert(out.deep_view() =~= v.deep_view());
    out
}

/// The codecs currently held: the rate-feature names, or none when unset.
pub fn get_codecs(store: &CodecStore) -> (r: Codecs)
    ensures
        r.rate_features.deep_view() == codecs_read(store@),
{
    match feature_cell_get(&store.rate_features) {
        Some(v) => Codecs { rate_features: clone_names(v) },
        None => {
            let empty: Vec<String> = Vec::new();
            assert(empty.deep_view() =~= Seq::<Seq<char>>::empty());
            Codecs { rate_features: empty }
        },
    }
}

/// Stores the announced codecs; fails when they were already set.
pub fn set_codecs(store: &mut CodecStore, codecs: Codecs) -> (r: Result<(), RZError>)
    ensures
        final(store)@ == store_after_set(old(store)@, codecs.rate_features.deep_view()),
        r is Ok <==> old(store)@ is None,
        r matches Err(e) ==> e@ == RZErrorView::Validation("Failed to set RATE_FEATURES"@),
{
    match feature_cell_set(&mut store.rate_features, codecs.rate_features) {
        Ok(()) => Ok(()),
        Err(_) => Err(validation_error("Failed to set RATE_FEATURES")),
    }
}

/// Reading back what was set: once codecs are stored into an empty store,
/// they are what the store yields, and no later setting replaces them.
pub proof fn law_codecs_set_once(first: Seq<Seq<char>>, later: Seq<Seq<char>>)
    ensures
        codecs_read(store_after_set(None, first)) == first,
        store_after_set(store_after_set(None, first), later) == store_after_set(None, first),
{
}

} // verus!
