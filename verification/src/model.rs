//! The mathematical model of the persisted state.
//!
//! A store holds two finite maps: named text blobs, and screenshot files under
//! their composite names. Every facade operation is a pure transition on this
//! model; the executable store and the host's filesystem edge both answer to
//! these definitions.

use vstd::prelude::*;
use crate::b64::data_uri_of;

verus! {

/// The persisted state: text blobs by relative path, screenshot bytes by
/// composite file name.
pub struct StoreModel {
    pub blobs: Map<Seq<char>, Seq<char>>,
    pub shots: Map<Seq<char>, Seq<u8>>,
}

/// The state with nothing persisted.
pub open spec fn empty_model() -> StoreModel {
    StoreModel { blobs: Map::empty(), shots: Map::empty() }
}

/// The composite screenshot name: trade identifier, underscore, file name.
pub open spec fn composite_name_spec(trade_id: Seq<char>, filename: Seq<char>) -> Seq<char> {
    trade_id + seq!['_'] + filename
}

/// Saving a blob binds its path to the new content, overwriting any old one.
pub open spec fn save_data_model(m: StoreModel, path: Seq<char>, content: Seq<char>) -> StoreModel {
    StoreModel { blobs: m.blobs.insert(path, content), ..m }
}

/// Loading a blob reads it back verbatim; a path never saved reads as empty.
pub open spec fn load_data_model(m: StoreModel, path: Seq<char>) -> Seq<char> {
    if m.blobs.dom().contains(path) {
        m.blobs[path]
    } else {
        Seq::empty()
    }
}

/// Saving a screenshot binds its composite name to the bytes, overwriting any
/// old file of that name.
pub open spec fn save_screenshot_model(
    m: StoreModel,
    trade_id: Seq<char>,
    filename: Seq<char>,
    bytes: Seq<u8>,
) -> StoreModel {
    StoreModel { shots: m.shots.insert(composite_name_spec(trade_id, filename), bytes), ..m }
}

/// Loading a screenshot yields its inline-data string; an absent name is an
/// error, modelled as `None`.
pub open spec fn load_screenshot_model(m: StoreModel, filename: Seq<char>) -> Option<Seq<char>> {
    if m.shots.dom().contains(filename) {
        Some(data_uri_of(m.shots[filename]))
    } else {
        None
    }
}

/// Deleting a screenshot unbinds its name.
pub open spec fn delete_screenshot_model(m: StoreModel, filename: Seq<char>) -> StoreModel {
    StoreModel { shots: m.shots.remove(filename), ..m }
}

/// The total size in bytes of all screenshots.
pub open spec fn total_bytes(shots: Map<Seq<char>, Seq<u8>>) -> int {
    shots.kv_pairs().fold(0int, |acc: int, p: (Seq<char>, Seq<u8>)| acc + p.1.len())
}

/// The folded addition of byte lengths is insensitive to fold order.
proof fn lemma_len_adder_commutative()
    ensures
        vstd::set::fold::is_fun_commutative(|acc: int, p: (Seq<char>, Seq<u8>)| acc + p.1.len()),
{
}

/// The empty store holds zero screenshot bytes.
pub proof fn lemma_total_bytes_empty()
    ensures
        total_bytes(Map::empty()) == 0,
{
    let shots = Map::<Seq<char>, Seq<u8>>::empty();
    assert(shots.kv_pairs() =~= Set::<(Seq<char>, Seq<u8>)>::empty());
    lemma_len_adder_commutative();
    vstd::set::fold::lemma_fold_empty(0int, |acc: int, p: (Seq<char>, Seq<u8>)| acc + p.1.len());
}

/// Binding a fresh name adds exactly the new file's size to the total.
pub proof fn lemma_total_bytes_insert_fresh(
    shots: Map<Seq<char>, Seq<u8>>,
    name: Seq<char>,
    bytes: Seq<u8>,
)
    requires
        shots.kv_pairs().finite(),
        !shots.dom().contains(name),
    ensures
        total_bytes(shots.insert(name, bytes)) == total_bytes(shots) + bytes.len(),
        shots.insert(name, bytes).kv_pairs().finite(),
{
    let f = |acc: int, p: (Seq<char>, Seq<u8>)| acc + p.1.len();
    assert(shots.insert(name, bytes).kv_pairs() =~= shots.kv_pairs().insert((name, bytes)));
    lemma_len_adder_commutative();
    vstd::set::fold::lemma_fold_insert(shots.kv_pairs(), 0int, f, (name, bytes));
}

} // verus!
