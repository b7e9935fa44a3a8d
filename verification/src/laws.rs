//! The facade's laws, stated over the store model and proved once for all
//! states and inputs.

use vstd::prelude::*;
use crate::b64::base64_of;
use crate::model::StoreModel;
use crate::model::composite_name_spec;
use crate::model::delete_screenshot_model;
use crate::model::lemma_total_bytes_empty;
use crate::model::lemma_total_bytes_insert_fresh;
use crate::model::load_data_model;
use crate::model::load_screenshot_model;
use crate::model::save_data_model;
use crate::model::save_screenshot_model;
use crate::model::total_bytes;

verus! {

/// Saving a blob and then loading the same path yields exactly the saved
/// content.
pub proof fn lemma_save_then_load_data(m: StoreModel, path: Seq<char>, content: Seq<char>)
    ensures
        load_data_model(save_data_model(m, path, content), path) == content,
{
}

/// Loading a path never saved yields the empty string rather than an error.
pub proof fn lemma_load_data_unsaved(m: StoreModel, path: Seq<char>)
    requires
        !m.blobs.dom().contains(path),
    ensures
        load_data_model(m, path) == Seq::<char>::empty(),
{
}

/// Saving a screenshot stores it under the composite name, and loading that
/// name yields the inline-data header followed by the standard base64 of the
/// saved bytes.
pub proof fn lemma_save_then_load_screenshot(
    m: StoreModel,
    trade_id: Seq<char>,
    filename: Seq<char>,
    bytes: Seq<u8>,
)
    ensures
        load_screenshot_model(
            save_screenshot_model(m, trade_id, filename, bytes),
            composite_name_spec(trade_id, filename),
        ) == Some("data:image/*;base64,"@ + base64_of(bytes)),
{
}

/// After a screenshot is deleted, its name is no longer stored and loading
/// it fails.
pub proof fn lemma_delete_screenshot_removes(m: StoreModel, filename: Seq<char>)
    ensures
        !delete_screenshot_model(m, filename).shots.dom().contains(filename),
        load_screenshot_model(delete_screenshot_model(m, filename), filename) is None,
{
}

/// One screenshot save, as data for a batch of saves.
pub struct ShotOp {
    pub trade_id: Seq<char>,
    pub filename: Seq<char>,
    pub bytes: Seq<u8>,
}

/// The composite name a save stores its bytes under.
pub open spec fn shot_name(op: ShotOp) -> Seq<char> {
    composite_name_spec(op.trade_id, op.filename)
}

/// The composite names of a batch of saves, in order.
pub open spec fn shot_names(ops: Seq<ShotOp>) -> Seq<Seq<char>> {
    ops.map_values(|op: ShotOp| shot_name(op))
}

/// The state after a batch of screenshot saves, applied in order.
pub open spec fn save_all_screenshots(m: StoreModel, ops: Seq<ShotOp>) -> StoreModel
    decreases ops.len(),
{
    if ops.len() == 0 {
        m
    } else {
        let prev = save_all_screenshots(m, ops.drop_last());
        save_screenshot_model(prev, ops.last().trade_id, ops.last().filename, ops.last().bytes)
    }
}

/// The summed byte lengths of a batch of saves.
pub open spec fn total_op_bytes(ops: Seq<ShotOp>) -> int
    decreases ops.len(),
{
    if ops.len() == 0 {
        0
    } else {
        total_op_bytes(ops.drop_last()) + ops.last().bytes.len()
    }
}

/// Starting from a store with no screenshots, a batch of saves with
/// pairwise-distinct composite names stores exactly those names — one file
/// per save — whose sizes sum to exactly the bytes given; blobs are
/// untouched.
pub proof fn lemma_distinct_saves_list_and_stats(m: StoreModel, ops: Seq<ShotOp>)
    requires
        m.shots == Map::<Seq<char>, Seq<u8>>::empty(),
        shot_names(ops).no_duplicates(),
    ensures
        save_all_screenshots(m, ops).blobs == m.blobs,
        save_all_screenshots(m, ops).shots.dom() == shot_names(ops).to_set(),
        save_all_screenshots(m, ops).shots.dom().len() == ops.len(),
        total_bytes(save_all_screenshots(m, ops).shots) == total_op_bytes(ops),
        save_all_screenshots(m, ops).shots.dom().finite(),
        save_all_screenshots(m, ops).shots.kv_pairs().finite(),
    decreases ops.len(),
{
    if ops.len() == 0 {
        assert(shot_names(ops).to_set() =~= Set::<Seq<char>>::empty());
        assert(m.shots.kv_pairs() =~= Set::<(Seq<char>, Seq<u8>)>::empty());
        lemma_total_bytes_empty();
    } else {
        let prev_ops = ops.drop_last();
        let op = ops.last();
        let nm = shot_name(op);
        assert(shot_names(prev_ops) =~= shot_names(ops).drop_last());
        assert forall|i: int, j: int|
            0 <= i < shot_names(prev_ops).len() && 0 <= j < shot_names(prev_ops).len() && i
                != j implies shot_names(prev_ops)[i] != shot_names(prev_ops)[j] by {
            assert(shot_names(ops)[i] != shot_names(ops)[j]);
        }
        lemma_distinct_saves_list_and_stats(m, prev_ops);
        let prev = save_all_screenshots(m, prev_ops);
        assert(!prev.shots.dom().contains(nm)) by {
            if shot_names(prev_ops).to_set().contains(nm) {
                let i = choose|i: int|
                    0 <= i < shot_names(prev_ops).len() && shot_names(prev_ops)[i] == nm;
                assert(shot_names(ops)[i] == shot_names(ops)[ops.len() - 1]);
            }
        }
        lemma_total_bytes_insert_fresh(prev.shots, nm, op.bytes);
        assert(save_all_screenshots(m, ops).shots.dom() =~= shot_names(ops).to_set()) by {
            assert(shot_names(ops)[ops.len() - 1] == nm);
            assert forall|k: Seq<char>| shot_names(ops).to_set().contains(k) && k != nm implies
                shot_names(prev_ops).to_set().contains(k) by {
                let i = choose|i: int| 0 <= i < shot_names(ops).len() && shot_names(ops)[i] == k;
                assert(shot_names(prev_ops)[i] == k);
            }
        }
    }
}

} // verus!
