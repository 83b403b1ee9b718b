//! Validation of decoded gamedata before the runtime starts: the room
//! order must open with a room that is present, and every spawned
//! instance's object index must resolve to a present object definition.
//! Presence is handed in as one flag per asset slot.

use vstd::prelude::*;

verus! {

/// The room the game opens with: the first entry of the room order, when
/// it names a present room.
pub open spec fn spec_first_room(order: Seq<u32>, present: Seq<bool>) -> Option<u32> {
    if order.len() > 0 && (order[0] as int) < present.len() && present[order[0] as int] {
        Some(order[0])
    } else {
        None
    }
}

/// Every listed object index is in range and names a present object.
pub open spec fn spec_objects_resolve(ids: Seq<i32>, present: Seq<bool>) -> bool {
    forall|k: int|
        0 <= k < ids.len() ==> 0 <= #[trigger] ids[k] && (ids[k] as int) < present.len()
            && present[ids[k] as int]
}

/// The index of the room the game opens with, or `None` when the room
/// order is empty or its first entry names no present room — a fatal
/// gamedata defect for the caller to report.
pub fn first_room(room_order: &Vec<u32>, rooms_present: &Vec<bool>) -> (r: Option<u32>)
    ensures
        r == spec_first_room(room_order@, rooms_present@),
{
    if room_order.len() == 0 {
        return None;
    }
    let idx = room_order[0];
    if (idx as usize) < rooms_present.len() && rooms_present[idx as usize] {
        Some(idx)
    } else {
        None
    }
}

/// Whether every listed object index resolves; an instance whose object is
/// absent cannot be spawned.
#[verifier::loop_isolation(false)]
pub fn objects_resolve(object_indices: &Vec<i32>, objects_present: &Vec<bool>) -> (r: bool)
    ensures
        r == spec_objects_resolve(object_indices@, objects_present@),
{
    let mut k: usize = 0;
    while k < object_indices.len()
        invariant
            0 <= k <= object_indices@.len(),
            forall|j: int|
                0 <= j < k ==> 0 <= #[trigger] object_indices@[j] && (object_indices@[j] as int)
                    < objects_present@.len() && objects_present@[object_indices@[j] as int],
        decreases object_indices@.len() - k,
    {
        let id = object_indices[k];
        if id < 0 {
            return false;
        }
        if (id as usize) >= objects_present.len() {
            return false;
        }
        if !objects_present[id as usize] {
            return false;
        }
        k += 1;
    }
    true
}

} // verus!
