//! Shape identity and where the faces of a boolean result came from.
use vstd::prelude::*;

verus! {

/// The identity of a kernel shape (its `TShape` address), stable across
/// shallow copies.
#[derive(Debug, Clone, Copy, PartialEq, Eq, Hash, Structural)]
pub struct TShapeId(pub u64);

/// Whether `id` occurs in `ids`.
fn contains_id(ids: &Vec<u64>, id: u64) -> (r: bool)
    ensures
        r == ids@.contains(id),
{
    let n = ids.len();
    for i in 0..n
        invariant
            n == ids@.len(),
            forall|k: int| 0 <= k < i ==> ids@[k] != id,
    {
        if ids[i] == id {
            assert(ids@[i as int] == id);
            return true;
        }
    }
    false
}

/// Whether the face with identity `face_id` came from the tool (b-side) of
/// a boolean operation, given the operation's face metadata
/// `[shape-side ids, tool-side ids]`.
pub fn is_tool_face(metadata: &[Vec<u64>; 2], face_id: u64) -> (r: bool)
    ensures
        r == metadata[1]@.contains(face_id),
{
    contains_id(&metadata[1], face_id)
}

/// Whether the face with identity `face_id` came from the shape (a-side) of
/// a boolean operation, given the operation's face metadata.
pub fn is_shape_face(metadata: &[Vec<u64>; 2], face_id: u64) -> (r: bool)
    ensures
        r == metadata[0]@.contains(face_id),
{
    contains_id(&metadata[0], face_id)
}

} // verus!
