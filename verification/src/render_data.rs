//! The flattened render-data view: one fixed-width record per rigid body,
//! then one per fluid particle. Each record is eight fixed-point scalars:
//! position (3), orientation quaternion (4), and a tag encoding the object
//! kind (the tag is stored scaled, like every other scalar in the buffer).

use vstd::prelude::*;
use crate::fixed::SCALE;
use crate::registry::{spec_tag_of, BodyHandle, ObjectRegistry};
use crate::vec3::Vec3;

verus! {

/// Scalars per render record.
pub const RECORD_WIDTH: usize = 8;

/// A unit quaternion, in fixed-point components.
#[derive(Clone, Copy, Debug, PartialEq, Eq, Structural)]
pub struct Quat {
    pub x: i64,
    pub y: i64,
    pub z: i64,
    pub w: i64,
}

/// Snapshot of one rigid body, as handed in by the owner of the rigid-body
/// engine each frame.
#[derive(Clone, Copy, Debug, PartialEq, Eq, Structural)]
pub struct BodyState {
    pub handle: BodyHandle,
    pub position: Vec3,
    pub rotation: Quat,
    pub dynamic: bool,
}

/// The record of one rigid body starts at `8 * i` and holds its position,
/// its rotation, and its registered tag (scaled).
pub open spec fn body_record_at(
    data: Seq<i64>,
    i: int,
    b: BodyState,
    reg: Seq<crate::registry::RegistryEntry>,
) -> bool {
    &&& data[8 * i] == b.position.x
    &&& data[8 * i + 1] == b.position.y
    &&& data[8 * i + 2] == b.position.z
    &&& data[8 * i + 3] == b.rotation.x
    &&& data[8 * i + 4] == b.rotation.y
    &&& data[8 * i + 5] == b.rotation.z
    &&& data[8 * i + 6] == b.rotation.w
    &&& data[8 * i + 7] == spec_tag_of(reg, b.handle) * SCALE
}

/// The record of one fluid particle holds its position, the identity
/// quaternion, and the liquid tag (scaled).
pub open spec fn fluid_record_at(data: Seq<i64>, i: int, p: Vec3) -> bool {
    &&& data[8 * i] == p.x
    &&& data[8 * i + 1] == p.y
    &&& data[8 * i + 2] == p.z
    &&& data[8 * i + 3] == 0
    &&& data[8 * i + 4] == 0
    &&& data[8 * i + 5] == 0
    &&& data[8 * i + 6] == SCALE
    &&& data[8 * i + 7] == 2 * SCALE
}

/// Flatten the current world into the render buffer: one record per rigid
/// body (tags looked up in the registry, absent handles defaulting to the
/// box tag), then one record per fluid particle.
pub fn get_render_data(reg: &ObjectRegistry, bodies: &Vec<BodyState>, fluid: &Vec<Vec3>) -> (data:
    Vec<i64>)
    ensures
        data@.len() == (bodies@.len() + fluid@.len()) * 8,
        forall|i: int|
            0 <= i < bodies@.len() ==> body_record_at(data@, i, #[trigger] bodies@[i], reg.entries@),
        forall|j: int|
            0 <= j < fluid@.len() ==> fluid_record_at(
                data@,
                bodies@.len() + j,
                #[trigger] fluid@[j],
            ),
{
    let mut data: Vec<i64> = Vec::new();
    let n = bodies.len();
    let mut i: usize = 0;
    while i < n
        invariant
            i <= n,
            n == bodies@.len(),
            data@.len() == 8 * i,
            forall|k: int|
                0 <= k < i ==> body_record_at(data@, k, #[trigger] bodies@[k], reg.entries@),
        decreases n - i,
    {
        let b = bodies[i];
        let tag = reg.tag_of(b.handle);
        assert(tag <= 2);
        data.push(b.position.x);
        data.push(b.position.y);
        data.push(b.position.z);
        data.push(b.rotation.x);
        data.push(b.rotation.y);
        data.push(b.rotation.z);
        data.push(b.rotation.w);
        data.push((tag as i64) * SCALE);
        i = i + 1;
    }
    let m = fluid.len();
    let mut j: usize = 0;
    while j < m
        invariant
            j <= m,
            m == fluid@.len(),
            n == bodies@.len(),
            data@.len() == 8 * n + 8 * j,
            forall|k: int|
                0 <= k < n ==> body_record_at(data@, k, #[trigger] bodies@[k], reg.entries@),
            forall|k: int|
                0 <= k < j ==> fluid_record_at(data@, n + k, #[trigger] fluid@[k]),
        decreases m - j,
    {
        let p = fluid[j];
        data.push(p.x);
        data.push(p.y);
        data.push(p.z);
        data.push(0);
        data.push(0);
        data.push(0);
        data.push(SCALE);
        data.push(2 * SCALE);
        j = j + 1;
    }
    data
}

/// The vertical position of the first dynamic rigid body, or zero when no
/// dynamic body exists.
pub fn get_first_object_y(bodies: &Vec<BodyState>) -> (y: i64)
    ensures
        ({
            ||| exists|i: int|
                0 <= i < bodies@.len() && (#[trigger] bodies@[i]).dynamic && y
                    == bodies@[i].position.y && (forall|j: int|
                    0 <= j < i ==> !(#[trigger] bodies@[j]).dynamic)
            ||| ((forall|i: int| 0 <= i < bodies@.len() ==> !(#[trigger] bodies@[i]).dynamic) && y
                == 0)
        }),
{
    let n = bodies.len();
    let mut i: usize = 0;
    while i < n
        invariant
            i <= n,
            n == bodies@.len(),
            forall|j: int| 0 <= j < i ==> !(#[trigger] bodies@[j]).dynamic,
        decreases n - i,
    {
        let b = bodies[i];
        if b.dynamic {
            return b.position.y;
        }
        i = i + 1;
    }
    0
}

} // verus!
