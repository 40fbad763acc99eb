//! Object registry: which semantic kind of object each spawned rigid body
//! is, keyed by the body's generational handle, plus the index-based lookup
//! that the public picking surface uses.

use vstd::prelude::*;

verus! {

/// Identity of a rigid body in the rigid-body engine: an arena slot index
/// plus a reuse-generation counter.
#[derive(Clone, Copy, Debug, PartialEq, Eq, Structural)]
pub struct BodyHandle {
    pub index: u32,
    pub generation: u32,
}

/// Semantic kind of a spawned rigid object. The floor is registered as a
/// cuboid: it shares the box render shape.
#[derive(Clone, Copy, Debug, PartialEq, Eq, Structural)]
pub enum ObjectKind {
    Cuboid,
    Sphere,
    Liquid,
}

/// Render tag of a kind: cuboids render as boxes (tag 0), spheres as tag 1,
/// liquid particles as tag 2.
pub open spec fn spec_kind_tag(kind: ObjectKind) -> u32 {
    match kind {
        ObjectKind::Cuboid => 0,
        ObjectKind::Sphere => 1,
        ObjectKind::Liquid => 2,
    }
}

/// One registry entry, created at spawn time and never removed.
#[derive(Clone, Copy, Debug, PartialEq, Eq, Structural)]
pub struct RegistryEntry {
    pub handle: BodyHandle,
    pub kind: ObjectKind,
}

/// Whether some entry carries the handle.
pub open spec fn contains_handle(s: Seq<RegistryEntry>, h: BodyHandle) -> bool {
    exists|i: int| 0 <= i < s.len() && (#[trigger] s[i]).handle == h
}

/// The kind recorded for a handle: the first entry that carries it.
pub open spec fn spec_kind_of(s: Seq<RegistryEntry>, h: BodyHandle) -> Option<ObjectKind>
    decreases s.len(),
{
    if s.len() == 0 {
        Option::None
    } else if s[0].handle == h {
        Option::Some(s[0].kind)
    } else {
        spec_kind_of(s.drop_first(), h)
    }
}

/// The render tag recorded for a handle; absent handles default to the box
/// tag.
pub open spec fn spec_tag_of(s: Seq<RegistryEntry>, h: BodyHandle) -> u32 {
    match spec_kind_of(s, h) {
        Option::Some(k) => spec_kind_tag(k),
        Option::None => 0,
    }
}

/// Restarting the first-match scan one entry later changes nothing when the
/// skipped entry does not carry the handle.
proof fn lemma_kind_of_skip(s: Seq<RegistryEntry>, h: BodyHandle, i: int)
    requires
        0 <= i < s.len(),
        s[i].handle != h,
    ensures
        spec_kind_of(s.skip(i), h) == spec_kind_of(s.skip(i + 1), h),
{
    assert(s.skip(i)[0] == s[i]);
    assert(s.skip(i).drop_first() =~= s.skip(i + 1));
}

/// A match at the scan frontier resolves the lookup.
proof fn lemma_kind_of_found(s: Seq<RegistryEntry>, h: BodyHandle, i: int)
    requires
        0 <= i < s.len(),
        s[i].handle == h,
    ensures
        spec_kind_of(s.skip(i), h) == Option::Some(s[i].kind),
{
    assert(s.skip(i)[0] == s[i]);
}

/// The registry: a mapping from rigid-body handle to object kind, populated
/// synchronously at spawn time. Entries are never removed and every live
/// handle has exactly one entry.
pub struct ObjectRegistry {
    pub entries: Vec<RegistryEntry>,
}

impl ObjectRegistry {
    /// Handles are registered at most once.
    pub open spec fn wf(self) -> bool {
        forall|i: int, j: int|
            0 <= i < j < self.entries@.len() ==> (#[trigger] self.entries@[i]).handle != (
            #[trigger] self.entries@[j]).handle
    }

    /// An empty registry.
    pub fn new() -> (r: ObjectRegistry)
        ensures
            r.entries@ == Seq::<RegistryEntry>::empty(),
            r.wf(),
    {
        ObjectRegistry { entries: Vec::new() }
    }

    /// Record the kind of a newly spawned body.
    pub fn register(&mut self, handle: BodyHandle, kind: ObjectKind)
        requires
            old(self).wf(),
            !contains_handle(old(self).entries@, handle),
        ensures
            final(self).entries@ == old(self).entries@.push(RegistryEntry { handle, kind }),
            final(self).wf(),
    {
        self.entries.push(RegistryEntry { handle, kind });
        proof {
            assert forall|i: int, j: int| 0 <= i < j < self.entries@.len() implies (
            #[trigger] self.entries@[i]).handle != (#[trigger] self.entries@[j]).handle by {
                if j == self.entries@.len() - 1 {
                    assert(old(self).entries@[i] == self.entries@[i]);
                }
            }
        }
    }

    /// The kind registered for a handle, if any.
    pub fn kind_of(&self, handle: BodyHandle) -> (r: Option<ObjectKind>)
        ensures
            r == spec_kind_of(self.entries@, handle),
    {
        let n = self.entries.len();
        let mut i: usize = 0;
        proof {
            assert(self.entries@.skip(0) =~= self.entries@);
        }
        while i < n
            invariant
                i <= n,
                n == self.entries@.len(),
                spec_kind_of(self.entries@, handle) == spec_kind_of(
                    self.entries@.skip(i as int),
                    handle,
                ),
            decreases n - i,
        {
            let e = self.entries[i];
            if e.handle.index == handle.index && e.handle.generation == handle.generation {
                proof {
                    lemma_kind_of_found(self.entries@, handle, i as int);
                }
                return Option::Some(e.kind);
            }
            proof {
                lemma_kind_of_skip(self.entries@, handle, i as int);
            }
            i = i + 1;
        }
        Option::None
    }

    /// The render tag for a handle; unregistered handles take the box tag.
    pub fn tag_of(&self, handle: BodyHandle) -> (t: u32)
        ensures
            t == spec_tag_of(self.entries@, handle),
    {
        match self.kind_of(handle) {
            Option::Some(ObjectKind::Cuboid) => 0,
            Option::Some(ObjectKind::Sphere) => 1,
            Option::Some(ObjectKind::Liquid) => 2,
            Option::None => 0,
        }
    }

    /// The handle of the first registered body whose slot index matches,
    /// generation ignored: this is how the index-only picking surface
    /// resolves an identifier back to a body.
    pub fn find_by_index(&self, index: u32) -> (r: Option<BodyHandle>)
        ensures
            match r {
                Option::Some(h) => {
                    &&& h.index == index
                    &&& exists|i: int|
                        0 <= i < self.entries@.len() && (#[trigger] self.entries@[i]).handle == h
                            && (forall|j: int|
                            0 <= j < i ==> (#[trigger] self.entries@[j]).handle.index != index)
                },
                Option::None => forall|i: int|
                    0 <= i < self.entries@.len() ==> (#[trigger] self.entries@[i]).handle.index
                        != index,
            },
    {
        let n = self.entries.len();
        let mut i: usize = 0;
        while i < n
            invariant
                i <= n,
                n == self.entries@.len(),
                forall|j: int|
                    0 <= j < i ==> (#[trigger] self.entries@[j]).handle.index != index,
            decreases n - i,
        {
            let e = self.entries[i];
            if e.handle.index == index {
                return Option::Some(e.handle);
            }
            i = i + 1;
        }
        Option::None
    }
}

} // verus!
