//! Options of the preprocessing of triangle mesh obstacles, and of the
//! voxelization of shapes.
use vstd::prelude::*;

verus! {

/// Flags controlling the preprocessing of a triangle mesh shape, as a set of
/// bits. Every bit of the byte belongs to a flag, so any byte is a valid set.
#[derive(Debug, Clone, Copy, PartialEq, Eq, Structural, Hash)]
pub struct TrimeshFlags(u8);

/// Controls how the voxelization decides which voxels are full.
#[derive(Debug, Clone, Copy, PartialEq, Eq, Structural, Hash)]
pub enum FillMode {
    /// Only the voxels that intersect the surface of the shape are full.
    SurfaceOnly,
    /// The voxels that intersect the surface are full, and so are those they enclose.
    FloodFill {
        /// Detect holes inside a solid contour.
        detect_cavities: bool,
        /// Try to handle self-intersections properly.
        detect_self_intersections: bool,
    },
}

impl TrimeshFlags {
    /// The bits of this set of flags.
    pub closed spec fn value(self) -> u8 {
        self.0
    }

    /// The half-edge topology of the mesh is computed, if possible.
    pub fn half_edge_topology() -> (r: TrimeshFlags)
        ensures
            r.value() == 1,
    {
        TrimeshFlags(1)
    }

    /// The half-edge topology and the connected components are computed, if possible.
    pub fn connected_components() -> (r: TrimeshFlags)
        ensures
            r.value() == 2,
    {
        TrimeshFlags(2)
    }

    /// Triangles that make the half-edge topology computation fail are deleted.
    pub fn delete_bad_topology_triangles() -> (r: TrimeshFlags)
        ensures
            r.value() == 4,
    {
        TrimeshFlags(4)
    }

    /// The mesh is taken as oriented, with outward normals.
    pub fn oriented() -> (r: TrimeshFlags)
        ensures
            r.value() == 8,
    {
        TrimeshFlags(8)
    }

    /// Vertices with the same coordinates are merged.
    pub fn merge_duplicate_vertices() -> (r: TrimeshFlags)
        ensures
            r.value() == 16,
    {
        TrimeshFlags(16)
    }

    /// Triangles with two identical vertex indices are removed.
    pub fn delete_degenerate_triangles() -> (r: TrimeshFlags)
        ensures
            r.value() == 32,
    {
        TrimeshFlags(32)
    }

    /// Triangles with the same three vertex indices as another are removed.
    pub fn delete_duplicate_triangles() -> (r: TrimeshFlags)
        ensures
            r.value() == 64,
    {
        TrimeshFlags(64)
    }

    /// Contacts with internal edges are fixed; this also orients the mesh and
    /// merges duplicate vertices.
    pub fn fix_internal_edges() -> (r: TrimeshFlags)
        ensures
            r.value() == 152,
    {
        TrimeshFlags(152)
    }

    /// The empty set of flags.
    pub fn empty() -> (r: TrimeshFlags)
        ensures
            r.value() == 0,
    {
        TrimeshFlags(0)
    }

    /// The set of all the flags: every bit.
    pub fn all() -> (r: TrimeshFlags)
        ensures
            r.value() == 0xff,
    {
        TrimeshFlags(0xff)
    }

    /// The bits of this set of flags.
    pub fn bits(&self) -> (r: u8)
        ensures
            r == self.value(),
    {
        self.0
    }

    /// The set of flags with the given bits; every bit belongs to a flag, so
    /// this never fails.
    pub fn from_bits(bits: u8) -> (r: Option<TrimeshFlags>)
        ensures
            r matches Some(f) && f.value() == bits,
    {
        Some(TrimeshFlags(bits))
    }

    /// The set of flags with the given bits, the bits of no flag dropped (there are none).
    pub fn from_bits_truncate(bits: u8) -> (r: TrimeshFlags)
        ensures
            r.value() == bits & 0xff,
            r.value() == bits,
    {
        assert(bits & 0xff == bits) by (bit_vector);
        TrimeshFlags(bits & 0xff)
    }

    /// The set of flags with the given bits, as they are.
    pub fn from_bits_retain(bits: u8) -> (r: TrimeshFlags)
        ensures
            r.value() == bits,
    {
        TrimeshFlags(bits)
    }

    /// No flag is set.
    pub fn is_empty(&self) -> (r: bool)
        ensures
            r == (self.value() == 0),
    {
        self.0 == 0
    }

    /// Every flag is set.
    pub fn is_all(&self) -> (r: bool)
        ensures
            r == (self.value() == 0xff),
    {
        self.0 == 0xff
    }

    /// Some flag is set in both.
    pub fn intersects(&self, other: TrimeshFlags) -> (r: bool)
        ensures
            r == (self.value() & other.value() != 0),
    {
        self.0 & other.0 != 0
    }

    /// Every flag of `other` is set in `self`.
    pub fn contains(&self, other: TrimeshFlags) -> (r: bool)
        ensures
            r == (self.value() & other.value() == other.value()),
    {
        self.0 & other.0 == other.0
    }

    /// The flags set in either.
    pub fn union(self, other: TrimeshFlags) -> (r: TrimeshFlags)
        ensures
            r.value() == self.value() | other.value(),
    {
        TrimeshFlags(self.0 | other.0)
    }

    /// The flags set in both.
    pub fn intersection(self, other: TrimeshFlags) -> (r: TrimeshFlags)
        ensures
            r.value() == self.value() & other.value(),
    {
        TrimeshFlags(self.0 & other.0)
    }

    /// The flags set in `self` and not in `other`.
    pub fn difference(self, other: TrimeshFlags) -> (r: TrimeshFlags)
        ensures
            r.value() == self.value() & !other.value(),
    {
        TrimeshFlags(self.0 & !other.0)
    }

    /// The flags set in exactly one of the two.
    pub fn symmetric_difference(self, other: TrimeshFlags) -> (r: TrimeshFlags)
        ensures
            r.value() == self.value() ^ other.value(),
    {
        TrimeshFlags(self.0 ^ other.0)
    }

    /// The flags not set in `self`.
    pub fn complement(self) -> (r: TrimeshFlags)
        ensures
            r.value() == !self.value(),
    {
        TrimeshFlags(!self.0)
    }

    /// Sets the flags of `other`.
    pub fn insert(&mut self, other: TrimeshFlags)
        ensures
            final(self).value() == old(self).value() | other.value(),
    {
        self.0 = self.0 | other.0;
    }

    /// Clears the flags of `other`.
    pub fn remove(&mut self, other: TrimeshFlags)
        ensures
            final(self).value() == old(self).value() & !other.value(),
    {
        self.0 = self.0 & !other.0;
    }

    /// Flips the flags of `other`.
    pub fn toggle(&mut self, other: TrimeshFlags)
        ensures
            final(self).value() == old(self).value() ^ other.value(),
    {
        self.0 = self.0 ^ other.0;
    }

    /// Sets the flags of `other` when `value` holds, and clears them otherwise.
    pub fn set(&mut self, other: TrimeshFlags, value: bool)
        ensures
            final(self).value() == if value {
                old(self).value() | other.value()
            } else {
                old(self).value() & !other.value()
            },
    {
        if value {
            self.insert(other);
        } else {
            self.remove(other);
        }
    }

    /// A set of flags is its bits: two sets with the same bits are the same.
    pub proof fn same_bits_same_flags(f: TrimeshFlags, g: TrimeshFlags)
        requires
            f.value() == g.value(),
        ensures
            f == g,
    {
    }

    /// After inserting the flags of `g` into `f`, the set contains `g` and
    /// everything `f` held.
    pub proof fn insert_then_contains(f: TrimeshFlags, g: TrimeshFlags)
        ensures
            (f.value() | g.value()) & g.value() == g.value(),
            (f.value() | g.value()) & f.value() == f.value(),
    {
        let a = f.value();
        let b = g.value();
        assert((a | b) & b == b) by (bit_vector);
        assert((a | b) & a == a) by (bit_vector);
    }

    /// After removing the flags of `g` from `f`, no flag of `g` is left, and
    /// the other flags of `f` are kept.
    pub proof fn remove_then_disjoint(f: TrimeshFlags, g: TrimeshFlags)
        ensures
            (f.value() & !g.value()) & g.value() == 0,
            (f.value() & !g.value()) | (f.value() & g.value()) == f.value(),
    {
        let a = f.value();
        let b = g.value();
        assert((a & !b) & b == 0) by (bit_vector);
        assert((a & !b) | (a & b) == a) by (bit_vector);
    }

    /// Union and intersection do not depend on the order of their operands,
    /// the complement of the complement is the set itself, and the symmetric
    /// difference is the union without the intersection.
    pub proof fn set_algebra(f: TrimeshFlags, g: TrimeshFlags)
        ensures
            f.value() | g.value() == g.value() | f.value(),
            f.value() & g.value() == g.value() & f.value(),
            !(!f.value()) == f.value(),
            f.value() ^ g.value() == (f.value() | g.value()) & !(f.value() & g.value()),
    {
        let a = f.value();
        let b = g.value();
        assert(a | b == b | a) by (bit_vector);
        assert(a & b == b & a) by (bit_vector);
        assert(!(!a) == a) by (bit_vector);
        assert(a ^ b == (a | b) & !(a & b)) by (bit_vector);
    }

    /// A set that contains the flag that fixes internal edges also orients the
    /// mesh and merges duplicate vertices.
    pub proof fn fix_internal_edges_implies(f: TrimeshFlags)
        requires
            f.value() & 152 == 152,
        ensures
            f.value() & 8 == 8,
            f.value() & 16 == 16,
    {
        let a = f.value();
        assert(a & 152 == 152 ==> a & 8 == 8) by (bit_vector);
        assert(a & 152 == 152 ==> a & 16 == 16) by (bit_vector);
    }
}

} // verus!
