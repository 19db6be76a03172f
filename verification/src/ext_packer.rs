//! Trusted surface of the rectangle packer.
//!
//! An `etagere::BucketedAtlasAllocator` manages the free space of the square
//! atlas: it hands out non-overlapping rectangles and takes them back under a
//! serialized handle. Two names describe it: `packer_side`, the side of the
//! square it manages, and `packer_regions`, the live allocations as a map
//! from handle to claimed region `(x, y, width, height)`.

use vstd::prelude::*;

verus! {

#[verifier::external_type_specification]
#[verifier::external_body]
pub struct ExBucketedAtlasAllocator(etagere::BucketedAtlasAllocator);

/// The side of the square the packer manages.
pub uninterp spec fn packer_side(p: etagere::BucketedAtlasAllocator) -> int;

/// A claimed region: x, y, width, height.
pub type Region = (int, int, int, int);

/// The live allocations: handle to claimed region.
pub uninterp spec fn packer_regions(p: etagere::BucketedAtlasAllocator) -> Map<u32, Region>;

/// The empty map of live allocations.
pub open spec fn no_live_regions() -> Map<u32, Region> {
    Map::empty()
}

/// Two regions share no pixel.
pub open spec fn regions_disjoint(a: Region, b: Region) -> bool {
    ||| a.0 + a.2 <= b.0
    ||| b.0 + b.2 <= a.0
    ||| a.1 + a.3 <= b.1
    ||| b.1 + b.3 <= a.1
}

/// The region is nonempty and lies inside the square of side `side`.
pub open spec fn region_in_bounds(r: Region, side: int) -> bool {
    &&& 0 <= r.0
    &&& 0 <= r.1
    &&& 0 < r.2
    &&& 0 < r.3
    &&& r.0 + r.2 <= side
    &&& r.1 + r.3 <= side
}

/// Every pair of live regions is disjoint.
pub open spec fn regions_pairwise_disjoint(m: Map<u32, Region>) -> bool {
    forall|i: u32, j: u32|
        m.dom().contains(i) && m.dom().contains(j) && i != j ==> regions_disjoint(
            #[trigger] m[i],
            #[trigger] m[j],
        )
}

/// Relies on etagere::BucketedAtlasAllocator::new: a fresh allocator for a
/// square of the given side, with nothing allocated. The side must fit the
/// allocator's 16-bit shelf coordinates.
#[verifier::external_body]
pub(crate) fn packer_new(side: u32) -> (p: etagere::BucketedAtlasAllocator)
    requires
        0 < side < 65535,
    ensures
        packer_side(p) == side,
        packer_regions(p) == no_live_regions(),
{
    etagere::BucketedAtlasAllocator::new(etagere::size2(side as i32, side as i32))
}

/// Relies on etagere::BucketedAtlasAllocator::allocate: on success the
/// returned rectangle contains a width-by-height region inside the square,
/// starting at the rectangle's top-left corner, apart from every live
/// allocation, under a handle that was not live before. Failure, which
/// fragmentation may force even while free area remains, changes nothing.
#[verifier::external_body]
pub(crate) fn packer_allocate(
    p: &mut etagere::BucketedAtlasAllocator,
    width: u32,
    height: u32,
) -> (r: Option<(u32, u32, u32)>)
    ensures
        packer_side(*final(p)) == packer_side(*old(p)),
        r is None ==> packer_regions(*final(p)) == packer_regions(*old(p)),
        r matches Some((id, x, y)) ==> !packer_regions(*old(p)).contains_key(id)
            && region_in_bounds(
            (x as int, y as int, width as int, height as int),
            packer_side(*old(p)),
        ) && packer_regions(*final(p)) == packer_regions(*old(p)).insert(
            id,
            (x as int, y as int, width as int, height as int),
        ) && forall|other: u32| #[trigger]
            packer_regions(*old(p)).contains_key(other) ==> regions_disjoint(
                (x as int, y as int, width as int, height as int),
                packer_regions(*old(p))[other],
            ),
{
    let allocation = p.allocate(etagere::size2(width as i32, height as i32))?;
    Some(
        (
            allocation.id.serialize(),
            allocation.rectangle.min.x as u32,
            allocation.rectangle.min.y as u32,
        ),
    )
}

/// Relies on etagere::BucketedAtlasAllocator::deallocate: the handle's
/// allocation is released. The handle must be live; the allocator rejects
/// anything else.
#[verifier::external_body]
pub(crate) fn packer_deallocate(p: &mut etagere::BucketedAtlasAllocator, id: u32)
    requires
        packer_regions(*old(p)).contains_key(id),
    ensures
        packer_side(*final(p)) == packer_side(*old(p)),
        packer_regions(*final(p)) == packer_regions(*old(p)).remove(id),
{
    p.deallocate(etagere::AllocId::deserialize(id))
}

/// Relies on etagere::BucketedAtlasAllocator::grow: the managed square grows
/// to the new side without moving any placed allocation. The allocator
/// rejects a side below the current one or beyond its 16-bit coordinates.
#[verifier::external_body]
pub(crate) fn packer_grow(p: &mut etagere::BucketedAtlasAllocator, new_side: u32)
    requires
        packer_side(*old(p)) <= new_side < 65535,
    ensures
        packer_side(*final(p)) == new_side,
        packer_regions(*final(p)) == packer_regions(*old(p)),
{
    p.grow(etagere::size2(new_side as i32, new_side as i32))
}

} // verus!
