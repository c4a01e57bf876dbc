use crate::offset3::Offset3;
use vstd::prelude::*;

verus! {

/// One shell of the spiral search order: the representative offset of a
/// group of cells that lie equally far from a center cell, and the index of
/// the last shell that still has to be checked once a point was found in
/// this one.
#[derive(Debug, Clone, Copy, PartialEq, Eq, Structural)]
pub struct SpiralCell {
    pub offset: Offset3,
    pub stop_cell_index1: usize,
}

/// The number of ways to reorder three components and to flip their signs.
pub const VARIATION_COUNT: usize = 48;

/// A component with its sign kept or flipped; `None` where the flipped value
/// cannot be represented.
pub open spec fn flipped(v: i64, flip: bool) -> Option<i64> {
    if !flip {
        Some(v)
    } else if v == i64::MIN {
        None
    } else {
        Some((-v) as i64)
    }
}

/// The components of `offset` in one of their six orders.
pub open spec fn reordered(offset: Offset3, order: int) -> Offset3 {
    if order == 0 {
        offset
    } else if order == 1 {
        Offset3 { x: offset.x, y: offset.z, z: offset.y }
    } else if order == 2 {
        Offset3 { x: offset.y, y: offset.x, z: offset.z }
    } else if order == 3 {
        Offset3 { x: offset.y, y: offset.z, z: offset.x }
    } else if order == 4 {
        Offset3 { x: offset.z, y: offset.x, z: offset.y }
    } else {
        Offset3 { x: offset.z, y: offset.y, z: offset.x }
    }
}

/// The `k`-th symmetric image of `offset`, for `k` below `VARIATION_COUNT`:
/// `k / 8` picks the order of the components, and the three low bits of
/// `k % 8` say which of `x`, `y` and `z` change sign. `None` where the image
/// cannot be represented.
pub open spec fn variation(offset: Offset3, k: int) -> Option<Offset3> {
    let base = reordered(offset, k / 8);
    let signs = k % 8;
    let x = flipped(base.x, signs % 2 == 1);
    let y = flipped(base.y, (signs / 2) % 2 == 1);
    let z = flipped(base.z, signs / 4 == 1);
    if x is Some && y is Some && z is Some {
        Some(Offset3 { x: x->Some_0, y: y->Some_0, z: z->Some_0 })
    } else {
        None
    }
}

/// The distinct images among the first `k` symmetric images of `offset`, in
/// the order of their first occurrence.
pub open spec fn variations_upto(offset: Offset3, k: int) -> Seq<Offset3>
    decreases k,
{
    if k <= 0 {
        Seq::empty()
    } else {
        let earlier = variations_upto(offset, k - 1);
        match variation(offset, k - 1) {
            Some(image) => if earlier.contains(image) {
                earlier
            } else {
                earlier.push(image)
            },
            None => earlier,
        }
    }
}

/// All distinct symmetric images of `offset`: what its components give in
/// any order and with any signs.
pub open spec fn variations(offset: Offset3) -> Seq<Offset3> {
    variations_upto(offset, VARIATION_COUNT as int)
}

/// Keeps or flips the sign of a component.
fn flip(v: i64, negate: bool) -> (r: Option<i64>)
    ensures
        r == flipped(v, negate),
{
    if !negate {
        Some(v)
    } else if v == i64::MIN {
        None
    } else {
        Some(-v)
    }
}

/// Puts the components of `offset` in one of their six orders.
fn reorder(offset: Offset3, order: usize) -> (r: Offset3)
    ensures
        r == reordered(offset, order as int),
{
    if order == 0 {
        offset
    } else if order == 1 {
        Offset3::new(offset.x, offset.z, offset.y)
    } else if order == 2 {
        Offset3::new(offset.y, offset.x, offset.z)
    } else if order == 3 {
        Offset3::new(offset.y, offset.z, offset.x)
    } else if order == 4 {
        Offset3::new(offset.z, offset.x, offset.y)
    } else {
        Offset3::new(offset.z, offset.y, offset.x)
    }
}

/// Computes the `k`-th symmetric image of `offset`.
fn nth_variation(offset: Offset3, k: usize) -> (r: Option<Offset3>)
    requires
        k < VARIATION_COUNT,
    ensures
        r == variation(offset, k as int),
{
    let base = reorder(offset, k / 8);
    let signs: usize = k % 8;
    let x = flip(base.x, signs % 2 == 1);
    let y = flip(base.y, (signs / 2) % 2 == 1);
    let z = flip(base.z, signs / 4 == 1);
    match (x, y, z) {
        (Some(x), Some(y), Some(z)) => Some(Offset3::new(x, y, z)),
        _ => None,
    }
}

/// Whether `offsets` holds `offset`.
pub fn holds_offset(offsets: &Vec<Offset3>, offset: Offset3) -> (found: bool)
    ensures
        found == offsets@.contains(offset),
{
    let mut i: usize = 0;
    while i < offsets.len()
        invariant
            i <= offsets.len(),
            forall|j: int| 0 <= j < i ==> offsets@[j] != offset,
        decreases offsets.len() - i,
    {
        if offsets[i] == offset {
            return true;
        }
        i += 1;
    }
    false
}

/// Returns every distinct offset that the components of `offset` give when
/// they are reordered and their signs are flipped: the cells that lie as
/// `offset` does with respect to a center cell.
pub fn offset_variations(offset: Offset3) -> (images: Vec<Offset3>)
    ensures
        images@ == variations(offset),
{
    let mut images: Vec<Offset3> = Vec::new();
    let mut k: usize = 0;
    while k < VARIATION_COUNT
        invariant
            k <= VARIATION_COUNT,
            images@ == variations_upto(offset, k as int),
        decreases VARIATION_COUNT - k,
    {
        match nth_variation(offset, k) {
            Some(image) => {
                if !holds_offset(&images, image) {
                    images.push(image);
                }
            },
            None => {},
        }
        k += 1;
    }
    images
}

/// The variations of an offset are its symmetric images, each once.
pub proof fn lemma_variations_upto(offset: Offset3, k: int)
    requires
        0 <= k,
    ensures
        variations_upto(offset, k).no_duplicates(),
        variations_upto(offset, k).len() <= k,
        forall|image: Offset3| #[trigger]
            variations_upto(offset, k).contains(image) <==> exists|j: int|
                0 <= j < k && #[trigger] variation(offset, j) == Some(image),
    decreases k,
{
    if k > 0 {
        lemma_variations_upto(offset, k - 1);
        let earlier = variations_upto(offset, k - 1);
        let all = variations_upto(offset, k);
        assert forall|image: Offset3| #[trigger]
            all.contains(image) <==> exists|j: int|
                0 <= j < k && #[trigger] variation(offset, j) == Some(image) by {
            if all.contains(image) {
                if earlier.contains(image) {
                    let j = choose|j: int|
                        0 <= j < k - 1 && #[trigger] variation(offset, j) == Some(image);
                    assert(0 <= j < k && variation(offset, j) == Some(image));
                } else {
                    let i = choose|i: int| 0 <= i < all.len() && all[i] == image;
                    if i < earlier.len() {
                        assert(earlier[i] == image);
                    }
                    assert(variation(offset, k - 1) == Some(image));
                }
            }
            if exists|j: int| 0 <= j < k && #[trigger] variation(offset, j) == Some(image) {
                let j = choose|j: int| 0 <= j < k && #[trigger] variation(offset, j) == Some(image);
                if j < k - 1 {
                    assert(earlier.contains(image));
                    let i = choose|i: int| 0 <= i < earlier.len() && earlier[i] == image;
                    assert(all[i] == image);
                } else if !earlier.contains(image) {
                    assert(all[all.len() - 1] == image);
                } else {
                    let i = choose|i: int| 0 <= i < earlier.len() && earlier[i] == image;
                    assert(all[i] == image);
                }
            }
        }
    }
}

/// An offset is among its own variations.
pub proof fn lemma_variations_hold_offset(offset: Offset3)
    ensures
        variations(offset).contains(offset),
{
    lemma_variations_upto(offset, VARIATION_COUNT as int);
    assert(variation(offset, 0) == Some(offset));
}

} // verus!
