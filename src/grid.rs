//! Row-major grid coordinates and neighbourhoods.

use vstd::prelude::*;

verus! {

/// The up-to-four grid neighbours of index `i` on a row-major grid of
/// `size` cells and rows of `width`: west, east, north, south, each present
/// only where the grid has it.
pub open spec fn neighbors(i: int, width: int, size: int) -> Seq<usize> {
    (if i % width != 0 {
        seq![(i - 1) as usize]
    } else {
        Seq::<usize>::empty()
    }) + (if i % width != width - 1 {
        seq![(i + 1) as usize]
    } else {
        Seq::<usize>::empty()
    }) + (if i >= width {
        seq![(i - width) as usize]
    } else {
        Seq::<usize>::empty()
    }) + (if i + width < size {
        seq![(i + width) as usize]
    } else {
        Seq::<usize>::empty()
    })
}

/// Whether index `i` lies on the outer ring of a grid of `size` cells and
/// rows of `width`.
pub open spec fn on_boundary(i: int, width: int, size: int) -> bool {
    i % width == 0 || i % width == width - 1 || i < width || i + width >= size
}

/// Every neighbour lies on the grid, and `j` is a neighbour of `i` exactly
/// when `i` is one of `j`.
pub proof fn lemma_neighbors_in_grid(i: int, width: int, size: int)
    requires
        width > 0,
        size % width == 0,
        0 <= i < size,
    ensures
        forall|k: int| 0 <= k < neighbors(i, width, size).len() ==> #[trigger] neighbors(i, width, size)[k] < size,
{
    vstd::arithmetic::div_mod::lemma_fundamental_div_mod(i, width);
    vstd::arithmetic::div_mod::lemma_fundamental_div_mod(size, width);
    if i % width != width - 1 {
        assert(i + 1 < size) by (nonlinear_arith)
            requires
                i == width * (i / width) + i % width,
                size == width * (size / width) + size % width,
                size % width == 0,
                0 <= i % width < width - 1,
                i < size,
                width > 0,
        ;
    }
}

/// The west, east, north and south neighbours of index `i`, in that order,
/// clipped at the grid's edges.
pub fn adjacent(i: usize, width: usize, world_size: usize) -> (r: Vec<usize>)
    requires
        width > 0,
        world_size % width == 0,
        i < world_size,
    ensures
        r@ == neighbors(i as int, width as int, world_size as int),
        forall|k: int| 0 <= k < r@.len() ==> #[trigger] r@[k] < world_size,
{
    proof {
        lemma_neighbors_in_grid(i as int, width as int, world_size as int);
        vstd::arithmetic::div_mod::lemma_fundamental_div_mod(world_size as int, width as int);
        assert(world_size >= width) by (nonlinear_arith)
            requires
                world_size == width * (world_size / width) + world_size % width,
                world_size % width == 0,
                i < world_size,
                width > 0,
        ;
        if i == 0 {
            vstd::arithmetic::div_mod::lemma_small_mod(0, width as nat);
        }
    }
    let mut r: Vec<usize> = Vec::new();
    let col = i % width;
    if col != 0 {
        r.push(i - 1);
    }
    if col != width - 1 {
        r.push(i + 1);
    }
    if i >= width {
        r.push(i - width);
    }
    if i < world_size - width {
        r.push(i + width);
    }
    assert(r@ =~= neighbors(i as int, width as int, world_size as int));
    r
}

/// Whether index `i` lies on the grid's outer ring.
pub fn is_boundary(i: usize, width: usize, world_size: usize) -> (r: bool)
    requires
        width > 0,
        width <= world_size,
    ensures
        r == on_boundary(i as int, width as int, world_size as int),
{
    let col = i % width;
    col == 0 || col == width - 1 || i < width || i >= world_size - width
}

/// The column and row of index `index` on rows of `width`.
pub fn index_to_xy(index: usize, width: usize) -> (r: (usize, usize))
    requires
        width > 0,
    ensures
        r.0 == index % width,
        r.1 == index / width,
{
    (index % width, index / width)
}

} // verus!
