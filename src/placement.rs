//! Random choice of the cells that hide gophers.

use vstd::prelude::*;
use rand::Rng;
use rand::rngs::ThreadRng;

verus! {

#[verifier::external_type_specification]
#[verifier::external_body]
pub struct ExThreadRng(rand::rngs::ThreadRng);

/// Relies on rand::thread_rng: a handle on the generator of the calling
/// thread, seeded by the system.
pub assume_specification[ rand::thread_rng ]() -> rand::rngs::ThreadRng;

/// Relies on rand::Rng::gen_range: a value drawn from `0..n`, which panics
/// when that range is empty.
#[verifier::external_body]
fn draw_below(rng: &mut ThreadRng, n: usize) -> (r: usize)
    requires
        n > 0,
    ensures
        r < n,
{
    rng.gen_range(0..n)
}

/// The entries of `s` are pairwise distinct.
pub open spec fn distinct(s: Seq<(usize, usize)>) -> bool {
    forall|i: int, j: int| 0 <= i < s.len() && 0 <= j < s.len() && i != j ==> #[trigger] s[i] != #[trigger] s[j]
}

/// Every entry of `s` lies on a `width` by `height` field.
pub open spec fn within(s: Seq<(usize, usize)>, width: int, height: int) -> bool {
    forall|i: int| 0 <= i < s.len() ==> (#[trigger] s[i]).0 < width && s[i].1 < height
}

/// Every cell of a `width` by `height` field, row by row.
fn all_cells(width: usize, height: usize) -> (r: Vec<(usize, usize)>)
    requires
        width * height <= usize::MAX,
    ensures
        r@.len() == width * height,
        distinct(r@),
        within(r@, width as int, height as int),
{
    let mut cells: Vec<(usize, usize)> = Vec::with_capacity(width * height);
    let mut y: usize = 0;
    while y < height
        invariant
            width * height <= usize::MAX,
            y <= height,
            cells@.len() == y * width,
            distinct(cells@),
            within(cells@, width as int, height as int),
            forall|i: int| 0 <= i < cells@.len() ==> (#[trigger] cells@[i]).1 < y,
        decreases height - y,
    {
        let mut x: usize = 0;
        while x < width
            invariant
                width * height <= usize::MAX,
                y < height,
                x <= width,
                cells@.len() == y * width + x,
                distinct(cells@),
                within(cells@, width as int, height as int),
                forall|i: int|
                    0 <= i < cells@.len() ==> (#[trigger] cells@[i]).1 < y || (cells@[i].1 == y && cells@[i].0 < x),
            decreases width - x,
        {
            cells.push((x, y));
            x += 1;
        }
        proof {
            assert(y * width + width == (y + 1) * width) by (nonlinear_arith);
        }
        y += 1;
    }
    proof {
        assert(y * width == width * height) by (nonlinear_arith)
            requires
                y == height,
        ;
    }
    cells
}

/// Draws `count` distinct cells of a `width` by `height` field, each choice
/// uniform among the cells not drawn yet.
pub fn choose_gopher_cells(rng: &mut ThreadRng, width: usize, height: usize, count: usize) -> (r: Vec<(usize, usize)>)
    requires
        width * height <= usize::MAX,
        count <= width * height,
    ensures
        r@.len() == count,
        distinct(r@),
        within(r@, width as int, height as int),
{
    let mut free = all_cells(width, height);
    let mut chosen: Vec<(usize, usize)> = Vec::with_capacity(count);
    while chosen.len() < count
        invariant
            count <= width * height,
            chosen@.len() <= count,
            free@.len() + chosen@.len() == width * height,
            distinct(free@),
            distinct(chosen@),
            within(free@, width as int, height as int),
            within(chosen@, width as int, height as int),
            forall|i: int, j: int|
                0 <= i < free@.len() && 0 <= j < chosen@.len() ==> #[trigger] free@[i] != #[trigger] chosen@[j],
        decreases count - chosen@.len(),
    {
        let ghost f0 = free@;
        let ghost c0 = chosen@;
        let k = draw_below(rng, free.len());
        let cell = free.swap_remove(k);
        chosen.push(cell);
        proof {
            assert forall|i: int| 0 <= i < free@.len() implies #[trigger] free@[i] == (if i == k { f0[f0.len() - 1] } else { f0[i] }) by {}
            assert forall|i: int, j: int|
                0 <= i < free@.len() && 0 <= j < free@.len() && i != j implies #[trigger] free@[i] != #[trigger] free@[j] by {
                let a = if i == k { f0.len() - 1 } else { i };
                let b = if j == k { f0.len() - 1 } else { j };
                assert(free@[i] == f0[a] && free@[j] == f0[b]);
            }
            assert forall|i: int, j: int|
                0 <= i < free@.len() && 0 <= j < chosen@.len() implies #[trigger] free@[i] != #[trigger] chosen@[j] by {
                let a = if i == k { f0.len() - 1 } else { i };
                assert(free@[i] == f0[a]);
                if j < c0.len() {
                    assert(chosen@[j] == c0[j]);
                }
            }
            assert forall|i: int, j: int|
                0 <= i < chosen@.len() && 0 <= j < chosen@.len() && i != j implies #[trigger] chosen@[i] != #[trigger] chosen@[j] by {
                if i < c0.len() && j < c0.len() {
                    assert(chosen@[i] == c0[i] && chosen@[j] == c0[j]);
                } else if i < c0.len() {
                    assert(chosen@[i] == c0[i] && chosen@[j] == f0[k as int]);
                } else if j < c0.len() {
                    assert(chosen@[j] == c0[j] && chosen@[i] == f0[k as int]);
                }
            }
            assert forall|i: int| 0 <= i < free@.len() implies (#[trigger] free@[i]).0 < width && free@[i].1 < height by {
                let a = if i == k { f0.len() - 1 } else { i };
                assert(free@[i] == f0[a]);
            }
        }
    }
    chosen
}

} // verus!
