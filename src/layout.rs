//! Layout of the random demonstration scene: a grid of small spheres, each
//! given one of three surface kinds by a random draw.
use vstd::prelude::*;

verus! {

/// The surface kind of a small sphere of the random scene.
#[derive(Clone, Copy, Debug, PartialEq, Eq, Structural)]
pub enum MaterialKind {
    Diffuse,
    Metal,
    Glass,
}

/// First grid coordinate of a small sphere, on both axes.
pub const GRID_START: i32 = -11;

/// Grid coordinates run up to, and not including, this value.
pub const GRID_END: i32 = 11;

/// Number of grid positions along one axis.
pub const GRID_SIDE: usize = 22;

/// A draw's uniform fraction has 53 bits: the top bits of a 64-bit draw.
pub const FRACTION_SHIFT: u64 = 11;

/// 0.8 as a 53-bit fraction: below it a sphere is diffuse.
pub const DIFFUSE_LIMIT: u64 = 7205759403792794;

/// 0.95 as a 53-bit fraction: below it (and not diffuse) a sphere is metal.
pub const METAL_LIMIT: u64 = 8556839292003942;

/// The 53-bit uniform fraction carried by a 64-bit draw.
pub open spec fn fraction_of(draw: u64) -> nat {
    draw as nat / 2048
}

/// The kind that a draw selects: diffuse with probability 0.8, metal with
/// 0.15, glass with the rest.
pub open spec fn kind_for(draw: u64) -> MaterialKind {
    if fraction_of(draw) < DIFFUSE_LIMIT {
        MaterialKind::Diffuse
    } else if fraction_of(draw) < METAL_LIMIT {
        MaterialKind::Metal
    } else {
        MaterialKind::Glass
    }
}

/// Chooses the surface kind of a small sphere from a uniform 64-bit draw.
pub fn choose_material(draw: u64) -> (r: MaterialKind)
    ensures
        r == kind_for(draw),
{
    let fraction: u64 = draw >> FRACTION_SHIFT;
    assert(fraction == draw / 2048) by (bit_vector)
        requires
            fraction == draw >> 11u64,
    ;
    if fraction < DIFFUSE_LIMIT {
        MaterialKind::Diffuse
    } else if fraction < METAL_LIMIT {
        MaterialKind::Metal
    } else {
        MaterialKind::Glass
    }
}

/// A small sphere of the random scene: its grid cell and its surface kind.
/// Its exact centre, colour and roughness are drawn where the sphere is built.
#[derive(Clone, Copy, Debug, PartialEq, Eq, Structural)]
pub struct Placement {
    pub a: i32,
    pub b: i32,
    pub kind: MaterialKind,
}

/// The grid cell of the `k`-th small sphere: cells are visited with `a`
/// outermost, each axis from `GRID_START` up to `GRID_END`.
pub open spec fn cell_of(k: int) -> (int, int) {
    (GRID_START + k / (GRID_SIDE as int), GRID_START + k % (GRID_SIDE as int))
}

/// Relies on rand::random::<u64>: one draw from the thread-local generator,
/// of which nothing is known.
#[verifier::external_body]
fn draw_u64() -> (r: u64) {
    rand::random::<u64>()
}

/// Lays out the small spheres of the random scene: one per grid cell, in
/// order, each with a kind chosen by its own random draw.
pub fn random_scene_layout() -> (r: Vec<Placement>)
    ensures
        r@.len() == GRID_SIDE * GRID_SIDE,
        forall|k: int|
            0 <= k < r@.len() ==> (#[trigger] r@[k]).a == cell_of(k).0 && r@[k].b == cell_of(
                k,
            ).1,
{
    let mut placements: Vec<Placement> = Vec::new();
    let mut a: i32 = GRID_START;
    while a < GRID_END
        invariant
            GRID_START <= a <= GRID_END,
            placements@.len() == (a - GRID_START) * GRID_SIDE,
            forall|k: int|
                0 <= k < placements@.len() ==> (#[trigger] placements@[k]).a == cell_of(k).0
                    && placements@[k].b == cell_of(k).1,
        decreases GRID_END - a,
    {
        let mut b: i32 = GRID_START;
        while b < GRID_END
            invariant
                GRID_START <= a < GRID_END,
                GRID_START <= b <= GRID_END,
                placements@.len() == (a - GRID_START) * GRID_SIDE + (b - GRID_START),
                forall|k: int|
                    0 <= k < placements@.len() ==> (#[trigger] placements@[k]).a == cell_of(k).0
                        && placements@[k].b == cell_of(k).1,
            decreases GRID_END - b,
        {
            let kind = choose_material(draw_u64());
            proof {
                let k = placements@.len() as int;
                let i = a - GRID_START;
                let j = b - GRID_START;
                assert(k == i * 22 + j);
                assert(k / 22 == i && k % 22 == j) by (nonlinear_arith)
                    requires
                        k == i * 22 + j,
                        0 <= j < 22,
                        0 <= i,
                ;
            }
            placements.push(Placement { a, b, kind });
            b = b + 1;
        }
        a = a + 1;
    }
    placements
}

} // verus!
