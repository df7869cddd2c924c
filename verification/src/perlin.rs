//! The Perlin noise contract: it remembers the terrain height of every point it
//! has been asked to compute.

use crate::account::AccountId;
use crate::store::{column_map, lemma_column_map_at, lemma_column_map_push, lemma_column_map_update};
use crate::terrain::{compute_perlin_scaled, perlin_height};
use vstd::prelude::*;

verus! {

/// The error a Perlin noise message can report.
#[derive(PartialEq, Eq, Debug, Clone, Copy)]
pub enum ContractError {
    Error,
}

/// The height stored for the point `(x, y)`: the terrain height, kept as the
/// bits of the `i128` read as a `u128`.
pub open spec fn stored_height(x: u32, y: u32, seed: u32, scale: u32) -> u128 {
    perlin_height(x, y, seed, scale) as i128 as u128
}

/// The stored heights once the height of `(x, y)` is computed for `seed` and
/// `scale`: that point's height is replaced, every other one kept.
pub open spec fn with_height(noise: Map<(u32, u32), u128>, x: u32, y: u32, seed: u32, scale: u32) -> Map<
    (u32, u32),
    u128,
> {
    noise.insert((x, y), stored_height(x, y, seed, scale))
}

/// Whether a coordinate is one of the three of the grid of radius one about the
/// origin: `-1` (which, as a `u32`, wraps to `u32::MAX`), `0` or `1`.
pub open spec fn unit_coordinate(c: u32) -> bool {
    c == u32::MAX || c == 0 || c == 1
}

/// The heights that `new` computes ahead: those of the nine points of the grid
/// of radius one about the origin.
pub open spec fn precomputed_noise(seed: u32, scale: u32) -> Map<(u32, u32), u128> {
    Map::new(
        |k: (u32, u32)| unit_coordinate(k.0) && unit_coordinate(k.1),
        |k: (u32, u32)| stored_height(k.0, k.1, seed, scale),
    )
}

/// Stored heights, keyed by point: a column of distinct points and a column of
/// the heights stored for them.
struct NoiseStore {
    points: Vec<(u32, u32)>,
    heights: Vec<u128>,
}

impl NoiseStore {
    spec fn wf(&self) -> bool {
        &&& self.points@.no_duplicates()
        &&& self.points@.len() == self.heights@.len()
    }

    spec fn map(&self) -> Map<(u32, u32), u128> {
        column_map(self.points@, self.heights@)
    }

    fn new() -> (s: NoiseStore)
        ensures
            s.wf(),
            s.map() =~= Map::empty(),
    {
        NoiseStore { points: Vec::new(), heights: Vec::new() }
    }

    /// The position of `(x, y)` in the column of points, if it is there.
    fn find(&self, x: u32, y: u32) -> (r: Option<usize>)
        requires
            self.wf(),
        ensures
            match r {
                Some(i) => i < self.points@.len() && self.points@[i as int] == (x, y),
                None => !self.points@.contains((x, y)),
            },
    {
        let mut i: usize = 0;
        while i < self.points.len()
            invariant
                i <= self.points@.len(),
                forall|k: int| 0 <= k < i ==> self.points@[k] != (x, y),
            decreases self.points@.len() - i,
        {
            let p = self.points[i];
            if p.0 == x && p.1 == y {
                return Some(i);
            }
            i = i + 1;
        }
        None
    }

    fn get(&self, x: u32, y: u32) -> (r: Option<u128>)
        requires
            self.wf(),
        ensures
            r == (if self.map().contains_key((x, y)) {
                Some(self.map()[(x, y)])
            } else {
                None::<u128>
            }),
    {
        match self.find(x, y) {
            Some(i) => {
                proof {
                    lemma_column_map_at(self.points@, self.heights@, i as int);
                }
                Some(self.heights[i])
            },
            None => None,
        }
    }

    fn insert(&mut self, x: u32, y: u32, h: u128)
        requires
            old(self).wf(),
        ensures
            final(self).wf(),
            final(self).map() =~= old(self).map().insert((x, y), h),
    {
        match self.find(x, y) {
            Some(i) => {
                proof {
                    lemma_column_map_update(self.points@, self.heights@, i as int, h);
                }
                self.heights.set(i, h);
            },
            None => {
                proof {
                    lemma_column_map_push(self.points@, self.heights@, (x, y), h);
                }
                self.points.push((x, y));
                self.heights.push(h);
            },
        }
    }
}

/// The Perlin noise contract: a seed and a base cell size that fix the terrain,
/// the owner's account, and the heights computed so far.
pub struct PerlinNoise {
    seed: u32,
    scale: u32,
    owner: AccountId,
    noise: NoiseStore,
}

impl PerlinNoise {
    #[verifier::type_invariant]
    spec fn store_wf(self) -> bool {
        self.noise.wf()
    }

    /// The seed of the terrain.
    pub closed spec fn world_seed(self) -> u32 {
        self.seed
    }

    /// The size of the finest grid cell.
    pub closed spec fn cell_scale(self) -> u32 {
        self.scale
    }

    /// The account that owns the contract.
    pub closed spec fn owner_id(self) -> AccountId {
        self.owner
    }

    /// The heights computed so far, by point.
    pub closed spec fn noise_map(self) -> Map<(u32, u32), u128> {
        self.noise.map()
    }

    /// Stores the height of `(x, y)` for this contract's seed and scale.
    fn store_height(&mut self, x: u32, y: u32)
        ensures
            final(self).world_seed() == old(self).world_seed(),
            final(self).cell_scale() == old(self).cell_scale(),
            final(self).owner_id() == old(self).owner_id(),
            final(self).noise_map() == with_height(
                old(self).noise_map(),
                x,
                y,
                old(self).world_seed(),
                old(self).cell_scale(),
            ),
    {
        proof {
            use_type_invariant(&*self);
        }
        let perlin_scaled_shifted = compute_perlin_scaled(x, y, self.seed, self.scale);
        let mut store = NoiseStore::new();
        std::mem::swap(&mut store, &mut self.noise);
        store.insert(x, y, perlin_scaled_shifted as u128);
        self.noise = store;
    }

    /// A new contract for `owner`, whose terrain is fixed by `seed` and `scale`,
    /// with the heights of the nine points of the grid of radius one about the
    /// origin computed ahead.
    pub fn new(owner: AccountId, seed: u32, scale: u32) -> (p: PerlinNoise)
        ensures
            p.world_seed() == seed,
            p.cell_scale() == scale,
            p.owner_id() == owner,
            p.noise_map() == precomputed_noise(seed, scale),
    {
        let mut p = PerlinNoise { seed, scale, owner, noise: NoiseStore::new() };
        let grid: [u32; 3] = [u32::MAX, 0, 1];
        for i in 0..3
            invariant
                p.world_seed() == seed,
                p.cell_scale() == scale,
                p.owner_id() == owner,
                grid@ == seq![u32::MAX, 0u32, 1u32],
                forall|k: (u32, u32)|
                    #[trigger] p.noise_map().contains_key(k) <== (exists|a: int, b: int|
                        0 <= a < i && 0 <= b < 3 && k == (grid@[a], grid@[b])),
                forall|k: (u32, u32)|
                    #[trigger] p.noise_map().contains_key(k) ==> (exists|a: int, b: int|
                        0 <= a < i && 0 <= b < 3 && k == (grid@[a], grid@[b])) && p.noise_map()[k]
                        == stored_height(k.0, k.1, seed, scale),
        {
            for j in 0..3
                invariant
                    0 <= i < 3,
                    p.world_seed() == seed,
                    p.cell_scale() == scale,
                    p.owner_id() == owner,
                    grid@ == seq![u32::MAX, 0u32, 1u32],
                    forall|k: (u32, u32)|
                        #[trigger] p.noise_map().contains_key(k) <== (exists|a: int, b: int|
                            (0 <= a < i && 0 <= b < 3 || a == i && 0 <= b < j) && k == (
                            grid@[a],
                            grid@[b],
                        )),
                    forall|k: (u32, u32)|
                        #[trigger] p.noise_map().contains_key(k) ==> (exists|a: int, b: int|
                            (0 <= a < i && 0 <= b < 3 || a == i && 0 <= b < j) && k == (
                            grid@[a],
                            grid@[b],
                        )) && p.noise_map()[k] == stored_height(k.0, k.1, seed, scale),
            {
                p.store_height(grid[i], grid[j]);
                assert(p.noise_map().contains_key((grid@[i as int], grid@[j as int])));
            }
        }
        assert(p.noise_map() =~= precomputed_noise(seed, scale)) by {
            assert forall|k: (u32, u32)| #[trigger]
                precomputed_noise(seed, scale).contains_key(k) implies p.noise_map().contains_key(
                k,
            ) by {
                let a: int = if k.0 == u32::MAX {
                    0
                } else if k.0 == 0 {
                    1
                } else {
                    2
                };
                let b: int = if k.1 == u32::MAX {
                    0
                } else if k.1 == 0 {
                    1
                } else {
                    2
                };
                assert(k == (grid@[a], grid@[b]));
            }
        }
        p
    }

    /// Computes the terrain height of `(x, y)` and stores it, replacing any height
    /// stored for that point before. Always succeeds.
    pub fn compute_perlin(&mut self, x: u32, y: u32) -> (r: Result<(), ContractError>)
        ensures
            r == Ok::<(), ContractError>(()),
            final(self).world_seed() == old(self).world_seed(),
            final(self).cell_scale() == old(self).cell_scale(),
            final(self).owner_id() == old(self).owner_id(),
            final(self).noise_map() == with_height(
                old(self).noise_map(),
                x,
                y,
                old(self).world_seed(),
                old(self).cell_scale(),
            ),
    {
        self.store_height(x, y);
        Ok(())
    }

    /// The height stored for `(x, y)`, if one has been computed.
    pub fn noise_lookup(&self, x: u32, y: u32) -> (r: Option<u128>)
        ensures
            r == (if self.noise_map().contains_key((x, y)) {
                Some(self.noise_map()[(x, y)])
            } else {
                None::<u128>
            }),
    {
        proof {
            use_type_invariant(self);
        }
        self.noise.get(x, y)
    }
}

} // verus!
