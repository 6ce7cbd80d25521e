//! The noise generator: its configuration, the xorshift64 mixer, the lattice
//! hash fold, and the per-corner gradient bit patterns.

use vstd::prelude::*;
use vstd::wrapping::u64_specs;

verus! {

/// One xorshift64 round: `x ^= x << 13; x ^= x >> 7; x ^= x << 17`.
pub open spec fn spec_xorshift64(x: u64) -> u64 {
    let a = x ^ (x << 13);
    let b = a ^ (a >> 7);
    b ^ (b << 17)
}

/// Advances a 64-bit state by one xorshift64 round.
pub fn xorshift64(x: u64) -> (r: u64)
    ensures
        r == spec_xorshift64(x),
{
    let x = x ^ (x << 13);
    let x = x ^ (x >> 7);
    x ^ (x << 17)
}

/// Folds a lattice point into a 64-bit accumulator: starting from `seed`,
/// each coordinate `v` updates the accumulator to `acc * m + v` with wrapping
/// arithmetic, where `m` is one more than the lattice resolution.
pub open spec fn spec_lattice_hash(seed: u64, m: u64, pts: Seq<u64>) -> u64
    decreases pts.len(),
{
    if pts.len() == 0 {
        seed
    } else {
        u64_specs::wrapping_add(
            u64_specs::wrapping_mul(spec_lattice_hash(seed, m, pts.drop_last()), m),
            pts.last(),
        )
    }
}

/// The gradient state after `i` draws: state 0 is the mixed lattice hash;
/// each draw advances by one xorshift64 round, keeps the low 52 bits as an
/// IEEE-754 mantissa and overwrites the upper bits with the exponent pattern
/// `0x3ff`, so each draw is the bit pattern of a double in `[1, 2)`. The
/// state threads through the draws: draw `i + 1` depends on draw `i`.
pub open spec fn spec_grad_state(seed: u64, m: u64, pts: Seq<u64>, i: nat) -> u64
    decreases i,
{
    if i == 0 {
        spec_xorshift64(spec_lattice_hash(seed, m, pts))
    } else {
        (0x3ffu64 << 52) | (spec_xorshift64(spec_grad_state(seed, m, pts, (i - 1) as nat))
            & 0xFFFFFFFFFFFFFu64)
    }
}

/// The two ways a caller can misuse the generator: a zero lattice resolution
/// at construction, or an evaluation coordinate outside `[0, 1]`.
#[derive(Clone, Copy, Debug, PartialEq, Eq, Structural)]
pub enum NoiseError {
    InvalidConfiguration,
    OutOfRange,
}

/// An immutable noise configuration: a seed and a positive lattice resolution.
/// Every evaluation is a pure function of `(seed, grid_size, position)`.
#[derive(Clone, Copy, Debug, PartialEq, Eq, Structural)]
pub struct PerlinNoise {
    pub seed: usize,
    pub grid_size: usize,
}

impl PerlinNoise {
    /// Builds a generator; a zero `grid_size` is rejected as
    /// `InvalidConfiguration`, and nothing else is.
    pub fn new(seed: usize, grid_size: usize) -> (r: Result<PerlinNoise, NoiseError>)
        ensures
            r is Ok <==> grid_size > 0,
            grid_size > 0 ==> (r matches Ok(p) && p.seed == seed && p.grid_size == grid_size),
            grid_size == 0 ==> (r matches Err(e) && e == NoiseError::InvalidConfiguration),
    {
        if grid_size == 0 {
            Err(NoiseError::InvalidConfiguration)
        } else {
            Ok(PerlinNoise { seed, grid_size })
        }
    }

    /// The raw-bit gradient vector at a lattice corner: one bit pattern per
    /// coordinate, each a pure function of `(seed, grid_size, corner)` — the
    /// same inputs always give back the same vector. Every pattern carries
    /// the exponent field `0x3ff`, the bit pattern of a double in `[1, 2)`,
    /// so no draw is a NaN or an infinity.
    pub fn grad_bits(&self, corner: &Vec<u64>) -> (bits: Vec<u64>)
        requires
            self.grid_size < usize::MAX,
        ensures
            bits@.len() == corner@.len(),
            forall|i: int|
                0 <= i < corner@.len() ==> #[trigger] bits@[i] == spec_grad_state(
                    self.seed as u64,
                    (self.grid_size + 1) as u64,
                    corner@,
                    (i + 1) as nat,
                ),
            forall|i: int| 0 <= i < corner@.len() ==> #[trigger] (bits@[i] >> 52) == 0x3ff,
    {
        let seed64: u64 = self.seed as u64;
        let m: u64 = self.grid_size as u64 + 1;
        let mut acc: u64 = seed64;
        let mut j: usize = 0;
        while j < corner.len()
            invariant
                j <= corner@.len(),
                acc == spec_lattice_hash(seed64, m, corner@.take(j as int)),
            decreases corner@.len() - j,
        {
            acc = acc.wrapping_mul(m).wrapping_add(corner[j]);
            proof {
                assert(corner@.take(j + 1).drop_last() =~= corner@.take(j as int));
                assert(corner@.take(j + 1).last() == corner@[j as int]);
            }
            j = j + 1;
        }
        proof {
            assert(corner@.take(corner@.len() as int) =~= corner@);
        }
        let mut state: u64 = xorshift64(acc);
        let mut bits: Vec<u64> = Vec::new();
        let mut i: usize = 0;
        while i < corner.len()
            invariant
                i <= corner@.len(),
                bits@.len() == i,
                state == spec_grad_state(seed64, m, corner@, i as nat),
                forall|k: int|
                    0 <= k < i ==> #[trigger] bits@[k] == spec_grad_state(
                        seed64,
                        m,
                        corner@,
                        (k + 1) as nat,
                    ),
                forall|k: int| 0 <= k < i ==> #[trigger] (bits@[k] >> 52) == 0x3ff,
            decreases corner@.len() - i,
        {
            let y = xorshift64(state);
            state = (0x3ffu64 << 52) | (y & 0xFFFFFFFFFFFFF);
            proof {
                assert((((0x3ffu64 << 52) | (y & 0xFFFFFFFFFFFFFu64)) >> 52) == 0x3ff)
                    by (bit_vector);
            }
            bits.push(state);
            i = i + 1;
        }
        bits
    }
}

} // verus!
