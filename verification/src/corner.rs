//! The corner enumerator: every vertex of the unit hypercube around a query
//! point, produced in a fixed mixed-radix counter order.

use vstd::prelude::*;
use vstd::arithmetic::power::{lemma0_pow, lemma_pow_increases, lemma_pow_positive, pow};
use vstd::arithmetic::div_mod::{
    lemma_div_basics_2, lemma_div_denominator, lemma_fundamental_div_mod,
    lemma_multiply_divide_lt,
};

verus! {

/// Digit `i` of `k` written in base `base`, least-significant digit first.
/// Entry `i` of the `k`-th enumerated tuple is the element this digit picks.
pub open spec fn radix_digit(k: int, base: int, i: nat) -> int {
    (k / pow(base, i)) % base
}

/// Two counters below `base^n` that agree on their first `n` base-`base`
/// digits are the same counter; the digits pin the counter down, so distinct
/// counters yield distinct tuples.
pub proof fn lemma_radix_digits_unique(k1: int, k2: int, base: int, n: nat)
    requires
        base >= 1,
        0 <= k1 < pow(base, n),
        0 <= k2 < pow(base, n),
        forall|i: nat| i < n ==> radix_digit(k1, base, i) == radix_digit(k2, base, i),
    ensures
        k1 == k2,
    decreases n,
{
    reveal(pow);
    if n == 0 {
        assert(pow(base, 0) == 1);
    } else {
        assert(pow(base, n) == base * pow(base, (n - 1) as nat));
        assert(radix_digit(k1, base, 0) == k1 % base) by {
            assert(pow(base, 0) == 1);
            lemma_div_basics_2(k1);
        }
        assert(radix_digit(k2, base, 0) == k2 % base) by {
            assert(pow(base, 0) == 1);
            lemma_div_basics_2(k2);
        }
        let q1 = k1 / base;
        let q2 = k2 / base;
        lemma_multiply_divide_lt(k1, base, pow(base, (n - 1) as nat));
        lemma_multiply_divide_lt(k2, base, pow(base, (n - 1) as nat));
        assert forall|i: nat| i < (n - 1) as nat implies radix_digit(q1, base, i)
            == radix_digit(q2, base, i) by {
            lemma_pow_positive(base, i);
            lemma_div_denominator(k1, base, pow(base, i));
            lemma_div_denominator(k2, base, pow(base, i));
            assert(pow(base, (i + 1) as nat) == base * pow(base, i));
            assert(radix_digit(k1, base, (i + 1) as nat) == radix_digit(k2, base, (i + 1) as nat));
        }
        lemma_radix_digits_unique(q1, q2, base, (n - 1) as nat);
        lemma_fundamental_div_mod(k1, base);
        lemma_fundamental_div_mod(k2, base);
    }
}

/// Enumerates, in the order of a counter read as a mixed-radix number with
/// the least-significant digit first, every length-`size` tuple over the
/// alphabet `x`. Stateless but for the counter: restarting from a fresh value
/// replays the same sequence.
pub struct Mute<T> {
    pub x: Vec<T>,
    pub size: usize,
    pub state: usize,
    pub max_state: usize,
}

impl<T: Copy> Mute<T> {
    /// The counter bound is exactly the number of tuples.
    pub open spec fn wf(self) -> bool {
        self.max_state == pow(self.x@.len() as int, self.size as nat)
    }

    /// Starts the enumeration of every length-`n` tuple over `values`.
    pub fn new(values: Vec<T>, n: usize) -> (r: Self)
        requires
            pow(values@.len() as int, n as nat) <= usize::MAX,
        ensures
            r.wf(),
            r.x@ == values@,
            r.size == n,
            r.state == 0,
    {
        let len = values.len();
        proof {
            reveal(pow);
            assert(pow(len as int, 0) == 1);
        }
        let mut max: usize = 1;
        let mut j: usize = 0;
        while j < n
            invariant
                j <= n,
                len == values@.len(),
                max == pow(len as int, j as nat),
                pow(len as int, n as nat) <= usize::MAX,
            decreases n - j,
        {
            proof {
                reveal(pow);
                assert(pow(len as int, (j + 1) as nat) == len * pow(len as int, j as nat));
                if len == 0 {
                    lemma0_pow((j + 1) as nat);
                } else {
                    lemma_pow_increases(len as nat, (j + 1) as nat, n as nat);
                    lemma_pow_positive(len as int, j as nat);
                }
            }
            max = max * len;
            j = j + 1;
        }
        Mute { x: values, size: n, state: 0, max_state: max }
    }

    /// Yields tuple `state` and advances the counter; entry `i` of tuple `k`
    /// is the element of `x` picked by digit `i` of `k` in base `x.len()`.
    /// Past the last tuple it yields nothing and stands still.
    pub fn next(&mut self) -> (r: Option<Vec<T>>)
        requires
            old(self).wf(),
        ensures
            final(self).wf(),
            final(self).x@ == old(self).x@,
            final(self).size == old(self).size,
            final(self).max_state == old(self).max_state,
            old(self).state >= old(self).max_state ==> r is None && final(self).state == old(
                self,
            ).state,
            old(self).state < old(self).max_state ==> {
                &&& final(self).state == old(self).state + 1
                &&& r matches Some(v)
                &&& v@.len() == old(self).size
                &&& forall|i: int|
                    0 <= i < old(self).size ==> v@[i] == old(self).x@[radix_digit(
                        old(self).state as int,
                        old(self).x@.len() as int,
                        i as nat,
                    )]
            },
    {
        if self.state >= self.max_state {
            None
        } else {
            let ghost st = self.state as int;
            let ghost len = self.x@.len() as int;
            proof {
                reveal(pow);
                if self.x@.len() == 0 && self.size > 0 {
                    lemma0_pow(self.size as nat);
                    assert(false);
                }
                assert(pow(len, 0) == 1);
                lemma_div_basics_2(st);
            }
            let mut s: usize = self.state;
            let mut vs: Vec<T> = Vec::new();
            let mut j: usize = 0;
            while j < self.size
                invariant
                    j <= self.size,
                    self.wf(),
                    self.state < self.max_state,
                    st == self.state as int,
                    len == self.x@.len() as int,
                    len > 0 || self.size == 0,
                    vs@.len() == j,
                    s as int == st / pow(len, j as nat),
                    forall|i: int|
                        0 <= i < j ==> vs@[i] == self.x@[radix_digit(st, len, i as nat)],
                decreases self.size - j,
            {
                let idx = s % self.x.len();
                vs.push(self.x[idx]);
                proof {
                    reveal(pow);
                    lemma_pow_positive(len, j as nat);
                    lemma_div_denominator(st, pow(len, j as nat), len);
                    assert(pow(len, (j + 1) as nat) == len * pow(len, j as nat));
                }
                s = s / self.x.len();
                j = j + 1;
            }
            self.state = self.state + 1;
            Some(vs)
        }
    }
}

/// All `2^n` corner offsets of the `n`-dimensional unit hypercube, in counter
/// order: entry `i` of offset `k` is bit `i` of `k`, so every entry is 0 or 1
/// and distinct counters give distinct offsets — the enumeration is complete.
pub fn corner_offsets(n: usize) -> (cs: Vec<Vec<u64>>)
    requires
        pow(2, n as nat) <= usize::MAX,
    ensures
        cs@.len() == pow(2, n as nat),
        forall|k: int| 0 <= k < cs@.len() ==> #[trigger] cs@[k]@.len() == n,
        forall|k: int, i: int|
            0 <= k < cs@.len() && 0 <= i < n ==> #[trigger] cs@[k]@[i] == radix_digit(
                k,
                2,
                i as nat,
            ),
        forall|k: int, i: int|
            0 <= k < cs@.len() && 0 <= i < n ==> #[trigger] cs@[k]@[i] == 0 || cs@[k]@[i] == 1,
        forall|k1: int, k2: int|
            0 <= k1 < cs@.len() && 0 <= k2 < cs@.len() && k1 != k2 ==> cs@[k1]@ != cs@[k2]@,
{
    let mut values: Vec<u64> = Vec::new();
    values.push(0);
    values.push(1);
    let mut m = Mute::new(values, n);
    let mut cs: Vec<Vec<u64>> = Vec::new();
    while m.state < m.max_state
        invariant
            m.wf(),
            m.x@.len() == 2,
            m.x@[0] == 0u64,
            m.x@[1] == 1u64,
            m.size == n,
            m.max_state == pow(2, n as nat),
            m.state == cs@.len(),
            m.state <= m.max_state,
            forall|k: int| 0 <= k < cs@.len() ==> #[trigger] cs@[k]@.len() == n,
            forall|k: int, i: int|
                0 <= k < cs@.len() && 0 <= i < n ==> #[trigger] cs@[k]@[i] == radix_digit(
                    k,
                    2,
                    i as nat,
                ),
        decreases m.max_state - m.state,
    {
        let ghost kk = m.state as int;
        match m.next() {
            Some(v) => {
                proof {
                    assert forall|i: int| 0 <= i < n implies v@[i] == radix_digit(
                        kk,
                        2,
                        i as nat,
                    ) by {
                        let d = radix_digit(kk, 2, i as nat);
                        assert(0 <= d < 2);
                    }
                }
                cs.push(v);
            },
            None => {},
        }
    }
    proof {
        assert forall|k1: int, k2: int|
            0 <= k1 < cs@.len() && 0 <= k2 < cs@.len() && k1 != k2 implies cs@[k1]@ != cs@[k2]@ by {
            if cs@[k1]@ == cs@[k2]@ {
                assert forall|i: nat| i < n implies radix_digit(k1, 2, i) == radix_digit(
                    k2,
                    2,
                    i,
                ) by {
                    assert(cs@[k1]@[i as int] == radix_digit(k1, 2, i));
                    assert(cs@[k2]@[i as int] == radix_digit(k2, 2, i));
                }
                lemma_radix_digits_unique(k1, k2, 2, n as nat);
            }
        }
    }
    cs
}

} // verus!
