use vstd::prelude::*;

verus! {

/// Relies on `rand::random`: a sample from the standard distribution of
/// the requested type. Nothing can be promised of a random value, so this
/// carries no contract.
pub assume_specification<T>[ rand::random::<T> ]() -> (r: T)
    where
        rand::distributions::Standard: rand::distributions::Distribution<T>,
;

/// A number below the given positive bound, drawn from the process RNG.
pub fn random_below(n: u32) -> (r: u32)
    requires
        n > 0,
    ensures
        r < n,
{
    let x: u32 = rand::random::<u32>();
    x % n
}

/// Draws up to `k` distinct indices below `n`, by a partial shuffle of the
/// index pool.
pub fn sample_indices(n: usize, k: usize) -> (r: Vec<usize>)
    requires
        n <= 0xffff_ffff,
    ensures
        r@.len() == (if k < n {
            k as int
        } else {
            n as int
        }),
        forall|i: int| 0 <= i < r@.len() ==> r@[i] < n,
        forall|i: int, j: int| 0 <= i < j < r@.len() ==> r@[i] != r@[j],
{
    let take: usize = if k < n {
        k
    } else {
        n
    };
    let mut pool: Vec<usize> = Vec::new();
    let mut t: usize = 0;
    while t < n
        invariant
            0 <= t <= n,
            pool@.len() == t,
            forall|i: int| 0 <= i < t ==> pool@[i] == i,
        decreases n - t,
    {
        pool.push(t);
        t = t + 1;
    }
    let mut i: usize = 0;
    while i < take
        invariant
            n <= 0xffff_ffff,
            0 <= i <= take <= n,
            pool@.len() == n,
            forall|a: int| 0 <= a < n ==> pool@[a] < n,
            forall|a: int, b: int| 0 <= a < b < n ==> pool@[a] != pool@[b],
        decreases take - i,
    {
        let j: usize = i + random_below((n - i) as u32) as usize;
        let a = pool[i];
        let b = pool[j];
        pool.set(i, b);
        pool.set(j, a);
        proof {
            assert forall|x: int, y: int| 0 <= x < y < n implies pool@[x] != pool@[y] by {}
        }
        i = i + 1;
    }
    let mut out: Vec<usize> = Vec::new();
    let mut c: usize = 0;
    while c < take
        invariant
            take <= n,
            pool@.len() == n,
            forall|a: int| 0 <= a < n ==> pool@[a] < n,
            forall|a: int, b: int| 0 <= a < b < n ==> pool@[a] != pool@[b],
            0 <= c <= take,
            out@.len() == c,
            forall|a: int| 0 <= a < c ==> out@[a] == pool@[a],
        decreases take - c,
    {
        out.push(pool[c]);
        c = c + 1;
    }
    out
}

} // verus!
