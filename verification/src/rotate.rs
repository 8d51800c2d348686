//! In-place 180-degree rotation of an RGB pixel buffer.

use vstd::prelude::*;

verus! {

/// Where byte `i` of the rotated buffer comes from: the same channel of
/// the mirror pixel.
pub open spec fn mirror_at(n: int, i: int) -> int {
    3 * (n - 1 - i / 3) + i % 3
}

/// Rotates a buffer of RGB triples by 180 degrees in place: pixel `p`
/// swaps with pixel `n - 1 - p`, each keeping its channel order.
pub fn rotate_180<T: Copy>(data: &mut [T])
    requires
        old(data)@.len() % 3 == 0,
    ensures
        final(data)@.len() == old(data)@.len(),
        forall|i: int|
            0 <= i < old(data)@.len() ==> #[trigger] final(data)@[i] == old(data)@[mirror_at(
                old(data)@.len() as int / 3,
                i,
            )],
{
    let n = data.len() / 3;
    let mut p: usize = 0;
    while p < n / 2
        invariant
            old(data)@.len() % 3 == 0,
            old(data)@.len() <= usize::MAX,
            n == old(data)@.len() / 3,
            data@.len() == old(data)@.len(),
            p <= n / 2,
            forall|i: int|
                0 <= i < 3 * p ==> #[trigger] data@[i] == old(data)@[mirror_at(n as int, i)],
            forall|i: int|
                3 * (n - p) <= i < 3 * n ==> #[trigger] data@[i] == old(data)@[mirror_at(
                    n as int,
                    i,
                )],
            forall|i: int| 3 * p <= i < 3 * (n - p) ==> #[trigger] data@[i] == old(data)@[i],
        decreases n / 2 - p,
    {
        proof {
            assert(old(data)@.len() == 3 * n);
            assert(n >= 2);
        }
        let a = 3 * p;
        let b = 3 * (n - 1 - p);
        let mut c: usize = 0;
        while c < 3
            invariant
                a == 3 * p,
                b == 3 * (n - 1 - p),
                p < n / 2,
                old(data)@.len() % 3 == 0,
                n == old(data)@.len() / 3,
                data@.len() == old(data)@.len(),
                c <= 3,
                forall|i: int|
                    0 <= i < 3 * p ==> #[trigger] data@[i] == old(data)@[mirror_at(n as int, i)],
                forall|i: int|
                    3 * (n - p) <= i < 3 * n ==> #[trigger] data@[i] == old(data)@[mirror_at(
                        n as int,
                        i,
                    )],
                c >= 1 ==> data@[a as int] == old(data)@[b as int] && data@[b as int] == old(
                    data,
                )@[a as int],
                c >= 2 ==> data@[a + 1] == old(data)@[b + 1] && data@[b + 1] == old(data)@[a + 1],
                c >= 3 ==> data@[a + 2] == old(data)@[b + 2] && data@[b + 2] == old(data)@[a + 2],
                forall|i: int|
                    3 * p <= i < 3 * (n - p) && !(a <= i < a + c) && !(b <= i < b + c)
                        ==> #[trigger] data@[i] == old(data)@[i],
            decreases 3 - c,
        {
            let x = data[a + c];
            let y = data[b + c];
            data[a + c] = y;
            data[b + c] = x;
            c = c + 1;
        }
        p = p + 1;
        proof {
            assert forall|i: int| 0 <= i < 3 * p implies #[trigger] data@[i] == old(data)@[
            mirror_at(n as int, i)] by {
                if i >= 3 * (p - 1) {
                    assert(i / 3 == p - 1);
                    assert(mirror_at(n as int, i) == 3 * (n - p) + i % 3);
                }
            }
            assert forall|i: int| 3 * (n - p) <= i < 3 * n implies #[trigger] data@[i] == old(
                data,
            )@[mirror_at(n as int, i)] by {
                if i < 3 * (n - p + 1) {
                    assert(i / 3 == n - p);
                    assert(mirror_at(n as int, i) == 3 * (p - 1) + i % 3);
                }
            }
        }
    }
    proof {
        assert forall|i: int| 0 <= i < old(data)@.len() implies #[trigger] data@[i] == old(data)@[
        mirror_at(n as int, i)] by {
            if 3 * p <= i < 3 * (n - p) {
                assert(i / 3 == n / 2 && n % 2 == 1) by (nonlinear_arith)
                    requires
                        3 * (n / 2) <= i < 3 * (n - n / 2),
                        p == n / 2,
                        i >= 0,
                        n >= 0,
                ;
                assert(n - 1 - i / 3 == i / 3);
                assert(mirror_at(n as int, i) == i);
            }
        }
    }
}

} // verus!
