//! Triangle assembly for surface voxelization of imported meshes.

use vstd::prelude::*;

verus! {

/// Corner vertex indices of every triangle of a mesh: consecutive triples of
/// its index buffer, or of the vertices themselves for a non-indexed mesh. A
/// trailing incomplete triple is ignored.
pub fn triangle_list(indices: Option<&[u32]>, vertex_count: usize) -> (r: Vec<(usize, usize, usize)>)
    ensures
        match indices {
            Some(ix) => {
                &&& r@.len() == ix@.len() / 3
                &&& forall|t: int|
                    0 <= t < r@.len() ==> #[trigger] r@[t] == (
                        ix@[3 * t] as usize,
                        ix@[3 * t + 1] as usize,
                        ix@[3 * t + 2] as usize,
                    )
            },
            None => {
                &&& r@.len() == vertex_count / 3
                &&& forall|t: int|
                    0 <= t < r@.len() ==> #[trigger] r@[t] == (
                        (3 * t) as usize,
                        (3 * t + 1) as usize,
                        (3 * t + 2) as usize,
                    )
            },
        },
{
    let mut r: Vec<(usize, usize, usize)> = Vec::new();
    match indices {
        Some(ix) => {
            let n = ix.len() / 3;
            let mut t: usize = 0;
            while t < n
                invariant
                    n == ix@.len() / 3,
                    ix@.len() <= usize::MAX,
                    t <= n,
                    r@.len() == t,
                    forall|s: int|
                        0 <= s < t ==> #[trigger] r@[s] == (
                            ix@[3 * s] as usize,
                            ix@[3 * s + 1] as usize,
                            ix@[3 * s + 2] as usize,
                        ),
                decreases n - t,
            {
                let b = 3 * t;
                r.push((ix[b] as usize, ix[b + 1] as usize, ix[b + 2] as usize));
                t += 1;
            }
        },
        None => {
            let n = vertex_count / 3;
            let mut t: usize = 0;
            while t < n
                invariant
                    n == vertex_count / 3,
                    t <= n,
                    r@.len() == t,
                    forall|s: int|
                        0 <= s < t ==> #[trigger] r@[s] == (
                            (3 * s) as usize,
                            (3 * s + 1) as usize,
                            (3 * s + 2) as usize,
                        ),
                decreases n - t,
            {
                let b = 3 * t;
                r.push((b, b + 1, b + 2));
                t += 1;
            }
        },
    }
    r
}

} // verus!
