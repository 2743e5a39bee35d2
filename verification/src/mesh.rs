//! Index buffers for quad meshes.
//!
//! Text is rendered as one four-vertex quad per glyph; each quad is
//! drawn as two triangles over its corners, so the index buffer
//! repeats a six-entry pattern shifted by four vertices per quad.

use vstd::arithmetic::div_mod::lemma_fundamental_div_mod_converse;
use vstd::prelude::*;

verus! {

/// The corner pattern of one quad, as two triangles.
pub open spec fn quad_pattern() -> Seq<u16> {
    seq![0u16, 1, 2, 0, 2, 3]
}

/// The index buffer for `n` quads: entry `k` addresses corner
/// `quad_pattern()[k % 6]` of quad `k / 6`.
pub fn quad_indices(n: usize) -> (idx: Vec<u16>)
    requires
        4 * n <= 0x10000,
    ensures
        idx@.len() == 6 * n,
        forall|k: int|
            0 <= k < 6 * n ==> #[trigger] idx@[k] == (4 * (k / 6) + quad_pattern()[k % 6]) as u16,
{
    let mut idx: Vec<u16> = Vec::new();
    let mut i: usize = 0;
    while i < n
        invariant
            i <= n,
            4 * n <= 0x10000,
            idx@.len() == 6 * i,
            forall|k: int|
                0 <= k < 6 * i ==> #[trigger] idx@[k] == (4 * (k / 6) + quad_pattern()[k % 6]) as u16,
        decreases n - i,
    {
        let o: u16 = 4 * (i as u16);
        idx.push(o);
        idx.push(o + 1);
        idx.push(o + 2);
        idx.push(o);
        idx.push(o + 2);
        idx.push(o + 3);
        proof {
            lemma_fundamental_div_mod_converse(6 * i as int, 6, i as int, 0);
            lemma_fundamental_div_mod_converse(6 * i as int + 1, 6, i as int, 1);
            lemma_fundamental_div_mod_converse(6 * i as int + 2, 6, i as int, 2);
            lemma_fundamental_div_mod_converse(6 * i as int + 3, 6, i as int, 3);
            lemma_fundamental_div_mod_converse(6 * i as int + 4, 6, i as int, 4);
            lemma_fundamental_div_mod_converse(6 * i as int + 5, 6, i as int, 5);
        }
        i += 1;
    }
    idx
}

} // verus!
