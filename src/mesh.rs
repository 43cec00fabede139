use vstd::prelude::*;

verus! {

/// Vertices of one leg's mesh: three rings of three around the body, knee
/// and ankle joints, one more ring near the foot, and the foot tip.
pub const LEG_MESH_VERTICES: u16 = 13;

/// Indices of one leg's mesh, as a list of triangles.
pub const LEG_MESH_INDICES: usize = 63;

/// The two triangles of the quad
/// ```text
/// a---c
/// | / |
/// b---d
/// ```
pub open spec fn quad_of<T>(a: T, b: T, c: T, d: T) -> Seq<T> {
    seq![a, c, b, b, c, d]
}

/// The triangles of one leg's mesh: three strips of quads between
/// consecutive rings, closed by a fan from the last ring to the foot tip.
pub open spec fn leg_pattern() -> Seq<u16> {
    quad_of(0u16, 2, 3, 5) + quad_of(1u16, 0, 4, 3) + quad_of(2u16, 1, 5, 4) + quad_of(3u16, 5, 6, 8)
        + quad_of(4u16, 3, 7, 6) + quad_of(5u16, 4, 8, 7) + quad_of(6u16, 8, 9, 11) + quad_of(
        7u16,
        6,
        10,
        9,
    ) + quad_of(8u16, 7, 11, 10) + seq![11u16, 9, 12] + seq![10u16, 11, 12] + seq![9u16, 10, 12]
}

/// Splits a quad into two triangles of the same winding.
pub fn quad<T: Copy>(a: T, b: T, c: T, d: T) -> (r: [T; 6])
    ensures
        r@ == quad_of(a, b, c, d),
{
    let r = [a, c, b, b, c, d];
    assert(r@ =~= quad_of(a, b, c, d));
    r
}

fn push_all(v: &mut Vec<u16>, items: &[u16])
    ensures
        final(v)@ == old(v)@ + items@,
{
    let mut i: usize = 0;
    while i < items.len()
        invariant
            i <= items@.len(),
            v@ == old(v)@ + items@.subrange(0, i as int),
        decreases items.len() - i,
    {
        v.push(items[i]);
        i = i + 1;
        assert(items@.subrange(0, i as int) =~= items@.subrange(0, i - 1) + seq![items@[i - 1]]);
    }
    assert(items@.subrange(0, i as int) =~= items@);
}

/// The index list of one leg's mesh.
pub fn leg_mesh_indices() -> (r: Vec<u16>)
    ensures
        r@ == leg_pattern(),
        r@.len() == LEG_MESH_INDICES,
        forall|j: int| 0 <= j < r@.len() ==> r@[j] < LEG_MESH_VERTICES,
{
    let mut r: Vec<u16> = Vec::new();
    push_all(&mut r, &quad(0, 2, 3, 5));
    push_all(&mut r, &quad(1, 0, 4, 3));
    push_all(&mut r, &quad(2, 1, 5, 4));
    push_all(&mut r, &quad(3, 5, 6, 8));
    push_all(&mut r, &quad(4, 3, 7, 6));
    push_all(&mut r, &quad(5, 4, 8, 7));
    push_all(&mut r, &quad(6, 8, 9, 11));
    push_all(&mut r, &quad(7, 6, 10, 9));
    push_all(&mut r, &quad(8, 7, 11, 10));
    push_all(&mut r, &[11, 9, 12]);
    push_all(&mut r, &[10, 11, 12]);
    push_all(&mut r, &[9, 10, 12]);
    assert(r@ =~= leg_pattern());
    r
}

/// The index list of a creature's mesh: the legs' vertices are laid out one
/// leg after another, so leg `k`'s pattern is shifted by `k` legs' vertices.
pub fn creature_mesh_indices(legs: usize) -> (r: Vec<u16>)
    requires
        legs * LEG_MESH_VERTICES <= 0x1_0000,
    ensures
        r@.len() == legs * LEG_MESH_INDICES,
        forall|k: int, j: int|
            0 <= k < legs && 0 <= j < LEG_MESH_INDICES ==> #[trigger] r@[k * LEG_MESH_INDICES + j]
                == leg_pattern()[j] + k * LEG_MESH_VERTICES,
{
    let pattern = leg_mesh_indices();
    let mut r: Vec<u16> = Vec::new();
    let mut k: usize = 0;
    while k < legs
        invariant
            k <= legs,
            legs * LEG_MESH_VERTICES <= 0x1_0000,
            pattern@ == leg_pattern(),
            pattern@.len() == LEG_MESH_INDICES,
            forall|j: int| 0 <= j < pattern@.len() ==> pattern@[j] < LEG_MESH_VERTICES,
            r@.len() == k * LEG_MESH_INDICES,
            forall|k2: int, j: int|
                0 <= k2 < k && 0 <= j < LEG_MESH_INDICES ==> #[trigger] r@[k2 * LEG_MESH_INDICES + j]
                    == leg_pattern()[j] + k2 * LEG_MESH_VERTICES,
        decreases legs - k,
    {
        assert((k + 1) * LEG_MESH_VERTICES <= legs * LEG_MESH_VERTICES) by (nonlinear_arith)
            requires
                k < legs,
        ;
        let offset: u16 = (k * 13) as u16;
        let ghost start = r@.len();
        let mut j: usize = 0;
        while j < pattern.len()
            invariant
                j <= pattern@.len(),
                pattern@ == leg_pattern(),
                pattern@.len() == LEG_MESH_INDICES,
                forall|i: int| 0 <= i < pattern@.len() ==> pattern@[i] < LEG_MESH_VERTICES,
                (k + 1) * LEG_MESH_VERTICES <= 0x1_0000,
                offset == k * LEG_MESH_VERTICES,
                start == k * LEG_MESH_INDICES,
                r@.len() == start + j,
                forall|k2: int, i: int|
                    0 <= k2 < k && 0 <= i < LEG_MESH_INDICES ==> #[trigger] r@[k2 * LEG_MESH_INDICES
                        + i] == leg_pattern()[i] + k2 * LEG_MESH_VERTICES,
                forall|i: int| 0 <= i < j ==> #[trigger] r@[start + i] == leg_pattern()[i] + offset,
            decreases pattern.len() - j,
        {
            r.push(pattern[j] + offset);
            j = j + 1;
        }
        assert forall|k2: int, i: int|
            0 <= k2 < k + 1 && 0 <= i < LEG_MESH_INDICES implies #[trigger] r@[k2 * LEG_MESH_INDICES
            + i] == leg_pattern()[i] + k2 * LEG_MESH_VERTICES by {
            if k2 == k {
                assert(r@[start + i] == leg_pattern()[i] + offset);
            }
        }
        k = k + 1;
    }
    r
}

} // verus!
