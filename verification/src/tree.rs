//! Hashes of the children of a node of a tree: each child, a scalar, on
//! the generator of its position.
use crate::field::{field_sub, Scalar};
use crate::generators::Generators;
use crate::group::{msm, multiexp_vartime, pairs_view, point_add, point_sub, Point};
use crate::point_vector::encodings;
use crate::scalar_vector::values;
use vstd::prelude::*;

verus! {

/// The children added from the position `offset`, each on its generator;
/// the first counted less the child which stood at that position before.
pub open spec fn grown(
    g_bold: Seq<Seq<u8>>,
    offset: int,
    first_child_after_offset: nat,
    new_children: Seq<nat>,
) -> Seq<(nat, Seq<u8>)> {
    Seq::new(
        new_children.len(),
        |i: int|
            (
                if i == 0 {
                    field_sub(new_children[0], first_child_after_offset)
                } else {
                    new_children[i]
                },
                g_bold[offset + i],
            ),
    )
}

/// The children which stand from the position `offset`, each on its
/// generator.
pub open spec fn trimmed(g_bold: Seq<Seq<u8>>, offset: int, children: Seq<nat>) -> Seq<
    (nat, Seq<u8>),
> {
    Seq::new(children.len(), |i: int| (children[i], g_bold[offset + i]))
}

/// Adds children to an existing hash, from the position `offset`, where
/// `first_child_after_offset` stood so far (zero if none did).
///
/// For a new hash, pass the point the hash starts from as the existing
/// hash. There is no hash where no child is given, or where the children
/// reach beyond the generators.
pub fn hash_grow(
    generators: &Generators,
    existing_hash: Point,
    offset: usize,
    first_child_after_offset: Scalar,
    new_children: &[Scalar],
) -> (r: Option<Point>)
    ensures
        r.is_some() == (new_children@.len() > 0 && offset + new_children@.len()
            <= generators@.len()),
        r matches Some(hash) ==> hash@ == point_add(
            existing_hash@,
            msm(
                grown(
                    generators@.g_bold,
                    offset as int,
                    first_child_after_offset@,
                    values(new_children@),
                ),
            ),
        ),
{
    let g_bold = generators.g_bold_slice();
    if new_children.len() == 0 || offset > g_bold.len() || new_children.len() > g_bold.len()
        - offset {
        return None;
    }
    let ghost all = grown(
        generators@.g_bold,
        offset as int,
        first_child_after_offset@,
        values(new_children@),
    );
    let mut pairs: Vec<(Scalar, Point)> = Vec::with_capacity(new_children.len());
    pairs.push((new_children[0].sub(&first_child_after_offset), g_bold[offset]));
    let total = g_bold.len();
    let mut i: usize = 1;
    while i < new_children.len()
        invariant
            1 <= i <= new_children@.len(),
            offset + new_children@.len() <= g_bold@.len(),
            total == g_bold@.len(),
            encodings(g_bold@) == generators@.g_bold,
            all == grown(
                generators@.g_bold,
                offset as int,
                first_child_after_offset@,
                values(new_children@),
            ),
            pairs_view(pairs@) == all.take(i as int),
        decreases new_children@.len() - i,
    {
        let ghost prev = pairs_view(pairs@);
        pairs.push((new_children[i], g_bold[offset + i]));
        assert(pairs_view(pairs@) =~= prev.push(all[i as int]));
        i += 1;
    }
    assert(all.take(new_children@.len() as int) =~= all);
    Some(existing_hash.add(&multiexp_vartime(&pairs)))
}

/// Removes children from an existing hash: those which stand from the
/// position `offset`.
///
/// There is no hash where the children reach beyond the generators.
pub fn hash_trim(generators: &Generators, existing_hash: Point, offset: usize, children: &[Scalar]) -> (r:
    Option<Point>)
    ensures
        r.is_some() == (children@.len() == 0 || offset + children@.len() <= generators@.len()),
        r matches Some(hash) ==> hash@ == point_sub(
            existing_hash@,
            msm(trimmed(generators@.g_bold, offset as int, values(children@))),
        ),
{
    let g_bold = generators.g_bold_slice();
    if children.len() > 0 && (offset > g_bold.len() || children.len() > g_bold.len() - offset) {
        return None;
    }
    let ghost all = trimmed(generators@.g_bold, offset as int, values(children@));
    let mut pairs: Vec<(Scalar, Point)> = Vec::with_capacity(children.len());
    let total = g_bold.len();
    let mut i: usize = 0;
    while i < children.len()
        invariant
            i <= children@.len(),
            children@.len() == 0 || offset + children@.len() <= g_bold@.len(),
            total == g_bold@.len(),
            encodings(g_bold@) == generators@.g_bold,
            all == trimmed(generators@.g_bold, offset as int, values(children@)),
            pairs_view(pairs@) == all.take(i as int),
        decreases children@.len() - i,
    {
        let ghost prev = pairs_view(pairs@);
        pairs.push((children[i], g_bold[offset + i]));
        assert(pairs_view(pairs@) =~= prev.push(all[i as int]));
        i += 1;
    }
    assert(all.take(children@.len() as int) =~= all);
    Some(existing_hash.sub(&multiexp_vartime(&pairs)))
}

} // verus!
