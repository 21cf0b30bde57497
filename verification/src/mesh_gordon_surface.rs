//! Gordon surface networks: u-curves, v-curves and their intersection
//! matrix. Generic in the point type `P`.

use vstd::prelude::*;

verus! {

/// A Gordon surface: a network of u- and v-curves and the matrix of their
/// intersections, `intersections[i][j]` lying on `u_curves[i]` and
/// `v_curves[j]`.
#[derive(Debug, Clone)]
pub struct GordonSurface<P> {
    pub u_curves: Vec<Vec<P>>,
    pub v_curves: Vec<Vec<P>>,
    pub intersections: Vec<Vec<P>>,
}

/// The first point of a curve, or `missing` for an empty curve.
pub open spec fn first_or<P>(curve: Seq<P>, missing: P) -> P {
    if curve.len() > 0 { curve[0] } else { missing }
}

/// The intersection matrix is `nu` × `nv`, for `nu` u-curves and `nv`
/// v-curves.
pub open spec fn gordon_matrix_shaped<P>(s: GordonSurface<P>) -> bool {
    &&& s.intersections@.len() == s.u_curves@.len()
    &&& forall|i: int| 0 <= i < s.intersections@.len() ==> #[trigger] s.intersections@[i]@.len() == s.v_curves@.len()
}

/// A network whose intersection `[i][j]` is taken as the first point of
/// u-curve `i` (`missing` where that curve is empty).
pub fn new_gordon_surface<P: Copy>(u_curves: Vec<Vec<P>>, v_curves: Vec<Vec<P>>, missing: P) -> (r: GordonSurface<P>)
    ensures
        r.u_curves@ == u_curves@,
        r.v_curves@ == v_curves@,
        gordon_matrix_shaped(r),
        forall|i: int, j: int|
            0 <= i < r.intersections@.len() && 0 <= j < v_curves@.len() ==> #[trigger] r.intersections@[i]@[j]
                == first_or(u_curves@[i]@, missing),
{
    let nu = u_curves.len();
    let nv = v_curves.len();
    let mut intersections: Vec<Vec<P>> = Vec::new();
    let mut i: usize = 0;
    while i < nu
        invariant
            nu == u_curves@.len(),
            nv == v_curves@.len(),
            i <= nu,
            intersections@.len() == i,
            forall|i2: int| 0 <= i2 < i ==> #[trigger] intersections@[i2]@.len() == nv,
            forall|i2: int, j: int|
                0 <= i2 < i && 0 <= j < nv ==> #[trigger] intersections@[i2]@[j] == first_or(u_curves@[i2]@, missing),
        decreases nu - i,
    {
        let p = if u_curves[i].len() > 0 { u_curves[i][0] } else { missing };
        let mut row: Vec<P> = Vec::new();
        let mut j: usize = 0;
        while j < nv
            invariant
                j <= nv,
                row@.len() == j,
                forall|j2: int| 0 <= j2 < j ==> #[trigger] row@[j2] == p,
            decreases nv - j,
        {
            row.push(p);
            j += 1;
        }
        intersections.push(row);
        i += 1;
    }
    GordonSurface { u_curves, v_curves, intersections }
}

/// Number of u-curves.
pub fn gordon_u_curve_count<P>(surf: &GordonSurface<P>) -> (n: usize)
    ensures
        n == surf.u_curves@.len(),
{
    surf.u_curves.len()
}

/// Number of v-curves.
pub fn gordon_v_curve_count<P>(surf: &GordonSurface<P>) -> (n: usize)
    ensures
        n == surf.v_curves@.len(),
{
    surf.v_curves.len()
}

/// Whether the intersection matrix is `nu` × `nv`.
pub fn validate_gordon<P>(surf: &GordonSurface<P>) -> (r: bool)
    ensures
        r == gordon_matrix_shaped(*surf),
{
    let nu = surf.u_curves.len();
    let nv = surf.v_curves.len();
    if surf.intersections.len() != nu {
        return false;
    }
    let mut i: usize = 0;
    while i < surf.intersections.len()
        invariant
            nv == surf.v_curves@.len(),
            i <= surf.intersections@.len(),
            forall|i2: int| 0 <= i2 < i ==> #[trigger] surf.intersections@[i2]@.len() == nv,
        decreases surf.intersections@.len() - i,
    {
        if surf.intersections[i].len() != nv {
            return false;
        }
        i += 1;
    }
    true
}

} // verus!
