use vstd::prelude::*;

use crate::hit::{f64_less, is_nan_bits, is_zero_bits, lemma_less_is_value_order, value_below};

verus! {

/// Where the `f64` with bit pattern `bits` stands in the IEEE 754 total order
/// (the order of `f64::total_cmp`): non-negative patterns keep their value,
/// and patterns with the sign bit set come below them, in reverse.
pub open spec fn total_order_key(bits: u64) -> int {
    if bits < 0x8000_0000_0000_0000 {
        bits as int
    } else {
        0x7FFF_FFFF_FFFF_FFFF - bits
    }
}

/// The total-order key of an `f64` bit pattern, computed the way
/// `f64::total_cmp` computes it: the low 63 bits of a negative pattern are
/// flipped and the result is read as a signed integer.
pub fn total_key(bits: u64) -> (k: i64)
    ensures
        k == total_order_key(bits),
{
    let left = bits as i64;
    let k = left ^ ((((left >> 63u64) as u64) >> 1u64) as i64);
    assert(k == total_order_key(bits)) by (bit_vector)
        requires
            left == bits as i64,
            k == left ^ ((((left >> 63u64) as u64) >> 1u64) as i64),
    ;
    k
}

/// Different bit patterns have different keys, so the total order tells
/// every two distinct `f64` values apart.
pub proof fn lemma_total_order_key_injective(a: u64, b: u64)
    ensures
        total_order_key(a) == total_order_key(b) <==> a == b,
{
}

/// The six faces of an axis-aligned cube.
#[derive(PartialEq, Eq, Structural, Clone, Copy, Debug)]
pub enum Face {
    NegX,
    PosX,
    NegY,
    PosY,
    NegZ,
    PosZ,
}

/// The faces in the order in which they are tried: the `min` and `max` planes
/// of x, then of y, then of z.
pub open spec fn face_at(i: int) -> Face {
    if i == 0 {
        Face::NegX
    } else if i == 1 {
        Face::PosX
    } else if i == 2 {
        Face::NegY
    } else if i == 3 {
        Face::PosY
    } else if i == 4 {
        Face::NegZ
    } else {
        Face::PosZ
    }
}

/// The outward unit normal of a face, as integer components.
pub open spec fn face_normal(f: Face) -> (i8, i8, i8) {
    match f {
        Face::NegX => (-1i8, 0i8, 0i8),
        Face::PosX => (1, 0, 0),
        Face::NegY => (0i8, -1i8, 0i8),
        Face::PosY => (0, 1, 0),
        Face::NegZ => (0i8, 0i8, -1i8),
        Face::PosZ => (0, 0, 1),
    }
}

/// Face `i` is the first of the six faces whose distance is least in the
/// total order.
pub open spec fn is_first_nearest(distance_bits: Seq<u64>, i: int) -> bool {
    &&& 0 <= i < 6
    &&& forall|j: int|
        0 <= j < 6 ==> total_order_key(#[trigger] distance_bits[j]) >= total_order_key(
            distance_bits[i],
        )
    &&& forall|j: int|
        0 <= j < i ==> total_order_key(#[trigger] distance_bits[j]) > total_order_key(
            distance_bits[i],
        )
}

/// The first nearest face is unique: the choice depends on the distances alone.
pub proof fn lemma_first_nearest_unique(distance_bits: Seq<u64>, i: int, j: int)
    requires
        is_first_nearest(distance_bits, i),
        is_first_nearest(distance_bits, j),
    ensures
        i == j,
{
    if i < j {
        assert(total_order_key(distance_bits[i]) > total_order_key(distance_bits[j]));
    } else if j < i {
        assert(total_order_key(distance_bits[j]) > total_order_key(distance_bits[i]));
    }
}

/// The outward unit normal of the cube plane that distance `i` is measured
/// to. The planes come in pairs, one pair per axis (x, then y, then z): first
/// the `min` plane, whose outward normal points down its axis, then the `max`
/// plane, whose outward normal points up it.
pub open spec fn plane_normal(i: int) -> (i8, i8, i8) {
    let axis = i / 2;
    let s: i8 = if i % 2 == 0 {
        -1i8
    } else {
        1i8
    };
    (if axis == 0 {
        s
    } else {
        0i8
    }, if axis == 1 {
        s
    } else {
        0i8
    }, if axis == 2 {
        s
    } else {
        0i8
    })
}

/// Every face that a distance index names is the face of that index's plane:
/// its outward normal is the plane's outward normal.
pub proof fn lemma_face_normal_is_plane_normal(i: int)
    requires
        0 <= i < 6,
    ensures
        face_normal(face_at(i)) == plane_normal(i),
{
}

/// When no distance is a NaN, the face chosen for a point is the face of the
/// plane nearest to it as real distances go: its normal is that plane's
/// outward normal, no plane is nearer, and every plane listed before it is
/// farther (a positive and a negative zero count as equally near).
pub proof fn lemma_first_nearest_is_nearest_plane(distance_bits: Seq<u64>, i: int)
    requires
        distance_bits.len() == 6,
        is_first_nearest(distance_bits, i),
        forall|j: int| 0 <= j < 6 ==> !is_nan_bits(#[trigger] distance_bits[j]),
    ensures
        face_normal(face_at(i)) == plane_normal(i),
        forall|j: int| 0 <= j < 6 ==> !value_below(#[trigger] distance_bits[j], distance_bits[i]),
        forall|j: int|
            0 <= j < i ==> value_below(distance_bits[i], #[trigger] distance_bits[j]) || (
            is_zero_bits(distance_bits[i]) && is_zero_bits(distance_bits[j])),
{
    lemma_face_normal_is_plane_normal(i);
    let di = distance_bits[i];
    assert(!is_nan_bits(di));
    assert forall|j: int| 0 <= j < 6 implies !value_below(#[trigger] distance_bits[j], di) by {
        let dj = distance_bits[j];
        assert(!is_nan_bits(dj));
        lemma_less_is_value_order(dj, di);
    }
    assert forall|j: int| 0 <= j < i implies value_below(di, #[trigger] distance_bits[j]) || (
    is_zero_bits(di) && is_zero_bits(distance_bits[j])) by {
        let dj = distance_bits[j];
        assert(!is_nan_bits(dj));
        lemma_less_is_value_order(di, dj);
    }
}

impl Face {
    /// The outward unit normal of this face.
    pub fn normal(&self) -> (n: (i8, i8, i8))
        ensures
            n == face_normal(*self),
    {
        match self {
            Face::NegX => (-1, 0, 0),
            Face::PosX => (1, 0, 0),
            Face::NegY => (0, -1, 0),
            Face::PosY => (0, 1, 0),
            Face::NegZ => (0, 0, -1),
            Face::PosZ => (0, 0, 1),
        }
    }
}

/// Picks the face of a cube that a surface point lies on. `distance_bits`
/// holds the `f64` bit patterns of the point's distances to the planes of
/// the faces, in the order of `face_at`; the face with the least distance
/// in the total order is chosen, the first one where several are least.
pub fn cube_normal(distance_bits: &[u64; 6]) -> (f: Face)
    ensures
        exists|i: int|
            is_first_nearest(distance_bits@, i) && f == face_at(i) && face_normal(f) == plane_normal(
                i,
            ),
        (forall|j: int| 0 <= j < 6 ==> !is_nan_bits(#[trigger] distance_bits@[j])) ==> exists|
            i: int,
        |
            #![trigger plane_normal(i)]
            0 <= i < 6 && face_normal(f) == plane_normal(i) && (forall|j: int|
                0 <= j < 6 ==> !value_below(#[trigger] distance_bits@[j], distance_bits@[i])) && (
            forall|j: int|
                0 <= j < i ==> value_below(distance_bits@[i], #[trigger] distance_bits@[j]) || (
                is_zero_bits(distance_bits@[i]) && is_zero_bits(distance_bits@[j]))),
{
    let mut best: usize = 0;
    let mut best_key = total_key(distance_bits[0]);
    let mut j: usize = 1;
    while j < 6
        invariant
            best < j <= 6,
            best_key == total_order_key(distance_bits@[best as int]),
            forall|k: int|
                0 <= k < j ==> total_order_key(#[trigger] distance_bits@[k]) >= total_order_key(
                    distance_bits@[best as int],
                ),
            forall|k: int|
                0 <= k < best ==> total_order_key(#[trigger] distance_bits@[k])
                    > total_order_key(distance_bits@[best as int]),
        decreases 6 - j,
    {
        let kj = total_key(distance_bits[j]);
        if kj < best_key {
            best = j;
            best_key = kj;
        }
        j = j + 1;
    }
    let f = match best {
        0 => Face::NegX,
        1 => Face::PosX,
        2 => Face::NegY,
        3 => Face::PosY,
        4 => Face::NegZ,
        _ => Face::PosZ,
    };
    assert(is_first_nearest(distance_bits@, best as int) && f == face_at(best as int)
        && face_normal(f) == plane_normal(best as int));
    proof {
        if forall|j: int| 0 <= j < 6 ==> !is_nan_bits(#[trigger] distance_bits@[j]) {
            lemma_first_nearest_is_nearest_plane(distance_bits@, best as int);
        }
    }
    f
}

} // verus!
