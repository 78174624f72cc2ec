use vstd::prelude::*;

use crate::object::{total_key, total_order_key};

verus! {

/// The sign bit of an `f64` bit pattern cleared: the pattern of its magnitude.
pub open spec fn magnitude_bits(bits: u64) -> int {
    bits as int % 0x8000_0000_0000_0000
}

/// The `f64` with bit pattern `bits` is a NaN: all exponent bits set and a
/// non-zero fraction.
pub open spec fn is_nan_bits(bits: u64) -> bool {
    magnitude_bits(bits) > 0x7FF0_0000_0000_0000
}

/// The `f64` with bit pattern `bits` is a zero, positive or negative.
pub open spec fn is_zero_bits(bits: u64) -> bool {
    magnitude_bits(bits) == 0
}

/// `a` is below `b` as real numbers, for `f64` bit patterns that are not
/// NaNs. An IEEE 754 `f64` is a sign bit over a 63-bit magnitude field whose
/// patterns grow with the absolute value (zero, subnormals, normals,
/// infinity); a value is negative when its sign bit is set and its magnitude
/// is not zero. So a negative value is below every other one, two negative
/// values are ordered by decreasing magnitude, and two others by increasing
/// magnitude; the two zeros are equal.
pub open spec fn value_below(a: u64, b: u64) -> bool {
    let ma = a as int % 0x8000_0000_0000_0000;
    let mb = b as int % 0x8000_0000_0000_0000;
    let neg_a = a >= 0x8000_0000_0000_0000 && ma > 0;
    let neg_b = b >= 0x8000_0000_0000_0000 && mb > 0;
    if neg_a && neg_b {
        mb < ma
    } else if neg_a {
        true
    } else if neg_b {
        false
    } else {
        ma < mb
    }
}

/// `a < b` for the `f64` values with bit patterns `a` and `b`, as IEEE 754
/// compares them: never true for a NaN, false between two zeros, and
/// otherwise the total order.
pub open spec fn f64_less(a: u64, b: u64) -> bool {
    &&& !is_nan_bits(a)
    &&& !is_nan_bits(b)
    &&& !(is_zero_bits(a) && is_zero_bits(b))
    &&& total_order_key(a) < total_order_key(b)
}

/// Compares two `f64` values, given by their bit patterns, with `<`.
pub fn less_than(a: u64, b: u64) -> (r: bool)
    ensures
        r == f64_less(a, b),
        !is_nan_bits(a) && !is_nan_bits(b) ==> r == value_below(a, b),
{
    proof {
        if !is_nan_bits(a) && !is_nan_bits(b) {
            lemma_less_is_value_order(a, b);
        }
    }
    let ma = a % 0x8000_0000_0000_0000u64;
    let mb = b % 0x8000_0000_0000_0000u64;
    if ma > 0x7FF0_0000_0000_0000u64 || mb > 0x7FF0_0000_0000_0000u64 {
        return false;
    }
    if ma == 0 && mb == 0 {
        return false;
    }
    total_key(a) < total_key(b)
}

/// `a <= b` for the `f64` values with bit patterns `a` and `b`, as IEEE 754
/// compares them: never true for a NaN, true between two zeros, and
/// otherwise the total order.
pub open spec fn f64_less_eq(a: u64, b: u64) -> bool {
    &&& !is_nan_bits(a)
    &&& !is_nan_bits(b)
    &&& (is_zero_bits(a) && is_zero_bits(b)) || total_order_key(a) <= total_order_key(b)
}

/// Compares two `f64` values, given by their bit patterns, with `<=`.
pub fn less_or_equal(a: u64, b: u64) -> (r: bool)
    ensures
        r == f64_less_eq(a, b),
        !is_nan_bits(a) && !is_nan_bits(b) ==> r == !value_below(b, a),
{
    proof {
        if !is_nan_bits(a) && !is_nan_bits(b) {
            lemma_less_is_value_order(a, b);
        }
    }
    let ma = a % 0x8000_0000_0000_0000u64;
    let mb = b % 0x8000_0000_0000_0000u64;
    if ma > 0x7FF0_0000_0000_0000u64 || mb > 0x7FF0_0000_0000_0000u64 {
        return false;
    }
    if ma == 0 && mb == 0 {
        return true;
    }
    total_key(a) <= total_key(b)
}

/// Of the hit kept so far and a new candidate hit, each a distance (as an
/// `f64` bit pattern) with what was hit, keeps the one kept so far when it is
/// no farther, and the candidate otherwise (also when nothing was kept yet).
pub fn choose_closer<T>(current: Option<(u64, T)>, candidate: (u64, T)) -> (r: Option<(u64, T)>)
    ensures
        r == match current {
            Some(e) => if f64_less_eq(e.0, candidate.0) {
                Some(e)
            } else {
                Some(candidate)
            },
            None => Some(candidate),
        },
        match current {
            Some(e) => !is_nan_bits(e.0) && !is_nan_bits(candidate.0) ==> r == if value_below(
                candidate.0,
                e.0,
            ) {
                Some(candidate)
            } else {
                Some(e)
            },
            None => true,
        },
{
    proof {
        if current is Some {
            let pair = current->0;
            let e0 = pair.0;
            if !is_nan_bits(e0) && !is_nan_bits(candidate.0) {
                lemma_less_is_value_order(e0, candidate.0);
            }
        }
    }
    match current {
        Some(existing) => {
            if less_or_equal(existing.0, candidate.0) {
                Some(existing)
            } else {
                Some(candidate)
            }
        },
        None => Some(candidate),
    }
}

/// The object that a ray sees, as the scan over the objects finds it: of the
/// objects that the ray hits (`Some` distance), the first one is taken, and a
/// later one replaces it when its distance is smaller.
pub open spec fn nearest_among(distances: Seq<Option<u64>>) -> Option<int>
    decreases distances.len(),
{
    if distances.len() == 0 {
        None
    } else {
        let prev = nearest_among(distances.drop_last());
        let i = distances.len() - 1;
        match distances[i] {
            None => prev,
            Some(d) => match prev {
                None => Some(i),
                Some(p) => if f64_less(d, distances[p]->0) {
                    Some(i)
                } else {
                    prev
                },
            },
        }
    }
}

/// The index of the object that a ray sees: `distances[i]` holds the `f64`
/// bit pattern of the distance at which the ray hits object `i`, if it does.
pub fn nearest_hit(distances: &Vec<Option<u64>>) -> (r: Option<usize>)
    ensures
        match r {
            Some(i) => nearest_among(distances@) == Some(i as int),
            None => nearest_among(distances@) is None,
        },
        no_nan_distance(distances@) ==> {
            &&& r is None <==> forall|j: int|
                0 <= j < distances@.len() ==> #[trigger] distances@[j] is None
            &&& r matches Some(p) ==> {
                &&& p < distances@.len()
                &&& distances@[p as int] is Some
                &&& forall|j: int|
                    0 <= j < distances@.len() && #[trigger] distances@[j] is Some ==> !value_below(
                        distances@[j]->0,
                        distances@[p as int]->0,
                    )
                &&& forall|j: int|
                    0 <= j < p && #[trigger] distances@[j] is Some ==> value_below(
                        distances@[p as int]->0,
                        distances@[j]->0,
                    )
            }
        },
{
    proof {
        if no_nan_distance(distances@) {
            lemma_nearest_is_nearest_value(distances@);
        }
    }
    let mut best: Option<usize> = None;
    let mut i: usize = 0;
    while i < distances.len()
        invariant
            i <= distances@.len(),
            match best {
                Some(b) => nearest_among(distances@.take(i as int)) == Some(b as int),
                None => nearest_among(distances@.take(i as int)) is None,
            },
        decreases distances@.len() - i,
    {
        proof {
            lemma_nearest_in_range(distances@.take(i as int));
        }
        assert(distances@.take(i + 1).drop_last() =~= distances@.take(i as int));
        match distances[i] {
            None => {},
            Some(d) => {
                match best {
                    None => {
                        best = Some(i);
                    },
                    Some(b) => {
                        proof {
                            assert(distances@.take(i as int)[b as int] == distances@[b as int]);
                        }
                        let db = distances[b].unwrap();
                        if less_than(d, db) {
                            best = Some(i);
                        }
                    },
                }
            },
        }
        i = i + 1;
    }
    assert(distances@.take(distances@.len() as int) =~= distances@);
    best
}

/// The scan's choice is an object that the ray hits.
pub proof fn lemma_nearest_in_range(distances: Seq<Option<u64>>)
    ensures
        nearest_among(distances) matches Some(p) ==> 0 <= p < distances.len()
            && distances[p] is Some,
    decreases distances.len(),
{
    if distances.len() > 0 {
        let d = distances.drop_last();
        lemma_nearest_in_range(d);
        if let Some(p) = nearest_among(d) {
            assert(d[p] == distances[p]);
        }
    }
}

/// No hit distance is a NaN.
pub open spec fn no_nan_distance(distances: Seq<Option<u64>>) -> bool {
    forall|i: int|
        0 <= i < distances.len() ==> (#[trigger] distances[i] matches Some(d) ==> !is_nan_bits(d))
}

/// `<` on non-NaN `f64` values is transitive.
pub proof fn lemma_less_transitive(a: u64, b: u64, c: u64)
    requires
        f64_less(a, b),
        f64_less(b, c),
    ensures
        f64_less(a, c),
{
}

/// Below a value that `c` is not below is below `c` too, for non-NaN values.
pub proof fn lemma_less_not_less(a: u64, b: u64, c: u64)
    requires
        f64_less(a, b),
        !f64_less(c, b),
        !is_nan_bits(c),
    ensures
        f64_less(a, c),
{
}

/// When no distance is a NaN, the object that the scan sees is the nearest
/// object hit, the first one where several are nearest, and there is one
/// exactly when some object is hit.
pub proof fn lemma_nearest_is_first_least(distances: Seq<Option<u64>>)
    requires
        no_nan_distance(distances),
    ensures
        nearest_among(distances) is None <==> forall|i: int|
            0 <= i < distances.len() ==> #[trigger] distances[i] is None,
        nearest_among(distances) matches Some(p) ==> {
            &&& 0 <= p < distances.len()
            &&& distances[p] is Some
            &&& forall|j: int|
                0 <= j < p && #[trigger] distances[j] is Some ==> f64_less(
                    distances[p]->0,
                    distances[j]->0,
                )
            &&& forall|j: int|
                p < j < distances.len() && #[trigger] distances[j] is Some ==> !f64_less(
                    distances[j]->0,
                    distances[p]->0,
                )
        },
    decreases distances.len(),
{
    if distances.len() > 0 {
        let d = distances.drop_last();
        let n = distances.len() - 1;
        assert forall|i: int| 0 <= i < d.len() implies #[trigger] d[i] == distances[i] by {}
        assert(no_nan_distance(d)) by {
            assert forall|i: int| 0 <= i < d.len() implies (#[trigger] d[i] matches Some(x)
                ==> !is_nan_bits(x)) by {
                assert(d[i] == distances[i]);
            }
        }
        lemma_nearest_is_first_least(d);
        match distances[n] {
            None => {
                if let Some(p) = nearest_among(d) {
                    assert(d[p] == distances[p]);
                    assert forall|j: int|
                        0 <= j < p && #[trigger] distances[j] is Some implies f64_less(
                        distances[p]->0,
                        distances[j]->0,
                    ) by {
                        assert(d[j] == distances[j]);
                    }
                    assert forall|j: int|
                        p < j < distances.len() && #[trigger] distances[j] is Some implies !f64_less(
                        distances[j]->0,
                        distances[p]->0,
                    ) by {
                        assert(d[j] == distances[j]);
                    }
                }
                if nearest_among(d) is None {
                    assert forall|i: int| 0 <= i < distances.len() implies #[trigger] distances[i]
                        is None by {
                        if i < n {
                            assert(d[i] == distances[i]);
                        }
                    }
                }
            },
            Some(x) => {
                assert(!is_nan_bits(x));
                match nearest_among(d) {
                    None => {
                        assert forall|j: int| 0 <= j < n implies #[trigger] distances[j] is None by {
                            assert(d[j] == distances[j]);
                        }
                    },
                    Some(p) => {
                        let dp = distances[p]->0;
                        assert(d[p] == distances[p]);
                        if f64_less(x, dp) {
                            assert forall|j: int|
                                0 <= j < n && #[trigger] distances[j] is Some implies f64_less(
                                x,
                                distances[j]->0,
                            ) by {
                                assert(d[j] == distances[j]);
                                let dj = distances[j]->0;
                                assert(!is_nan_bits(dj));
                                if j < p {
                                    lemma_less_transitive(x, dp, dj);
                                } else if j > p {
                                    lemma_less_not_less(x, dp, dj);
                                }
                            }
                        } else {
                            assert forall|j: int|
                                0 <= j < p && #[trigger] distances[j] is Some implies f64_less(
                                dp,
                                distances[j]->0,
                            ) by {
                                assert(d[j] == distances[j]);
                            }
                            assert forall|j: int|
                                p < j < distances.len() && #[trigger] distances[j] is Some implies !f64_less(
                                distances[j]->0,
                                dp,
                            ) by {
                                if j < n {
                                    assert(d[j] == distances[j]);
                                }
                            }
                        }
                    },
                }
            },
        }
    }
}

/// For values that are not NaNs, `<` on bit patterns is the order of the real
/// values, and `<=` is its complement with the arguments swapped.
pub proof fn lemma_less_is_value_order(a: u64, b: u64)
    requires
        !is_nan_bits(a),
        !is_nan_bits(b),
    ensures
        f64_less(a, b) == value_below(a, b),
        f64_less_eq(a, b) == !value_below(b, a),
{
    let h: int = 0x8000_0000_0000_0000;
    if a < 0x8000_0000_0000_0000 {
        assert(a as int % h == a as int);
    } else {
        assert(a as int % h == a as int - h);
    }
    if b < 0x8000_0000_0000_0000 {
        assert(b as int % h == b as int);
    } else {
        assert(b as int % h == b as int - h);
    }
}

/// When no distance is a NaN, the object that the scan sees is the nearest
/// object hit as real distances go: none is nearer, and every object listed
/// before it is farther (two zeros count as equally near).
pub proof fn lemma_nearest_is_nearest_value(distances: Seq<Option<u64>>)
    requires
        no_nan_distance(distances),
    ensures
        nearest_among(distances) is None <==> forall|i: int|
            0 <= i < distances.len() ==> #[trigger] distances[i] is None,
        nearest_among(distances) matches Some(p) ==> {
            &&& 0 <= p < distances.len()
            &&& distances[p] is Some
            &&& forall|j: int|
                0 <= j < distances.len() && #[trigger] distances[j] is Some ==> !value_below(
                    distances[j]->0,
                    distances[p]->0,
                )
            &&& forall|j: int|
                0 <= j < p && #[trigger] distances[j] is Some ==> value_below(
                    distances[p]->0,
                    distances[j]->0,
                )
        },
{
    lemma_nearest_is_first_least(distances);
    if let Some(p) = nearest_among(distances) {
        let dp = distances[p]->0;
        assert(!is_nan_bits(dp));
        assert forall|j: int|
            0 <= j < distances.len() && #[trigger] distances[j] is Some implies !value_below(
            distances[j]->0,
            dp,
        ) by {
            let dj = distances[j]->0;
            assert(!is_nan_bits(dj));
            lemma_less_is_value_order(dj, dp);
            lemma_less_is_value_order(dp, dj);
            if j < p {
                assert(f64_less(dp, dj));
            }
        }
        assert forall|j: int|
            0 <= j < p && #[trigger] distances[j] is Some implies value_below(
            dp,
            distances[j]->0,
        ) by {
            let dj = distances[j]->0;
            assert(!is_nan_bits(dj));
            lemma_less_is_value_order(dp, dj);
        }
    }
}

/// Keeping the nearer of two hits: when neither distance is a NaN, the hit
/// kept so far stays exactly when the candidate is not below it in value.
pub proof fn lemma_choose_closer_by_value(current: u64, candidate: u64)
    requires
        !is_nan_bits(current),
        !is_nan_bits(candidate),
    ensures
        f64_less_eq(current, candidate) <==> !value_below(candidate, current),
{
    lemma_less_is_value_order(current, candidate);
}

/// A hit is nearer than the light exactly when, as real values, its distance
/// is below the light's, whatever that distance is; no hit is never nearer.
pub proof fn lemma_hit_nearer_by_value(hit: Option<u64>, limit: u64)
    requires
        hit matches Some(d) ==> !is_nan_bits(d),
        !is_nan_bits(limit),
    ensures
        hit_nearer(hit, limit) == (hit matches Some(d) && value_below(d, limit)),
{
    if let Some(d) = hit {
        lemma_less_is_value_order(d, limit);
    }
}

/// The hit `hit`, if there is one, is nearer than `limit`.
pub open spec fn hit_nearer(hit: Option<u64>, limit: u64) -> bool {
    match hit {
        Some(d) => f64_less(d, limit),
        None => false,
    }
}

/// Some object is hit nearer than `limit`: `distances[i]` holds the `f64` bit
/// pattern of the distance at which object `i` is hit, if it is.
pub fn any_hit_nearer(distances: &Vec<Option<u64>>, limit: u64) -> (r: bool)
    ensures
        r == exists|i: int| 0 <= i < distances@.len() && hit_nearer(#[trigger] distances@[i], limit),
        no_nan_distance(distances@) && !is_nan_bits(limit) ==> r == exists|i: int|
            0 <= i < distances@.len() && #[trigger] distances@[i] is Some && value_below(
                distances@[i]->0,
                limit,
            ),
{
    proof {
        if no_nan_distance(distances@) && !is_nan_bits(limit) {
            assert forall|i: int| 0 <= i < distances@.len() implies hit_nearer(
                #[trigger] distances@[i],
                limit,
            ) == (distances@[i] is Some && value_below(distances@[i]->0, limit)) by {
                lemma_hit_nearer_by_value(distances@[i], limit);
            }
        }
    }
    let mut i: usize = 0;
    while i < distances.len()
        invariant
            i <= distances@.len(),
            forall|k: int|
                0 <= k < i ==> !hit_nearer(#[trigger] distances@[k], limit),
        decreases distances@.len() - i,
    {
        if let Some(d) = distances[i] {
            if less_than(d, limit) {
                return true;
            }
        }
        i = i + 1;
    }
    false
}

} // verus!
