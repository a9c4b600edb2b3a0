//! Rays, the unit sphere, and ray-sphere intersection.
//!
//! A ray is an origin point and a direction vector; `position(t)` walks
//! `t` times the direction from the origin. The unit sphere sits at the
//! origin with radius one and carries an opaque identity used only to tell
//! which sphere an intersection record refers to. Intersection is analytic
//! through the quadratic formula; a negative discriminant is a miss, a
//! normal outcome rather than an error.

use vstd::prelude::*;
use vstd::arithmetic::div_mod::lemma_fundamental_div_mod_converse;
use rand::Rng;
use crate::drawable::Point;
use crate::drawable::Vector;
use crate::drawable::dot3_raw;
use crate::scalar::Scalar;
use crate::scalar::add_raw;
use crate::scalar::sub_raw;
use crate::scalar::neg_raw;
use crate::scalar::mul_raw;
use crate::scalar::div_raw;
use crate::scalar::sqrt_raw;
use crate::scalar::abs_raw;
use crate::scalar::SCALE;
use crate::scalar::MAX_RAW;
use crate::util::feq;
use crate::util::feq_raw;

verus! {

#[derive(Debug, Clone)]
pub struct Ray {
    pub origin: Point,
    pub direction: Vector,
}

impl Ray {
    pub fn new(origin: Point, direction: Vector) -> (r: Ray)
        ensures
            r.origin == origin,
            r.direction == direction,
    {
        Ray { origin, direction }
    }

    /// The point `t` times the direction away from the origin.
    pub fn position(&self, t: Scalar) -> (r: Point)
        ensures
            r.0.raw as int == add_raw(
                self.origin.0.raw as int,
                mul_raw(self.direction.0.raw as int, t.raw as int),
            ),
            r.1.raw as int == add_raw(
                self.origin.1.raw as int,
                mul_raw(self.direction.1.raw as int, t.raw as int),
            ),
            r.2.raw as int == add_raw(
                self.origin.2.raw as int,
                mul_raw(self.direction.2.raw as int, t.raw as int),
            ),
    {
        self.origin.add(self.direction.mul(t))
    }
}

#[derive(Debug, Clone)]
pub struct Sphere {
    pub id: i32,
}

/// Relies on rand::Rng::gen through rand::thread_rng for an arbitrary
/// value to tell spheres apart; nothing is assumed about which value comes
/// back.
#[verifier::external_body]
fn random_id() -> i32 {
    rand::thread_rng().gen::<i32>()
}

/// The vector from the sphere's centre at the origin to the ray's origin,
/// componentwise.
pub open spec fn str_x(ray: Ray) -> int {
    sub_raw(ray.origin.0.raw as int, 0)
}

pub open spec fn str_y(ray: Ray) -> int {
    sub_raw(ray.origin.1.raw as int, 0)
}

pub open spec fn str_z(ray: Ray) -> int {
    sub_raw(ray.origin.2.raw as int, 0)
}

/// Leading coefficient of the intersection quadratic: the direction dotted
/// with itself.
pub open spec fn quad_a(ray: Ray) -> int {
    ray.direction.dot_spec(ray.direction)
}

/// Linear coefficient: twice the direction dotted with the centre-to-origin
/// vector.
pub open spec fn quad_b(ray: Ray) -> int {
    mul_raw(
        2 * SCALE as int,
        dot3_raw(
            ray.direction.0.raw as int,
            ray.direction.1.raw as int,
            ray.direction.2.raw as int,
            str_x(ray),
            str_y(ray),
            str_z(ray),
        ),
    )
}

/// Constant coefficient: the centre-to-origin vector dotted with itself,
/// less one.
pub open spec fn quad_c(ray: Ray) -> int {
    sub_raw(
        dot3_raw(str_x(ray), str_y(ray), str_z(ray), str_x(ray), str_y(ray), str_z(ray)),
        SCALE as int,
    )
}

/// The discriminant of the intersection quadratic; negative means a miss.
pub open spec fn disc_raw(ray: Ray) -> int {
    sub_raw(
        mul_raw(quad_b(ray), quad_b(ray)),
        mul_raw(mul_raw(4 * SCALE as int, quad_a(ray)), quad_c(ray)),
    )
}

/// The smaller intersection parameter.
pub open spec fn quad_t1(ray: Ray) -> int {
    div_raw(
        sub_raw(neg_raw(quad_b(ray)), sqrt_raw(disc_raw(ray))),
        mul_raw(2 * SCALE as int, quad_a(ray)),
    )
}

/// The larger intersection parameter.
pub open spec fn quad_t2(ray: Ray) -> int {
    div_raw(
        add_raw(neg_raw(quad_b(ray)), sqrt_raw(disc_raw(ray))),
        mul_raw(2 * SCALE as int, quad_a(ray)),
    )
}

/// Doubling a positive bounded raw value through scalar multiplication by
/// two keeps it positive.
proof fn lemma_double_positive(a: int)
    requires
        0 < a <= MAX_RAW as int,
    ensures
        mul_raw(2 * SCALE as int, a) > 0,
{
    let s = SCALE as int;
    assert((2 * s) * a == (2 * a) * s) by (nonlinear_arith);
    assert(abs_raw((2 * s) * a) == 2 * a * s && 2 * a * s == (2 * a) * s) by (nonlinear_arith)
        requires
            0 < a,
            0 < s,
    {}
    lemma_fundamental_div_mod_converse((2 * a) * s + s / 2, s, 2 * a, s / 2);
    assert(crate::scalar::round_div_raw((2 * s) * a, s) == 2 * a);
}

impl Sphere {
    /// A unit sphere at the origin with a fresh opaque identity.
    pub fn new() -> Sphere {
        Sphere { id: random_id() }
    }

    /// Where the ray meets the unit sphere: nothing on a negative
    /// discriminant, otherwise exactly two records at the two quadratic
    /// roots, smaller first, both referring to this sphere. The direction
    /// must not dot to zero with itself, or the quadratic has no leading
    /// coefficient to divide by.
    pub fn intersect<'a>(&'a self, ray: Ray) -> (r: Option<Intersections<'a>>)
        requires
            quad_a(ray) != 0,
        ensures
            r is Some <==> disc_raw(ray) >= 0,
            r matches Some(ints) ==> {
                &&& ints.0@.len() == 2
                &&& ints.0@[0].t.raw as int == quad_t1(ray)
                &&& ints.0@[1].t.raw as int == quad_t2(ray)
                &&& ints.0@[0].object == self
                &&& ints.0@[1].object == self
            },
    {
        let sphere_to_ray = ray.origin.sub(Point::new(Scalar::zero(), Scalar::zero(), Scalar::zero()));
        let a = ray.direction.dot(&ray.direction);
        let two = Scalar::from_raw(2 * SCALE);
        let four = Scalar::from_raw(4 * SCALE);
        let b = two.mul(ray.direction.dot(&sphere_to_ray));
        let c = sphere_to_ray.dot(&sphere_to_ray).sub(Scalar::one());
        let discriminant = b.mul(b).sub(four.mul(a).mul(c));
        if discriminant.raw < 0 {
            return None;
        }
        proof {
            ray.direction.lemma_dot_self_nonneg();
            lemma_double_positive(a.raw as int);
        }
        let root = discriminant.sqrt();
        let denom = two.mul(a);
        let t1 = b.neg().sub(root).div(denom);
        let t2 = b.neg().add(root).div(denom);
        Some(
            Intersections(
                vec![Intersection { t: t1, object: self }, Intersection { t: t2, object: self }],
            ),
        )
    }
}

#[derive(Debug, Clone, Copy)]
pub struct Intersection<'a> {
    pub t: Scalar,
    pub object: &'a Sphere,
}

impl<'a> PartialEq for Intersection<'a> {
    /// The parameters are equal up to the tolerance and the records refer
    /// to the same sphere.
    fn eq(&self, rhs: &Self) -> (r: bool) {
        feq(self.t, rhs.t) && self.object.id == rhs.object.id
    }
}

impl<'a> vstd::std_specs::cmp::PartialEqSpecImpl for Intersection<'a> {
    open spec fn obeys_eq_spec() -> bool {
        true
    }

    open spec fn eq_spec(&self, rhs: &Intersection<'a>) -> bool {
        feq_raw(self.t.raw as int, rhs.t.raw as int) && self.object.id == rhs.object.id
    }
}

#[derive(Debug, Clone, PartialEq)]
pub struct Intersections<'a>(pub Vec<Intersection<'a>>);

/// The hit among the first records of the sequence, folded front to back:
/// a record with a strictly positive parameter replaces the candidate so
/// far when the candidate's parameter is not smaller.
pub open spec fn hit_spec<'a>(s: Seq<Intersection<'a>>) -> Option<Intersection<'a>>
    decreases s.len(),
{
    if s.len() == 0 {
        None
    } else {
        let prev = hit_spec(s.drop_last());
        let last = s.last();
        if last.t.raw > 0 {
            match prev {
                None => Some(last),
                Some(p) => if p.t.raw < last.t.raw {
                    Some(p)
                } else {
                    Some(last)
                },
            }
        } else {
            prev
        }
    }
}

/// What the fold guarantees: a hit has a strictly positive parameter, is
/// one of the records, and no record with a positive parameter comes
/// closer; no hit means no record lies in front of the ray.
pub proof fn lemma_hit_spec_props<'a>(s: Seq<Intersection<'a>>)
    ensures
        hit_spec(s) is None ==> forall|k: int| 0 <= k < s.len() ==> (#[trigger] s[k]).t.raw <= 0,
        hit_spec(s) matches Some(i) ==> {
            &&& i.t.raw > 0
            &&& exists|k: int| 0 <= k < s.len() && s[k] == i
            &&& forall|k: int|
                0 <= k < s.len() && (#[trigger] s[k]).t.raw > 0 ==> i.t.raw <= s[k].t.raw
        },
    decreases s.len(),
{
    if s.len() > 0 {
        lemma_hit_spec_props(s.drop_last());
        assert forall|k: int| 0 <= k < s.len() - 1 implies s.drop_last()[k] == s[k] by {}
    }
}

impl<'a> Intersections<'a> {
    /// How many intersection records the collection holds.
    pub fn len(&self) -> (r: usize)
        ensures
            r == self.0@.len(),
    {
        self.0.len()
    }

    /// The record of this collection with the smallest strictly positive
    /// parameter, or nothing when no parameter is positive.
    pub fn hit(&self) -> (r: Option<Intersection<'a>>)
        ensures
            r == hit_spec(self.0@),
            r is None ==> forall|k: int|
                0 <= k < self.0@.len() ==> (#[trigger] self.0@[k]).t.raw <= 0,
            r matches Some(i) ==> {
                &&& i.t.raw > 0
                &&& exists|k: int| 0 <= k < self.0@.len() && self.0@[k] == i
                &&& forall|k: int|
                    0 <= k < self.0@.len() && (#[trigger] self.0@[k]).t.raw > 0 ==> i.t.raw
                        <= self.0@[k].t.raw
            },
    {
        let mut ret: Option<Intersection<'a>> = None;
        let mut n: usize = 0;
        while n < self.0.len()
            invariant
                n <= self.0@.len(),
                ret == hit_spec(self.0@.subrange(0, n as int)),
            decreases self.0@.len() - n,
        {
            let intersection = self.0[n];
            if intersection.t.raw > 0 {
                ret = match ret {
                    None => Some(intersection),
                    Some(i) => {
                        if i.t.raw < intersection.t.raw {
                            Some(i)
                        } else {
                            Some(intersection)
                        }
                    },
                };
            }
            proof {
                assert(self.0@.subrange(0, n + 1).drop_last() =~= self.0@.subrange(0, n as int));
                assert(self.0@.subrange(0, n + 1).last() == self.0@[n as int]);
            }
            n = n + 1;
        }
        proof {
            assert(self.0@.subrange(0, self.0@.len() as int) =~= self.0@);
            lemma_hit_spec_props(self.0@);
        }
        ret
    }

    /// The record at position `n`.
    pub fn get(&self, n: usize) -> (r: Intersection<'a>)
        requires
            n < self.0@.len(),
        ensures
            r == self.0@[n as int],
    {
        self.0[n]
    }
}

} // verus!
