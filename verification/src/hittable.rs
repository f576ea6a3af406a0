//! Surfaces that a ray can meet, and the scene as a list of them, in which
//! the nearest hit wins and an exact tie is won by the earlier surface.
use vstd::prelude::*;
use vstd::std_specs::ops::NegSpec;
use core::ops::Neg;
use crate::ray::Ray;
use crate::scalar::{
    at_most, below, exact, lemma_ranked_total, lemma_ranked_transitive, lt_gives, number,
    number_gives, number_spec, ordered, ranked, Scalar,
};
use crate::vec3::{dot_gives, dot_req, dot_spec, reversed_gives, Point3, Vec3};

verus! {

/// What is known of the place where a ray meets a surface.
pub struct HitRecord<S, M> {
    /// Where the ray meets the surface.
    pub point: Point3<S>,
    /// The surface normal there, turned against the incoming ray.
    pub normal: Vec3<S>,
    /// The material of the surface.
    pub material: M,
    /// The ray's parameter at the meeting point.
    pub t: S,
    /// Whether the ray arrives on the side to which the surface's outward
    /// normal points.
    pub front_face: bool,
}

/// Whether a ray along `dir` can be found to arrive at a surface with the
/// outward normal `outward` on the side `front_face`, and be opposed by the
/// normal `normal`, by way of the dot product `d` of the two and of the
/// scalar `zero` for the number zero.
pub open spec fn facing_by<S: Scalar>(
    dir: Vec3<S>,
    outward: Vec3<S>,
    d: S,
    zero: S,
    front_face: bool,
    normal: Vec3<S>,
) -> bool {
    &&& dot_gives(dir, outward, d)
    &&& number_gives(0, zero)
    &&& lt_gives(d, zero, front_face)
    &&& if front_face {
        normal == outward
    } else {
        reversed_gives(outward, normal)
    }
}

/// Whether a ray along `dir` can be found to arrive at a surface with the
/// outward normal `outward` on the side `front_face`, and be opposed by the
/// normal `normal`: the front face is the one on which the dot product of
/// `dir` and `outward` is below zero, and `normal` is `outward` there and
/// `outward` turned round on the back face.
pub open spec fn facing_gives<S: Scalar>(
    dir: Vec3<S>,
    outward: Vec3<S>,
    front_face: bool,
    normal: Vec3<S>,
) -> bool {
    exists|d: S, zero: S| #[trigger] facing_by(dir, outward, d, zero, front_face, normal)
}

/// Whether a ray along `dir` arrives on the front face of a surface with
/// the outward normal `outward`, over scalars whose arithmetic is exact and
/// whose tests go by their order: whether the dot product of the two is
/// below zero.
pub open spec fn front_face_spec<S: Scalar>(dir: Vec3<S>, outward: Vec3<S>) -> bool {
    below(dot_spec(dir, outward), number_spec::<S>(0))
}

/// The normal that opposes a ray along `dir` at a surface with the outward
/// normal `outward`, over such scalars: `outward` on the front face, and
/// `outward` turned round on the back.
pub open spec fn facing_normal_spec<S: Scalar>(dir: Vec3<S>, outward: Vec3<S>) -> Vec3<S> {
    if front_face_spec(dir, outward) {
        outward
    } else {
        NegSpec::neg_spec(outward)
    }
}

/// Whether the side on which a ray along `dir` arrives can be found: the dot
/// product of `dir` and `outward` can be formed, and `outward` can be turned
/// round where the ray arrives on the back face.
pub open spec fn facing_req<S: Scalar>(dir: Vec3<S>, outward: Vec3<S>) -> bool {
    &&& dot_req(dir, outward)
    &&& forall|d: S, zero: S|
        #![trigger dot_gives(dir, outward, d), lt_gives(d, zero, false)]
        dot_gives(dir, outward, d) && number_gives(0, zero) && lt_gives(d, zero, false)
            ==> outward.neg_req()
}

impl<S: Scalar, M> HitRecord<S, M> {
    /// Records on which side of the surface the ray `r` arrives, and stores
    /// the normal that opposes it.
    ///
    /// The ray arrives on the front face where its direction and
    /// `outward_normal` have a dot product below zero. The normal stored is
    /// `outward_normal` there, and `outward_normal` turned round where the
    /// ray arrives on the back face.
    pub fn set_face_normal(&mut self, r: &Ray<S>, outward_normal: &Vec3<S>)
        requires
            facing_req(r.dir, *outward_normal),
        ensures
            facing_gives(r.dir, *outward_normal, final(self).front_face, final(self).normal),
            exact::<S>() && ordered::<S>() ==> final(self).front_face == front_face_spec(
                r.dir,
                *outward_normal,
            ) && final(self).normal == facing_normal_spec(r.dir, *outward_normal),
            final(self).point == old(self).point,
            final(self).material == old(self).material,
            final(self).t == old(self).t,
    {
        let d = r.dir().dot(outward_normal);
        let zero: S = number(0);
        let front_face = d < zero;
        proof {
            assert(dot_gives(r.dir, *outward_normal, d) && lt_gives(d, zero, front_face));
        }
        self.front_face = front_face;
        if front_face {
            self.normal = *outward_normal;
        } else {
            self.normal = outward_normal.neg();
        }
        proof {
            assert(facing_by(r.dir, *outward_normal, d, zero, self.front_face, self.normal));
        }
    }
}

/// A surface that a ray can meet.
pub trait Hittable<S, M> {
    /// Where `r` meets the surface at a parameter between `t_min` and
    /// `t_max`, if it does.
    fn hit(&self, r: &Ray<S>, t_min: S, t_max: S) -> Option<HitRecord<S, M>>;
}

/// Whether `answer` is one that `object` can give when asked where `r` meets
/// it between `t_min` and `t_max`.
pub open spec fn hit_gives<S, M, H: Hittable<S, M>>(
    object: H,
    r: Ray<S>,
    t_min: S,
    t_max: S,
    answer: Option<HitRecord<S, M>>,
) -> bool {
    call_ensures(H::hit, (&object, &r, t_min, t_max), answer)
}

/// The upper end of the search window while the hit `best` is kept: its
/// parameter, and `t_max` while none is kept.
pub open spec fn window_end<S, M>(best: Option<HitRecord<S, M>>, t_max: S) -> S {
    match best {
        Some(rec) => rec.t,
        None => t_max,
    }
}

/// The last hit among `kept`.
pub open spec fn last_hit<S, M>(kept: Seq<Option<HitRecord<S, M>>>) -> Option<HitRecord<S, M>>
    decreases kept.len(),
{
    if kept.len() == 0 {
        None
    } else {
        match kept.last() {
            Some(rec) => Some(rec),
            None => last_hit(kept.drop_last()),
        }
    }
}

/// Whether the answer `found` of a surface, met while the hit `best` is
/// kept, can be kept or dropped as `kept` says, `kept` being `found` where it
/// is kept and nothing where it is dropped.
///
/// A miss is dropped. A hit is kept where none is kept yet, and else where
/// the test of its parameter for being below that of `best` holds.
pub open spec fn keeps_gives<S: PartialOrd, M>(
    best: Option<HitRecord<S, M>>,
    found: Option<HitRecord<S, M>>,
    kept: Option<HitRecord<S, M>>,
) -> bool {
    match found {
        None => kept is None,
        Some(rec) => match best {
            None => kept == Some(rec),
            Some(b) => {
                ||| lt_gives(rec.t, b.t, true) && kept == Some(rec)
                ||| lt_gives(rec.t, b.t, false) && kept is None
            },
        },
    }
}

/// Whether `outs` can be the answers of `objects`, asked in order, and
/// `kept` what is kept of them: each surface is asked for the window from
/// `t_min` to the parameter of the hit kept so far, and its answer is kept
/// where it is a hit and no hit is kept yet, or a hit whose parameter is
/// found below that of the hit kept.
pub open spec fn sweep<S: PartialOrd, M, H: Hittable<S, M>>(
    objects: Seq<H>,
    r: Ray<S>,
    t_min: S,
    t_max: S,
    outs: Seq<Option<HitRecord<S, M>>>,
    kept: Seq<Option<HitRecord<S, M>>>,
) -> bool {
    &&& outs.len() == objects.len()
    &&& kept.len() == objects.len()
    &&& forall|i: int|
        0 <= i < objects.len() ==> {
            &&& hit_gives(
                objects[i],
                r,
                t_min,
                window_end(last_hit(kept.take(i)), t_max),
                #[trigger] outs[i],
            )
            &&& keeps_gives(last_hit(kept.take(i)), outs[i], kept[i])
        }
}

/// Whether `answer` is what a sweep over `objects` can end with: the last
/// hit that it keeps.
pub open spec fn sweep_gives<S: PartialOrd, M, H: Hittable<S, M>>(
    objects: Seq<H>,
    r: Ray<S>,
    t_min: S,
    t_max: S,
    answer: Option<HitRecord<S, M>>,
) -> bool {
    exists|outs: Seq<Option<HitRecord<S, M>>>, kept: Seq<Option<HitRecord<S, M>>>|
        #[trigger] sweep(objects, r, t_min, t_max, outs, kept) && answer == last_hit(kept)
}

/// The nearest hit among the answers `outs`, over scalars whose tests go by
/// their order: of the hits with the least parameter the earliest. A later
/// hit takes the place of an earlier one only where its parameter is
/// strictly below.
pub open spec fn nearest_hit<S: PartialOrd, M>(outs: Seq<Option<HitRecord<S, M>>>) -> Option<
    HitRecord<S, M>,
>
    decreases outs.len(),
{
    if outs.len() == 0 {
        None
    } else {
        match outs.last() {
            None => nearest_hit(outs.drop_last()),
            Some(rec) => match nearest_hit(outs.drop_last()) {
                None => Some(rec),
                Some(best) => if below(rec.t, best.t) {
                    Some(rec)
                } else {
                    Some(best)
                },
            },
        }
    }
}

/// Whether `outs` can be the answers of `objects`, asked in order, over
/// scalars whose tests go by their order: each surface is asked for the
/// window from `t_min` to the parameter of the nearest hit before it, or to
/// `t_max` where there is none.
#[verifier::opaque]
pub open spec fn nearest_sweep<S: PartialOrd, M, H: Hittable<S, M>>(
    objects: Seq<H>,
    r: Ray<S>,
    t_min: S,
    t_max: S,
    outs: Seq<Option<HitRecord<S, M>>>,
) -> bool {
    &&& outs.len() == objects.len()
    &&& forall|i: int|
        0 <= i < objects.len() ==> hit_gives(
            objects[i],
            r,
            t_min,
            window_end(nearest_hit(outs.take(i)), t_max),
            #[trigger] outs[i],
        )
}

/// Whether `answer` is what a sweep over `objects` ends with, over scalars
/// whose tests go by their order: the nearest hit among the answers, and of
/// several nearest hits the earliest.
pub open spec fn nearest_sweep_gives<S: PartialOrd, M, H: Hittable<S, M>>(
    objects: Seq<H>,
    r: Ray<S>,
    t_min: S,
    t_max: S,
    answer: Option<HitRecord<S, M>>,
) -> bool {
    exists|outs: Seq<Option<HitRecord<S, M>>>|
        #[trigger] nearest_sweep(objects, r, t_min, t_max, outs) && answer == nearest_hit(outs)
}

/// In a sweep each answer is one that its surface can give for the window
/// that the nearest hit before it leaves.
pub proof fn lemma_nearest_sweep_at<S: PartialOrd, M, H: Hittable<S, M>>(
    objects: Seq<H>,
    r: Ray<S>,
    t_min: S,
    t_max: S,
    outs: Seq<Option<HitRecord<S, M>>>,
    i: int,
)
    requires
        nearest_sweep(objects, r, t_min, t_max, outs),
        0 <= i < objects.len(),
    ensures
        outs.len() == objects.len(),
        hit_gives(objects[i], r, t_min, window_end(nearest_hit(outs.take(i)), t_max), outs[i]),
{
    reveal(nearest_sweep);
}

/// A sweep has one answer for each surface.
pub proof fn lemma_nearest_sweep_len<S: PartialOrd, M, H: Hittable<S, M>>(
    objects: Seq<H>,
    r: Ray<S>,
    t_min: S,
    t_max: S,
    outs: Seq<Option<HitRecord<S, M>>>,
)
    requires
        nearest_sweep(objects, r, t_min, t_max, outs),
    ensures
        outs.len() == objects.len(),
{
    reveal(nearest_sweep);
}

/// Among answers that are all misses there is no nearest hit.
pub proof fn lemma_all_missed<S: PartialOrd, M>(outs: Seq<Option<HitRecord<S, M>>>)
    requires
        forall|i: int| 0 <= i < outs.len() ==> outs[i] is None,
    ensures
        nearest_hit(outs) is None,
    decreases outs.len(),
{
    if outs.len() > 0 {
        lemma_all_missed(outs.drop_last());
    }
}

/// Whether the hit `best` is the earliest among the hits of least parameter
/// in `outs`: it stands at some place `k`, every hit before it has a
/// parameter strictly above its own, and every hit after it has a parameter
/// that is not below its own.
pub open spec fn earliest_of_least<S: PartialOrd, M>(
    outs: Seq<Option<HitRecord<S, M>>>,
    best: HitRecord<S, M>,
    k: int,
) -> bool {
    &&& 0 <= k < outs.len()
    &&& outs[k] == Some(best)
    &&& forall|j: int|
        0 <= j < k ==> (#[trigger] outs[j] matches Some(rec) ==> below(best.t, rec.t))
    &&& forall|j: int|
        k < j < outs.len() ==> (#[trigger] outs[j] matches Some(rec) ==> at_most(best.t, rec.t))
}

/// The nearest hit wins, and an exact tie is won by the earlier surface:
/// over scalars that their order ranks, the nearest hit among the answers
/// is there as soon as one answer is a hit, its parameter is at most that
/// of every hit, and it is the earliest of the hits that have its
/// parameter.
pub proof fn lemma_nearest_hit_is_earliest_of_least<S: PartialOrd, M>(
    outs: Seq<Option<HitRecord<S, M>>>,
)
    requires
        ranked::<S>(),
    ensures
        nearest_hit(outs) is None <==> forall|i: int| 0 <= i < outs.len() ==> outs[i] is None,
        nearest_hit(outs) matches Some(best) ==> exists|k: int| #[trigger]
            earliest_of_least(outs, best, k),
        nearest_hit(outs) matches Some(best) ==> forall|i: int|
            0 <= i < outs.len() ==> (#[trigger] outs[i] matches Some(rec) ==> at_most(
                best.t,
                rec.t,
            )),
    decreases outs.len(),
{
    if outs.len() > 0 {
        let front = outs.drop_last();
        let last = outs.len() - 1;
        lemma_nearest_hit_is_earliest_of_least(front);
        assert forall|i: int| 0 <= i < front.len() implies front[i] == outs[i] by {}
        match outs.last() {
            None => {
                if let Some(best) = nearest_hit(front) {
                    let k = choose|k: int| #[trigger] earliest_of_least(front, best, k);
                    assert(earliest_of_least(outs, best, k)) by {
                        assert(outs[k] == front[k]);
                        assert forall|j: int| 0 <= j < k implies (#[trigger] outs[j] matches Some(
                            rec,
                        ) ==> below(best.t, rec.t)) by {
                            assert(outs[j] == front[j]);
                        }
                        assert forall|j: int| k < j < outs.len() implies (#[trigger] outs[j] matches Some(
                            rec,
                        ) ==> at_most(best.t, rec.t)) by {
                            if j < last {
                                assert(outs[j] == front[j]);
                            }
                        }
                    }
                    assert forall|i: int| 0 <= i < outs.len() implies (#[trigger] outs[i] matches Some(
                        rec,
                    ) ==> at_most(best.t, rec.t)) by {
                        if i < last {
                            assert(outs[i] == front[i]);
                        }
                    }
                } else {
                    assert forall|i: int| 0 <= i < outs.len() implies outs[i] is None by {
                        if i < last {
                            assert(outs[i] == front[i]);
                        }
                    }
                }
            },
            Some(rec) => {
                assert(outs[last] == Some(rec));
                lemma_ranked_total(rec.t, rec.t);
                match nearest_hit(front) {
                    None => {
                        assert(earliest_of_least(outs, rec, last)) by {
                            assert forall|j: int| 0 <= j < last implies (#[trigger] outs[j] matches Some(
                                e,
                            ) ==> below(rec.t, e.t)) by {
                                assert(front[j] is None);
                            }
                        }
                        assert forall|i: int| 0 <= i < outs.len() implies (#[trigger] outs[i] matches Some(
                            e,
                        ) ==> at_most(rec.t, e.t)) by {
                            if i < last {
                                assert(front[i] is None);
                            }
                        }
                    },
                    Some(best) => {
                        let k = choose|k: int| #[trigger] earliest_of_least(front, best, k);
                        lemma_ranked_total(rec.t, best.t);
                        if below(rec.t, best.t) {
                            assert(at_most(rec.t, best.t));
                            assert forall|i: int| 0 <= i < outs.len() implies (#[trigger] outs[i] matches Some(
                                e,
                            ) ==> at_most(rec.t, e.t)) by {
                                if i < last {
                                    assert(outs[i] == front[i]);
                                    if let Some(e) = front[i] {
                                        assert(at_most(best.t, e.t));
                                        lemma_ranked_transitive(rec.t, best.t, e.t);
                                    }
                                }
                            }
                            assert(earliest_of_least(outs, rec, last)) by {
                                assert forall|j: int| 0 <= j < last implies (#[trigger] outs[j] matches Some(
                                    e,
                                ) ==> below(rec.t, e.t)) by {
                                    assert(outs[j] == front[j]);
                                    if let Some(e) = front[j] {
                                        assert(at_most(best.t, e.t));
                                        lemma_ranked_total(rec.t, e.t);
                                        if at_most(e.t, rec.t) {
                                            lemma_ranked_transitive(best.t, e.t, rec.t);
                                        }
                                    }
                                }
                            }
                        } else {
                            assert(at_most(best.t, rec.t));
                            assert(earliest_of_least(outs, best, k)) by {
                                assert(outs[k] == front[k]);
                                assert forall|j: int| 0 <= j < k implies (#[trigger] outs[j] matches Some(
                                    e,
                                ) ==> below(best.t, e.t)) by {
                                    assert(outs[j] == front[j]);
                                }
                                assert forall|j: int| k < j < outs.len() implies (#[trigger] outs[j] matches Some(
                                    e,
                                ) ==> at_most(best.t, e.t)) by {
                                    if j < last {
                                        assert(outs[j] == front[j]);
                                    }
                                }
                            }
                            assert forall|i: int| 0 <= i < outs.len() implies (#[trigger] outs[i] matches Some(
                                e,
                            ) ==> at_most(best.t, e.t)) by {
                                if i < last {
                                    assert(outs[i] == front[i]);
                                }
                            }
                        }
                    },
                }
            },
        }
    }
}

/// The surfaces of a scene, in the order in which a ray is tried on them.
pub struct HittableList<H> {
    objects: Vec<H>,
}

impl<H> View for HittableList<H> {
    type V = Seq<H>;

    /// The surfaces, first added first.
    closed spec fn view(&self) -> Seq<H> {
        self.objects@
    }
}

impl<H> HittableList<H> {
    /// The list without a surface.
    pub fn new() -> (list: Self)
        ensures
            list@ == Seq::<H>::empty(),
    {
        HittableList { objects: Vec::new() }
    }

    /// Puts `object` behind the surfaces that the list holds.
    pub fn add(&mut self, object: H)
        ensures
            final(self)@ == old(self)@.push(object),
    {
        self.objects.push(object);
    }

    /// Takes every surface out of the list.
    pub fn clear(&mut self)
        ensures
            final(self)@ == Seq::<H>::empty(),
    {
        self.objects.clear();
    }

    /// How many surfaces the list holds.
    pub fn len(&self) -> (n: usize)
        ensures
            n == self@.len(),
    {
        self.objects.len()
    }
}

impl<S: Copy + PartialOrd, M, H: Hittable<S, M>> Hittable<S, M> for HittableList<H> {
    /// Tries the ray on every surface in order and keeps the nearest hit.
    /// Each surface is asked for a hit between `t_min` and the parameter of
    /// the hit kept so far, `t_max` while there is none. A hit is kept where
    /// none is kept yet, and else only where its parameter is strictly below
    /// that of the hit kept: of two surfaces that the ray meets at the same
    /// parameter the earlier one wins.
    fn hit(&self, r: &Ray<S>, t_min: S, t_max: S) -> (res: Option<HitRecord<S, M>>)
        ensures
            sweep_gives(self@, *r, t_min, t_max, res),
            ordered::<S>() ==> nearest_sweep_gives(self@, *r, t_min, t_max, res),
            self@.len() == 0 ==> res is None,
    {
        let mut temp_rec: Option<HitRecord<S, M>> = None;
        let mut closest_so_far = t_max;
        let ghost mut outs: Seq<Option<HitRecord<S, M>>> = Seq::empty();
        let ghost mut kept: Seq<Option<HitRecord<S, M>>> = Seq::empty();
        let n = self.objects.len();
        let mut i: usize = 0;
        while i < n
            invariant
                i <= n,
                n == self.objects@.len(),
                outs.len() == i,
                kept.len() == i,
                temp_rec == last_hit(kept),
                closest_so_far == window_end(temp_rec, t_max),
                ordered::<S>() ==> last_hit(kept) == nearest_hit(outs),
                forall|j: int|
                    0 <= j < i ==> {
                        &&& hit_gives(
                            self.objects@[j],
                            *r,
                            t_min,
                            window_end(last_hit(kept.take(j)), t_max),
                            #[trigger] outs[j],
                        )
                        &&& keeps_gives(last_hit(kept.take(j)), outs[j], kept[j])
                    },
                ordered::<S>() ==> forall|j: int|
                    0 <= j < i ==> hit_gives(
                        self.objects@[j],
                        *r,
                        t_min,
                        window_end(nearest_hit(outs.take(j)), t_max),
                        #[trigger] outs[j],
                    ),
            decreases n - i,
        {
            let found = self.objects[i].hit(r, t_min, closest_so_far);
            let ghost outs_before = outs;
            let ghost kept_before = kept;
            let ghost best_before = temp_rec;
            let ghost answer = found;
            let ghost mut keeping: Option<HitRecord<S, M>> = None;
            if let Some(rec) = found {
                let closer = match &temp_rec {
                    None => true,
                    Some(best) => rec.t < best.t,
                };
                if closer {
                    proof {
                        keeping = Some(rec);
                    }
                    closest_so_far = rec.t;
                    temp_rec = Some(rec);
                }
            }
            proof {
                outs = outs_before.push(answer);
                kept = kept_before.push(keeping);
                assert(outs.drop_last() =~= outs_before);
                assert(kept.drop_last() =~= kept_before);
                assert(outs.take(i as int) =~= outs_before);
                assert(kept.take(i as int) =~= kept_before);
                assert(keeps_gives(best_before, answer, keeping));
                assert forall|j: int| 0 <= j < i + 1 implies {
                    &&& hit_gives(
                        self.objects@[j],
                        *r,
                        t_min,
                        window_end(last_hit(kept.take(j)), t_max),
                        #[trigger] outs[j],
                    )
                    &&& keeps_gives(last_hit(kept.take(j)), outs[j], kept[j])
                } by {
                    if j < i {
                        assert(kept.take(j) =~= kept_before.take(j));
                        assert(outs[j] == outs_before[j]);
                        assert(kept[j] == kept_before[j]);
                    }
                }
                if ordered::<S>() {
                    assert forall|j: int| 0 <= j < i + 1 implies hit_gives(
                        self.objects@[j],
                        *r,
                        t_min,
                        window_end(nearest_hit(outs.take(j)), t_max),
                        #[trigger] outs[j],
                    ) by {
                        if j < i {
                            assert(outs.take(j) =~= outs_before.take(j));
                            assert(outs[j] == outs_before[j]);
                        }
                    }
                }
            }
            i += 1;
        }
        proof {
            assert(outs.take(n as int) =~= outs);
            assert(sweep(self@, *r, t_min, t_max, outs, kept));
            if ordered::<S>() {
                assert(nearest_sweep(self@, *r, t_min, t_max, outs)) by {
                    reveal(nearest_sweep);
                }
            }
        }
        temp_rec
    }
}

} // verus!
