use vstd::prelude::*;

verus! {

/// `r` is a hit that a scene may report when its members `objects` are
/// tested in turn from the first, each below the bound that the hits
/// before it left, starting from bound `bound` with `best` the closest hit
/// so far. `hits(o, b, out)` holds when `out` may be the hit of member `o`
/// below bound `b`, and `time(rec, t)` when `t` may be the ray parameter of
/// hit `rec`.
pub open spec fn reduced<H, T, Rec>(
    hits: spec_fn(&H, T, Option<Rec>) -> bool,
    time: spec_fn(&Rec, T) -> bool,
    objects: Seq<H>,
    bound: T,
    best: Option<Rec>,
    r: Option<Rec>,
) -> bool
    decreases objects.len(),
{
    if objects.len() == 0 {
        r == best
    } else {
        exists|out: Option<Rec>|
            #[trigger] hits(&objects[0], bound, out) && match out {
                None => reduced(hits, time, objects.drop_first(), bound, best, r),
                Some(rec) => exists|t: T|
                    #[trigger] time(&rec, t) && reduced(
                        hits,
                        time,
                        objects.drop_first(),
                        t,
                        out,
                        r,
                    ),
            }
    }
}

/// A scene: its members, in the order they were added.
pub struct HittableList<H> {
    objects: Vec<H>,
}

impl<H> View for HittableList<H> {
    type V = Seq<H>;

    closed spec fn view(&self) -> Seq<H> {
        self.objects@
    }
}

impl<H> HittableList<H> {
    /// The empty scene.
    pub fn new() -> (r: HittableList<H>)
        ensures
            r@ == Seq::<H>::empty(),
    {
        HittableList { objects: Vec::new() }
    }

    /// Adds `el` after the members already there.
    pub fn add(&mut self, el: H)
        ensures
            final(self)@ == old(self)@.push(el),
    {
        self.objects.push(el);
    }

    /// Removes every member.
    pub fn clear(&mut self)
        ensures
            final(self)@ == Seq::<H>::empty(),
    {
        self.objects.clear();
    }

    /// The closest hit among the members. Each member is tested in turn by
    /// `hit`, below the ray parameter of the closest hit found so far
    /// (at first below `t_max`); `t_of` gives the ray parameter of a hit.
    pub fn hit<T, Rec, F, G>(&self, t_max: T, hit_member: &F, t_of: &G) -> (r: Option<Rec>) where
        T: Copy,
        F: Fn(&H, T) -> Option<Rec>,
        G: Fn(&Rec) -> T,

        requires
            forall|o: &H, b: T| call_requires(*hit_member, (o, b)),
            forall|rec: &Rec| call_requires(*t_of, (rec,)),
        ensures
            reduced(
                (|o: &H, b: T, out: Option<Rec>| call_ensures(*hit_member, (o, b), out)),
                (|rec: &Rec, t: T| call_ensures(*t_of, (rec,), t)),
                self@,
                t_max,
                None,
                r,
            ),
    {
        let ghost hits = |o: &H, b: T, out: Option<Rec>| call_ensures(*hit_member, (o, b), out);
        let ghost time = |rec: &Rec, t: T| call_ensures(*t_of, (rec,), t);
        let mut closest: T = t_max;
        let mut best: Option<Rec> = None;
        let mut i: usize = 0;
        assert(self.objects@.skip(0) =~= self.objects@);
        while i < self.objects.len()
            invariant
                i <= self.objects@.len(),
                hits == (|o: &H, b: T, out: Option<Rec>| call_ensures(*hit_member, (o, b), out)),
                time == (|rec: &Rec, t: T| call_ensures(*t_of, (rec,), t)),
                forall|o: &H, b: T| call_requires(*hit_member, (o, b)),
                forall|rec: &Rec| call_requires(*t_of, (rec,)),
                forall|r: Option<Rec>|
                    #[trigger] reduced(hits, time, self.objects@.skip(i as int), closest, best, r)
                        ==> reduced(hits, time, self.objects@, t_max, None, r),
            decreases self.objects@.len() - i,
        {
            let ghost rest = self.objects@.skip(i as int);
            let ghost bound = closest;
            let ghost before = best;
            let out = hit_member(&self.objects[i], closest);
            assert(hits(&self.objects@[i as int], bound, out));
            assert(rest[0] == self.objects@[i as int]);
            assert(rest.drop_first() =~= self.objects@.skip(i + 1));
            match out {
                Some(rec) => {
                    let t = t_of(&rec);
                    assert(time(&rec, t));
                    closest = t;
                    best = Some(rec);
                },
                None => {},
            }
            proof {
                assert forall|r: Option<Rec>|
                    #[trigger] reduced(hits, time, self.objects@.skip(i + 1), closest, best, r)
                        implies reduced(hits, time, self.objects@, t_max, None, r) by {
                    assert(reduced(hits, time, rest, bound, before, r));
                }
            }
            i = i + 1;
        }
        assert(self.objects@.skip(i as int) =~= Seq::<H>::empty());
        assert(reduced(hits, time, self.objects@.skip(i as int), closest, best, best));
        best
    }
}

/// The hit `nearest` reported below bound `b`: itself when its ray
/// parameter `t_of(..)` comes before `b` in order `lt`, else none.
pub open spec fn below<Rec, T>(
    nearest: Option<Rec>,
    t_of: spec_fn(Rec) -> T,
    lt: spec_fn(T, T) -> bool,
    b: T,
) -> Option<Rec> {
    match nearest {
        Some(rec) => if lt(t_of(rec), b) {
            Some(rec)
        } else {
            None
        },
        None => None,
    }
}

/// The members behave as surfaces: each hit has one ray parameter, `lt`
/// is a strict order, and a member tested below bound `b` reports its
/// nearest hit exactly when that hit comes before `b`.
pub open spec fn surfaces<H, T, Rec>(
    hits: spec_fn(&H, T, Option<Rec>) -> bool,
    time: spec_fn(&Rec, T) -> bool,
    nearest: spec_fn(H) -> Option<Rec>,
    t_of: spec_fn(Rec) -> T,
    lt: spec_fn(T, T) -> bool,
) -> bool {
    &&& forall|a: T| !#[trigger] lt(a, a)
    &&& forall|a: T, b: T, c: T| #[trigger] lt(a, b) && #[trigger] lt(b, c) ==> lt(a, c)
    &&& forall|rec: &Rec, t: T| #[trigger] time(rec, t) ==> t == t_of(*rec)
    &&& forall|o: &H, b: T, out: Option<Rec>|
        #[trigger] hits(o, b, out) ==> out == below(nearest(*o), t_of, lt, b)
}

proof fn lemma_reduced_closest<H, T, Rec>(
    hits: spec_fn(&H, T, Option<Rec>) -> bool,
    time: spec_fn(&Rec, T) -> bool,
    nearest: spec_fn(H) -> Option<Rec>,
    t_of: spec_fn(Rec) -> T,
    lt: spec_fn(T, T) -> bool,
    objects: Seq<H>,
    bound: T,
    best: Option<Rec>,
    r: Option<Rec>,
)
    requires
        surfaces(hits, time, nearest, t_of, lt),
        reduced(hits, time, objects, bound, best, r),
        best matches Some(rb) ==> t_of(rb) == bound,
    ensures
        forall|j: int|
            0 <= j < objects.len() ==> below(
                #[trigger] nearest(objects[j]),
                t_of,
                lt,
                match r {
                    Some(x) => t_of(x),
                    None => bound,
                },
            ) is None,
        r == best || (r matches Some(rec) && lt(t_of(rec), bound) && exists|j: int|
            0 <= j < objects.len() && #[trigger] nearest(objects[j]) == Some(rec)),
    decreases objects.len(),
{
    let fb = match r {
        Some(x) => t_of(x),
        None => bound,
    };
    if objects.len() > 0 {
        let rest = objects.drop_first();
        let out = choose|out: Option<Rec>|
            #[trigger] hits(&objects[0], bound, out) && match out {
                None => reduced(hits, time, rest, bound, best, r),
                Some(rec) => exists|t: T|
                    #[trigger] time(&rec, t) && reduced(hits, time, rest, t, out, r),
            };
        assert(out == below(nearest(objects[0]), t_of, lt, bound));
        match out {
            None => {
                lemma_reduced_closest(hits, time, nearest, t_of, lt, rest, bound, best, r);
                assert forall|j: int| 0 <= j < objects.len() implies below(
                    #[trigger] nearest(objects[j]),
                    t_of,
                    lt,
                    fb,
                ) is None by {
                    if j > 0 {
                        assert(objects[j] == rest[j - 1]);
                    } else if let Some(h) = nearest(objects[0]) {
                        if fb != bound {
                            if lt(t_of(h), fb) {
                                assert(lt(t_of(h), bound));
                            }
                        }
                    }
                }
                if r != best {
                    let rec = r->Some_0;
                    let j = choose|j: int| 0 <= j < rest.len() && #[trigger] nearest(rest[j]) == Some(rec);
                    assert(objects[j + 1] == rest[j]);
                }
            },
            Some(rec0) => {
                let t = choose|t: T| #[trigger] time(&rec0, t) && reduced(hits, time, rest, t, out, r);
                lemma_reduced_closest(hits, time, nearest, t_of, lt, rest, t, out, r);
                assert(r is Some);
                assert forall|j: int| 0 <= j < objects.len() implies below(
                    #[trigger] nearest(objects[j]),
                    t_of,
                    lt,
                    fb,
                ) is None by {
                    if j > 0 {
                        assert(objects[j] == rest[j - 1]);
                    } else if r != out {
                        if lt(t_of(rec0), fb) {
                            assert(lt(fb, fb));
                        }
                    }
                }
                if r != out {
                    let rec = r->Some_0;
                    let j = choose|j: int| 0 <= j < rest.len() && #[trigger] nearest(rest[j]) == Some(rec);
                    assert(objects[j + 1] == rest[j]);
                    assert(lt(t_of(rec), bound));
                } else {
                    assert(nearest(objects[0]) == Some(rec0));
                }
            },
        }
    }
}

/// The scene reports the closest of its members' hits below `t_max`: none
/// when no member has a hit there, and otherwise a hit of some member that
/// no other member's hit comes before.
pub proof fn lemma_closest_hit_wins<H, T, Rec>(
    hits: spec_fn(&H, T, Option<Rec>) -> bool,
    time: spec_fn(&Rec, T) -> bool,
    nearest: spec_fn(H) -> Option<Rec>,
    t_of: spec_fn(Rec) -> T,
    lt: spec_fn(T, T) -> bool,
    objects: Seq<H>,
    t_max: T,
    r: Option<Rec>,
)
    requires
        surfaces(hits, time, nearest, t_of, lt),
        reduced(hits, time, objects, t_max, None, r),
    ensures
        r is None ==> forall|j: int|
            0 <= j < objects.len() ==> below(#[trigger] nearest(objects[j]), t_of, lt, t_max) is None,
        r matches Some(rec) ==> {
            &&& lt(t_of(rec), t_max)
            &&& exists|j: int| 0 <= j < objects.len() && #[trigger] nearest(objects[j]) == Some(rec)
            &&& forall|j: int|
                0 <= j < objects.len() ==> below(#[trigger] nearest(objects[j]), t_of, lt, t_of(rec))
                    is None
        },
{
    lemma_reduced_closest(hits, time, nearest, t_of, lt, objects, t_max, None, r);
}

} // verus!
