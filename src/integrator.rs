use vstd::prelude::*;

verus! {

/// What becomes of a ray cast into a scene.
pub enum Bounce<R, C> {
    /// It meets no surface.
    Escapes,
    /// It meets a surface that absorbs it.
    Absorbed,
    /// It meets a surface that sends out `ray`; what that ray gathers is
    /// attenuated by `attenuation`.
    Scattered { attenuation: C, ray: R },
}

/// `c` is a color that `ray_color` may return for `ray` with `depth` bounces
/// left, where `bounces(x, e)` holds when `e` may become of ray `x`,
/// `sky(x, c)` when `c` may be the color of the sky seen along `x`, and
/// `attenuates(a, g, c)` when `c` may be color `g` attenuated by `a`.
pub open spec fn traced<R, C>(
    bounces: spec_fn(R, Bounce<R, C>) -> bool,
    sky: spec_fn(R, C) -> bool,
    attenuates: spec_fn(C, C, C) -> bool,
    black: C,
    ray: R,
    depth: nat,
    c: C,
) -> bool
    decreases depth,
{
    if depth == 0 {
        c == black
    } else {
        exists|e: Bounce<R, C>|
            #[trigger] bounces(ray, e) && match e {
                Bounce::Escapes => sky(ray, c),
                Bounce::Absorbed => c == black,
                Bounce::Scattered { attenuation, ray: next } => exists|g: C|
                    traced(bounces, sky, attenuates, black, next, (depth - 1) as nat, g)
                        && #[trigger] attenuates(attenuation, g, c),
            }
    }
}

/// The radiance that `ray` brings back with at most `depth` bounces: black
/// when no bounce is left or the ray is absorbed, the sky where it escapes,
/// and otherwise the attenuation applied to what the scattered ray brings
/// back with one bounce less.
pub fn ray_color<R, C, B, S, A>(
    ray: R,
    depth: u32,
    black: C,
    bounce: &B,
    sky: &S,
    attenuate: &A,
) -> (r: C) where
    R: Copy,
    C: Copy,
    B: Fn(R) -> Bounce<R, C>,
    S: Fn(R) -> C,
    A: Fn(C, C) -> C,

    requires
        forall|x: R| call_requires(*bounce, (x,)),
        forall|x: R| call_requires(*sky, (x,)),
        forall|a: C, c: C| call_requires(*attenuate, (a, c)),
    ensures
        traced(
            (|x: R, e: Bounce<R, C>| call_ensures(*bounce, (x,), e)),
            (|x: R, c: C| call_ensures(*sky, (x,), c)),
            (|a: C, g: C, c: C| call_ensures(*attenuate, (a, g), c)),
            black,
            ray,
            depth as nat,
            r,
        ),
        depth == 0 ==> r == black,
    decreases depth,
{
    let ghost bounces = |x: R, e: Bounce<R, C>| call_ensures(*bounce, (x,), e);
    let ghost seen = |x: R, c: C| call_ensures(*sky, (x,), c);
    let ghost attenuates = |a: C, g: C, c: C| call_ensures(*attenuate, (a, g), c);
    if depth == 0 {
        return black;
    }
    let e = bounce(ray);
    assert(bounces(ray, e));
    match e {
        Bounce::Escapes => {
            let c = sky(ray);
            assert(seen(ray, c));
            c
        },
        Bounce::Absorbed => black,
        Bounce::Scattered { attenuation, ray: next } => {
            let g = ray_color(next, depth - 1, black, bounce, sky, attenuate);
            let c = attenuate(attenuation, g);
            assert(attenuates(attenuation, g, c));
            assert(traced(bounces, seen, attenuates, black, next, (depth - 1) as nat, g));
            c
        },
    }
}

/// With no bounce left, the only color a ray can bring back is black,
/// whatever the scene.
pub proof fn lemma_no_depth_is_black<R, C>(
    bounces: spec_fn(R, Bounce<R, C>) -> bool,
    sky: spec_fn(R, C) -> bool,
    attenuates: spec_fn(C, C, C) -> bool,
    black: C,
    ray: R,
    c: C,
)
    requires
        traced(bounces, sky, attenuates, black, ray, 0, c),
    ensures
        c == black,
{
}

/// A ray that meets no surface, with at least one bounce left, brings back
/// the color of the sky along it, whatever else the scene holds.
pub proof fn lemma_escaping_ray_sees_sky<R, C>(
    bounces: spec_fn(R, Bounce<R, C>) -> bool,
    sky: spec_fn(R, C) -> bool,
    attenuates: spec_fn(C, C, C) -> bool,
    black: C,
    ray: R,
    depth: nat,
    c: C,
)
    requires
        depth > 0,
        forall|e: Bounce<R, C>| #[trigger] bounces(ray, e) ==> e == Bounce::<R, C>::Escapes,
        traced(bounces, sky, attenuates, black, ray, depth, c),
    ensures
        sky(ray, c),
{
}

/// A ray that meets a surface that absorbs it brings back black.
pub proof fn lemma_absorbed_ray_is_black<R, C>(
    bounces: spec_fn(R, Bounce<R, C>) -> bool,
    sky: spec_fn(R, C) -> bool,
    attenuates: spec_fn(C, C, C) -> bool,
    black: C,
    ray: R,
    depth: nat,
    c: C,
)
    requires
        forall|e: Bounce<R, C>| #[trigger] bounces(ray, e) ==> e == Bounce::<R, C>::Absorbed,
        traced(bounces, sky, attenuates, black, ray, depth, c),
    ensures
        c == black,
{
}

} // verus!
