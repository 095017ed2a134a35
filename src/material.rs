use vstd::prelude::*;

verus! {

/// A diffuse material. It scatters every ray that reaches it, and the
/// radiance gathered along the scattered ray is attenuated by its albedo.
/// The color type `C` is left to the caller.
pub struct Lambertian<C> {
    pub albedo: C,
}

impl<C: Copy> Lambertian<C> {
    /// The diffuse material of the given albedo.
    pub fn from(albedo: C) -> (r: Lambertian<C>)
        ensures
            r.albedo == albedo,
    {
        Lambertian { albedo }
    }

    /// The attenuation of a scattered ray: the albedo, whatever the ray.
    pub fn attenuation(&self) -> (r: C)
        ensures
            r == self.albedo,
    {
        self.albedo
    }
}

} // verus!
