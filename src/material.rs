use vstd::prelude::*;

verus! {

/// A ray leaving a surface: the colour factor applied to the light it brings
/// back, and where it starts and goes.
#[derive(Clone, Copy, Debug)]
pub struct Scatter<C, V> {
    pub attenuation: C,
    pub origin: V,
    pub direction: V,
}

/// The placeholder material of a hit record that has not been filled: it
/// absorbs every ray.
#[derive(Clone, Copy, Debug)]
pub struct Nothing {}

impl Nothing {
    pub fn scatter<C, V>(&self) -> (r: Option<Scatter<C, V>>)
        ensures
            r.is_none(),
    {
        None
    }
}

/// A diffuse material of colour `albedo`.
#[derive(Clone, Copy, Debug)]
pub struct Lambertian<C> {
    pub albedo: C,
}

impl<C: Copy> Lambertian<C> {
    pub fn new(albedo: C) -> (r: Lambertian<C>)
        ensures
            r.albedo == albedo,
    {
        Lambertian { albedo: albedo }
    }

    /// Scatters a ray that hit the surface at `hit_point` with surface
    /// normal `normal`. `candidate` is the normal plus a random unit vector;
    /// when it is numerically degenerate (`candidate_near_zero`) the normal
    /// itself is taken instead. The ray always scatters, from the hit point,
    /// with the albedo unchanged as attenuation.
    pub fn scatter<V: Copy>(&self, hit_point: V, normal: V, candidate: V, candidate_near_zero: bool) -> (r:
        Option<Scatter<C, V>>)
        ensures
            r == Some(
                Scatter {
                    attenuation: self.albedo,
                    origin: hit_point,
                    direction: if candidate_near_zero {
                        normal
                    } else {
                        candidate
                    },
                },
            ),
    {
        let mut scatter_direction = candidate;
        if candidate_near_zero {
            scatter_direction = normal;
        }
        Some(Scatter { attenuation: self.albedo, origin: hit_point, direction: scatter_direction })
    }
}

} // verus!
