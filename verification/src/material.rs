//! The scattering rules of the material kinds, as far as they are decisions
//! and data flow rather than arithmetic.
//!
//! Colours are triples of ordinates that this module passes through
//! untouched: the texture value at the hit point comes from the front end,
//! and so do the triples that stand for white and black.

use crate::aabb::Vector3;
use vstd::prelude::*;

verus! {

/// The kinds of material.
#[derive(Clone, Copy, Debug, PartialEq, Eq, Structural)]
pub enum Material {
    Lambertian,
    Metal,
    Dielectric,
    DiffuseLight,
    Isotropic,
}

/// What a successful scatter attempt yields.
#[derive(Clone, Copy, Debug)]
pub struct ScatterRecord {
    /// The ray continues in one determined direction and no density is
    /// involved; otherwise the direction is sampled from a density.
    pub is_specular: bool,
    /// The colour by which the continued ray's radiance is scaled.
    pub attenuation: Vector3,
}

impl Material {
    /// Whether an attempt to scatter succeeds. `leaves_surface` says whether
    /// the candidate direction points away from the surface (its product
    /// with the normal is positive); only metal reads it. A light never
    /// scatters.
    pub open spec fn scatters(&self, leaves_surface: bool) -> bool {
        match self {
            Material::Metal => leaves_surface,
            Material::DiffuseLight => false,
            _ => true,
        }
    }

    /// Every material but the Lambertian continues specularly.
    pub open spec fn is_specular(&self) -> bool {
        *self != Material::Lambertian
    }

    /// The attenuation of a scattered ray: white for a dielectric, which
    /// absorbs nothing, and the texture's value at the hit point otherwise.
    pub open spec fn attenuation(&self, texture_value: Vector3, white: Vector3) -> Vector3 {
        if *self == Material::Dielectric {
            white
        } else {
            texture_value
        }
    }

    /// Whether the material emits towards a ray. `faces_ray` says whether
    /// the surface normal points against the incoming ray; a light emits
    /// from that side only, and nothing else emits.
    pub open spec fn emits(&self, faces_ray: bool) -> bool {
        *self == Material::DiffuseLight && faces_ray
    }

    /// Attempts to scatter a ray at a hit point where the material's texture
    /// has the value `texture_value`.
    pub fn scatter(&self, texture_value: Vector3, white: Vector3, leaves_surface: bool) -> (r: Option<
        ScatterRecord,
    >)
        ensures
            r.is_some() == self.scatters(leaves_surface),
            r matches Some(rec) ==> rec.is_specular == self.is_specular() && rec.attenuation
                == self.attenuation(texture_value, white),
            *self == Material::Lambertian ==> r.is_some() && r.unwrap().attenuation == texture_value,
    {
        match self {
            Material::Lambertian => Some(ScatterRecord { is_specular: false, attenuation: texture_value }),
            Material::Metal => if leaves_surface {
                Some(ScatterRecord { is_specular: true, attenuation: texture_value })
            } else {
                None
            },
            Material::Dielectric => Some(ScatterRecord { is_specular: true, attenuation: white }),
            Material::DiffuseLight => None,
            Material::Isotropic => Some(ScatterRecord { is_specular: true, attenuation: texture_value }),
        }
    }

    /// The radiance that the surface emits towards the ray: the texture's
    /// value for a light seen from its front, black otherwise.
    pub fn emitted(&self, texture_value: Vector3, black: Vector3, faces_ray: bool) -> (colour: Vector3)
        ensures
            colour == if self.emits(faces_ray) {
                texture_value
            } else {
                black
            },
    {
        match self {
            Material::DiffuseLight => if faces_ray {
                texture_value
            } else {
                black
            },
            _ => black,
        }
    }

    /// Whether the material has a scattering density at all: it is zero for
    /// every material but the Lambertian.
    pub fn has_scattering_pdf(&self) -> (has: bool)
        ensures
            has == (*self == Material::Lambertian),
    {
        match self {
            Material::Lambertian => true,
            _ => false,
        }
    }
}

/// The fuzz with which a metal perturbs its reflection: the material's own,
/// but no more than `one`.
pub fn clamped_fuzz(fuzz: i64, one: i64) -> (r: i64)
    ensures
        r == if fuzz > one {
            one
        } else {
            fuzz
        },
        r <= one,
{
    if fuzz > one {
        one
    } else {
        fuzz
    }
}

/// Whether a dielectric reflects rather than refracts: always when no
/// refracted direction exists, and otherwise when the draw fell below the
/// reflectance.
pub fn dielectric_reflects(refraction_exists: bool, draw_below_reflectance: bool) -> (reflects: bool)
    ensures
        reflects == (!refraction_exists || draw_below_reflectance),
{
    !refraction_exists || draw_below_reflectance
}

} // verus!
