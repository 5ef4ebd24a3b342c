//! A minimal particle-effect container: an engine owns a growing collection
//! of particles.

use vstd::prelude::*;

verus! {

/// One effect particle. The engine only stores particles; what one looks
/// like on screen is the embedding program's business.
#[derive(Debug, Clone, PartialEq)]
pub struct Particle {
}

/// Owns the live particles of one effect.
#[derive(Debug)]
pub struct ParticleEffectEngine {
    particles: Vec<Particle>,
}

impl ParticleEffectEngine {
    /// How many particles are alive.
    pub closed spec fn spec_len(&self) -> nat {
        self.particles@.len()
    }

    /// A fresh engine with no particles.
    pub fn new() -> (r: Self)
        ensures
            r.spec_len() == 0,
    {
        Self { particles: Vec::new() }
    }

    /// Add one particle to the effect.
    pub fn add_particle(&mut self, particle: Particle)
        ensures
            final(self).spec_len() == old(self).spec_len() + 1,
    {
        self.particles.push(particle);
    }
}

} // verus!
