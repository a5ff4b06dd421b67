//! Element property table.
//!
//! A closed set of element symbols maps to the physical constants the three
//! potential models read.  The atomic-unit constants are held directly; the
//! SI spring constant, well depth and decay constant lie far outside the
//! scalar's range and enter the models only through two per-kelvin
//! combinations, which are held instead:
//!
//! * `seed_per_k` = `2 kB / (k_si a0^2)`: the squared thermal seed
//!   displacement per kelvin, already in atomic length units;
//! * `morse_per_k` = `kB / d_si`: the Morse inversion-domain ratio per
//!   kelvin (the SI decay constant cancels into the atomic-unit one).
//!
//! Fields a model does not use are zero; the model selector alone decides
//! which subset is read.

use crate::fixed::Fx;
use vstd::prelude::*;

verus! {

/// Physical constants of one element, as fixed-point scalars.
#[derive(Clone, Copy, PartialEq, Eq, Structural, Debug)]
pub struct ElementProperties {
    /// Reduced mass (atomic units).
    pub m_au: Fx,
    /// Harmonic force constant (atomic units).
    pub k_au: Fx,
    /// Morse dissociation energy (atomic units).
    pub d_au: Fx,
    /// Morse decay constant (atomic units).
    pub alpha_au: Fx,
    /// Lennard-Jones equilibrium separation (atomic units).
    pub rstr_au: Fx,
    /// Lennard-Jones well depth (atomic units).
    pub eps_au: Fx,
    /// Squared thermal seed displacement per kelvin, `2 kB / (k_si a0^2)`.
    pub seed_per_k: Fx,
    /// Morse inversion-domain ratio per kelvin, `kB / d_si`.
    pub morse_per_k: Fx,
}

impl ElementProperties {
    /// Every field is in range and non-negative, and the element is
    /// massive.
    pub open spec fn wf(self) -> bool {
        &&& self.m_au.wf() && self.m_au.v > 0
        &&& self.k_au.wf() && self.k_au.v >= 0
        &&& self.d_au.wf() && self.d_au.v >= 0
        &&& self.alpha_au.wf() && self.alpha_au.v >= 0
        &&& self.rstr_au.wf() && self.rstr_au.v >= 0
        &&& self.eps_au.wf() && self.eps_au.v >= 0
        &&& self.seed_per_k.wf() && self.seed_per_k.v >= 0
        &&& self.morse_per_k.wf() && self.morse_per_k.v >= 0
    }
}

/// The record for a symbol: hydrogen, mercury and argon are supported.
pub open spec fn spec_element_properties(s: Seq<char>) -> Option<ElementProperties> {
    if s == "H"@ {
        Some(
            ElementProperties {
                m_au: Fx { v: 911_440_000_000_000 },
                k_au: Fx { v: 366_535_800_000 },
                d_au: Fx { v: 181_844_600_000 },
                alpha_au: Fx { v: 1_003_894_000_000 },
                rstr_au: Fx { v: 0 },
                eps_au: Fx { v: 0 },
                seed_per_k: Fx { v: 17_279_684 },
                morse_per_k: Fx { v: 17_414_521 },
            },
        )
    } else if s == "Hg"@ {
        Some(
            ElementProperties {
                m_au: Fx { v: 184_084_100_000_000_000 },
                k_au: Fx { v: 1_374_407_000 },
                d_au: Fx { v: 0 },
                alpha_au: Fx { v: 0 },
                rstr_au: Fx { v: 6_952_302_000_000 },
                eps_au: Fx { v: 1_845_314_000 },
                seed_per_k: Fx { v: 4_608_128_425 },
                morse_per_k: Fx { v: 0 },
            },
        )
    } else if s == "Ar"@ {
        Some(
            ElementProperties {
                m_au: Fx { v: 36_410_210_000_000_000 },
                k_au: Fx { v: 323_291_400 },
                d_au: Fx { v: 0 },
                alpha_au: Fx { v: 0 },
                rstr_au: Fx { v: 7_107_260_000_000 },
                eps_au: Fx { v: 453_624_000 },
                seed_per_k: Fx { v: 19_590_516_257 },
                morse_per_k: Fx { v: 0 },
            },
        )
    } else {
        None
    }
}

/// Look a symbol up in the constant table.  The same symbol always yields
/// the same record; an absent symbol is `None`, and every present record
/// is well formed.
pub fn get_element_properties(element: &str) -> (r: Option<ElementProperties>)
    ensures
        r == spec_element_properties(element@),
        r is Some ==> r->Some_0.wf(),
{
    let e: String = element.to_owned();
    if e == "H".to_owned() {
        Some(
            ElementProperties {
                m_au: Fx { v: 911_440_000_000_000 },
                k_au: Fx { v: 366_535_800_000 },
                d_au: Fx { v: 181_844_600_000 },
                alpha_au: Fx { v: 1_003_894_000_000 },
                rstr_au: Fx { v: 0 },
                eps_au: Fx { v: 0 },
                seed_per_k: Fx { v: 17_279_684 },
                morse_per_k: Fx { v: 17_414_521 },
            },
        )
    } else if e == "Hg".to_owned() {
        Some(
            ElementProperties {
                m_au: Fx { v: 184_084_100_000_000_000 },
                k_au: Fx { v: 1_374_407_000 },
                d_au: Fx { v: 0 },
                alpha_au: Fx { v: 0 },
                rstr_au: Fx { v: 6_952_302_000_000 },
                eps_au: Fx { v: 1_845_314_000 },
                seed_per_k: Fx { v: 4_608_128_425 },
                morse_per_k: Fx { v: 0 },
            },
        )
    } else if e == "Ar".to_owned() {
        Some(
            ElementProperties {
                m_au: Fx { v: 36_410_210_000_000_000 },
                k_au: Fx { v: 323_291_400 },
                d_au: Fx { v: 0 },
                alpha_au: Fx { v: 0 },
                rstr_au: Fx { v: 7_107_260_000_000 },
                eps_au: Fx { v: 453_624_000 },
                seed_per_k: Fx { v: 19_590_516_257 },
                morse_per_k: Fx { v: 0 },
            },
        )
    } else {
        None
    }
}

} // verus!
