//! Named parameter sets of the Gray-Scott model.
//!
//! Rates are held as whole thousandths, the unit in which every preset is
//! exact; a caller that integrates in another number type divides by
//! [`RATE_SCALE`].

use vstd::prelude::*;

verus! {

/// How many units of a [`GrayScottParams`] field make the rate 1.
pub const RATE_SCALE: u32 = 1000;

/// Parameters of the Gray-Scott reaction-diffusion model, in thousandths.
#[derive(Debug, Clone, Copy, PartialEq, Eq, Structural)]
pub struct GrayScottParams {
    /// Diffusion rate of the activator.
    pub da: u32,
    /// Diffusion rate of the inhibitor.
    pub db: u32,
    /// Feed rate: how fast the activator is replenished.
    pub feed: u32,
    /// Kill rate: how fast the inhibitor is removed.
    pub kill: u32,
    /// Time step.
    pub dt: u32,
}

impl GrayScottParams {
    /// Both diffusion rates and the time step are positive. (Feed and kill
    /// rates cannot be negative in this representation.)
    pub open spec fn valid(self) -> bool {
        self.da > 0 && self.db > 0 && self.dt > 0
    }
}

/// Parameter sets that select qualitatively distinct pattern regimes.
#[derive(Debug, Clone, Copy, PartialEq, Eq, Structural)]
pub enum Preset {
    /// Spots like a leopard.
    Spots,
    /// Stripes like a zebra.
    Stripes,
    /// Labyrinthine patterns like brain coral.
    Coral,
    /// Mitosis-like cell division.
    Mitosis,
    /// Worm-like solitons.
    Worms,
}

impl Preset {
    /// Feed rate of the preset, in thousandths.
    pub open spec fn feed(self) -> u32 {
        match self {
            Preset::Spots => 35,
            Preset::Stripes => 40,
            Preset::Coral => 60,
            Preset::Mitosis => 28,
            Preset::Worms => 58,
        }
    }

    /// Kill rate of the preset, in thousandths.
    pub open spec fn kill(self) -> u32 {
        match self {
            Preset::Spots => 65,
            Preset::Stripes => 60,
            Preset::Coral => 62,
            Preset::Mitosis => 62,
            Preset::Worms => 65,
        }
    }

    /// The display name of the preset.
    pub open spec fn label(self) -> Seq<char> {
        match self {
            Preset::Spots => "Leopard Spots"@,
            Preset::Stripes => "Zebra Stripes"@,
            Preset::Coral => "Brain Coral"@,
            Preset::Mitosis => "Cell Division"@,
            Preset::Worms => "Worm Solitons"@,
        }
    }

    /// The parameters of the preset. All presets diffuse the activator at
    /// rate 1 and the inhibitor at rate 1/2 with a time step of 1; they
    /// differ in feed and kill rate only.
    pub open spec fn rates(self) -> GrayScottParams {
        GrayScottParams { da: 1000, db: 500, feed: self.feed(), kill: self.kill(), dt: 1000 }
    }

    /// The parameters of the preset, looked up in the table.
    pub fn params(self) -> (p: GrayScottParams)
        ensures
            p == self.rates(),
    {
        match self {
            Preset::Spots => GrayScottParams { da: 1000, db: 500, feed: 35, kill: 65, dt: 1000 },
            Preset::Stripes => GrayScottParams { da: 1000, db: 500, feed: 40, kill: 60, dt: 1000 },
            Preset::Coral => GrayScottParams { da: 1000, db: 500, feed: 60, kill: 62, dt: 1000 },
            Preset::Mitosis => GrayScottParams { da: 1000, db: 500, feed: 28, kill: 62, dt: 1000 },
            Preset::Worms => GrayScottParams { da: 1000, db: 500, feed: 58, kill: 65, dt: 1000 },
        }
    }

    /// The display name of the preset.
    pub fn name(self) -> (label: &'static str)
        ensures
            label@ == self.label(),
    {
        match self {
            Preset::Spots => "Leopard Spots",
            Preset::Stripes => "Zebra Stripes",
            Preset::Coral => "Brain Coral",
            Preset::Mitosis => "Cell Division",
            Preset::Worms => "Worm Solitons",
        }
    }
}

/// Every preset has positive diffusion rates, a positive time step and a
/// display name that is not empty.
pub proof fn lemma_presets_sane(preset: Preset)
    ensures
        preset.rates().valid(),
        preset.label().len() > 0,
{
    reveal_strlit("Leopard Spots");
    reveal_strlit("Zebra Stripes");
    reveal_strlit("Brain Coral");
    reveal_strlit("Cell Division");
    reveal_strlit("Worm Solitons");
}

} // verus!
