//! What a state-space layer is made of.

use vstd::prelude::*;

use crate::error::{Error, Fault};
use crate::single;

verus! {

/// How the state evolves between steps.
#[derive(Debug, Clone, Copy, PartialEq, Eq, Structural)]
pub enum StateDynamics {
    /// The state decays.
    Real,
    /// The state decays and rotates by an angle that depends on the data.
    Rotational,
}

/// How the continuous system is turned into steps.
#[derive(Debug, Clone, Copy, PartialEq, Eq, Structural)]
pub enum Discretization {
    /// Only the current input enters a step.
    Euler,
    /// The current and the previous input enter a step in equal shares.
    Trapezoidal,
    /// The shares are projected from the data.
    LearnedTrapezoidal,
}

/// How many inputs and outputs a head has.
#[derive(Debug, Clone, Copy, PartialEq, Eq, Structural)]
pub enum SsmMode {
    /// One of each.
    Siso,
    /// A number of each.
    Mimo {
        /// Inputs and outputs per head.
        rank: usize,
    },
}

/// The bit pattern of one half.
pub const HALF: u32 = 0x3f00_0000;

impl Discretization {
    /// The fixed share of the current input, where the shares are fixed.
    pub open spec fn share(self) -> Option<u32> {
        match self {
            Discretization::Euler => Some(single::ONE),
            Discretization::Trapezoidal => Some(HALF),
            Discretization::LearnedTrapezoidal => None,
        }
    }

    /// The fixed share of the current input, where the shares are fixed.
    pub fn fixed_lambda(&self) -> (r: Option<u32>)
        ensures
            r == self.share(),
    {
        match self {
            Discretization::Euler => Some(single::ONE),
            Discretization::Trapezoidal => Some(HALF),
            Discretization::LearnedTrapezoidal => None,
        }
    }
}

impl SsmMode {
    pub open spec fn width(self) -> usize {
        match self {
            SsmMode::Siso => 1,
            SsmMode::Mimo { rank } => rank,
        }
    }

    /// Inputs and outputs per head.
    pub fn rank(&self) -> (r: usize)
        ensures
            r == self.width(),
    {
        match self {
            SsmMode::Siso => 1,
            SsmMode::Mimo { rank } => *rank,
        }
    }
}

/// Settings of a state-space layer. Real-valued settings are single-precision bit
/// patterns.
#[derive(Debug, Clone, Copy, PartialEq, Eq, Structural)]
pub struct SsmConfig {
    /// Residual stream width.
    pub d_model: usize,
    /// Number of heads.
    pub n_heads: usize,
    /// Number of groups that share an input and an output map.
    pub n_groups: usize,
    /// Width of a head.
    pub head_dim: usize,
    /// Width of the state of a head channel.
    pub d_state: usize,
    /// Inputs and outputs per head.
    pub mode: SsmMode,
    pub discretization: Discretization,
    pub dynamics: StateDynamics,
    /// Taps of the short convolution; `None` omits it.
    pub conv_kernel: Option<usize>,
    /// Positions the scan handles at once.
    pub chunk_size: usize,
    /// Biases on the projections.
    pub bias: bool,
    /// A direct path from input to output.
    pub skip_connection: bool,
    /// Per-head biases on the input and output maps.
    pub bc_bias: bool,
    /// Normalisation of the input and output maps.
    pub bc_norm: bool,
    /// Normalisation before gating.
    pub post_gate_norm: bool,
    pub dt_min: u32,
    pub dt_max: u32,
    pub dt_init_floor: u32,
    pub a_init_min: u32,
    pub a_init_max: u32,
}

/// The bit pattern of one thousandth.
pub const THOUSANDTH: u32 = 0x3a83_126f;

/// The bit pattern of one tenth.
pub const TENTH: u32 = 0x3dcc_cccd;

/// The bit pattern of one ten-thousandth.
pub const TEN_THOUSANDTH: u32 = 0x38d1_b717;

/// What the settings are where nothing else is said.
pub open spec fn default_config() -> SsmConfig {
    SsmConfig {
        d_model: 768,
        n_heads: 24,
        n_groups: 24,
        head_dim: 64,
        d_state: 128,
        mode: SsmMode::Siso,
        discretization: Discretization::LearnedTrapezoidal,
        dynamics: StateDynamics::Rotational,
        conv_kernel: None,
        chunk_size: 64,
        bias: false,
        skip_connection: true,
        bc_bias: true,
        bc_norm: true,
        post_gate_norm: false,
        dt_min: THOUSANDTH,
        dt_max: TENTH,
        dt_init_floor: TEN_THOUSANDTH,
        a_init_min: single::ONE,
        a_init_max: crate::nn::lora::SIXTEEN,
    }
}

impl Default for SsmConfig {
    fn default() -> (r: Self)
        ensures
            r == default_config(),
    {
        SsmConfig {
            d_model: 768,
            n_heads: 24,
            n_groups: 24,
            head_dim: 64,
            d_state: 128,
            mode: SsmMode::Siso,
            discretization: Discretization::LearnedTrapezoidal,
            dynamics: StateDynamics::Rotational,
            conv_kernel: None,
            chunk_size: 64,
            bias: false,
            skip_connection: true,
            bc_bias: true,
            bc_norm: true,
            post_gate_norm: false,
            dt_min: THOUSANDTH,
            dt_max: TENTH,
            dt_init_floor: TEN_THOUSANDTH,
            a_init_min: single::ONE,
            a_init_max: crate::nn::lora::SIXTEEN,
        }
    }
}

/// The widths of the pieces of the fused input projection: gate, input, both maps
/// together with the input, steps, mixing coefficients, angular speeds.
#[derive(Debug, Clone, Copy, PartialEq, Eq, Structural)]
pub struct Widths {
    /// The gating branch, and the input.
    pub inner: usize,
    /// The input map, and the output map.
    pub maps: usize,
    /// Input and maps together, which the convolution runs over.
    pub conv: usize,
    /// Step sizes.
    pub heads: usize,
    /// Mixing coefficients; none where the shares are fixed.
    pub lambda: usize,
    /// Angular speeds; none where the state does not rotate.
    pub theta: usize,
    /// Everything.
    pub total: usize,
}

pub open spec fn inner_width(c: SsmConfig) -> nat {
    (c.n_heads * c.head_dim * c.mode.width()) as nat
}

pub open spec fn maps_width(c: SsmConfig) -> nat {
    (c.n_groups * c.mode.width() * c.d_state) as nat
}

pub open spec fn lambda_width(c: SsmConfig) -> nat {
    if c.discretization.share() is None {
        c.n_heads as nat
    } else {
        0
    }
}

pub open spec fn theta_width(c: SsmConfig) -> nat {
    if c.dynamics == StateDynamics::Rotational {
        (c.n_heads * (c.d_state / 2)) as nat
    } else {
        0
    }
}

pub open spec fn total_width(c: SsmConfig) -> nat {
    2 * inner_width(c) + 2 * maps_width(c) + c.n_heads as nat + lambda_width(c) + theta_width(c)
}

/// The widths, as far as they fit a machine word.
pub open spec fn widths_of(c: SsmConfig) -> Option<Widths> {
    if total_width(c) <= usize::MAX {
        Some(
            Widths {
                inner: inner_width(c) as usize,
                maps: maps_width(c) as usize,
                conv: (inner_width(c) + 2 * maps_width(c)) as usize,
                heads: c.n_heads,
                lambda: lambda_width(c) as usize,
                theta: theta_width(c) as usize,
                total: total_width(c) as usize,
            },
        )
    } else {
        None
    }
}

/// What is wrong with the settings, if anything.
pub open spec fn fault_of(c: SsmConfig) -> Option<Fault> {
    if c.d_model == 0 || c.n_heads == 0 || c.head_dim == 0 || c.d_state == 0 {
        Some(Fault::Config("d_model, n_heads, head_dim and d_state must be positive"@))
    } else if c.n_groups == 0 || c.n_heads % c.n_groups != 0 {
        Some(Fault::Config("n_heads must be a multiple of n_groups"@))
    } else if c.mode.width() == 0 {
        Some(Fault::Config("the rank must be positive"@))
    } else if c.chunk_size == 0 {
        Some(Fault::Config("the chunk size must be positive"@))
    } else if c.conv_kernel == Some(0usize) {
        Some(Fault::Config("the convolution needs at least one tap"@))
    } else if c.dynamics == StateDynamics::Rotational && c.d_state % 2 != 0 {
        Some(Fault::Config("a rotating state needs an even d_state"@))
    } else if widths_of(c) is None {
        Some(Fault::Config("the projection is too wide for this machine"@))
    } else {
        None
    }
}

/// Valid settings leave room for twice the heads and groups.
pub proof fn lemma_heads_have_room(c: SsmConfig)
    requires
        fault_of(c) is None,
    ensures
        2 * c.n_heads <= usize::MAX,
        2 * c.n_groups <= usize::MAX,
{
    let (h, d, w) = (c.n_heads as int, c.head_dim as int, c.mode.width() as int);
    assert(h * d * w >= h) by (nonlinear_arith)
        requires
            h >= 1,
            d >= 1,
            w >= 1,
    ;
    let g = c.n_groups as int;
    assert(g <= h) by {
        if g > h {
            vstd::arithmetic::div_mod::lemma_small_mod(h as nat, g as nat);
        }
    }
}

fn product3(a: usize, b: usize, c: usize) -> (r: Option<usize>)
    ensures
        match r {
            Some(n) => n == a * b * c,
            None => a * b * c > usize::MAX || (c == 0 && a * b > usize::MAX),
        },
{
    let ab: usize = match a.checked_mul(b) {
        Some(n) => n,
        None => {
            proof {
                if c > 0 {
                    assert(a * b * c >= a * b) by (nonlinear_arith)
                        requires
                            c >= 1,
                            a >= 0,
                            b >= 0,
                    ;
                }
            }
            return None;
        },
    };
    ab.checked_mul(c)
}

impl SsmConfig {
    /// Width of the input, and of the gating branch.
    pub fn d_inner(&self) -> (r: usize)
        requires
            inner_width(*self) <= usize::MAX,
            self.mode.width() > 0,
        ensures
            r == inner_width(*self),
    {
        match product3(self.n_heads, self.head_dim, self.mode.rank()) {
            Some(n) => n,
            None => 0,
        }
    }

    /// The widths of the pieces of the fused input projection, or `None` where they do
    /// not fit a machine word.
    pub fn widths(&self) -> (r: Option<Widths>)
        requires
            self.mode.width() > 0,
            self.d_state > 0,
        ensures
            r == widths_of(*self),
    {
        let rank: usize = self.mode.rank();
        let inner: usize = product3(self.n_heads, self.head_dim, rank)?;
        let maps: usize = product3(self.n_groups, rank, self.d_state)?;
        let lambda: usize = match self.discretization {
            Discretization::LearnedTrapezoidal => self.n_heads,
            _ => 0,
        };
        let theta: usize = match self.dynamics {
            StateDynamics::Rotational => self.n_heads.checked_mul(self.d_state / 2)?,
            StateDynamics::Real => 0,
        };
        let both: usize = inner.checked_add(inner)?;
        let twice: usize = maps.checked_add(maps)?;
        let first: usize = both.checked_add(twice)?;
        let second: usize = first.checked_add(self.n_heads)?;
        let third: usize = second.checked_add(lambda)?;
        let total: usize = third.checked_add(theta)?;
        Some(
            Widths { inner, maps, conv: inner + twice, heads: self.n_heads, lambda, theta, total },
        )
    }

    /// Check that the settings fit together.
    pub fn validate(&self) -> (r: Result<(), Error>)
        ensures
            match (r, fault_of(*self)) {
                (Ok(_), None) => true,
                (Err(e), Some(f)) => e@ == f,
                _ => false,
            },
    {
        if self.d_model == 0 || self.n_heads == 0 || self.head_dim == 0 || self.d_state == 0 {
            return Err(
                Error::config("d_model, n_heads, head_dim and d_state must be positive"),
            );
        }
        if self.n_groups == 0 || self.n_heads % self.n_groups != 0 {
            return Err(Error::config("n_heads must be a multiple of n_groups"));
        }
        if self.mode.rank() == 0 {
            return Err(Error::config("the rank must be positive"));
        }
        if self.chunk_size == 0 {
            return Err(Error::config("the chunk size must be positive"));
        }
        if let Some(k) = self.conv_kernel {
            if k == 0 {
                return Err(Error::config("the convolution needs at least one tap"));
            }
        }
        if let StateDynamics::Rotational = self.dynamics {
            if self.d_state % 2 != 0 {
                return Err(Error::config("a rotating state needs an even d_state"));
            }
        }
        if self.widths().is_none() {
            return Err(Error::config("the projection is too wide for this machine"));
        }
        Ok(())
    }
}

/// The pieces tile the projection.
pub proof fn law_widths_tile(c: SsmConfig)
    requires
        widths_of(c) is Some,
    ensures
        ({
            let w = widths_of(c)->0;
            w.inner + w.conv + w.heads + w.lambda + w.theta == w.total && w.conv == w.inner + 2
                * w.maps
        }),
{
}

} // verus!
