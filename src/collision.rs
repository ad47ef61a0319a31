use vstd::prelude::*;
use crate::error::ConfigError;

verus! {

/// The relaxation rate `omega` is stable: it lies strictly between 0 and 2.
pub open spec fn stable_rate(num: u64, den: u64) -> bool {
    den > 0 && 0 < num && num < 2 * den
}

/// Relaxation rate `omega = num / den` of the single-relaxation-time (BGK) collision,
/// kept as an exact fraction so that its stability range can be checked exactly.
#[derive(Debug, Clone, Copy, PartialEq, Eq, Structural)]
pub struct SingleRelaxationTime {
    pub omega_num: u64,
    pub omega_den: u64,
}

impl SingleRelaxationTime {
    pub open spec fn wf(&self) -> bool {
        stable_rate(self.omega_num, self.omega_den)
    }

    /// A collision operator with rate `num / den`; rejected unless `0 < num / den < 2`.
    pub fn new(num: u64, den: u64) -> (r: Result<SingleRelaxationTime, ConfigError>)
        ensures
            stable_rate(num, den) ==> r == Ok::<SingleRelaxationTime, ConfigError>(
                SingleRelaxationTime { omega_num: num, omega_den: den },
            ),
            !stable_rate(num, den) ==> r == Err::<SingleRelaxationTime, ConfigError>(
                ConfigError::UnstableRelaxation,
            ),
    {
        if den > 0 && 0 < num && (num as u128) < 2 * (den as u128) {
            Ok(SingleRelaxationTime { omega_num: num, omega_den: den })
        } else {
            Err(ConfigError::UnstableRelaxation)
        }
    }

    /// Changes the rate to `num / den`; an unstable rate is rejected and the old one kept.
    pub fn set_omega(&mut self, num: u64, den: u64) -> (r: Result<(), ConfigError>)
        ensures
            stable_rate(num, den) ==> r is Ok && *final(self) == (SingleRelaxationTime {
                omega_num: num,
                omega_den: den,
            }),
            !stable_rate(num, den) ==> r == Err::<(), ConfigError>(ConfigError::UnstableRelaxation)
                && *final(self) == *old(self),
    {
        match SingleRelaxationTime::new(num, den) {
            Ok(c) => {
                *self = c;
                Ok(())
            },
            Err(e) => Err(e),
        }
    }
}

} // verus!
