//! How many worker threads each construction strategy asks for.

use vstd::arithmetic::div_mod::lemma_basic_div;
use vstd::arithmetic::power2::{
    lemma2_to64_rest, lemma_pow2_adds, lemma_pow2_pos, lemma_pow2_strictly_increases, pow2,
};
use vstd::bits::lemma_u128_shr_is_div;
use vstd::prelude::*;

verus! {

/// A worker count is never below one: a pool with no workers would never run a job.
pub open spec fn at_least_one(n: nat) -> nat {
    if n == 0 {
        1
    } else {
        n
    }
}

/// Workers asked for when a fraction `numerator / 2^exponent` of the detected hardware
/// parallelism is used: the floor of `parallelism * numerator / 2^exponent`, one when
/// nothing was detected or the floor comes to zero.
pub open spec fn optimised_workers(detected: Option<usize>, numerator: nat, exponent: nat) -> nat {
    match detected {
        Some(n) => at_least_one(n as nat * numerator / pow2(exponent)),
        None => 1,
    }
}

/// Workers asked for when the whole detected hardware parallelism is used, one when
/// nothing was detected.
pub open spec fn default_workers(detected: Option<usize>) -> nat {
    match detected {
        Some(n) => at_least_one(n as nat),
        None => 1,
    }
}

/// The worker count for the fraction `numerator / 2^exponent` of the detected
/// parallelism. Every `f64` in (0, 1] is such a fraction exactly.
pub fn optimised_worker_count(
    detected_parallelism: Option<usize>,
    utilisation_numerator: u64,
    utilisation_exponent: u32,
) -> (n: usize)
    requires
        1 <= utilisation_numerator <= pow2(utilisation_exponent as nat),
    ensures
        n == optimised_workers(
            detected_parallelism,
            utilisation_numerator as nat,
            utilisation_exponent as nat,
        ),
        n >= 1,
{
    match detected_parallelism {
        Some(cores) => {
            let m = utilisation_numerator;
            let e = utilisation_exponent;
            let ghost d = pow2(e as nat);
            proof {
                lemma_pow2_pos(e as nat);
                assert(cores as nat * m as nat <= 0xffff_ffff_ffff_ffff * 0xffff_ffff_ffff_ffffnat)
                    by (nonlinear_arith)
                    requires
                        cores <= 0xffff_ffff_ffff_ffffnat,
                        m <= 0xffff_ffff_ffff_ffffnat,
                ;
                assert(cores as nat * m as nat / d <= cores as nat) by (nonlinear_arith)
                    requires
                        m <= d,
                        d > 0,
                ;
            }
            let product: u128 = (cores as u128) * (m as u128);
            let scaled: u128 = if e >= 128 {
                proof {
                    lemma_pow2_adds(64, 64);
                    lemma2_to64_rest();
                    if e > 128 {
                        lemma_pow2_strictly_increases(128, e as nat);
                    }
                    lemma_basic_div(product as int, d as int);
                }
                0
            } else {
                proof {
                    lemma_u128_shr_is_div(product, e as u128);
                }
                product >> (e as u128)
            };
            if scaled == 0 {
                1
            } else {
                scaled as usize
            }
        },
        None => 1,
    }
}

/// The worker count for the whole detected parallelism.
pub fn default_worker_count(detected_parallelism: Option<usize>) -> (n: usize)
    ensures
        n == default_workers(detected_parallelism),
        n >= 1,
{
    match detected_parallelism {
        Some(cores) => if cores == 0 {
            1
        } else {
            cores
        },
        None => 1,
    }
}

} // verus!
