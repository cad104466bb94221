use rand::Rng;
use vstd::prelude::*;

verus! {

/// Smallest value a round's secret may take.
pub const SECRET_MIN: u32 = 1;

/// Largest value a round's secret may take.
pub const SECRET_MAX: u32 = 100;

/// Relies on `rand::thread_rng` and `Rng::gen_range`: the returned value
/// lies within the (non-empty) requested range `1..=100`.
#[verifier::external_body]
pub(crate) fn draw_secret() -> (n: u32)
    ensures
        SECRET_MIN <= n <= SECRET_MAX,
{
    rand::thread_rng().gen_range(SECRET_MIN..=SECRET_MAX)
}

} // verus!
