//! Player ratings. A rating is a value of the `glicko2` crate that the
//! library stores and hands on; the arithmetic on ratings is the caller's.

use vstd::prelude::*;

verus! {

/// A rating on the Glicko-2 scale, as the `glicko2` crate holds it. The
/// library looks at nothing inside it.
#[verifier::external_type_specification]
#[verifier::external_body]
pub struct ExGlicko2Rating(glicko2::Glicko2Rating);

/// The result of one game for one of its players.
#[derive(Clone, Copy, Debug, PartialEq, Eq, Structural)]
pub enum Score {
    Win,
    Loss,
    Draw,
}

/// The rating of a player who has not played yet, from
/// `Glicko2Rating::unrated`.
#[verifier::external_body]
pub fn unrated() -> (rating: glicko2::Glicko2Rating) {
    glicko2::Glicko2Rating::unrated()
}

} // verus!
