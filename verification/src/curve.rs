use vstd::prelude::*;

verus! {

/// The market discount curve a price is computed against: the
/// overnight-indexed curve used for discounting, and two tenor-indexed
/// projection curves.
#[derive(Clone, Copy, Debug, PartialEq, Eq, Structural)]
pub enum Curve {
    Ois,
    Libor6M,
    Libor12M,
}

} // verus!
