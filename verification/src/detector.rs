use vstd::prelude::*;

verus! {

/// Available anomaly detection methods.
#[derive(Clone, Copy, Debug, PartialEq, Eq, Structural)]
pub enum AnomalyDetector {
    ZScore,
    IQR,
    IsolationForest,
    Spectral,
    Seasonal,
    ModifiedZScore,
    MovingZScore,
    Grubbs,
    Contextual,
}

} // verus!
