//! Verified core of the anomaly-detection library: the discrete decisions
//! that surround the numeric detectors (window geometry, seasonal phase
//! bookkeeping, quartile positions and ensemble voting).

pub mod detector;
pub mod ensemble;
pub mod quantile;
pub mod seasonal;
pub mod window;

pub use detector::AnomalyDetector;
pub use ensemble::{
    ensemble_vote, majority_indices, plan_run, required_votes, tally_votes, DetectorRun,
};
pub use quantile::{median_position, quartile_positions};
pub use seasonal::{decomposition_applies, fill_sources, phase_counts, trend_windows};
pub use window::{moving_windows, LocalWindow};
