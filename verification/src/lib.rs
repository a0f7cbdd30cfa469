//! Verified core of a star-stacking pipeline: it pairs detected star
//! centroids of neighbouring frames, plans the warp chain that brings every
//! frame into the reference frame's coordinate space, folds aligned frames
//! into one mean image, and tunes the detector sensitivity towards a target
//! feature count.  Feature detection, the robust transform solver, resampling
//! and raster I/O are external collaborators driven by a thin unverified
//! front end.

pub mod alignment;
pub mod errors;
pub mod stacking;
pub mod star_detection;
