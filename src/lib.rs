//! Index, shape and layout logic of a spectral-analysis toolkit for sampled
//! signals, together with the text and byte decoding of BrainVision / BIDS
//! recordings that feed it.

pub mod bids;
pub mod brainvision;
pub mod covariance;
pub mod fft;
pub mod filter;
pub mod ini_file;
pub mod pow2;
pub mod read;
pub mod s_transform;
pub mod stft;
pub mod text;
pub mod wavelet;
