//! Verified core of a GPU SSIMULACRA2 pipeline and H.264 Matroska feeding.
pub mod avc;
pub mod image;
pub mod ssimulacra2;
pub mod demux;
pub mod launch;
