//! A KZG-style commitment to a sparse polynomial over BLS12-381, with
//! openings at single indices, and the mapping from VCF records (by rsID) to
//! such polynomials.
pub mod codec;
pub mod commitment;
pub mod field;
pub mod group;
pub mod laws;
pub mod poly;
pub mod setup;
pub mod vcf;
