//! Batched polynomial commitment schemes over the pairing of BLS12-381.
//!
//! A prover commits to a batch of polynomials over the scalar field, opens
//! their values on a batch of points, and proves the values consistent with
//! the commitments. Three schemes share the interface [`poly_commit::PolyCommit`]:
//!
//! - [`kzg10`]: one proof element for each polynomial and point;
//! - [`gwc19`]: one proof element for each point;
//! - [`djba21`]: two proof elements for the whole batch.
//!
//! The arithmetic of the scalar field ([`scalar`]), of the groups and of the
//! pairing ([`curve`]) is that of the arkworks crates, whose results this
//! crate names or states and does not prove. Everything above it is proved
//! against those statements: the polynomials ([`polynomial`],
//! [`utils::poly`]), their algebra ([`evaluation`], [`product`],
//! [`interpolation`]), and the schemes.

pub mod curve;
pub mod djba21;
pub mod evaluation;
pub mod field;
pub mod gwc19;
pub mod interpolation;
pub mod kzg10;
pub mod limbs;
pub mod poly_commit;
pub mod polynomial;
pub mod product;
pub mod roots;
pub mod scalar;
pub mod utils;
