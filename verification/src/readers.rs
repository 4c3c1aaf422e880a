//! Reading basis set data in the input formats.
pub mod crystal;
pub mod dalton;
pub mod demon2k;
pub mod g94;
pub mod gbasis;
pub mod helpers;
pub mod libmol;
pub mod nwchem;
pub mod read;
pub mod ricdlib;
pub mod turbomole;
pub mod veloxchem;
