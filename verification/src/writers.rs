//! Conversion of basis set data to the output formats.
pub mod bsedebug;
pub mod dalton;
pub mod demon2k;
pub mod g94;
pub mod gamess_uk;
pub mod libmol;
pub mod molcas_library;
pub mod molpro;
pub mod qcschema;
pub mod ricdwrap;
pub mod turbomole;
pub mod write;
