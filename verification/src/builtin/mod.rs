//! Logic of the composite widgets built from the primitives.
pub mod fontmodal;
pub mod numberinput;
