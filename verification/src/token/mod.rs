//! The recognisers, leaves first, each with the model that it is held to and the
//! laws of that model.

pub mod basic;
pub mod comment_model;
pub mod comment_laws;
pub mod comment_balance;
pub mod wsp_comment;
pub mod atom_model;
pub mod atom_laws;
pub mod atom;
