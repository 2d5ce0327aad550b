use vstd::prelude::*;

pub mod bun;
pub mod cola;
pub mod exclusiones;
pub mod gestores;
pub mod habilidades;
pub mod json;
pub mod kernel;
pub mod npm;
pub mod orden;
pub mod pnpm;
pub mod texto;

verus! {

} // verus!
