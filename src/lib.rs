use vstd::prelude::*;

pub mod chat;
pub mod json;
pub mod lines;
pub mod record;
pub mod session;
pub mod text;
pub mod transcript;

verus! {

} // verus!
