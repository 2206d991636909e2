//! Decision logic of the trade window, the client start-up retry loop and the
//! large-bird shooting pose, verified with Verus.
#![allow(unused_imports)]

pub mod numeral;
pub mod text;
pub mod offer;
pub mod trade;
pub mod client_init;
pub mod anim;

