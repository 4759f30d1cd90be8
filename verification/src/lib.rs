//! Multi-cell Monte Carlo neutron transport: the decisions, layouts and
//! bookkeeping of a transport launch, verified.
#![allow(unused_imports)]

pub mod ieee;
pub mod layout;
pub mod words;
pub mod spill;
pub mod pack;
pub mod lookup;
pub mod band;
pub mod reaction;
pub mod roulette;
pub mod pend;
pub mod history;
pub mod transport;
pub mod alike;
pub mod events;
pub mod effects;
pub mod bvh;
pub mod mesh;
pub mod cyl;
pub mod tally;
pub mod bank;
pub mod decay;
pub mod photon;
pub mod emission;
pub mod lengths;
pub mod validate;
pub mod fitting;
pub mod guards;
pub mod result;
pub mod launch;
pub mod bytes;
pub mod drivers;
pub mod run;
pub mod compare;
pub mod course;
