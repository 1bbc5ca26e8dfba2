//! A small real-time physics kernel: fixed-point rigid spheres, sphere and
//! plane collisions, a spring-mass soft body, and a formula language
//! (tokenizer, parser, constant folder, bytecode compiler and stack machine)
//! in which force and response laws are written as text.
//!
//! Every number is a [`fixed::Fixed`]: a decimal fixed-point value with six
//! fractional digits whose operations are exact up to rounding toward zero
//! and saturation, so that each step of the simulation is deterministic and
//! stated exactly in the contracts.
pub mod collision;
pub mod config;
pub mod fixed;
pub mod pairs;
pub mod parser;
pub mod plane;
pub mod softbody;
pub mod sphere;
pub mod tokenizer;
pub mod vector;
pub mod vm;
