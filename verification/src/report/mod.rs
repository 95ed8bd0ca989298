//! Report text assembly.

pub mod html;
