//! Setting a sorting up.

pub mod standart_builder;
pub mod survey;
