//! Optimizations of three-address code.
pub mod constpropagation;
pub mod deadtempelimination;
pub mod pipeline;
pub mod remaptemp;
pub mod weight;
