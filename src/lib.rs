//! Client-side core of a publish-style message broker: the wire codec,
//! name resolution, queue selection and producer construction.

pub mod protocol;
pub mod selector;
pub mod resolver;
pub mod producer;
