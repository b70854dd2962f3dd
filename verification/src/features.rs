//! The features that answer editor requests.

pub mod completion;
