//! The data of a conversion: the catalog as read, and what is made of it.
pub mod inoutoutput;
pub mod input;
pub mod output;
