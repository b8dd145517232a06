//! Pkl values written as Nix expressions, Pkl string literals, JSON-like
//! data written as Pkl, and the decisions of the deserializer that turns
//! evaluated Pkl values into Rust data.
pub mod cli;
pub mod deserializer;
pub mod nix_serializer;
pub mod text;
