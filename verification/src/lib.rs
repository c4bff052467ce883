//! The core of an image-transformation proxy: a request names a source image
//! and a pipeline of transforms, and gets back the transformed image.
//!
//! - `pb`: the data model of a pipeline.
//! - `varint`, `wire`: the binary record of a pipeline.
//! - `token`: the URL-safe token that carries a record.
//! - `engine`: what transforms make of an image's size, the check of a
//!   pipeline against an image, and the contract of a pixel engine.
//! - `cache`: the bounded least-recently-used store of outputs.
//! - `flight`: the keys whose output is being produced.
//! - `proxy`: the coordinator that takes one request from token to answer.
//! - `cli`: the rules of the command-line client that comes with the proxy.

pub mod cache;
pub mod cli;
pub mod engine;
pub mod flight;
pub mod pb;
pub mod proxy;
pub mod token;
pub mod varint;
pub mod wire;
