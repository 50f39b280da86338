//! What the WebAssembly back end needs from the library: the encodings
//! of integer literals, and a model of the code it emits.

pub mod wasm;
pub mod web;
