//! Intent Policy Engine core: policy language front end, bytecode compiler,
//! bytecode interpreter and the supporting data model, with their contracts.

pub mod approval;
pub mod ast;
pub mod attrs;
pub mod bytecode;
pub mod clock;
pub mod code_size;
pub mod compiler;
pub mod engine;
pub mod error;
pub mod index;
pub mod interpreter;
pub mod jit;
pub mod kv;
pub mod parser;
pub mod rar;
pub mod store;
pub mod relationship;
pub mod service;
pub mod testing;
pub mod text;
pub mod tiering;
