pub mod block_parser;
pub mod blocks;
pub mod combiner;
pub mod compiler;
pub mod depth;
pub mod errors;
pub mod grammar;
pub mod numbers;
pub mod operations;
pub mod order;
pub mod parsing;
pub mod proc_map;
pub mod reading;
pub mod render;
pub mod shape;
pub mod text;
pub mod text_form;
pub mod token_stream;

pub use block_parser::{parse_block_body, BlockParser};
pub use blocks::{CodeBlock, Script};
pub use combiner::combine_blocks;
pub use compiler::compile_script;
pub use errors::AssemblyError;
pub use operations::Operation;
pub use proc_map::ProcMap;
pub use token_stream::TokenStream;
