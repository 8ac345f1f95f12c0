//! The layers of the engine whose work does not depend on the element type:
//! they move, select or copy elements.
pub mod cat;
pub mod conf;
pub mod contiguous;
pub mod embedding;
pub mod expand;
pub mod flatten;
pub mod masked_fill;
pub mod tensor_split;
pub mod transpose;
pub mod view;
pub mod unsqueeze;
pub mod tensor_to;
pub mod expr;
pub mod upsample;
