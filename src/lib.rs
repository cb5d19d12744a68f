pub mod content;
pub mod engine;
pub mod laws;
pub mod list;
pub mod position;
pub mod text;

pub use content::get_content;
pub use engine::{
    is_valid_char, tokenize, Token, TokenOptionCondition, TokenOptionResult, TokenizeError,
};
pub use list::List;
pub use position::{Location, Position};
