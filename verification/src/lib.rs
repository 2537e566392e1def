//! A small calculator library: expression text is tokenized, parsed by
//! recursive descent into a tree that encodes precedence and associativity,
//! and reduced to an evaluation schedule whose arithmetic a caller carries
//! out on machine numbers.

pub mod eval;
pub mod lexer;
pub mod parser;
pub mod ui;

pub use eval::EvalStep;
pub use lexer::LexError;
pub use lexer::LexItem;
pub use lexer::RateTable;
pub use parser::CalcError;
pub use parser::GrammarItem;
pub use parser::ParseError;
pub use parser::ParseNode;
pub use parser::matching;
pub use parser::parse;
pub use ui::Message;
