//! Front end of a small experimental language: a checkpointable token cursor,
//! a lexer, and a backtracking parser that infers value types as it builds the
//! syntax tree and ranks the diagnostics of failed alternatives.
pub mod needle;
pub mod type_handler;
pub mod token;
pub mod tokenizer;
pub mod nodes;
pub mod errors;
pub mod byte_vec;
pub mod parser;
pub mod render;
pub mod string_needle;
pub mod tree_dump;

pub use needle::{CursorOp, CursorView, Loc, Needle, TextMetaData};
pub use tokenizer::tokenize;
pub use tree_dump::TreeDump;
pub use type_handler::{Type, TypeCollection, Scope, ScopeHandle, ScopePool};
pub use byte_vec::{ByteVec, ByteVecIterator, VirtualMachine};
pub use errors::{AssignmentDataError, BlockError, ErrorView, LiteralError, ParserError, SimpleError};
pub use nodes::{AssignmentNode, CodeLocation, BlockNode, ErrorNode, LiteralNode, NilNode, NodeView, SyntaxTreeNode, VariableNode};
pub use parser::{parse_assignment, parse_block, parse_literal, parse_value, parse_variable, ParseResult};
pub use string_needle::{StringNeedle, TokenError};
pub use token::{FloatLiteral, KeywordType, LiteralType, OperatorType, Token, TokenType};
