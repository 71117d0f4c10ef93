pub mod idmap;
pub mod ir;
pub mod lex;
pub mod unpretty;
pub mod pretty;
pub mod visitor;
