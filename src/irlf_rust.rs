pub mod lex;
