pub mod assembling;
pub mod linking;
pub mod string_map;
pub mod little_endian;
pub mod compiling;
pub mod abstract_syntax_tree;
pub mod type_checker;
pub mod parsing;
pub mod library;
