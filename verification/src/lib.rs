pub mod ast;
pub mod c_format;
pub mod c_helpers;
pub mod c_names;
pub mod c_runtime;
pub mod c_tracked;
pub mod c_user_types;
pub mod c_templates;
pub mod check_rules;
pub mod code_generator;
pub mod declarations;
pub mod compiler_runner;
pub mod error;
pub mod lines;
pub mod lox;
pub mod parser;
pub mod renaming;
pub mod report;
pub mod scanner;
pub mod sorted_keys;
pub mod test_runner;
pub mod text;
pub mod token;
pub mod type_env;
pub mod type_ops;
pub mod type_rules;
pub mod type_checker;
pub mod types;
pub mod unifier;
