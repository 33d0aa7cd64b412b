pub mod colorformat;
pub mod compiler_errors;
pub mod diagnostics;
