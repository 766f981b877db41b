pub mod assoc;
pub mod ast;
pub mod float;
pub mod maps;
pub mod ops;
pub mod sem;
pub mod value;
pub mod vm;
