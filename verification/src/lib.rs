pub mod instructions;
pub mod laws;
pub mod machine;
