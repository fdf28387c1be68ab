pub mod dockerignore;
pub mod globpat;
pub mod order;
pub mod output;
