pub mod chars;
pub mod copy;
pub mod ids;
pub mod paths;
pub mod text;
