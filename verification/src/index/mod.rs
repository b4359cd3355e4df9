pub mod simple_index;
