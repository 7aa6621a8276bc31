pub mod gc;
