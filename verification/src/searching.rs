pub mod liner;
