pub mod align;
pub mod assemble;
pub mod duplicates;
pub mod trend;
pub mod window;
