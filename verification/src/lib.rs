pub mod cfg;
pub mod errors;
pub mod floatops;
pub mod format;
pub mod join;
pub mod lagrtriangle;
pub mod pipeline;
pub mod reader;
pub mod save;
pub mod surfaces;
pub mod triangle;
pub mod vector;
pub mod vertice;

