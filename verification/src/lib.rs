pub mod compile;
pub mod graph_cell;
pub mod later;
pub mod logger;
pub mod split_vec;
pub mod util;
pub mod ast;
