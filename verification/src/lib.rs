pub mod channel;
pub mod mesh;
pub mod name_map;
pub mod numerals;
pub mod rdma;
pub mod text;
