pub mod block;
pub mod storage;
