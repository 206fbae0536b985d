pub mod assoc;
pub mod bitset;
pub mod block;
pub mod ctx;
pub mod moves;
pub mod pos;
pub mod suggest;
pub mod world;
