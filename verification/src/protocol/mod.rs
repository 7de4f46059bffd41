pub mod text;
pub mod heapless;
pub mod error;
pub mod utils;
pub mod qos;
pub mod packet_type;
pub mod packets;
