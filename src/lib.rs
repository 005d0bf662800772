pub mod varint;
pub mod packet;
pub mod buffer;
pub mod frame;
pub mod session;
pub mod status;
pub mod proxy;
pub mod install;
