pub mod loopback;
pub mod nic;
pub mod stack;
