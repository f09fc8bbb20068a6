pub mod sdc;
pub mod spef;
