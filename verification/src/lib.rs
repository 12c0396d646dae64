pub mod addr;
pub mod format;
pub mod num;
pub mod session;
pub mod stamp;
