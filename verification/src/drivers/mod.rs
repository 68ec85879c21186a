pub mod gic;
pub mod timer;
pub mod console;
pub mod emmc;
