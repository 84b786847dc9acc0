pub mod core64;
pub mod dyshared;
pub mod paging;
pub mod pic;
pub mod ps2;
pub mod shared;
pub mod start_process;
pub mod syscall_std;
