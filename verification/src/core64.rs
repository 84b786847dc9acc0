pub mod dynamic;
pub mod elf_file;
pub mod image;
pub mod kalloc;
pub mod link;
pub mod loader;
pub mod modload;
pub mod objects;
pub mod screen;
pub mod symbols;
pub mod syscall;
