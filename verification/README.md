# core64

The kernel of a small 32-bit x86 hobby operating system and the pieces its modules share,
written in Verus.

`src/` is the verified library:

- `core64::loader`, `dynamic`, `image`, `link`, `symbols`, `objects`, `modload`: loading
  position-independent ELF32 shared objects (program headers, dynamic table, `.got`, symbol
  binding, `R_386_*` relocations) and loading a module with its dependencies in topological
  order. `elf_file` is the boundary to the `elf` crate.
- `core64::kalloc`: the kernel's bump allocator.
- `core64::screen`, `shared::screen`: the 80x25 text console.
- `core64::syscall`, `shared`: the interrupt table, named interfaces and requests through them.
- `paging`: two-level 32-bit page maps.
- `pic`, `ps2`, `dyshared::ports`: the interrupt controllers and the PS/2 controller; the port
  writes are returned to the caller.
- `shared::process`, `shared::kstd`, `start_process`, `syscall_std`: process stacks and small
  runtime pieces.

`app/` performs what the library decides on the hardware: port I/O, the VGA buffer, privileged
registers, interrupt and system-call entry, and the allocators the runtime installs.
