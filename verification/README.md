# kernel_loader

The verified core of a small UEFI boot loader and the kernel it starts.

- `src/` is the library, verified by Verus: page arithmetic (`page`),
  little-endian reading (`bytes`), ELF64 headers read from a kernel image
  (`elf64`), the load range, the page region and the copying of loadable
  segments (`loader`), headers decoded with bincode and the address range of
  all program headers (`elf`), the serial port's address (`uart`) and the
  kernel's frame-buffer drawing (`frame_buffer`).
- `app/` is the UEFI program around it: it reads the kernel file, allocates
  memory, leaves boot services and jumps to the kernel; it also holds the
  kernel's entry point and the serial port's text output.
- `tests/` runs the library on concrete images.
