# A verified kernel library

The logic of a small AArch64 kernel, written in Verus and proved against its contracts:

- `arch`: addresses, the saved task context, locks, and the translation tables (walks,
  mapping, unmapping, copy-on-write), over a model of physical memory (`mm::pages`);
  `arch::unmap_proofs` proves that an unmapped range no longer translates, and
  `arch::map_proofs` what a mapped range translates to (existing memory, or fresh zeroed pages)
  and that a remapped page translates to its new address, for ranges within one 2 MiB block
  (the tables on the way being made where they are missing).
- `block`: a device as blocks of bytes, the buffer cache and MBR partition tables.
- `fs`: file attributes, file descriptor tables, path components, in-memory files, the
  process filesystem's root, and ext2 (superblock, bitmaps, inodes, block tables, directory
  entries, reading and writing files); `fs::ext2::directory_proofs` proves that adding a
  directory entry makes lookups find it and keeps finding the names found before, for entries
  in any block of a directory (direct or reached through block tables), given the directory's
  entries form a well-formed chain and the block written is none of its other blocks or
  block tables; the allocations of file blocks, block tables included, are stated exactly.
- `drivers`: the interrupt controller's pending interrupts, the system timer, the serial
  console and the SD card host (commands, clock values, data words, bring-up sequence).
- `api`: system call requests and their routing.
- `shell`: the command-line parser of the shell.

`app/` holds the shell's main loop, which reads lines and runs programs on a host.
