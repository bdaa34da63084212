# kernel

The core logic of the Bazzulto kernel (an AArch64 hobby operating system),
written in Verus and proved against its contracts.

`src/` is the verified library:

- on-disk formats: Btrfs (superblock, chunk map, B-tree search, leaf
  building and rewriting, reads and writes through a volume), FAT32 (boot
  sector, FAT chains, 8.3 and long names, directory lookup and listing,
  file reads and writes), MBR and GPT partition tables;
- in-memory filesystems and objects: tmpfs, devfs, procfs, FIFOs, pipes,
  pseudo-terminals, Unix sockets, message queues and named semaphores, the
  mount table and path resolution, file descriptor tables, epoll;
- the terminal line discipline, the input ring, the framebuffer console's
  ANSI parser, the panic screen layout;
- the ELF loader's plan (header checks, segment pages, initial stack page);
- CRC32C and SHA-256; exception syndrome decoding and fault reports;
  boot-time decisions (command line, root volume choice).

Disks are reached through the `BlockDevice` trait, which sees a device as
the bytes it holds: successful reads deliver them and writes replace them.
The filesystem contracts are stated against those bytes (the B-tree path a
search takes, the FAT chain a directory lookup follows, the sectors a
superblock commit writes), while whether a device operation succeeds is
left to the device.

`tests/` runs the library on concrete values, including FAT32 and Btrfs
images built in memory.

`app/` is a hosted program around the library: standard input and output
stand for the serial line, image files for the disks, and a framebuffer in
memory for the display.
