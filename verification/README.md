# rcore

A verified easy file system and the kernel pieces around it.

- `block_dev`: the `BlockDevice` trait, whose contract says what a read of a
  block gives back and what a write changes, and `MemoryBlockDevice`, a device
  kept in memory.
- `block_cache`: cached blocks and the cache manager, which owns its device
  and must be given back its device with `into_block_device` (or synced) before
  it is dropped, since dropping writes nothing back. Its contracts are
  stated over the logical view of the disk (a block's cached copy where there
  is one, the device's block otherwise): looking blocks up, evicting and
  writing back never change that view, and writing back makes the device
  equal to it.
- `bitmap`: bitmaps kept in blocks; allocation takes the lowest clear bit.
- `layout`: the super block and the initial inode on disk.
- `efs`: creating and opening a file system, inode positions, and inode and
  data block allocation; the file system records its layout and works
  through the block cache of its device, which its users hand in.
- `task`: task control blocks and their changes on `exec` and `fork`.
- `logging`: log level colors and the level filter chosen by the `LOG`
  setting.
- `user`: the decisions of the shell and of the first user process.

`app/` holds the hosted console, the `log` facade's logger and a small
program that formats an in-memory device, or runs the shell on standard
input.
