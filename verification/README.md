# codexOS

The logic of a small x86-64 operating system, verified with Verus: a loader that boots one of two
signed system slots, a kernel with its own memory, page tables, heap, interrupts, scheduler,
filesystem and network, a desktop, and the tools that sign, install, update and check the system.

- `src/` is the verified library. What touches hardware, firmware or files is written as decisions: a
  function says what is to be read or written next and takes what came of it.
- `app/` holds what is left: port input and output, interrupt stubs, the firmware's protocols, FAT
  volumes, the emulator, and the command line.
- `tests/` runs the library on concrete values.

| Modules | What they are about |
| --- | --- |
| `bytes`, `checksum`, `text`, `hex`, `sums` | numbers, checksums and texts |
| `update_format`, `crypto`, `release`, `update`, `disk`, `installed` | signed releases, updates and disk images |
| `elf`, `loader` | the kernel's file, the choice of a slot, trust, the hand-over |
| `bootinfo`, `boot`, `runtime`, `kernel_image`, `startup` | what the kernel is told, and how it comes up |
| `memory`, `vm`, `heap_allocator` | pages, page tables, the heap |
| `interrupts`, `process`, `scheduler`, `user_elf` | interrupts and user programs |
| `block`, `virtio`, `fs` | the disk and CodexFS |
| `network` | frames, DHCP, DNS, TCP and the listener |
| `hardware`, `input`, `gfx`, `desktop` | devices, input and the screen |
| `smoke` | what the log of a boot must say |

The functions that call other crates are marked `external_body`; each says in its comment what is
taken for granted of the call. They are in `crypto` (`sha2`, `ed25519-dalek`), `elf` (`xmas-elf`) and
`update` (`getrandom`); two more, in `fs::record` and `loader::handoff`, call the standard library.
