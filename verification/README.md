# AtulyaOS

A small x86-64 hobby kernel whose decision-making parts are a library verified with Verus.

## Layout

- `src/` — the verified library (`atulyaos`): framebuffer drawing (`display`), the boot
  animation models (`boot`), the login gate and desktop input handling (`login`, `desktop`,
  `windows`), the RAM file system and ATA sector encoding (`fs`), the shell and its services
  (`ai`, `ai_model`, `audio`, `voice`, `vault`, `security`, `antivirus`, `pkg`, `viewer`,
  `gguf`, `wasm`), networking (`net`), processes and the round-robin scheduler (`process`,
  `scheduler`), interrupts bookkeeping, timers, PCI, POSIX and system-call decoding.
  Every function carries a `requires`/`ensures` contract. Several properties that span
  calls are stated as `pub proof fn lemma_*` items next to the code they are about; others
  (what an operation leaves unchanged) are carried by the operations' own contracts.
- `tests/` — tests of the library on concrete values.
- `app/` — the kernel binary around the library: boot entry, heap, GDT/IDT, port I/O,
  assembly entry points, the render loops, and the floating-point shaders.
