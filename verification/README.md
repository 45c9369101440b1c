# A small x86_64 kernel

The decision-making core of a kernel for the PC, written and proved in
[Verus](https://github.com/verus-lang/verus), and the thin layer around it that talks to the
hardware.

## What it does

- Text on a pixel framebuffer, with a bitmap font, line wrapping and scrolling.
- A global descriptor table with a task state segment and a separate stack for double faults.
- An interrupt descriptor table for breakpoints, double faults, page faults, the timer and the
  keyboard, the latter two behind remapped 8259 interrupt controllers.
- Physical frames from the boot loader's memory map, and a heap of 100 KiB with a bump allocator.
- A cooperative executor for `async` tasks that halts the processor when nothing is ready.
- Keyboard input through a bounded queue that the interrupt handler fills and a task empties.
- A host tool that wraps the kernel into a disk image and boots it in QEMU.

## Layout

- `src/` is the library. Each module states what it does in `requires` and `ensures` clauses that
  Verus proves; functions named `law_..` state what holds across several calls.
  - `allocator`: the bump allocator, and the mapping of the heap's pages
  - `memory`, `paging`: physical frames, addresses and page mapping requests
  - `framebuffer`, `font`: text rendering
  - `gdt`, `interrupts`: descriptor tables and interrupt handling
  - `task`, `task::executor`, `task::keyboard`, `queue`: tasks, scheduling and keyboard input
  - `boot`: the order in which the subsystems are brought up
  - `disk_image`: the command lines of the host tool and of the emulator
- `tests/` runs the library on concrete values.
- `app/` holds what touches the hardware and the host: port and register access, interrupt entry
  points, the global allocator, futures and wakers, and the entry points of both programs.

Outside crates are called from `src/` through small functions whose contracts are taken on trust;
the doc comment of each says which outside function it calls and what is claimed of it.

## Sharing with interrupt handlers

The executor and the scancode channel take exclusive references. `app/` shares them with the
interrupt handlers by keeping interrupts out for the length of one operation. A poll of the
scancode stream is made of several operations, so that scancodes may arrive in between;
`law_no_wakeup_is_lost` says that none of them goes unnoticed.
