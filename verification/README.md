# disktui-lite

An installer that writes a disk image to a disk and lets the image take up the
space that is left on the disk. Its decisions are a Verus library: what each
function returns or changes is stated in its contract and proved.

- `src/` is the library. It does no I/O: it takes what was read, and says what
  to do next.
  - `grow/` grows a written image: the policy (`policy`), what stands on the
    disk (`device`, `table`, `fs`), what to grow (`plan`), the run that carries
    the plan out one job at a time (`run`), the commands and messages of a run
    (`render`, `outcome`), and what holds of every run (`guarantees`).
  - `init` starts the machine, `modload` orders kernel modules, `loading` loads
    them in turn, `disk` and `sat` describe disks, `app` is the state of the
    installer.
  - `text`, `bytes`, `paths`, `order` and `utils` are shared by the others.
- `tests/` runs the library on concrete values.
- `app/` is the program around the library: files, processes, the kernel and
  the terminal.

Functions named `law_...` are proofs of what several functions promise together.
