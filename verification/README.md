# liteos_kernel

The Rust parts of the LiteOS-A kernel extensions, with their logic verified by
Verus.

- `src/` is the verified library: kernel error numbers (`types`), values in the
  kernel heap (`heap`), C strings held in byte slices (`cstr`), text written
  into fixed buffers (`fmt`), the `cpup` shell command (`cpup`), the blackbox
  fault log (`blackbox`), the hidumper dumps (`hidumper`) and the trace agent
  (`trace`).
- `app/` holds the exported C symbols: it calls into the kernel, converts C
  memory into the library's values and back, and does what the library decides.
- `tests/` runs the library on concrete inputs.
