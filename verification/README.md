# opcode_bench

Per-opcode micro-benchmarks of revm's EVM interpreter.

- `src/` is the verified library: which opcodes a run measures and how
  (`plan`), the per-opcode sample table (`table`), sum, average, median and
  sorting of samples (`stats`), the order of opcode names (`name_order`),
  decimal text (`decimal`), and the rows of the CSV reports (`report`).
- `app/` is the program around it: it builds the revm interpreters, runs and
  times the opcodes, and writes the report rows with the `csv` crate.
