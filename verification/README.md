# cpu_simulator

Model implementations of simple CPUs, with their behaviour stated as Verus
contracts and proved:

- `isa`: the RV32I instruction set and the decoder of instruction words.
- `assembler`: a two-pass assembler from RV32I source text to instruction
  words, with laws that the decoder reads back what it writes.
- `alu`: a pipelined ALU with configurable pipes, used by both CPUs.
- `latch`, `circular_buffer`: the pipeline register and the ring buffer the
  CPUs are built from.
- `five_stage`: an in-order five-stage pipeline with pluggable hazard and
  forwarding policies.
- `simple_ooo`: a simple out-of-order CPU (Tomasulo style) with a reservation
  station and a reorder buffer.
- `memory`: a write-through, no-allocate cache with a tree pseudo-LRU
  eviction policy, in front of any memory that speaks the simple read/write
  protocol.
- `diag`: diagnostic trees of the components' state and the lines that draw
  them.
- `utils`: little-endian memory access, stepped processes behind ports, and
  the text handling that the assembler and the diagnostics need.

`app/` holds the command-line driver: it reads a program, assembles it and
runs it on one of the two CPUs, printing the diagnostic tree every cycle.
