# VINTAGE-1

A fantasy 8-bit computer built around an NMOS 6502: the CPU, the
memory-mapped machine (framebuffer, keyboard, sprites, beeper, cartridge
banks, save states), a two-pass assembler, a disassembler and the toolchain
around them. The library is written in Verus: its functions state their
behaviour in `requires`/`ensures` over mathematical models, and Verus proves
the code meets it. Two thin wrappers around the standard library
(`String::push` and `str::from_utf8`) are trusted with the contract their
documentation gives.

## Layout

- `src/isa.rs`: opcode decoding and encoding, instruction lengths, base
  cycle counts; `encode` and `decode` are proved mutually inverse on the
  151 official opcodes.
- `src/cpu.rs`: the `Bus` trait and the CPU. Every instruction, interrupt
  and reset is specified as a function on (CPU, bus) states; `Cpu::step`
  is proved to compute exactly that step; every step costs 2 to 7 cycles,
  decimal-mode ADC/SBC compute packed-BCD sums and differences, binary SBC
  is ADC of the complement, and read-modify-write instructions write the
  old value back before the result.
- `src/machine.rs`: the machine behind the bus. Laws cover the memory map,
  ROM write protection, the keyboard latch, bank selection, the frame
  counter, the RANDOM register (a Galois LFSR whose step is a bijection),
  sprite compositing (pixel by pixel, in 1bpp and 2bpp), the vsync IRQ
  (taken at the first boundary with I clear, at most once per frame), what a fresh machine
  reads, the save-state layout, the save/restore round trip (a restore
  redraws the display without touching the bus) and the cycle-exact resume
  of a restored machine.
- `src/assembler.rs`, `src/assembler/passes.rs`: the source dialect as spec
  functions (lexing, expressions, statements, addressing-mode choice), the
  sizing pass and the emission pass; `assemble` returns exactly what
  `assembly` defines, with every error reported at a line of the program,
  and lays each bank out as non-empty, non-adjacent segments below $10000.
- `src/dis.rs`, `src/dis/reassembly.rs`: one-instruction disassembly in
  the assembler's syntax, and the proof that the text of an official
  instruction assembles back to its bytes at its address.
- `src/text.rs`: decimal and hexadecimal text.
- `src/toolchain.rs`: `.vin` containers, cartridge images, PPM screenshots,
  address arguments and disassembly listings.
- `app/main.rs`: the command-line tool (`asm`, `run`, `disasm`): arguments,
  files and printing.
- `tests/`: scenarios for each part.
