# piku assembler, verified

A small assembler for a toy 16-bit machine with eight registers `r0`..`r7`.
It turns source text such as

    loop: INC r0
          CMP r0, 10
          JLT loop
          HLT

into a list of items: instructions, label declarations, and jumps and calls
whose target labels are still to be resolved.

Layout:

- `src/assembler.rs` — the operand and item types and the `Assembler`, whose
  `process` and `process_checked` carry exact contracts.
- `src/grammar.rs` — the meaning of the source text: spec functions that say
  what is read at each position, with the mnemonic table.
- `src/instruction.rs`, `src/error.rs` — instructions and rejection reasons.
- `src/text.rs` — the character classes and number conversion of the
  standard library that the assembler uses: written and verified where a few
  lines state them, otherwise behind small trusted wrappers.
- `src/laws.rs`, `src/locality.rs` — properties of the assembler over all
  texts, and the facts about reading that they rest on.
- `app/main.rs` — reads one line from standard input and prints what it
  assembles to.
