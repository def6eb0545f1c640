# nwind (ARM EHABI unwinding)

Unwinds ARM stack frames with the `.ARM.exidx` index table and the
`.ARM.extab` unwinding tables, verified with Verus.

- `regs`: registers and register masks, walked lowest number first.
- `bytes`: little- and big-endian words, read with `byteorder`.
- `bytecode`: the byte stream of an entry's unwinding bytecode.
- `decode`: the decoder of the unwinding instructions.
- `exidx`: the lookup of the index entry that covers an address.
- `registers`: the register file of a frame and the memory-reading trait.
- `vm`: the machine that runs the bytecode, and `VirtualMachine::unwind`.

Address and stack-pointer arithmetic wraps around on 32 bits.
