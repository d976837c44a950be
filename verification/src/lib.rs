//! Instruction-set core of a stack-based virtual machine.
//!
//! A declarative table of opcode descriptors (byte value, mnemonic, immediate
//! operand size, stack effect) is compiled into an [`table::OpcodeTable`].
//! From that table the codec converts between raw bytecode, structured
//! instruction sequences and an assembly text form, and the dispatch builder
//! produces a dense 256-entry handler array.  The operand stack the handlers
//! work on lives in [`stack`].

pub mod codec;
pub mod dispatch;
pub mod hex;
pub mod opcode;
pub mod stack;
pub mod table;
pub mod text;
