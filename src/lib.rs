//! An interpreter core for the CHIP-8 virtual machine: the instruction
//! decoder and the machine state with its execute engine, both verified.
pub mod cpu;
pub mod opcode;
