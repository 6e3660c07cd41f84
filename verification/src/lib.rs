//! A pausable bytecode virtual machine: values, a mark-sweep heap, bytecode
//! encoding, snapshots of the machine state and the interpreter itself.

pub mod chunk;
pub mod function;
pub mod heap;
pub mod hostio;
pub mod interp;
pub mod io;
pub mod opcode;
pub mod opsem;
pub mod reconnect;
pub mod restore;
pub mod scan;
pub mod sections;
pub mod serialize;
pub mod snapfile;
pub mod snapshot;
pub mod task;
pub mod readback;
pub mod recovery;
pub mod tasktree;
pub mod text;
pub mod value;
pub mod vm;
pub mod wire;
