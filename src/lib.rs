// Compiles structured pseudocode (steps, `if`/`else`, `while`, `exit`) into a
// control-flow diagram in the dot format.
pub mod attr;
pub mod dot_writer;
pub mod dump;
pub mod edge;
pub mod flow;
pub mod laws;
pub mod node;
pub mod text;
