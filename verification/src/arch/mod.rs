pub mod types;
pub mod context;
pub mod sync;
pub mod exceptions;
pub mod mmu;
pub mod unmap_proofs;
pub mod map_proofs;
