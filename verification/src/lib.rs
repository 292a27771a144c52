//! Builds the graph of native type declarations that mirrors a managed
//! runtime's type metadata: identities, skeleton nodes, resolved bodies,
//! field layout and the order in which a compilation unit is emitted.
pub mod format;
pub mod generate;
pub mod sort;
