//! Ciphertext-policy attribute-based encryption in the Bethencourt–Sahai–Waters
//! construction. A payload is encrypted under a boolean policy over attribute
//! names; a secret key issued for an attribute set decrypts exactly when the
//! set satisfies the policy. The scalar-field secret sharing, policy pruning
//! and the symmetric envelope carry verified contracts; the pairing-group
//! algebra is called through trusted wrappers around the pairing library.

pub mod bsw;
pub mod envelope;
pub mod groups;
pub mod policy;
pub mod parser;
pub mod scalar;
pub mod secretsharing;
