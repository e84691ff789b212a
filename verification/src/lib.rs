//! Arithmetic-circuit proofs over the Ristretto group, with vector Pedersen
//! commitments as inputs of the circuit and a shared accumulator for the
//! verification of many proofs at once.
//!
//! A prover who knows the wires of a circuit and the openings of public
//! commitments shows that they satisfy the circuit's linear constraints,
//! with a proof whose size is logarithmic in that of the circuit. The
//! arithmetic of the field and of the group is `dalek-ff-group`'s, sums of
//! many multiples are `multiexp`'s, and challenges are drawn from
//! `flexible-transcript`'s recommended transcript; what this library states
//! of them it does not prove. All else is proved: what a statement is
//! refused for, what a witness is refused for, which proof proving ends
//! with, and what verifying leaves of the transcript and of the
//! accumulator.
//!
//! A challenge which is zero ends the protocol. No function here stops the
//! program: each challenge is first found on a copy of the transcript, and
//! where it is zero proving and verifying return `None`, for the caller to
//! stop on.
//!
//! - [`field`] and [`group`]: scalars and points, and the names of the
//!   group's operations;
//! - [`transcript`]: the Fiat-Shamir transcript;
//! - [`scalar_vector`], [`point_vector`], [`scalar_matrix`],
//!   [`polynomial`]: the containers the protocol is written in;
//! - [`commitment`] and [`generators`]: Pedersen commitments, the
//!   generators they are made on, and the accumulator;
//! - [`inner_product`]: the inner-product argument;
//! - [`circuit`]: the relation and the protocol, as mathematics;
//! - [`arithmetic_circuit_proof`]: statements, witnesses and proofs;
//! - [`wire`]: proofs as bytes;
//! - [`algebra`] and [`laws`]: what the arithmetic of the field has to do
//!   with sums of integers, and what holds between the functions above;
//! - [`tree`], [`multisig`] and [`coin`]: the hashing of a tree's children,
//!   the framing of the messages of signers, and the fixed parameters of
//!   the coin, for those who build on the proofs.
pub mod field;
pub mod group;
pub mod transcript;
pub mod scalar_vector;
pub mod point_vector;
pub mod scalar_matrix;
pub mod commitment;
pub mod generators;
pub mod inner_product;
pub mod circuit;
pub mod polynomial;
pub mod arithmetic_circuit_proof;
pub mod wire;
pub mod algebra;
pub mod laws;
pub mod tree;
pub mod multisig;
pub mod coin;
