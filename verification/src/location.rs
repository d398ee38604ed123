//! The address deriver: a deterministic, collision-resistant storage
//! location computed from a fixed label and the caller's identity, plus the
//! disambiguation nonce ("bump") that witnesses the derivation.
//!
//! The derivation itself is a hash-based search done by the host's address
//! scheme; this module binds it behind one trusted wrapper whose result is a
//! pure function of the seeds and the program identifier alone.

use vstd::prelude::*;

use crate::errors::CounterError;
use crate::identity::Identity;

verus! {

/// A derived storage location, as its raw 32 bytes.
#[derive(Clone, Copy, Debug)]
pub struct Address {
    pub bytes: [u8; 32],
}

impl View for Address {
    type V = Seq<u8>;

    open spec fn view(&self) -> Seq<u8> {
        self.bytes@
    }
}

impl Address {
    /// Byte-for-byte equality of two addresses.
    pub fn same_as(&self, other: &Address) -> (r: bool)
        ensures
            r == (self@ == other@),
    {
        let mut i: usize = 0;
        while i < 32
            invariant
                i <= 32,
                forall|j: int| 0 <= j < i ==> self.bytes@[j] == other.bytes@[j],
            decreases 32 - i,
        {
            if self.bytes[i] != other.bytes[i] {
                proof {
                    assert(self@[i as int] != other@[i as int]);
                }
                return false;
            }
            i += 1;
        }
        proof {
            assert(self@ =~= other@);
        }
        true
    }
}

/// What `Pubkey::try_find_program_address` returns for the given seeds and
/// program identifier: the derived address and its bump nonce, or nothing
/// when no nonce in the bounded search space yields a safe address.  The
/// result depends on the seeds and the program identifier alone.
pub uninterp spec fn pda_of(seeds: Seq<Seq<u8>>, program: Seq<u8>) -> Option<(Seq<u8>, u8)>;

/// Relies on `anchor_lang::solana_program::pubkey::Pubkey::try_find_program_address`:
/// the returned address and bump are a deterministic function of the seed
/// slices and the program identifier, and `None` comes only when the bounded
/// nonce search finds no safe address.
#[verifier::external_body]
fn try_find_pda(label: &Vec<u8>, owner: &Identity, program: &[u8; 32]) -> (r: Option<
    (Address, u8),
>)
    ensures
        match r {
            Some(p) => pda_of(seq![label@, owner@], program@) == Some((p.0@, p.1)),
            None => pda_of(seq![label@, owner@], program@) is None,
        },
{
    let program_id = anchor_lang::solana_program::pubkey::Pubkey::new_from_array(*program);
    let found = anchor_lang::solana_program::pubkey::Pubkey::try_find_program_address(
        &[label.as_slice(), &owner.bytes],
        &program_id,
    );
    found.map(|p| (Address { bytes: p.0.to_bytes() }, p.1))
}

/// The fixed label that prefixes every derivation, `b"Counter"`.
pub open spec fn counter_label() -> Seq<u8> {
    seq![67u8, 111u8, 117u8, 110u8, 116u8, 101u8, 114u8]
}

/// The program identifier under which every location is derived.
pub open spec fn program_id() -> Seq<u8> {
    seq![
        91u8, 54u8, 190u8, 159u8, 51u8, 24u8, 201u8, 90u8, 67u8, 148u8, 156u8, 211u8, 12u8, 224u8,
        172u8, 104u8, 21u8, 197u8, 202u8, 103u8, 84u8, 22u8, 139u8, 170u8, 11u8, 81u8, 213u8,
        128u8, 88u8, 155u8, 245u8, 165u8,
    ]
}

/// The label as bytes.
fn counter_label_bytes() -> (r: Vec<u8>)
    ensures
        r@ == counter_label(),
{
    let mut v: Vec<u8> = Vec::new();
    v.push(67);
    v.push(111);
    v.push(117);
    v.push(110);
    v.push(116);
    v.push(101);
    v.push(114);
    proof {
        assert(v@ =~= counter_label());
    }
    v
}

/// The program identifier as bytes.
fn program_id_bytes() -> (r: [u8; 32])
    ensures
        r@ == program_id(),
{
    let a: [u8; 32] = [
        91, 54, 190, 159, 51, 24, 201, 90, 67, 148, 156, 211, 12, 224, 172, 104, 21, 197, 202,
        103, 84, 22, 139, 170, 11, 81, 213, 128, 88, 155, 245, 165,
    ];
    proof {
        assert(a@ =~= program_id());
    }
    a
}

/// What derivation yields for an owner: the location and bump found for the
/// fixed label, the owner's identity and the program identifier.
pub open spec fn spec_derived(owner: Seq<u8>) -> Option<(Seq<u8>, u8)> {
    pda_of(seq![counter_label(), owner], program_id())
}

/// The derived location of an owner, meaningful when derivation succeeds.
pub open spec fn derived_addr(owner: Seq<u8>) -> Seq<u8> {
    match spec_derived(owner) {
        Some(p) => p.0,
        None => Seq::empty(),
    }
}

/// Derives the storage location for `owner`: deterministic and pure, so any
/// caller who knows the label and the identity reaches the same address.
pub fn derive_location(owner: &Identity) -> (r: Result<(Address, u8), CounterError>)
    ensures
        match r {
            Ok(p) => spec_derived(owner@) == Some((p.0@, p.1)),
            Err(e) => e == CounterError::DerivationFailed && spec_derived(owner@) is None,
        },
{
    let label = counter_label_bytes();
    let pid = program_id_bytes();
    match try_find_pda(&label, owner, &pid) {
        Some(p) => Ok(p),
        None => Err(CounterError::DerivationFailed),
    }
}

/// Deriving the location for one owner twice yields the same address and
/// the same bump: the derivation is a pure function of the identity.
pub proof fn lemma_derivation_deterministic(o1: Seq<u8>, o2: Seq<u8>)
    requires
        o1 == o2,
    ensures
        spec_derived(o1) == spec_derived(o2),
        derived_addr(o1) == derived_addr(o2),
{
}

} // verus!
