//! The identifier resolver: turns a user-supplied identifier -- numeric or
//! named -- into a stable numeric routing key.
//!
//! A numeric identifier carries a positive 32-bit value as four
//! little-endian payload bytes and resolves to that value. A named
//! identifier carries the UTF-8 bytes of its name and resolves to a
//! deterministic 32-bit hash of those bytes. The hash is FNV-1a, chosen for
//! its stability and simplicity: the same bytes always give the same key, in
//! every process and on every machine. Collisions between distinct names are
//! a tolerated limitation; correctness depends on determinism alone.

use vstd::prelude::*;
use vstd::bytes::lemma_auto_spec_u32_to_from_le_bytes;
use vstd::bytes::spec_u32_from_le_bytes;
use vstd::bytes::spec_u32_to_le_bytes;
use vstd::bytes::u32_from_le_bytes;
use vstd::bytes::u32_to_le_bytes;
use vstd::string::StrSliceExecFns;
use vstd::utf8::encode_utf8;
use vstd::wrapping::u32_specs;
use crate::errors::CoordinatorError;

verus! {

/// How an identifier's payload is to be read: as a little-endian number or
/// as the bytes of a name.
#[derive(Clone, Copy, Debug, PartialEq, Eq, Structural)]
pub enum IdKind {
    Numeric,
    Named,
}

/// The longest accepted name, in bytes.
pub const MAX_NAME_LENGTH: usize = 255;

/// The FNV-1a starting value (offset basis) for 32-bit output.
pub const FNV_OFFSET_BASIS: u32 = 0x811c_9dc5;

/// The FNV-1a multiplier (prime) for 32-bit output.
pub const FNV_PRIME: u32 = 0x0100_0193;

/// One FNV-1a round: fold a byte into the running hash.
pub open spec fn spec_fnv1a_step(h: u32, b: u8) -> u32 {
    u32_specs::wrapping_mul(h ^ (b as u32), FNV_PRIME)
}

/// FNV-1a over a byte sequence, folding bytes in from first to last.
pub open spec fn spec_fnv1a(bytes: Seq<u8>) -> u32
    decreases bytes.len(),
{
    if bytes.len() == 0 {
        FNV_OFFSET_BASIS
    } else {
        spec_fnv1a_step(spec_fnv1a(bytes.drop_last()), bytes.last())
    }
}

/// FNV-1a of a byte vector.
pub fn fnv1a(bytes: &Vec<u8>) -> (h: u32)
    ensures
        h == spec_fnv1a(bytes@),
{
    let mut h: u32 = FNV_OFFSET_BASIS;
    let mut i: usize = 0;
    assert(bytes@.subrange(0, 0) =~= Seq::<u8>::empty());
    while i < bytes.len()
        invariant
            i <= bytes@.len(),
            h == spec_fnv1a(bytes@.subrange(0, i as int)),
        decreases bytes@.len() - i,
    {
        h = (h ^ (bytes[i] as u32)).wrapping_mul(FNV_PRIME);
        assert(bytes@.subrange(0, i + 1).drop_last() =~= bytes@.subrange(0, i as int));
        assert(bytes@.subrange(0, i + 1).last() == bytes@[i as int]);
        i = i + 1;
    }
    assert(bytes@.subrange(0, bytes@.len() as int) =~= bytes@);
    h
}

/// The mathematical content of an [`Identifier`]: its kind and its payload
/// bytes.
pub struct IdentifierView {
    pub kind: IdKind,
    pub value: Seq<u8>,
}

/// Whether an identifier's content is well formed: a numeric payload is four
/// little-endian bytes holding a positive value, a name has one to
/// [`MAX_NAME_LENGTH`] bytes.
pub open spec fn identifier_wf(v: IdentifierView) -> bool {
    match v.kind {
        IdKind::Numeric => v.value.len() == 4 && spec_u32_from_le_bytes(v.value) >= 1,
        IdKind::Named => 1 <= v.value.len() <= MAX_NAME_LENGTH,
    }
}

/// The routing key an identifier resolves to: the embedded value for a
/// numeric identifier, the FNV-1a hash of the name's bytes for a named one.
pub open spec fn spec_resolve_key(v: IdentifierView) -> u32 {
    match v.kind {
        IdKind::Numeric => spec_u32_from_le_bytes(v.value),
        IdKind::Named => spec_fnv1a(v.value),
    }
}

/// A user-supplied identifier, immutable once parsed: either a positive
/// numeric id or a non-empty name of at most [`MAX_NAME_LENGTH`] bytes.
#[derive(Debug)]
pub struct Identifier {
    kind: IdKind,
    value: Vec<u8>,
}

impl View for Identifier {
    type V = IdentifierView;

    closed spec fn view(&self) -> IdentifierView {
        IdentifierView { kind: self.kind, value: self.value@ }
    }
}

impl Identifier {
    #[verifier::type_invariant]
    closed spec fn wf(self) -> bool {
        identifier_wf(self.view())
    }

    /// Builds a numeric identifier. Zero is not a valid id, so it is
    /// rejected with `InvalidIdentifier`; every positive value is accepted.
    pub fn numeric(value: u32) -> (r: Result<Identifier, CoordinatorError>)
        ensures
            match r {
                Ok(id) => value >= 1 && id@.kind == IdKind::Numeric && id@.value
                    == spec_u32_to_le_bytes(value),
                Err(e) => value == 0 && e == CoordinatorError::InvalidIdentifier,
            },
    {
        if value == 0 {
            Err(CoordinatorError::InvalidIdentifier)
        } else {
            proof {
                lemma_auto_spec_u32_to_from_le_bytes();
            }
            Ok(Identifier { kind: IdKind::Numeric, value: u32_to_le_bytes(value) })
        }
    }

    /// Builds a named identifier from a name. The empty name and names
    /// longer than [`MAX_NAME_LENGTH`] bytes are rejected with
    /// `InvalidIdentifier`.
    pub fn named(name: &str) -> (r: Result<Identifier, CoordinatorError>)
        ensures
            match r {
                Ok(id) => {
                    &&& 1 <= encode_utf8(name@).len() <= MAX_NAME_LENGTH
                    &&& id@.kind == IdKind::Named
                    &&& id@.value == encode_utf8(name@)
                },
                Err(e) => {
                    &&& !(1 <= encode_utf8(name@).len() <= MAX_NAME_LENGTH)
                    &&& e == CoordinatorError::InvalidIdentifier
                },
            },
    {
        let bytes = name.as_bytes_vec();
        if bytes.len() == 0 || bytes.len() > MAX_NAME_LENGTH {
            Err(CoordinatorError::InvalidIdentifier)
        } else {
            Ok(Identifier { kind: IdKind::Named, value: bytes })
        }
    }

    /// Parses an identifier from its raw parts: a kind tag and the payload
    /// bytes. A numeric payload that is not exactly four bytes, or holds
    /// zero, cannot embed a positive 32-bit value and is rejected with
    /// `InvalidIdentifier`, never truncated; so is an out-of-bounds name.
    pub fn from_parts(kind: IdKind, value: Vec<u8>) -> (r: Result<Identifier, CoordinatorError>)
        ensures
            match r {
                Ok(id) => {
                    &&& identifier_wf(IdentifierView { kind, value: value@ })
                    &&& id@.kind == kind
                    &&& id@.value == value@
                },
                Err(e) => {
                    &&& !identifier_wf(IdentifierView { kind, value: value@ })
                    &&& e == CoordinatorError::InvalidIdentifier
                },
            },
    {
        match kind {
            IdKind::Numeric => {
                if value.len() != 4 {
                    return Err(CoordinatorError::InvalidIdentifier);
                }
                let embedded = u32_from_le_bytes(value.as_slice());
                if embedded == 0 {
                    Err(CoordinatorError::InvalidIdentifier)
                } else {
                    Ok(Identifier { kind: IdKind::Numeric, value })
                }
            },
            IdKind::Named => {
                if value.len() == 0 || value.len() > MAX_NAME_LENGTH {
                    Err(CoordinatorError::InvalidIdentifier)
                } else {
                    Ok(Identifier { kind: IdKind::Named, value })
                }
            },
        }
    }

    /// The identifier's kind.
    pub fn kind(&self) -> (k: IdKind)
        ensures
            k == self@.kind,
    {
        self.kind
    }

    /// The embedded numeric value. A named identifier embeds none, which is
    /// reported as `InvalidIdentifier`; a numeric identifier always yields
    /// its value.
    pub fn get_u32_value(&self) -> (r: Result<u32, CoordinatorError>)
        ensures
            match r {
                Ok(v) => self@.kind == IdKind::Numeric && v == spec_u32_from_le_bytes(self@.value),
                Err(e) => self@.kind == IdKind::Named && e == CoordinatorError::InvalidIdentifier,
            },
    {
        proof {
            use_type_invariant(self);
        }
        match self.kind {
            IdKind::Numeric => Ok(u32_from_le_bytes(self.value.as_slice())),
            IdKind::Named => Err(CoordinatorError::InvalidIdentifier),
        }
    }

    /// Resolves the identifier to its routing key: a total function with no
    /// failure for well-formed input. Numeric identifiers return the
    /// embedded value directly; named identifiers return the FNV-1a hash of
    /// the name's bytes.
    pub fn resolve_key(&self) -> (key: u32)
        ensures
            key == spec_resolve_key(self@),
    {
        proof {
            use_type_invariant(self);
        }
        match self.kind {
            IdKind::Numeric => u32_from_le_bytes(self.value.as_slice()),
            IdKind::Named => fnv1a(&self.value),
        }
    }
}

/// Law: resolution is deterministic. Two identifiers with the same kind and
/// the same payload bytes resolve to the same routing key, however and
/// whenever each was built.
pub proof fn lemma_resolve_deterministic(a: Identifier, b: Identifier)
    requires
        a@ == b@,
    ensures
        spec_resolve_key(a@) == spec_resolve_key(b@),
{
}

} // verus!
