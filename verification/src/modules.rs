//! Compiled modules and their serialized artifacts.
//!
//! A compiled module is the engine-specific artifact derived
//! deterministically from raw bytecode and the engine's version.  It is
//! immutable, cheap to hand around, and re-derivable from the raw bytes at
//! any time.  For the durable tier a module is serialized into a small
//! framed artifact tagged with the engine version, so that an engine
//! upgrade silently invalidates stale artifacts instead of serving them.

use vstd::prelude::*;

use crate::checksum::Checksum;
use crate::crypto::sha1_of;

verus! {

/// The version of the engine this library compiles for.  Serialized
/// artifacts carry it; an artifact with another version is never served.
pub const ENGINE_VERSION: u32 = 1;

/// An immutable compiled artifact, derived from raw bytecode alone.
#[derive(Clone, Copy, Debug)]
pub struct CompiledModule {
    /// The content address of the raw bytecode this was compiled from.
    pub checksum: Checksum,
    /// The size in bytes of that raw bytecode; the measure the bounded
    /// memory tier charges against its capacity.
    pub code_size: usize,
    /// The engine version the module was compiled for.
    pub engine_version: u32,
}

/// The mathematical content of a [`CompiledModule`].
#[verifier::ext_equal]
pub ghost struct ModuleView {
    pub checksum: Seq<u8>,
    pub code_size: usize,
    pub engine_version: u32,
}

impl View for CompiledModule {
    type V = ModuleView;

    open spec fn view(&self) -> ModuleView {
        ModuleView {
            checksum: self.checksum@,
            code_size: self.code_size,
            engine_version: self.engine_version,
        }
    }
}

/// What compilation produces: the module for `wasm` under `engine_version`.
pub open spec fn spec_compile(wasm: Seq<u8>, engine_version: u32) -> ModuleView {
    ModuleView {
        checksum: sha1_of(wasm),
        code_size: wasm.len() as usize,
        engine_version,
    }
}

/// Compiles raw bytecode into a module for `engine_version`.  Pure and
/// deterministic: the result depends on the bytes and the version alone.
pub fn compile(wasm: &[u8], engine_version: u32) -> (m: CompiledModule)
    ensures
        m@ == spec_compile(wasm@, engine_version),
{
    CompiledModule {
        checksum: Checksum::generate(wasm),
        code_size: wasm.len(),
        engine_version,
    }
}

/// The little-endian bytes of a `u32`.
pub open spec fn u32_le(v: u32) -> Seq<u8> {
    seq![
        (v & 0xff) as u8,
        ((v >> 8) & 0xff) as u8,
        ((v >> 16) & 0xff) as u8,
        ((v >> 24) & 0xff) as u8,
    ]
}

/// The little-endian bytes of a `u64`.
pub open spec fn u64_le(v: u64) -> Seq<u8> {
    seq![
        (v & 0xff) as u8,
        ((v >> 8) & 0xff) as u8,
        ((v >> 16) & 0xff) as u8,
        ((v >> 24) & 0xff) as u8,
        ((v >> 32) & 0xff) as u8,
        ((v >> 40) & 0xff) as u8,
        ((v >> 48) & 0xff) as u8,
        ((v >> 56) & 0xff) as u8,
    ]
}

/// The `u32` whose little-endian bytes are `s` (`s` has length 4).
pub open spec fn u32_from_le(s: Seq<u8>) -> u32 {
    (s[0] as u32) | ((s[1] as u32) << 8) | ((s[2] as u32) << 16) | ((s[3] as u32) << 24)
}

/// The `u64` whose little-endian bytes are `s` (`s` has length 8).
pub open spec fn u64_from_le(s: Seq<u8>) -> u64 {
    (s[0] as u64) | ((s[1] as u64) << 8) | ((s[2] as u64) << 16) | ((s[3] as u64) << 24)
        | ((s[4] as u64) << 32) | ((s[5] as u64) << 40) | ((s[6] as u64) << 48)
        | ((s[7] as u64) << 56)
}

/// The magic that opens a serialized artifact: the bytes of `cmpl`.
pub open spec fn artifact_magic() -> Seq<u8> {
    seq![0x63u8, 0x6du8, 0x70u8, 0x6cu8]
}

/// The serialized form of a module: magic, engine version, checksum,
/// code size — 36 bytes in all.
pub open spec fn serialize_spec(m: ModuleView) -> Seq<u8> {
    artifact_magic() + u32_le(m.engine_version) + m.checksum + u64_le(m.code_size as u64)
}

/// What deserialization yields on each input: the module, for exactly the
/// well-formed 36-byte artifacts whose version is `expected_version`;
/// `None` for everything else.
pub open spec fn deserialize_spec(s: Seq<u8>, expected_version: u32) -> Option<ModuleView> {
    if s.len() != 36 {
        None
    } else if s.subrange(0, 4) != artifact_magic() {
        None
    } else if u32_from_le(s.subrange(4, 8)) != expected_version {
        None
    } else if u64_from_le(s.subrange(28, 36)) > usize::MAX as u64 {
        None
    } else {
        Some(ModuleView {
            checksum: s.subrange(8, 28),
            code_size: u64_from_le(s.subrange(28, 36)) as usize,
            engine_version: expected_version,
        })
    }
}

impl CompiledModule {
    /// Serializes the module into its framed artifact bytes.
    pub fn serialize(&self) -> (r: Vec<u8>)
        ensures
            r@ == serialize_spec(self@),
    {
        let mut out: Vec<u8> = Vec::new();
        out.push(0x63);
        out.push(0x6d);
        out.push(0x70);
        out.push(0x6c);
        let v = self.engine_version;
        out.push((v & 0xff) as u8);
        out.push(((v >> 8) & 0xff) as u8);
        out.push(((v >> 16) & 0xff) as u8);
        out.push(((v >> 24) & 0xff) as u8);
        let cs = self.checksum.as_bytes();
        let mut i: usize = 0;
        while i < 20
            invariant
                0 <= i <= 20,
                cs@ == self.checksum@,
                cs@.len() == 20,
                out@ == artifact_magic() + u32_le(self.engine_version) + self.checksum@.take(
                    i as int,
                ),
            decreases 20 - i,
        {
            out.push(cs[i]);
            proof {
                assert(artifact_magic() + u32_le(self.engine_version) + self.checksum@.take(
                    i as int,
                ).push(self.checksum@[i as int]) =~= artifact_magic() + u32_le(
                    self.engine_version,
                ) + self.checksum@.take(i + 1));
            }
            i += 1;
        }
        proof {
            assert(self.checksum@.take(20) =~= self.checksum@);
        }
        let z = self.code_size as u64;
        out.push((z & 0xff) as u8);
        out.push(((z >> 8) & 0xff) as u8);
        out.push(((z >> 16) & 0xff) as u8);
        out.push(((z >> 24) & 0xff) as u8);
        out.push(((z >> 32) & 0xff) as u8);
        out.push(((z >> 40) & 0xff) as u8);
        out.push(((z >> 48) & 0xff) as u8);
        out.push(((z >> 56) & 0xff) as u8);
        proof {
            assert(out@ =~= serialize_spec(self@));
        }
        out
    }

    /// Reads a module back from artifact bytes, checking frame, length and
    /// engine version.  A malformed or version-mismatched artifact yields
    /// `None` — never an error, since an artifact is always re-derivable.
    pub fn deserialize(bytes: &[u8], expected_version: u32) -> (r: Option<CompiledModule>)
        ensures
            r matches Some(m) ==> deserialize_spec(bytes@, expected_version) == Some(m@),
            r is None ==> deserialize_spec(bytes@, expected_version) is None,
    {
        if bytes.len() != 36 {
            return None;
        }
        if !(bytes[0] == 0x63 && bytes[1] == 0x6d && bytes[2] == 0x70 && bytes[3] == 0x6c) {
            proof {
                assert(bytes@.subrange(0, 4) != artifact_magic());
            }
            return None;
        }
        proof {
            assert(bytes@.subrange(0, 4) =~= artifact_magic());
        }
        let ver = (bytes[4] as u32) | ((bytes[5] as u32) << 8) | ((bytes[6] as u32) << 16)
            | ((bytes[7] as u32) << 24);
        proof {
            assert(ver == u32_from_le(bytes@.subrange(4, 8)));
        }
        if ver != expected_version {
            return None;
        }
        let size = (bytes[28] as u64) | ((bytes[29] as u64) << 8) | ((bytes[30] as u64) << 16)
            | ((bytes[31] as u64) << 24) | ((bytes[32] as u64) << 32) | ((bytes[33] as u64) << 40)
            | ((bytes[34] as u64) << 48) | ((bytes[35] as u64) << 56);
        proof {
            assert(size == u64_from_le(bytes@.subrange(28, 36)));
        }
        if size > usize::MAX as u64 {
            return None;
        }
        let checksum = Checksum::from_slice(vstd::slice::slice_subrange(bytes, 8, 28));
        Some(CompiledModule {
            checksum,
            code_size: size as usize,
            engine_version: expected_version,
        })
    }
}

/// Serialization round-trips: an artifact written for a module reads back
/// as that module under the same engine version.
pub proof fn lemma_serialize_round_trip(m: ModuleView)
    requires
        m.checksum.len() == 20,
    ensures
        deserialize_spec(serialize_spec(m), m.engine_version) == Some(m),
{
    let s = serialize_spec(m);
    assert(s.len() == 36);
    assert(s.subrange(0, 4) =~= artifact_magic());
    assert(s.subrange(4, 8) =~= u32_le(m.engine_version));
    assert(s.subrange(8, 28) =~= m.checksum);
    assert(s.subrange(28, 36) =~= u64_le(m.code_size as u64));
    lemma_u32_le_round_trip(m.engine_version);
    lemma_u64_le_round_trip(m.code_size as u64);
    assert(deserialize_spec(s, m.engine_version) == Some(m));
}

/// A version mismatch is a miss: an artifact written under one engine
/// version never deserializes under another.
pub proof fn lemma_version_mismatch_is_miss(m: ModuleView, other_version: u32)
    requires
        m.checksum.len() == 20,
        other_version != m.engine_version,
    ensures
        deserialize_spec(serialize_spec(m), other_version) is None,
{
    let s = serialize_spec(m);
    assert(s.len() == 36);
    assert(s.subrange(4, 8) =~= u32_le(m.engine_version));
    lemma_u32_le_round_trip(m.engine_version);
}

/// Little-endian encoding of a `u32` decodes to the same value.
proof fn lemma_u32_le_round_trip(v: u32)
    ensures
        u32_from_le(u32_le(v)) == v,
{
    assert(((v & 0xff) as u8 as u32) | (((v >> 8) & 0xff) as u8 as u32) << 8 | (((v >> 16)
        & 0xff) as u8 as u32) << 16 | (((v >> 24) & 0xff) as u8 as u32) << 24 == v)
        by (bit_vector);
}

/// Little-endian encoding of a `u64` decodes to the same value.
proof fn lemma_u64_le_round_trip(v: u64)
    ensures
        u64_from_le(u64_le(v)) == v,
{
    assert(((v & 0xff) as u8 as u64) | (((v >> 8) & 0xff) as u8 as u64) << 8 | (((v >> 16)
        & 0xff) as u8 as u64) << 16 | (((v >> 24) & 0xff) as u8 as u64) << 24 | (((v >> 32)
        & 0xff) as u8 as u64) << 32 | (((v >> 40) & 0xff) as u8 as u64) << 40 | (((v >> 48)
        & 0xff) as u8 as u64) << 48 | (((v >> 56) & 0xff) as u8 as u64) << 56 == v)
        by (bit_vector);
}

} // verus!
