//! The compiled message and transaction container, their exact wire codec,
//! and the transaction builder that compiles raw instructions into them.
//!
//! The wire layout is, in order: a varint signature count and the 64-byte
//! signatures; the three header bytes; a varint key count and the 32-byte
//! account keys; the 32-byte recency token; a varint instruction count and
//! the instruction bodies. Serialization and deserialization are proved to
//! be exact inverses on well-formed values (`lemma_tx_round_trip`).

use vstd::prelude::*;

use crate::error::TxAsmError;
use crate::compile::{
    build_registry, count_header, find_entry, find_key, keys_of, lemma_ordered_contains_key,
    lemma_registry_invariant, sort_entries, spec_compile, spec_compile_ix, spec_compile_ixs,
    spec_header_of, spec_ordered_accounts,
};
use crate::instruction::{
    lemma_instr_parts_round_trip, lemma_instr_parts_truncated, metas_view, raw_ixs_view,
    spec_decode_instr_parts,
    spec_instr_parts_representable, spec_ser_instr_parts, InstructionParts, RawInstruction,
    RawInstructionView,
};
use crate::serialization::{
    begins_with, decode_array, decode_bytes, decode_compact_u16, encode_compact_u16, encode_pubkey,
    encode_u8,
    lemma_begins_with_split, lemma_fixed_round_trip, lemma_prefix_parts, lemma_varint_round_trip,
    lemma_varint_truncated, spec_decode_fixed, spec_decode_varint, spec_varint, varint_max,
    ByteSerialize,
};

verus! {

/// Wire format generation of a transaction.
#[derive(Debug, Clone, Copy, PartialEq, Eq, Structural)]
pub enum TransactionVersion {
    Legacy,
    V0,
}

/// The three derived counters that open every message.
#[derive(Debug, Clone, Copy, PartialEq, Eq, Structural)]
pub struct MessageHeader {
    pub num_required_signatures: u8,
    pub num_readonly_signed_accounts: u8,
    pub num_readonly_unsigned_accounts: u8,
}

impl MessageHeader {
    pub fn new(
        num_required_signatures: u8,
        num_readonly_signed_accounts: u8,
        num_readonly_unsigned_accounts: u8,
    ) -> (r: Self)
        ensures
            r.num_required_signatures == num_required_signatures,
            r.num_readonly_signed_accounts == num_readonly_signed_accounts,
            r.num_readonly_unsigned_accounts == num_readonly_unsigned_accounts,
    {
        Self { num_required_signatures, num_readonly_signed_accounts, num_readonly_unsigned_accounts }
    }
}

/// Wire image of the header: its three bytes in order.
pub open spec fn spec_ser_header(h: MessageHeader) -> Seq<u8> {
    seq![
        h.num_required_signatures,
        h.num_readonly_signed_accounts,
        h.num_readonly_unsigned_accounts,
    ]
}

impl ByteSerialize for MessageHeader {
    open spec fn spec_bytes(&self) -> Seq<u8> {
        spec_ser_header(*self)
    }

    open spec fn representable(&self) -> bool {
        true
    }

    fn serialize_bytes(&self, writer: &mut Vec<u8>) -> (r: Result<(), TxAsmError>)
        ensures
            self.representable() ==> r == Ok::<(), TxAsmError>(()),
            self.representable() ==> final(writer)@ == old(writer)@ + self.spec_bytes(),
            !self.representable() ==> r == Err::<(), TxAsmError>(TxAsmError::Unrepresentable),
            !self.representable() ==> final(writer)@ == old(writer)@,
    {
        let r1 = encode_u8(self.num_required_signatures, writer);
        let r2 = encode_u8(self.num_readonly_signed_accounts, writer);
        let r3 = encode_u8(self.num_readonly_unsigned_accounts, writer);
        proof {
            assert(final(writer)@ =~= old(writer)@ + self.spec_bytes());
        }
        Ok(())
    }

    fn byte_size(&self) -> (r: usize)
        ensures
            r == self.spec_bytes().len(),
    {
        3
    }
}

/// A compiled instruction: every account reference resolved to an index into
/// the message's account list.
#[derive(Debug, Clone, PartialEq, Eq)]
pub struct CompiledInstruction {
    pub program_id_index: u8,
    pub account_indices: Vec<u8>,
    pub data: Vec<u8>,
}

impl View for CompiledInstruction {
    type V = InstructionParts;

    open spec fn view(&self) -> InstructionParts {
        InstructionParts {
            program_id_index: self.program_id_index,
            account_indices: self.account_indices@,
            data: self.data@,
        }
    }
}

impl ByteSerialize for CompiledInstruction {
    open spec fn spec_bytes(&self) -> Seq<u8> {
        spec_ser_instr_parts(self@)
    }

    open spec fn representable(&self) -> bool {
        spec_instr_parts_representable(self@)
    }

    fn serialize_bytes(&self, writer: &mut Vec<u8>) -> (r: Result<(), TxAsmError>)
        ensures
            self.representable() ==> r == Ok::<(), TxAsmError>(()),
            self.representable() ==> final(writer)@ == old(writer)@ + self.spec_bytes(),
            !self.representable() ==> r == Err::<(), TxAsmError>(TxAsmError::Unrepresentable),
            !self.representable() ==> final(writer)@ == old(writer)@,
    {
        if self.account_indices.len() > 0xFFFF || self.data.len() > 0xFFFF {
            return Err(TxAsmError::Unrepresentable);
        }
        let r1 = encode_u8(self.program_id_index, writer);
        let r2 = encode_compact_u16(self.account_indices.len() as u16, writer);
        writer.extend_from_slice(self.account_indices.as_slice());
        let r3 = encode_compact_u16(self.data.len() as u16, writer);
        writer.extend_from_slice(self.data.as_slice());
        proof {
            assert(final(writer)@ =~= old(writer)@ + self.spec_bytes());
        }
        Ok(())
    }

    fn byte_size(&self) -> (r: usize)
        ensures
            r == self.spec_bytes().len(),
    {
        let accounts_len_size: usize = if self.account_indices.len() <= 0x7f {
            1
        } else if self.account_indices.len() <= 0x3fff {
            2
        } else {
            3
        };
        let data_len_size: usize = if self.data.len() <= 0x7f {
            1
        } else if self.data.len() <= 0x3fff {
            2
        } else {
            3
        };
        1 + accounts_len_size + self.account_indices.len() + data_len_size + self.data.len()
    }
}

/// Views of a sequence of fixed-size byte arrays.
pub open spec fn chunks_view<const N: usize>(s: Seq<[u8; N]>) -> Seq<Seq<u8>> {
    s.map_values(|k: [u8; N]| k@)
}

/// Views of a sequence of compiled instructions.
pub open spec fn instrs_view(s: Seq<CompiledInstruction>) -> Seq<InstructionParts> {
    s.map_values(|i: CompiledInstruction| i@)
}

/// Concatenation of a sequence of byte chunks.
pub open spec fn spec_concat(s: Seq<Seq<u8>>) -> Seq<u8>
    decreases s.len(),
{
    if s.len() == 0 {
        Seq::empty()
    } else {
        s[0] + spec_concat(s.drop_first())
    }
}

/// Wire image of a sequence of instruction bodies.
pub open spec fn spec_ser_instrs(s: Seq<InstructionParts>) -> Seq<u8>
    decreases s.len(),
{
    if s.len() == 0 {
        Seq::empty()
    } else {
        spec_ser_instr_parts(s[0]) + spec_ser_instrs(s.drop_first())
    }
}

/// The compiled message: the exact byte sequence that gets signed, as a
/// value. Immutable once produced.
#[derive(Debug, Clone, PartialEq, Eq)]
pub struct CompiledMessage {
    pub header: MessageHeader,
    pub account_keys: Vec<[u8; 32]>,
    pub recent_blockhash: [u8; 32],
    pub instructions: Vec<CompiledInstruction>,
}

/// Mathematical image of a [`CompiledMessage`].
pub struct CompiledMessageView {
    pub header: MessageHeader,
    pub account_keys: Seq<Seq<u8>>,
    pub recent_blockhash: Seq<u8>,
    pub instructions: Seq<InstructionParts>,
}

impl View for CompiledMessage {
    type V = CompiledMessageView;

    open spec fn view(&self) -> CompiledMessageView {
        CompiledMessageView {
            header: self.header,
            account_keys: chunks_view(self.account_keys@),
            recent_blockhash: self.recent_blockhash@,
            instructions: instrs_view(self.instructions@),
        }
    }
}

impl CompiledMessageView {
    /// Structurally valid and within the wire format's ranges: counts fit
    /// the length prefix, keys and token have their fixed sizes, and every
    /// instruction is representable.
    pub open spec fn wf(self) -> bool {
        &&& self.account_keys.len() <= varint_max()
        &&& self.instructions.len() <= varint_max()
        &&& forall|i: int|
            0 <= i < self.account_keys.len() ==> (#[trigger] self.account_keys[i]).len() == 32
        &&& self.recent_blockhash.len() == 32
        &&& forall|i: int|
            0 <= i < self.instructions.len() ==> spec_instr_parts_representable(
                #[trigger] self.instructions[i],
            )
    }
}

/// Wire image of a message: header, counted keys, recency token, counted
/// instruction bodies.
pub open spec fn spec_ser_msg(m: CompiledMessageView) -> Seq<u8> {
    spec_ser_header(m.header) + spec_varint(m.account_keys.len() as u16) + spec_concat(
        m.account_keys,
    ) + m.recent_blockhash + spec_varint(m.instructions.len() as u16) + spec_ser_instrs(
        m.instructions,
    )
}

impl ByteSerialize for CompiledMessage {
    open spec fn spec_bytes(&self) -> Seq<u8> {
        spec_ser_msg(self@)
    }

    open spec fn representable(&self) -> bool {
        self@.wf()
    }

    fn serialize_bytes(&self, writer: &mut Vec<u8>) -> (r: Result<(), TxAsmError>)
        ensures
            self.representable() ==> r == Ok::<(), TxAsmError>(()),
            self.representable() ==> final(writer)@ == old(writer)@ + self.spec_bytes(),
            !self.representable() ==> r == Err::<(), TxAsmError>(TxAsmError::Unrepresentable),
            !self.representable() ==> final(writer)@ == old(writer)@,
    {
        if !self.is_representable() {
            return Err(TxAsmError::Unrepresentable);
        }
        let r1 = self.header.serialize_bytes(writer);
        let r2 = encode_compact_u16(self.account_keys.len() as u16, writer);
        let ghost base_keys = writer@;
        let mut i: usize = 0;
        while i < self.account_keys.len()
            invariant
                i <= self.account_keys@.len(),
                writer@ == base_keys + spec_concat(chunks_view(self.account_keys@.take(i as int))),
            decreases self.account_keys@.len() - i,
        {
            proof {
                lemma_concat_chunks_take_succ(self.account_keys@, i as int);
            }
            let r3 = encode_pubkey(&self.account_keys[i], writer);
            i = i + 1;
        }
        proof {
            assert(self.account_keys@.take(self.account_keys@.len() as int)
                =~= self.account_keys@);
        }
        let r4 = encode_pubkey(&self.recent_blockhash, writer);
        let r5 = encode_compact_u16(self.instructions.len() as u16, writer);
        let ghost base_instrs = writer@;
        let mut j: usize = 0;
        while j < self.instructions.len()
            invariant
                j <= self.instructions@.len(),
                forall|k: int|
                    0 <= k < self.instructions@.len() ==> spec_instr_parts_representable(
                        #[trigger] instrs_view(self.instructions@)[k],
                    ),
                writer@ == base_instrs + spec_ser_instrs(instrs_view(self.instructions@.take(j as int))),
            decreases self.instructions@.len() - j,
        {
            proof {
                lemma_ser_instrs_take_succ(self.instructions@, j as int);
                assert(instrs_view(self.instructions@)[j as int] == self.instructions@[j as int]@);
            }
            let r6 = self.instructions[j].serialize_bytes(writer);
            j = j + 1;
        }
        proof {
            assert(self.instructions@.take(self.instructions@.len() as int)
                =~= self.instructions@);
            assert(final(writer)@ =~= old(writer)@ + self.spec_bytes());
        }
        Ok(())
    }

    fn byte_size(&self) -> (r: usize)
        ensures
            r == self.spec_bytes().len(),
    {
        let keys_len_size: usize = if self.account_keys.len() <= 0x7f {
            1
        } else if self.account_keys.len() <= 0x3fff {
            2
        } else {
            3
        };
        let instructions_len_size: usize = if self.instructions.len() <= 0x7f {
            1
        } else if self.instructions.len() <= 0x3fff {
            2
        } else {
            3
        };
        proof {
            lemma_concat_chunks_len(self.account_keys@);
        }
        let keys_bytes: u64 = (self.account_keys.len() as u64) * 32;
        let mut instr_bytes: u64 = 0;
        let mut j: usize = 0;
        while j < self.instructions.len()
            invariant
                self@.wf(),
                spec_ser_msg(self@).len() <= usize::MAX,
                j <= self.instructions@.len(),
                instr_bytes == spec_ser_instrs(instrs_view(self.instructions@.take(j as int))).len(),
            decreases self.instructions@.len() - j,
        {
            proof {
                lemma_ser_instrs_take_succ(self.instructions@, j as int);
                lemma_ser_instrs_prefix_len(instrs_view(self.instructions@), j + 1);
                assert(instrs_view(self.instructions@.take(j + 1)) =~= instrs_view(
                    self.instructions@,
                ).take(j + 1));
                assert(instrs_view(self.instructions@)[j as int] == self.instructions@[j as int]@);
            }
            let sz: usize = self.instructions[j].byte_size();
            instr_bytes = instr_bytes + sz as u64;
            j = j + 1;
        }
        proof {
            assert(self.instructions@.take(self.instructions@.len() as int)
                =~= self.instructions@);
            assert(instrs_view(self.instructions@).take(instrs_view(self.instructions@).len() as int)
                =~= instrs_view(self.instructions@));
            lemma_ser_instrs_prefix_len(instrs_view(self.instructions@), instrs_view(self.instructions@).len() as int);
        }
        let total: u64 = 3 + (keys_len_size as u64) + keys_bytes + 32 + (instructions_len_size
            as u64) + instr_bytes;
        total as usize
    }
}

impl CompiledMessage {
    /// Whether every count in the message fits the wire format.
    pub fn is_representable(&self) -> (r: bool)
        ensures
            r == self@.wf(),
    {
        if self.account_keys.len() > 0xFFFF || self.instructions.len() > 0xFFFF {
            return false;
        }
        let mut j: usize = 0;
        while j < self.instructions.len()
            invariant
                j <= self.instructions@.len(),
                forall|k: int|
                    0 <= k < j ==> spec_instr_parts_representable(
                        #[trigger] instrs_view(self.instructions@)[k],
                    ),
            decreases self.instructions@.len() - j,
        {
            if self.instructions[j].account_indices.len() > 0xFFFF || self.instructions[j].data.len()
                > 0xFFFF {
                proof {
                    assert(instrs_view(self.instructions@)[j as int] == self.instructions@[
                        j as int]@);
                    assert(!spec_instr_parts_representable(self@.instructions[j as int]));
                }
                return false;
            }
            j = j + 1;
        }
        true
    }
}

/// A compiled message paired with one 64-byte signature slot per required
/// signer; slots are zero-filled until signed.
#[derive(Debug, Clone, PartialEq, Eq)]
pub struct CompiledTransaction {
    pub message: CompiledMessage,
    pub signatures: Vec<[u8; 64]>,
}

/// Mathematical image of a [`CompiledTransaction`].
pub struct CompiledTransactionView {
    pub message: CompiledMessageView,
    pub signatures: Seq<Seq<u8>>,
}

impl View for CompiledTransaction {
    type V = CompiledTransactionView;

    open spec fn view(&self) -> CompiledTransactionView {
        CompiledTransactionView {
            message: self.message@,
            signatures: chunks_view(self.signatures@),
        }
    }
}

impl CompiledTransactionView {
    /// The message is well-formed, the signature count fits its length
    /// prefix and every slot is 64 bytes.
    pub open spec fn wf(self) -> bool {
        &&& self.message.wf()
        &&& self.signatures.len() <= varint_max()
        &&& forall|i: int|
            0 <= i < self.signatures.len() ==> (#[trigger] self.signatures[i]).len() == 64
    }
}

/// Wire image of a transaction: counted signatures, then the message.
pub open spec fn spec_ser_tx(t: CompiledTransactionView) -> Seq<u8> {
    spec_varint(t.signatures.len() as u16) + spec_concat(t.signatures) + spec_ser_msg(t.message)
}

impl CompiledTransaction {
    /// Serialize the whole transaction envelope.
    pub fn serialize(&self) -> (r: Result<Vec<u8>, TxAsmError>)
        ensures
            self@.wf() ==> r is Ok && r->Ok_0@ == spec_ser_tx(self@),
            !self@.wf() ==> r == Err::<Vec<u8>, TxAsmError>(TxAsmError::Unrepresentable),
    {
        if self.signatures.len() > 0xFFFF || !self.message.is_representable() {
            return Err(TxAsmError::Unrepresentable);
        }
        let mut bytes: Vec<u8> = Vec::new();
        let r1 = encode_compact_u16(self.signatures.len() as u16, &mut bytes);
        let ghost base_sigs = bytes@;
        let mut i: usize = 0;
        while i < self.signatures.len()
            invariant
                i <= self.signatures@.len(),
                bytes@ == base_sigs + spec_concat(chunks_view(self.signatures@.take(i as int))),
            decreases self.signatures@.len() - i,
        {
            proof {
                lemma_concat_chunks_take_succ(self.signatures@, i as int);
            }
            bytes.extend_from_slice(self.signatures[i].as_slice());
            i = i + 1;
        }
        proof {
            assert(self.signatures@.take(self.signatures@.len() as int) =~= self.signatures@);
        }
        let r2 = self.message.serialize_bytes(&mut bytes);
        proof {
            assert(bytes@ =~= spec_ser_tx(self@));
        }
        Ok(bytes)
    }

    /// The serialized message alone: the bytes that get signed.
    pub fn message_bytes(&self) -> (r: Result<Vec<u8>, TxAsmError>)
        ensures
            self@.message.wf() ==> r is Ok && r->Ok_0@ == spec_ser_msg(self@.message),
            !self@.message.wf() ==> r == Err::<Vec<u8>, TxAsmError>(TxAsmError::Unrepresentable),
    {
        let mut bytes: Vec<u8> = Vec::new();
        match self.message.serialize_bytes(&mut bytes) {
            Ok(()) => {
                proof {
                    assert(bytes@ =~= spec_ser_msg(self@.message));
                }
                Ok(bytes)
            },
            Err(e) => Err(e),
        }
    }

    /// Exact byte length of the serialized transaction, without
    /// serializing.
    pub fn size(&self) -> (r: usize)
        requires
            self@.wf(),
            spec_ser_tx(self@).len() <= usize::MAX,
        ensures
            r == spec_ser_tx(self@).len(),
            r == spec_tx_size(self@),
    {
        let sigs_len_size: usize = if self.signatures.len() <= 0x7f {
            1
        } else if self.signatures.len() <= 0x3fff {
            2
        } else {
            3
        };
        proof {
            lemma_concat_chunks_len(self.signatures@);
            lemma_ser_msg_len_bound(self@.message);
            lemma_tx_size_exact(self@);
        }
        let sig_bytes: u64 = (self.signatures.len() as u64) * 64;
        let msg_size: usize = self.message.byte_size();
        let total: u64 = (sigs_len_size as u64) + sig_bytes + (msg_size as u64);
        total as usize
    }
}

/// One more chunk extends the concatenation by exactly that chunk.
pub proof fn lemma_concat_chunks_take_succ<const N: usize>(s: Seq<[u8; N]>, i: int)
    requires
        0 <= i < s.len(),
    ensures
        spec_concat(chunks_view(s.take(i + 1))) == spec_concat(chunks_view(s.take(i)))
            + s[i]@,
{
    lemma_concat_take_succ(chunks_view(s), i);
    assert(chunks_view(s.take(i + 1)) =~= chunks_view(s).take(i + 1));
    assert(chunks_view(s.take(i)) =~= chunks_view(s).take(i));
}

/// One more chunk extends a concatenation by exactly that chunk.
pub proof fn lemma_concat_take_succ(s: Seq<Seq<u8>>, i: int)
    requires
        0 <= i < s.len(),
    ensures
        spec_concat(s.take(i + 1)) == spec_concat(s.take(i)) + s[i],
    decreases i,
{
    if i == 0 {
        let t1 = s.take(1);
        assert(t1.len() == 1);
        assert(spec_concat(t1) == t1[0] + spec_concat(t1.drop_first()));
        assert(t1.drop_first().len() == 0);
        assert(spec_concat(t1.drop_first()) == Seq::<u8>::empty());
        assert(s.take(0).len() == 0);
        assert(spec_concat(s.take(0)) == Seq::<u8>::empty());
        assert(spec_concat(t1) =~= spec_concat(s.take(0)) + s[0]);
    } else {
        let t1 = s.take(i + 1);
        let t0 = s.take(i);
        assert(t1.drop_first() =~= s.drop_first().take(i));
        assert(t0.drop_first() =~= s.drop_first().take(i - 1));
        lemma_concat_take_succ(s.drop_first(), i - 1);
        assert(s.drop_first()[i - 1] == s[i]);
        assert(t1[0] == s[0]);
        assert(t0[0] == s[0]);
        assert(spec_concat(t1) =~= spec_concat(t0) + s[i]);
    }
}

/// The concatenation of `n` chunks of `N` bytes each holds `n * N` bytes.
pub proof fn lemma_concat_chunks_len<const N: usize>(s: Seq<[u8; N]>)
    ensures
        spec_concat(chunks_view(s)).len() == s.len() * N,
    decreases s.len(),
{
    if s.len() == 0 {
    } else {
        assert(chunks_view(s).drop_first() =~= chunks_view(s.drop_first()));
        lemma_concat_chunks_len::<N>(s.drop_first());
        assert(chunks_view(s)[0] == s[0]@);
        assert(spec_concat(chunks_view(s)).len() == N + (s.len() - 1) * N);
        assert(N + (s.len() - 1) * N == s.len() * N) by (nonlinear_arith);
    }
}

/// Serializing one more instruction appends its bytes to the image of the
/// prefix.
pub proof fn lemma_ser_instrs_take_succ(s: Seq<CompiledInstruction>, i: int)
    requires
        0 <= i < s.len(),
    ensures
        spec_ser_instrs(instrs_view(s.take(i + 1))) == spec_ser_instrs(instrs_view(s.take(i)))
            + spec_ser_instr_parts(s[i]@),
{
    lemma_ser_instrs_parts_take_succ(instrs_view(s), i);
    assert(instrs_view(s.take(i + 1)) =~= instrs_view(s).take(i + 1));
    assert(instrs_view(s.take(i)) =~= instrs_view(s).take(i));
}

/// Serializing one more instruction body appends its bytes to the image of
/// the prefix.
pub proof fn lemma_ser_instrs_parts_take_succ(s: Seq<InstructionParts>, i: int)
    requires
        0 <= i < s.len(),
    ensures
        spec_ser_instrs(s.take(i + 1)) == spec_ser_instrs(s.take(i)) + spec_ser_instr_parts(
            s[i],
        ),
    decreases i,
{
    if i == 0 {
        let t1 = s.take(1);
        assert(t1.len() == 1);
        assert(spec_ser_instrs(t1) == spec_ser_instr_parts(t1[0]) + spec_ser_instrs(
            t1.drop_first(),
        ));
        assert(t1.drop_first().len() == 0);
        assert(spec_ser_instrs(t1.drop_first()) == Seq::<u8>::empty());
        assert(s.take(0).len() == 0);
        assert(spec_ser_instrs(s.take(0)) == Seq::<u8>::empty());
        assert(spec_ser_instrs(t1) =~= spec_ser_instrs(s.take(0)) + spec_ser_instr_parts(s[0]));
    } else {
        let t1 = s.take(i + 1);
        let t0 = s.take(i);
        assert(t1.drop_first() =~= s.drop_first().take(i));
        assert(t0.drop_first() =~= s.drop_first().take(i - 1));
        lemma_ser_instrs_parts_take_succ(s.drop_first(), i - 1);
        assert(s.drop_first()[i - 1] == s[i]);
        assert(t1[0] == s[0]);
        assert(t0[0] == s[0]);
        assert(spec_ser_instrs(t1) =~= spec_ser_instrs(t0) + spec_ser_instr_parts(s[i]));
    }
}

/// The image of a prefix of instruction bodies is no longer than the image
/// of all of them.
pub proof fn lemma_ser_instrs_prefix_len(s: Seq<InstructionParts>, i: int)
    requires
        0 <= i <= s.len(),
    ensures
        spec_ser_instrs(s.take(i)).len() <= spec_ser_instrs(s).len(),
    decreases s.len() - i,
{
    if i == s.len() {
        assert(s.take(i) =~= s);
    } else {
        lemma_ser_instrs_parts_take_succ(s, i);
        lemma_ser_instrs_prefix_len(s, i + 1);
    }
}

/// Decoding `count` chunks of `size` bytes each, in order.
pub open spec fn spec_decode_chunks(s: Seq<u8>, pos: int, count: int, size: int) -> Result<
    (Seq<Seq<u8>>, int),
    TxAsmError,
>
    decreases count,
{
    if count <= 0 {
        Ok((Seq::empty(), pos))
    } else {
        match spec_decode_fixed(s, pos, size) {
            Err(e) => Err(e),
            Ok((c, p)) => match spec_decode_chunks(s, p, count - 1, size) {
                Err(e) => Err(e),
                Ok((rest, end)) => Ok((seq![c] + rest, end)),
            },
        }
    }
}

/// Decoding `count` instruction bodies, in order.
pub open spec fn spec_decode_instrs(s: Seq<u8>, pos: int, count: int) -> Result<
    (Seq<InstructionParts>, int),
    TxAsmError,
>
    decreases count,
{
    if count <= 0 {
        Ok((Seq::empty(), pos))
    } else {
        match spec_decode_instr_parts(s, pos) {
            Err(e) => Err(e),
            Ok((i, p)) => match spec_decode_instrs(s, p, count - 1) {
                Err(e) => Err(e),
                Ok((rest, end)) => Ok((seq![i] + rest, end)),
            },
        }
    }
}

/// Decoding a message at `pos`: header bytes, counted keys, recency token,
/// counted instruction bodies.
pub open spec fn spec_decode_msg(s: Seq<u8>, pos: int) -> Result<
    (CompiledMessageView, int),
    TxAsmError,
> {
    match spec_decode_fixed(s, pos, 3) {
        Err(e) => Err(e),
        Ok((hb, p0)) => {
            let header = MessageHeader {
                num_required_signatures: hb[0],
                num_readonly_signed_accounts: hb[1],
                num_readonly_unsigned_accounts: hb[2],
            };
            match spec_decode_varint(s, p0) {
                Err(e) => Err(e),
                Ok((kc, p1)) => match spec_decode_chunks(s, p1, kc as int, 32) {
                    Err(e) => Err(e),
                    Ok((keys, p2)) => match spec_decode_fixed(s, p2, 32) {
                        Err(e) => Err(e),
                        Ok((bh, p3)) => match spec_decode_varint(s, p3) {
                            Err(e) => Err(e),
                            Ok((ic, p4)) => match spec_decode_instrs(s, p4, ic as int) {
                                Err(e) => Err(e),
                                Ok((instrs, p5)) => Ok((
                                    CompiledMessageView {
                                        header,
                                        account_keys: keys,
                                        recent_blockhash: bh,
                                        instructions: instrs,
                                    },
                                    p5,
                                )),
                            },
                        },
                    },
                },
            }
        },
    }
}

/// Decoding a transaction at `pos`: counted signatures, then the message.
pub open spec fn spec_decode_tx(s: Seq<u8>, pos: int) -> Result<
    (CompiledTransactionView, int),
    TxAsmError,
> {
    match spec_decode_varint(s, pos) {
        Err(e) => Err(e),
        Ok((sc, p0)) => match spec_decode_chunks(s, p0, sc as int, 64) {
            Err(e) => Err(e),
            Ok((sigs, p1)) => match spec_decode_msg(s, p1) {
                Err(e) => Err(e),
                Ok((msg, p2)) => Ok((
                    CompiledTransactionView { message: msg, signatures: sigs },
                    p2,
                )),
            },
        },
    }
}

/// Decode `count` fixed-size arrays in sequence.
fn decode_arrays<const N: usize>(data: &[u8], pos: usize, count: usize) -> (r: Result<
    (Vec<[u8; N]>, usize),
    TxAsmError,
>)
    requires
        pos <= data@.len(),
    ensures
        match spec_decode_chunks(data@, pos as int, count as int, N as int) {
            Ok((cs, p)) => {
                &&& r is Ok
                &&& chunks_view(r->Ok_0.0@) == cs
                &&& r->Ok_0.0@.len() == count
                &&& r->Ok_0.1 == p
            },
            Err(e) => r == Err::<(Vec<[u8; N]>, usize), TxAsmError>(e),
        },
        r is Ok ==> pos <= r->Ok_0.1 <= data@.len(),
{
    let n: usize = data.len();
    let ghost whole = spec_decode_chunks(data@, pos as int, count as int, N as int);
    let mut out: Vec<[u8; N]> = Vec::new();
    let mut at: usize = pos;
    let mut i: usize = 0;
    while i < count
        invariant
            i <= count,
            pos <= at <= data@.len(),
            out@.len() == i,
            whole == spec_decode_chunks(data@, pos as int, count as int, N as int),
            ({
                let rem = spec_decode_chunks(data@, at as int, (count - i) as int, N as int);
                match rem {
                    Ok((rest, end)) => whole == Ok::<(Seq<Seq<u8>>, int), TxAsmError>((
                        chunks_view(out@) + rest,
                        end,
                    )),
                    Err(e) => whole == Err::<(Seq<Seq<u8>>, int), TxAsmError>(e),
                }
            }),
        decreases count - i,
    {
        proof {
            assert(chunks_view(out@) + Seq::<Seq<u8>>::empty() =~= chunks_view(out@));
        }
        match decode_array::<N>(data, at) {
            Err(e) => {
                return Err(e);
            },
            Ok((c, p)) => {
                let ghost prev = out@;
                out.push(c);
                at = p;
                proof {
                    assert(chunks_view(prev.push(c)) =~= chunks_view(prev) + seq![c@]);
                    let rem = spec_decode_chunks(data@, at as int, (count - i - 1) as int, N as int);
                    if rem is Ok {
                        assert(chunks_view(prev) + (seq![c@] + rem->Ok_0.0) =~= chunks_view(
                            prev.push(c),
                        ) + rem->Ok_0.0);
                    }
                }
                i = i + 1;
            },
        }
    }
    proof {
        assert(chunks_view(out@) + Seq::<Seq<u8>>::empty() =~= chunks_view(out@));
    }
    Ok((out, at))
}

/// Decode a message at `pos`.
fn decode_msg_at(data: &[u8], pos: usize) -> (r: Result<(CompiledMessage, usize), TxAsmError>)
    requires
        pos <= data@.len(),
    ensures
        match spec_decode_msg(data@, pos as int) {
            Ok((m, p)) => {
                &&& r is Ok
                &&& r->Ok_0.0@ == m
                &&& r->Ok_0.1 == p
            },
            Err(e) => r == Err::<(CompiledMessage, usize), TxAsmError>(e),
        },
        r is Ok ==> pos <= r->Ok_0.1 <= data@.len(),
{
    let n: usize = data.len();
    let (hb, p0) = match decode_array::<3>(data, pos) {
        Ok(v) => v,
        Err(e) => {
            return Err(e);
        },
    };
    let header = MessageHeader {
        num_required_signatures: hb[0],
        num_readonly_signed_accounts: hb[1],
        num_readonly_unsigned_accounts: hb[2],
    };
    let (kc, p1) = match decode_compact_u16(data, p0) {
        Ok(v) => v,
        Err(e) => {
            return Err(e);
        },
    };
    let (account_keys, p2) = match decode_arrays::<32>(data, p1, kc as usize) {
        Ok(v) => v,
        Err(e) => {
            return Err(e);
        },
    };
    let (recent_blockhash, p3) = match decode_array::<32>(data, p2) {
        Ok(v) => v,
        Err(e) => {
            return Err(e);
        },
    };
    let (ic, p4) = match decode_compact_u16(data, p3) {
        Ok(v) => v,
        Err(e) => {
            return Err(e);
        },
    };
    let (instructions, p5) = match decode_instrs(data, p4, ic as usize) {
        Ok(v) => v,
        Err(e) => {
            return Err(e);
        },
    };
    Ok((CompiledMessage { header, account_keys, recent_blockhash, instructions }, p5))
}

impl CompiledTransaction {
    /// Decode a transaction from bytes; bytes after it are ignored.
    pub fn deserialize(bytes: &[u8]) -> (r: Result<CompiledTransaction, TxAsmError>)
        ensures
            match spec_decode_tx(bytes@, 0) {
                Ok((t, _)) => r is Ok && r->Ok_0@ == t,
                Err(e) => r == Err::<CompiledTransaction, TxAsmError>(e),
            },
    {
        let n: usize = bytes.len();
        let (sc, p0) = match decode_compact_u16(bytes, 0) {
            Ok(v) => v,
            Err(e) => {
                return Err(e);
            },
        };
        let (signatures, p1) = match decode_arrays::<64>(bytes, p0, sc as usize) {
            Ok(v) => v,
            Err(e) => {
                return Err(e);
            },
        };
        let (message, _p2) = match decode_msg_at(bytes, p1) {
            Ok(v) => v,
            Err(e) => {
                return Err(e);
            },
        };
        Ok(CompiledTransaction { message, signatures })
    }
}

/// Decode `count` instruction bodies in sequence.
fn decode_instrs(data: &[u8], pos: usize, count: usize) -> (r: Result<
    (Vec<CompiledInstruction>, usize),
    TxAsmError,
>)
    requires
        pos <= data@.len(),
    ensures
        match spec_decode_instrs(data@, pos as int, count as int) {
            Ok((is_, p)) => {
                &&& r is Ok
                &&& instrs_view(r->Ok_0.0@) == is_
                &&& r->Ok_0.1 == p
            },
            Err(e) => r == Err::<(Vec<CompiledInstruction>, usize), TxAsmError>(e),
        },
        r is Ok ==> pos <= r->Ok_0.1 <= data@.len(),
{
    let n: usize = data.len();
    let ghost whole = spec_decode_instrs(data@, pos as int, count as int);
    let mut out: Vec<CompiledInstruction> = Vec::new();
    let mut at: usize = pos;
    let mut i: usize = 0;
    while i < count
        invariant
            i <= count,
            pos <= at <= data@.len(),
            out@.len() == i,
            whole == spec_decode_instrs(data@, pos as int, count as int),
            ({
                let rem = spec_decode_instrs(data@, at as int, (count - i) as int);
                match rem {
                    Ok((rest, end)) => whole == Ok::<(Seq<InstructionParts>, int), TxAsmError>((
                        instrs_view(out@) + rest,
                        end,
                    )),
                    Err(e) => whole == Err::<(Seq<InstructionParts>, int), TxAsmError>(e),
                }
            }),
        decreases count - i,
    {
        proof {
            assert(instrs_view(out@) + Seq::<InstructionParts>::empty() =~= instrs_view(out@));
        }
        match crate::instruction::decode_instruction_fields(data, at) {
            Err(e) => {
                return Err(e);
            },
            Ok(((program_id_index, account_indices, payload), p)) => {
                let instr = CompiledInstruction { program_id_index, account_indices, data: payload };
                let ghost prev = out@;
                out.push(instr);
                at = p;
                proof {
                    assert(instrs_view(prev.push(instr)) =~= instrs_view(prev) + seq![instr@]);
                    let rem = spec_decode_instrs(data@, at as int, (count - i - 1) as int);
                    if rem is Ok {
                        assert(instrs_view(prev) + (seq![instr@] + rem->Ok_0.0) =~= instrs_view(
                            prev.push(instr),
                        ) + rem->Ok_0.0);
                    }
                }
                i = i + 1;
            },
        }
    }
    proof {
        assert(instrs_view(out@) + Seq::<InstructionParts>::empty() =~= instrs_view(out@));
    }
    Ok((out, at))
}

/// Decoding reads back exactly a concatenation of equal-sized chunks.
pub proof fn lemma_chunks_round_trip(s: Seq<u8>, pos: int, chunks: Seq<Seq<u8>>, size: int)
    requires
        size >= 0,
        forall|i: int| 0 <= i < chunks.len() ==> (#[trigger] chunks[i]).len() == size,
        begins_with(s, pos, spec_concat(chunks)),
    ensures
        spec_decode_chunks(s, pos, chunks.len() as int, size) == Ok::<
            (Seq<Seq<u8>>, int),
            TxAsmError,
        >((chunks, pos + spec_concat(chunks).len())),
    decreases chunks.len(),
{
    if chunks.len() == 0 {
        assert(spec_decode_chunks(s, pos, 0, size) == Ok::<(Seq<Seq<u8>>, int), TxAsmError>((
            Seq::empty(),
            pos,
        )));
        assert(chunks =~= Seq::<Seq<u8>>::empty());
    } else {
        let first = chunks[0];
        let rest = chunks.drop_first();
        assert(spec_concat(chunks) == first + spec_concat(rest));
        lemma_begins_with_split(s, pos, first, spec_concat(rest));
        lemma_fixed_round_trip(s, pos, first);
        lemma_chunks_round_trip(s, pos + size, rest, size);
        assert(seq![first] + rest =~= chunks);
    }
}

/// Decoding reads back exactly a serialized sequence of instruction bodies.
pub proof fn lemma_instrs_round_trip(s: Seq<u8>, pos: int, instrs: Seq<InstructionParts>)
    requires
        forall|i: int|
            0 <= i < instrs.len() ==> spec_instr_parts_representable(#[trigger] instrs[i]),
        begins_with(s, pos, spec_ser_instrs(instrs)),
    ensures
        spec_decode_instrs(s, pos, instrs.len() as int) == Ok::<
            (Seq<InstructionParts>, int),
            TxAsmError,
        >((instrs, pos + spec_ser_instrs(instrs).len())),
    decreases instrs.len(),
{
    if instrs.len() == 0 {
        assert(instrs =~= Seq::<InstructionParts>::empty());
    } else {
        let first = instrs[0];
        let rest = instrs.drop_first();
        assert(spec_ser_instrs(instrs) == spec_ser_instr_parts(first) + spec_ser_instrs(rest));
        lemma_begins_with_split(s, pos, spec_ser_instr_parts(first), spec_ser_instrs(rest));
        lemma_instr_parts_round_trip(s, pos, first);
        lemma_instrs_round_trip(s, pos + spec_ser_instr_parts(first).len(), rest);
        assert(seq![first] + rest =~= instrs);
    }
}

/// Decoding reads back exactly the message that was serialized, whatever
/// follows it in the buffer.
pub proof fn lemma_msg_round_trip(s: Seq<u8>, pos: int, m: CompiledMessageView)
    requires
        m.wf(),
        begins_with(s, pos, spec_ser_msg(m)),
    ensures
        spec_decode_msg(s, pos) == Ok::<(CompiledMessageView, int), TxAsmError>((
            m,
            pos + spec_ser_msg(m).len(),
        )),
{
    let hb = spec_ser_header(m.header);
    let v1 = spec_varint(m.account_keys.len() as u16);
    let ck = spec_concat(m.account_keys);
    let bh = m.recent_blockhash;
    let v2 = spec_varint(m.instructions.len() as u16);
    let si = spec_ser_instrs(m.instructions);
    let rest4 = v2 + si;
    let rest3 = bh + rest4;
    let rest2 = ck + rest3;
    let rest1 = v1 + rest2;
    assert(spec_ser_msg(m) =~= hb + rest1);
    lemma_begins_with_split(s, pos, hb, rest1);
    lemma_fixed_round_trip(s, pos, hb);
    let p0 = pos + 3;
    lemma_begins_with_split(s, p0, v1, rest2);
    lemma_varint_round_trip(s, p0, m.account_keys.len() as u16);
    let p1 = p0 + v1.len();
    lemma_begins_with_split(s, p1, ck, rest3);
    lemma_chunks_round_trip(s, p1, m.account_keys, 32);
    let p2 = p1 + ck.len();
    lemma_begins_with_split(s, p2, bh, rest4);
    lemma_fixed_round_trip(s, p2, bh);
    let p3 = p2 + 32;
    lemma_begins_with_split(s, p3, v2, si);
    lemma_varint_round_trip(s, p3, m.instructions.len() as u16);
    let p4 = p3 + v2.len();
    lemma_instrs_round_trip(s, p4, m.instructions);
    assert(hb[0] == m.header.num_required_signatures);
    assert(hb[1] == m.header.num_readonly_signed_accounts);
    assert(hb[2] == m.header.num_readonly_unsigned_accounts);
}

/// Decoding reads back exactly the transaction that was serialized,
/// whatever follows it in the buffer.
pub proof fn lemma_tx_round_trip_at(s: Seq<u8>, pos: int, t: CompiledTransactionView)
    requires
        t.wf(),
        begins_with(s, pos, spec_ser_tx(t)),
    ensures
        spec_decode_tx(s, pos) == Ok::<(CompiledTransactionView, int), TxAsmError>((
            t,
            pos + spec_ser_tx(t).len(),
        )),
{
    let v1 = spec_varint(t.signatures.len() as u16);
    let cs = spec_concat(t.signatures);
    let sm = spec_ser_msg(t.message);
    let rest2 = cs + sm;
    let rest1 = v1 + rest2;
    assert(spec_ser_tx(t) =~= v1 + rest2);
    lemma_begins_with_split(s, pos, v1, rest2);
    lemma_varint_round_trip(s, pos, t.signatures.len() as u16);
    let p0 = pos + v1.len();
    lemma_begins_with_split(s, p0, cs, sm);
    lemma_chunks_round_trip(s, p0, t.signatures, 64);
    let p1 = p0 + cs.len();
    lemma_msg_round_trip(s, p1, t.message);
}

/// Round trip: decoding the serialization of any well-formed transaction
/// yields the transaction back, consuming exactly its image.
pub proof fn lemma_tx_round_trip(t: CompiledTransactionView)
    requires
        t.wf(),
    ensures
        spec_decode_tx(spec_ser_tx(t), 0) == Ok::<(CompiledTransactionView, int), TxAsmError>((
            t,
            spec_ser_tx(t).len() as int,
        )),
{
    let s = spec_ser_tx(t);
    assert(s.subrange(0, s.len() as int) =~= s);
    assert(begins_with(s, 0, s));
    lemma_tx_round_trip_at(s, 0, t);
}

/// A 64-byte signature slot of zeroes.
pub open spec fn zero_sig() -> Seq<u8> {
    Seq::new(64, |i: int| 0u8)
}

/// `n` zero-filled signature slots.
pub open spec fn zero_sigs(n: nat) -> Seq<Seq<u8>> {
    Seq::new(n, |i: int| zero_sig())
}

/// Copy a byte vector.
fn copy_bytes(src: &Vec<u8>) -> (r: Vec<u8>)
    ensures
        r@ == src@,
{
    let mut out: Vec<u8> = Vec::new();
    let mut i: usize = 0;
    while i < src.len()
        invariant
            i <= src@.len(),
            out@ == src@.take(i as int),
        decreases src@.len() - i,
    {
        out.push(src[i]);
        proof {
            assert(out@ =~= src@.take(i + 1));
        }
        i = i + 1;
    }
    proof {
        assert(src@.take(src@.len() as int) =~= src@);
    }
    out
}

/// Fluent builder that collects a payer, a recency token and raw
/// instructions, then compiles them into a message. Each call returns the
/// modified value; no shared state is involved.
pub struct TransactionBuilder {
    instructions: Vec<RawInstruction>,
    payer: Option<[u8; 32]>,
    recent_blockhash: Option<[u8; 32]>,
}

/// Mathematical image of a [`TransactionBuilder`].
pub struct TransactionBuilderView {
    pub payer: Option<Seq<u8>>,
    pub recent_blockhash: Option<Seq<u8>>,
    pub instructions: Seq<RawInstructionView>,
}

impl View for TransactionBuilder {
    type V = TransactionBuilderView;

    closed spec fn view(&self) -> TransactionBuilderView {
        TransactionBuilderView {
            payer: match self.payer {
                Some(p) => Some(p@),
                None => None,
            },
            recent_blockhash: match self.recent_blockhash {
                Some(b) => Some(b@),
                None => None,
            },
            instructions: raw_ixs_view(self.instructions@),
        }
    }
}

impl TransactionBuilder {
    pub fn new() -> (r: Self)
        ensures
            r@.payer is None,
            r@.recent_blockhash is None,
            r@.instructions == Seq::<RawInstructionView>::empty(),
    {
        let r = Self { instructions: Vec::new(), payer: None, recent_blockhash: None };
        proof {
            assert(r@.instructions =~= Seq::<RawInstructionView>::empty());
        }
        r
    }

    /// Set the fee payer.
    pub fn payer(self, payer: [u8; 32]) -> (r: Self)
        ensures
            r@.payer == Some(payer@),
            r@.recent_blockhash == self@.recent_blockhash,
            r@.instructions == self@.instructions,
    {
        let mut s = self;
        s.payer = Some(payer);
        s
    }

    /// Set the fee payer from an SDK address; its key bytes come from the
    /// SDK and are not otherwise constrained.
    pub fn payer_pubkey(self, payer: &solana_sdk::pubkey::Pubkey) -> (r: Self)
        ensures
            r@.payer is Some,
            r@.recent_blockhash == self@.recent_blockhash,
            r@.instructions == self@.instructions,
    {
        let bytes = crate::solana::pubkey_bytes(payer);
        self.payer(bytes)
    }

    /// Set the recency token from an SDK hash; its bytes come from the SDK
    /// and are not otherwise constrained.
    pub fn recent_blockhash_hash(self, blockhash: &solana_sdk::hash::Hash) -> (r: Self)
        ensures
            r@.payer == self@.payer,
            r@.recent_blockhash is Some,
            r@.instructions == self@.instructions,
    {
        let bytes = crate::solana::hash_bytes(blockhash);
        self.recent_blockhash(bytes)
    }

    /// Set the recency token.
    pub fn recent_blockhash(self, blockhash: [u8; 32]) -> (r: Self)
        ensures
            r@.payer == self@.payer,
            r@.recent_blockhash == Some(blockhash@),
            r@.instructions == self@.instructions,
    {
        let mut s = self;
        s.recent_blockhash = Some(blockhash);
        s
    }

    /// Add one instruction.
    pub fn add_instruction(self, instruction: RawInstruction) -> (r: Self)
        ensures
            r@.payer == self@.payer,
            r@.recent_blockhash == self@.recent_blockhash,
            r@.instructions == self@.instructions.push(instruction@),
    {
        let ghost orig = self@;
        let mut s = self;
        s.instructions.push(instruction);
        proof {
            assert(s@.instructions =~= orig.instructions.push(instruction@));
        }
        s
    }

    /// Add several instructions in order.
    pub fn add_instructions(self, instructions: Vec<RawInstruction>) -> (r: Self)
        ensures
            r@.payer == self@.payer,
            r@.recent_blockhash == self@.recent_blockhash,
            r@.instructions == self@.instructions + raw_ixs_view(instructions@),
    {
        let ghost orig = self@;
        let ghost all = raw_ixs_view(instructions@);
        let mut s = self;
        let mut rem = instructions;
        proof {
            assert(s@.instructions + raw_ixs_view(rem@) =~= orig.instructions + all);
        }
        while rem.len() > 0
            invariant
                s@.payer == orig.payer,
                s@.recent_blockhash == orig.recent_blockhash,
                s@.instructions + raw_ixs_view(rem@) == orig.instructions + all,
            decreases rem@.len(),
        {
            let ghost r0 = rem@;
            let ghost s0 = s@.instructions;
            let ix = rem.remove(0);
            s.instructions.push(ix);
            proof {
                assert(raw_ixs_view(r0) =~= seq![ix@] + raw_ixs_view(rem@));
                assert(s@.instructions =~= s0.push(ix@));
                assert(s@.instructions + raw_ixs_view(rem@) =~= s0 + raw_ixs_view(r0));
            }
        }
        proof {
            assert(raw_ixs_view(rem@) =~= Seq::<RawInstructionView>::empty());
            assert(s@.instructions =~= s@.instructions + raw_ixs_view(rem@));
        }
        s
    }

    /// Compile the collected instructions into a message: deduplicate and
    /// order the accounts, derive the header and resolve every reference to
    /// an index.
    pub fn compile(self) -> (r: Result<CompiledMessage, TxAsmError>)
        ensures
            match spec_compile(self@.payer, self@.recent_blockhash, self@.instructions) {
                Ok(m) => r is Ok && r->Ok_0@ == m,
                Err(e) => r == Err::<CompiledMessage, TxAsmError>(e),
            },
    {
        let payer: [u8; 32] = match self.payer {
            Some(p) => p,
            None => {
                return Err(TxAsmError::InvalidTransaction);
            },
        };
        let recent_blockhash: [u8; 32] = match self.recent_blockhash {
            Some(b) => b,
            None => {
                return Err(TxAsmError::InvalidTransaction);
            },
        };
        if self.instructions.len() == 0 {
            return Err(TxAsmError::InvalidTransaction);
        }
        let ghost ixsv = raw_ixs_view(self.instructions@);
        let reg = build_registry(&payer, &self.instructions);
        proof {
            lemma_registry_invariant(payer@, ixsv);
        }
        let sorted = sort_entries(reg);
        let ghost ordered = spec_ordered_accounts(payer@, ixsv);
        proof {
            assert(metas_view(sorted@) == ordered);
        }
        if sorted.len() > 255 {
            return Err(TxAsmError::TooManyAccounts);
        }
        let counts = count_header(&sorted);
        let header = MessageHeader {
            num_required_signatures: counts.0,
            num_readonly_signed_accounts: counts.1,
            num_readonly_unsigned_accounts: counts.2,
        };
        proof {
            assert(header == spec_header_of(ordered));
        }
        let mut account_keys: Vec<[u8; 32]> = Vec::new();
        let mut i: usize = 0;
        while i < sorted.len()
            invariant
                i <= sorted@.len(),
                account_keys@.len() == i,
                metas_view(sorted@) == ordered,
                forall|k: int|
                    0 <= k < i ==> (#[trigger] account_keys@[k])@ == ordered[k].pubkey,
            decreases sorted@.len() - i,
        {
            let m = sorted[i];
            proof {
                assert(m@ == ordered[i as int]);
            }
            account_keys.push(m.pubkey);
            i = i + 1;
        }
        proof {
            assert(chunks_view(account_keys@) =~= keys_of(ordered));
        }
        let mut compiled: Vec<CompiledInstruction> = Vec::new();
        let mut i: usize = 0;
        while i < self.instructions.len()
            invariant
                i <= self.instructions@.len(),
                ixsv == raw_ixs_view(self.instructions@),
                ordered == spec_ordered_accounts(payer@, ixsv),
                metas_view(sorted@) == ordered,
                sorted@.len() <= 255,
                compiled@.len() == i,
                forall|k: int|
                    0 <= k < i ==> #[trigger] instrs_view(compiled@)[k] == spec_compile_ix(
                        ordered,
                        ixsv[k],
                    ),
            decreases self.instructions@.len() - i,
        {
            let ghost ixv = ixsv[i as int];
            proof {
                assert(ixv == self.instructions@[i as int]@);
                lemma_registry_invariant(payer@, ixsv);
                lemma_ordered_contains_key(payer@, ixsv, ixv.program_id);
            }
            let program_id_index: u8 = match find_entry(&sorted, &self.instructions[i].program_id) {
                Some(k) => k as u8,
                None => {
                    proof {
                        assert(false);
                    }
                    return Err(TxAsmError::UnresolvedAccount);
                },
            };
            let mut account_indices: Vec<u8> = Vec::new();
            let mut j: usize = 0;
            while j < self.instructions[i].accounts.len()
                invariant
                    i < self.instructions@.len(),
                    ixsv == raw_ixs_view(self.instructions@),
                    ixv == ixsv[i as int],
                    ordered == spec_ordered_accounts(payer@, ixsv),
                    metas_view(sorted@) == ordered,
                    sorted@.len() <= 255,
                    j <= self.instructions@[i as int].accounts@.len(),
                    ixv.accounts == metas_view(self.instructions@[i as int].accounts@),
                    account_indices@.len() == j,
                    forall|k: int|
                        0 <= k < j ==> account_indices@[k] == find_key(
                            ordered,
                            (#[trigger] ixv.accounts[k]).pubkey,
                        ) as u8,
                decreases self.instructions@[i as int].accounts@.len() - j,
            {
                let m = self.instructions[i].accounts[j];
                proof {
                    assert(m@ == ixv.accounts[j as int]);
                    lemma_registry_invariant(payer@, ixsv);
                    lemma_ordered_contains_key(payer@, ixsv, ixv.accounts[j as int].pubkey);
                }
                match find_entry(&sorted, &m.pubkey) {
                    Some(k) => {
                        account_indices.push(k as u8);
                    },
                    None => {
                        proof {
                            assert(false);
                        }
                        return Err(TxAsmError::UnresolvedAccount);
                    },
                }
                j = j + 1;
            }
            let data = copy_bytes(&self.instructions[i].data);
            let instr = CompiledInstruction { program_id_index, account_indices, data };
            let ghost prev = compiled@;
            proof {
                assert(instr@.account_indices =~= spec_compile_ix(ordered, ixv).account_indices);
                assert(instr@ == spec_compile_ix(ordered, ixv));
            }
            compiled.push(instr);
            proof {
                assert(compiled@ == prev.push(instr));
                assert forall|k: int| 0 <= k < i + 1 implies #[trigger] instrs_view(compiled@)[k]
                    == spec_compile_ix(ordered, ixsv[k]) by {
                    assert(instrs_view(compiled@)[k] == compiled@[k]@);
                    if k < i as int {
                        assert(compiled@[k] == prev[k]);
                        assert(instrs_view(prev)[k] == prev[k]@);
                    } else {
                        assert(compiled@[k] == instr);
                    }
                }
            }
            i = i + 1;
        }
        let msg = CompiledMessage { header, account_keys, recent_blockhash, instructions: compiled };
        proof {
            assert(instrs_view(compiled@) =~= spec_compile_ixs(ordered, ixsv));
            assert(msg@.account_keys =~= keys_of(ordered));
            let expect = spec_compile(self@.payer, self@.recent_blockhash, self@.instructions);
            assert(expect is Ok);
            assert(msg@ == expect->Ok_0);
        }
        Ok(msg)
    }

    /// Compile and wrap the message with one zero-filled signature slot per
    /// required signer.
    pub fn build_unsigned(self) -> (r: Result<CompiledTransaction, TxAsmError>)
        ensures
            match spec_compile(self@.payer, self@.recent_blockhash, self@.instructions) {
                Ok(m) => {
                    &&& r is Ok
                    &&& r->Ok_0@.message == m
                    &&& r->Ok_0@.signatures == zero_sigs(
                        m.header.num_required_signatures as nat,
                    )
                    &&& m.wf() ==> r->Ok_0@.wf()
                },
                Err(e) => r == Err::<CompiledTransaction, TxAsmError>(e),
            },
    {
        let message = match self.compile() {
            Ok(m) => m,
            Err(e) => {
                return Err(e);
            },
        };
        let num_signatures: usize = message.header.num_required_signatures as usize;
        let mut signatures: Vec<[u8; 64]> = Vec::new();
        let mut i: usize = 0;
        while i < num_signatures
            invariant
                i <= num_signatures,
                signatures@.len() == i,
                forall|k: int| 0 <= k < i ==> (#[trigger] signatures@[k])@ == zero_sig(),
            decreases num_signatures - i,
        {
            let slot: [u8; 64] = [0u8; 64];
            proof {
                assert(slot@ =~= zero_sig());
            }
            signatures.push(slot);
            i = i + 1;
        }
        proof {
            assert(chunks_view(signatures@) =~= zero_sigs(num_signatures as nat));
            assert forall|k: int| 0 <= k < chunks_view(signatures@).len() implies (
            #[trigger] chunks_view(signatures@)[k]).len() == 64 by {
                assert(chunks_view(signatures@)[k] == signatures@[k]@);
            }
        }
        Ok(CompiledTransaction { message, signatures })
    }
}

impl TransactionBuilder {
    /// Compile; check the signer count against the required count before
    /// anything else, failing with `SignatureCountMismatch` and signing
    /// nothing on a mismatch; then serialize the message once and sign
    /// those exact bytes with each signer in the order given, filling slot
    /// `i` with signer `i`'s signature. The caller must supply the signers
    /// in the order of the signer accounts in the ordered key sequence;
    /// that order is not checked here.
    pub fn build_and_sign(
        self,
        signers: &[&solana_sdk::signature::Keypair],
    ) -> (r: Result<CompiledTransaction, TxAsmError>)
        ensures
            match spec_compile(self@.payer, self@.recent_blockhash, self@.instructions) {
                Err(e) => r == Err::<CompiledTransaction, TxAsmError>(e),
                Ok(m) => {
                    &&& signers@.len() != m.header.num_required_signatures as int ==> r == Err::<
                        CompiledTransaction,
                        TxAsmError,
                    >(
                        TxAsmError::SignatureCountMismatch {
                            expected: m.header.num_required_signatures as usize,
                            actual: signers@.len() as usize,
                        },
                    )
                    &&& signers@.len() == m.header.num_required_signatures as int && !m.wf() ==> r
                        == Err::<CompiledTransaction, TxAsmError>(TxAsmError::Unrepresentable)
                    &&& signers@.len() == m.header.num_required_signatures as int && m.wf() ==> {
                        &&& r is Ok
                        &&& r->Ok_0@.message == m
                        &&& r->Ok_0@.signatures.len() == m.header.num_required_signatures as int
                        &&& r->Ok_0@.wf()
                    }
                },
            },
    {
        let message = match self.compile() {
            Ok(m) => m,
            Err(e) => {
                return Err(e);
            },
        };
        let num_required: usize = message.header.num_required_signatures as usize;
        if signers.len() != num_required {
            return Err(TxAsmError::SignatureCountMismatch {
                expected: num_required,
                actual: signers.len(),
            });
        }
        let mut message_bytes: Vec<u8> = Vec::new();
        match message.serialize_bytes(&mut message_bytes) {
            Ok(()) => {},
            Err(e) => {
                return Err(e);
            },
        }
        let mut signatures: Vec<[u8; 64]> = Vec::new();
        let mut i: usize = 0;
        while i < num_required
            invariant
                num_required <= signers@.len(),
                i <= num_required,
                signatures@.len() == i,
            decreases num_required - i,
        {
            let signature = crate::solana::sign_message_bytes(
                signers[i],
                message_bytes.as_slice(),
            );
            signatures.push(signature);
            i = i + 1;
        }
        proof {
            assert forall|k: int| 0 <= k < chunks_view(signatures@).len() implies (
            #[trigger] chunks_view(signatures@)[k]).len() == 64 by {
                assert(chunks_view(signatures@)[k] == signatures@[k]@);
            }
        }
        Ok(CompiledTransaction { message, signatures })
    }
}

impl Default for TransactionBuilder {
    /// An empty builder: no payer, no recency token, no instructions.
    fn default() -> (r: Self)
        ensures
            r@.payer is None,
            r@.recent_blockhash is None,
            r@.instructions == Seq::<RawInstructionView>::empty(),
    {
        Self::new()
    }
}


/// A buffer that ends inside a concatenation of equal-sized chunks makes
/// the chunk decoder report truncated input.
proof fn lemma_chunks_truncated(s: Seq<u8>, pos: int, chunks: Seq<Seq<u8>>, size: int)
    requires
        size > 0,
        forall|i: int| 0 <= i < chunks.len() ==> (#[trigger] chunks[i]).len() == size,
        0 <= pos <= s.len(),
        s.len() < pos + spec_concat(chunks).len(),
        s.subrange(pos, s.len() as int) == spec_concat(chunks).take(s.len() - pos),
    ensures
        spec_decode_chunks(s, pos, chunks.len() as int, size) is Err,
        spec_decode_chunks(s, pos, chunks.len() as int, size)->Err_0 is TruncatedInput,
    decreases chunks.len(),
{
    assert(chunks.len() > 0) by {
        if chunks.len() == 0 {
            assert(spec_concat(chunks).len() == 0);
        }
    }
    let first = chunks[0];
    let rest = chunks.drop_first();
    assert(spec_concat(chunks) == first + spec_concat(rest));
    assert(s.subrange(pos, s.len() as int) == (first + spec_concat(rest)).take(s.len() - pos));
    lemma_prefix_parts(s, pos, first, spec_concat(rest));
    if s.len() < pos + size {
        assert(spec_decode_fixed(s, pos, size) is Err);
    } else {
        lemma_fixed_round_trip(s, pos, first);
        assert forall|i: int| 0 <= i < rest.len() implies (#[trigger] rest[i]).len() == size by {
            assert(rest[i] == chunks[i + 1]);
        }
        lemma_chunks_truncated(s, pos + size, rest, size);
    }
}

/// A buffer that ends inside a serialized instruction sequence makes the
/// instruction-sequence decoder report truncated input.
proof fn lemma_instrs_truncated(s: Seq<u8>, pos: int, instrs: Seq<InstructionParts>)
    requires
        forall|i: int|
            0 <= i < instrs.len() ==> spec_instr_parts_representable(#[trigger] instrs[i]),
        0 <= pos <= s.len(),
        s.len() < pos + spec_ser_instrs(instrs).len(),
        s.subrange(pos, s.len() as int) == spec_ser_instrs(instrs).take(s.len() - pos),
    ensures
        spec_decode_instrs(s, pos, instrs.len() as int) is Err,
        spec_decode_instrs(s, pos, instrs.len() as int)->Err_0 is TruncatedInput,
    decreases instrs.len(),
{
    assert(instrs.len() > 0) by {
        if instrs.len() == 0 {
            assert(spec_ser_instrs(instrs).len() == 0);
        }
    }
    let first = instrs[0];
    let rest = instrs.drop_first();
    let fb = spec_ser_instr_parts(first);
    assert(spec_ser_instrs(instrs) == fb + spec_ser_instrs(rest));
    assert(s.subrange(pos, s.len() as int) == (fb + spec_ser_instrs(rest)).take(s.len() - pos));
    lemma_prefix_parts(s, pos, fb, spec_ser_instrs(rest));
    if s.len() < pos + fb.len() {
        lemma_instr_parts_truncated(s, pos, first);
    } else {
        lemma_instr_parts_round_trip(s, pos, first);
        assert forall|i: int| 0 <= i < rest.len() implies spec_instr_parts_representable(
            #[trigger] rest[i],
        ) by {
            assert(rest[i] == instrs[i + 1]);
        }
        lemma_instrs_truncated(s, pos + fb.len(), rest);
    }
}

/// A buffer that ends inside a serialized message makes the message decoder
/// report truncated input.
proof fn lemma_msg_truncated(s: Seq<u8>, pos: int, m: CompiledMessageView)
    requires
        m.wf(),
        0 <= pos <= s.len(),
        s.len() < pos + spec_ser_msg(m).len(),
        s.subrange(pos, s.len() as int) == spec_ser_msg(m).take(s.len() - pos),
    ensures
        spec_decode_msg(s, pos) is Err,
        spec_decode_msg(s, pos)->Err_0 is TruncatedInput,
{
    let hb = spec_ser_header(m.header);
    let v1 = spec_varint(m.account_keys.len() as u16);
    let ck = spec_concat(m.account_keys);
    let bh = m.recent_blockhash;
    let v2 = spec_varint(m.instructions.len() as u16);
    let si = spec_ser_instrs(m.instructions);
    let rest4 = v2 + si;
    let rest3 = bh + rest4;
    let rest2 = ck + rest3;
    let rest1 = v1 + rest2;
    assert(spec_ser_msg(m) =~= hb + rest1);
    assert(s.subrange(pos, s.len() as int) == (hb + rest1).take(s.len() - pos));
    lemma_prefix_parts(s, pos, hb, rest1);
    if s.len() < pos + 3 {
        assert(spec_decode_fixed(s, pos, 3) is Err);
    } else {
        lemma_fixed_round_trip(s, pos, hb);
        let p0 = pos + 3;
        lemma_prefix_parts(s, p0, v1, rest2);
        if s.len() < p0 + v1.len() {
            lemma_varint_truncated(s, p0, m.account_keys.len() as u16);
        } else {
            lemma_varint_round_trip(s, p0, m.account_keys.len() as u16);
            let p1 = p0 + v1.len();
            lemma_prefix_parts(s, p1, ck, rest3);
            if s.len() < p1 + ck.len() {
                lemma_chunks_truncated(s, p1, m.account_keys, 32);
            } else {
                lemma_chunks_round_trip(s, p1, m.account_keys, 32);
                let p2 = p1 + ck.len();
                lemma_prefix_parts(s, p2, bh, rest4);
                if s.len() < p2 + 32 {
                    assert(spec_decode_fixed(s, p2, 32) is Err);
                } else {
                    lemma_fixed_round_trip(s, p2, bh);
                    let p3 = p2 + 32;
                    lemma_prefix_parts(s, p3, v2, si);
                    if s.len() < p3 + v2.len() {
                        lemma_varint_truncated(s, p3, m.instructions.len() as u16);
                    } else {
                        lemma_varint_round_trip(s, p3, m.instructions.len() as u16);
                        let p4 = p3 + v2.len();
                        assert(s.len() < p4 + si.len());
                        lemma_instrs_truncated(s, p4, m.instructions);
                    }
                }
            }
        }
    }
}

/// A buffer that ends inside a serialized transaction makes the transaction
/// decoder report truncated input.
proof fn lemma_tx_truncated_at(s: Seq<u8>, pos: int, t: CompiledTransactionView)
    requires
        t.wf(),
        0 <= pos <= s.len(),
        s.len() < pos + spec_ser_tx(t).len(),
        s.subrange(pos, s.len() as int) == spec_ser_tx(t).take(s.len() - pos),
    ensures
        spec_decode_tx(s, pos) is Err,
        spec_decode_tx(s, pos)->Err_0 is TruncatedInput,
{
    let v1 = spec_varint(t.signatures.len() as u16);
    let cs = spec_concat(t.signatures);
    let sm = spec_ser_msg(t.message);
    let rest2 = cs + sm;
    let rest1 = v1 + rest2;
    assert(spec_ser_tx(t) =~= v1 + rest2);
    assert(s.subrange(pos, s.len() as int) == (v1 + rest2).take(s.len() - pos));
    lemma_prefix_parts(s, pos, v1, rest2);
    if s.len() < pos + v1.len() {
        lemma_varint_truncated(s, pos, t.signatures.len() as u16);
    } else {
        lemma_varint_round_trip(s, pos, t.signatures.len() as u16);
        let p0 = pos + v1.len();
        lemma_prefix_parts(s, p0, cs, sm);
        if s.len() < p0 + cs.len() {
            lemma_chunks_truncated(s, p0, t.signatures, 64);
        } else {
            lemma_chunks_round_trip(s, p0, t.signatures, 64);
            let p1 = p0 + cs.len();
            assert(s.len() < p1 + sm.len());
            lemma_msg_truncated(s, p1, t.message);
        }
    }
}

/// Truncation: decoding any strict prefix of a well-formed transaction's
/// serialization reports truncated input — never a short value and never a
/// malformed-field error.
pub proof fn lemma_tx_truncation(t: CompiledTransactionView, cut: int)
    requires
        t.wf(),
        0 <= cut < spec_ser_tx(t).len(),
    ensures
        spec_decode_tx(spec_ser_tx(t).take(cut), 0) is Err,
        spec_decode_tx(spec_ser_tx(t).take(cut), 0)->Err_0 is TruncatedInput,
{
    let full = spec_ser_tx(t);
    let s = full.take(cut);
    assert(s.subrange(0, s.len() as int) =~= full.take(cut));
    lemma_tx_truncated_at(s, 0, t);
}

/// Bytes the length prefix of a count takes on the wire.
pub open spec fn spec_varint_len(n: int) -> int {
    if n < 0x80 {
        1
    } else if n < 0x4000 {
        2
    } else {
        3
    }
}

/// Closed arithmetic size of one instruction body.
pub open spec fn spec_instr_size(i: InstructionParts) -> int {
    1 + spec_varint_len(i.account_indices.len() as int) + i.account_indices.len()
        + spec_varint_len(i.data.len() as int) + i.data.len()
}

/// Closed arithmetic size of a sequence of instruction bodies.
pub open spec fn spec_instrs_size(s: Seq<InstructionParts>) -> int
    decreases s.len(),
{
    if s.len() == 0 {
        0
    } else {
        spec_instr_size(s[0]) + spec_instrs_size(s.drop_first())
    }
}

/// Closed arithmetic size of a message: header, counted keys, recency
/// token, counted instruction bodies.
pub open spec fn spec_msg_size(m: CompiledMessageView) -> int {
    3 + spec_varint_len(m.account_keys.len() as int) + 32 * m.account_keys.len() + 32
        + spec_varint_len(m.instructions.len() as int) + spec_instrs_size(m.instructions)
}

/// Closed arithmetic size of a transaction.
pub open spec fn spec_tx_size(t: CompiledTransactionView) -> int {
    spec_varint_len(t.signatures.len() as int) + 64 * t.signatures.len() + spec_msg_size(t.message)
}

/// The encoded length prefix of an in-range count is as long as the closed
/// form says.
proof fn lemma_varint_len(n: int)
    requires
        0 <= n <= varint_max(),
    ensures
        spec_varint(n as u16).len() == spec_varint_len(n),
{
}

/// The concatenation of equal-sized chunks holds their combined bytes.
proof fn lemma_concat_len_uniform(s: Seq<Seq<u8>>, size: int)
    requires
        size >= 0,
        forall|i: int| 0 <= i < s.len() ==> (#[trigger] s[i]).len() == size,
    ensures
        spec_concat(s).len() == s.len() * size,
    decreases s.len(),
{
    if s.len() == 0 {
    } else {
        assert forall|i: int| 0 <= i < s.drop_first().len() implies (#[trigger] s.drop_first()[
        i]).len() == size by {
            assert(s.drop_first()[i] == s[i + 1]);
        }
        lemma_concat_len_uniform(s.drop_first(), size);
        assert(size + (s.len() - 1) * size == s.len() * size) by (nonlinear_arith)
            requires
                s.len() >= 1,
        ;
    }
}

/// Size exactness for one instruction body: its wire image is as long as
/// the closed form says.
proof fn lemma_instr_size_exact(i: InstructionParts)
    requires
        spec_instr_parts_representable(i),
    ensures
        spec_ser_instr_parts(i).len() == spec_instr_size(i),
{
    lemma_varint_len(i.account_indices.len() as int);
    lemma_varint_len(i.data.len() as int);
}

/// Size exactness for a sequence of instruction bodies.
proof fn lemma_instrs_size_exact(s: Seq<InstructionParts>)
    requires
        forall|i: int| 0 <= i < s.len() ==> spec_instr_parts_representable(#[trigger] s[i]),
    ensures
        spec_ser_instrs(s).len() == spec_instrs_size(s),
    decreases s.len(),
{
    if s.len() == 0 {
    } else {
        lemma_instr_size_exact(s[0]);
        assert forall|i: int| 0 <= i < s.drop_first().len() implies spec_instr_parts_representable(
            #[trigger] s.drop_first()[i],
        ) by {
            assert(s.drop_first()[i] == s[i + 1]);
        }
        lemma_instrs_size_exact(s.drop_first());
    }
}

/// Size exactness: for every well-formed message, the serializer's output
/// length equals the closed arithmetic form — the size is exactly
/// computable without materializing any bytes.
pub proof fn lemma_msg_size_exact(m: CompiledMessageView)
    requires
        m.wf(),
    ensures
        spec_ser_msg(m).len() == spec_msg_size(m),
{
    lemma_varint_len(m.account_keys.len() as int);
    lemma_varint_len(m.instructions.len() as int);
    lemma_concat_len_uniform(m.account_keys, 32);
    lemma_instrs_size_exact(m.instructions);
}

/// Size exactness for the whole transaction envelope.
pub proof fn lemma_tx_size_exact(t: CompiledTransactionView)
    requires
        t.wf(),
    ensures
        spec_ser_tx(t).len() == spec_tx_size(t),
{
    lemma_varint_len(t.signatures.len() as int);
    lemma_concat_len_uniform(t.signatures, 64);
    lemma_msg_size_exact(t.message);
}

/// The message image is as long as its parts.
pub proof fn lemma_ser_msg_len_bound(m: CompiledMessageView)
    ensures
        spec_ser_msg(m).len() == spec_ser_header(m.header).len() + spec_varint(
            m.account_keys.len() as u16,
        ).len() + spec_concat(m.account_keys).len() + m.recent_blockhash.len() + spec_varint(
            m.instructions.len() as u16,
        ).len() + spec_ser_instrs(m.instructions).len(),
{
}

} // verus!
