//! Raw instructions: account references with access flags, a builder for
//! assembling instruction payloads byte by byte, and a decoder for compiled
//! instruction bodies.

use vstd::prelude::*;

use crate::error::TxAsmError;
use crate::serialization::{
    begins_with, decode_array, decode_bytes, decode_compact_u16, decode_length_prefixed,
    decode_u8, lemma_begins_with_split, lemma_fixed_round_trip, lemma_prefix_parts,
    lemma_varint_round_trip, lemma_varint_truncated, spec_decode_fixed, spec_decode_len_prefixed,
    spec_decode_varint, spec_u32_le, spec_u64_le,
    spec_varint, varint_max, ByteSerialize, encode_compact_u16, encode_pubkey, encode_u8,
};

verus! {

/// One account reference inside an instruction: a 32-byte key and the access
/// the instruction claims on it.
#[derive(Debug, Clone, Copy, PartialEq, Eq)]
pub struct AccountMeta {
    pub pubkey: [u8; 32],
    pub is_signer: bool,
    pub is_writable: bool,
}

/// Mathematical image of an [`AccountMeta`]: the key as a byte sequence.
pub struct AccountMetaView {
    pub pubkey: Seq<u8>,
    pub is_signer: bool,
    pub is_writable: bool,
}

impl View for AccountMeta {
    type V = AccountMetaView;

    open spec fn view(&self) -> AccountMetaView {
        AccountMetaView { pubkey: self.pubkey@, is_signer: self.is_signer, is_writable: self.is_writable }
    }
}

impl AccountMeta {
    pub fn new(pubkey: [u8; 32], is_signer: bool, is_writable: bool) -> (r: Self)
        ensures
            r@.pubkey == pubkey@,
            r@.is_signer == is_signer,
            r@.is_writable == is_writable,
    {
        Self { pubkey, is_signer, is_writable }
    }

    pub fn new_readonly(pubkey: [u8; 32], is_signer: bool) -> (r: Self)
        ensures
            r@.pubkey == pubkey@,
            r@.is_signer == is_signer,
            r@.is_writable == false,
    {
        Self { pubkey, is_signer, is_writable: false }
    }

    pub fn new_writable(pubkey: [u8; 32], is_signer: bool) -> (r: Self)
        ensures
            r@.pubkey == pubkey@,
            r@.is_signer == is_signer,
            r@.is_writable == true,
    {
        Self { pubkey, is_signer, is_writable: true }
    }

    /// Build a reference from an SDK address; the key bytes come from the
    /// SDK and are not otherwise constrained.
    pub fn from_pubkey(pubkey: &solana_sdk::pubkey::Pubkey, is_signer: bool, is_writable: bool) -> (r:
        Self)
        ensures
            r@.is_signer == is_signer,
            r@.is_writable == is_writable,
    {
        Self::new(crate::solana::pubkey_bytes(pubkey), is_signer, is_writable)
    }
}

/// Wire image of an account reference: the key, then one byte per flag.
pub open spec fn spec_ser_account_meta(m: AccountMetaView) -> Seq<u8> {
    m.pubkey + seq![
        if m.is_signer { 1u8 } else { 0u8 },
        if m.is_writable { 1u8 } else { 0u8 },
    ]
}

impl ByteSerialize for AccountMeta {
    open spec fn spec_bytes(&self) -> Seq<u8> {
        spec_ser_account_meta(self@)
    }

    open spec fn representable(&self) -> bool {
        true
    }

    fn serialize_bytes(&self, writer: &mut Vec<u8>) -> (r: Result<(), TxAsmError>)
        ensures
            self.representable() ==> r == Ok::<(), TxAsmError>(()),
            self.representable() ==> final(writer)@ == old(writer)@ + self.spec_bytes(),
            !self.representable() ==> r == Err::<(), TxAsmError>(TxAsmError::Unrepresentable),
            !self.representable() ==> final(writer)@ == old(writer)@,
    {
        let r1 = encode_pubkey(&self.pubkey, writer);
        let r2 = encode_u8(if self.is_signer { 1 } else { 0 }, writer);
        let r3 = encode_u8(if self.is_writable { 1 } else { 0 }, writer);
        proof {
            assert(final(writer)@ =~= old(writer)@ + self.spec_bytes());
        }
        Ok(())
    }

    fn byte_size(&self) -> (r: usize)
        ensures
            r == self.spec_bytes().len(),
    {
        34
    }
}

/// A raw instruction: the program it invokes, the accounts it touches, and
/// its opaque payload.
#[derive(Debug, Clone, PartialEq, Eq)]
pub struct RawInstruction {
    /// Program the instruction invokes.
    pub program_id: [u8; 32],
    /// Account references, in the order the program expects them.
    pub accounts: Vec<AccountMeta>,
    /// Opaque payload bytes.
    pub data: Vec<u8>,
}

/// Mathematical image of a [`RawInstruction`].
pub struct RawInstructionView {
    pub program_id: Seq<u8>,
    pub accounts: Seq<AccountMetaView>,
    pub data: Seq<u8>,
}

/// The views of a sequence of account references.
pub open spec fn metas_view(s: Seq<AccountMeta>) -> Seq<AccountMetaView> {
    s.map_values(|m: AccountMeta| m@)
}

/// Taking the view of each element commutes with appending one.
pub proof fn lemma_metas_view_push(s: Seq<AccountMeta>, m: AccountMeta)
    ensures
        metas_view(s.push(m)) == metas_view(s).push(m@),
{
    assert(metas_view(s.push(m)) =~= metas_view(s).push(m@));
}

/// The views of a sequence of raw instructions.
pub open spec fn raw_ixs_view(s: Seq<RawInstruction>) -> Seq<RawInstructionView> {
    s.map_values(|i: RawInstruction| i@)
}

impl View for RawInstruction {
    type V = RawInstructionView;

    open spec fn view(&self) -> RawInstructionView {
        RawInstructionView {
            program_id: self.program_id@,
            accounts: metas_view(self.accounts@),
            data: self.data@,
        }
    }
}

impl RawInstruction {
    pub fn new(program_id: [u8; 32], accounts: Vec<AccountMeta>, data: Vec<u8>) -> (r: Self)
        ensures
            r@.program_id == program_id@,
            r@.accounts == metas_view(accounts@),
            r@.data == data@,
    {
        Self { program_id, accounts, data }
    }

    /// Relies on the public fields of solana_sdk's `instruction::Instruction`
    /// and on `Pubkey::to_bytes`: converts the program address and each
    /// account reference to raw key bytes with their two flags, and copies
    /// the payload verbatim.
    #[verifier::external_body]
    pub fn from_sdk_instruction(instruction: &solana_sdk::instruction::Instruction) -> RawInstruction {
        RawInstruction {
            program_id: instruction.program_id.to_bytes(),
            accounts: instruction.accounts.iter().map(
                |acc| AccountMeta {
                    pubkey: acc.pubkey.to_bytes(),
                    is_signer: acc.is_signer,
                    is_writable: acc.is_writable,
                },
            ).collect(),
            data: instruction.data.clone(),
        }
    }

    /// All keys the instruction mentions: the program key first, then each
    /// account reference's key in order.
    pub fn account_keys(&self) -> (r: Vec<[u8; 32]>)
        ensures
            r@.len() == 1 + self@.accounts.len(),
            r@[0]@ == self@.program_id,
            forall|i: int| 0 <= i < self@.accounts.len() ==> r@[i + 1]@ == self@.accounts[i].pubkey,
    {
        let mut keys: Vec<[u8; 32]> = Vec::new();
        keys.push(self.program_id);
        let mut i: usize = 0;
        while i < self.accounts.len()
            invariant
                i <= self.accounts@.len(),
                keys@.len() == 1 + i,
                keys@[0]@ == self@.program_id,
                forall|j: int| 0 <= j < i ==> keys@[j + 1]@ == self@.accounts[j].pubkey,
            decreases self.accounts@.len() - i,
        {
            keys.push(self.accounts[i].pubkey);
            i = i + 1;
        }
        keys
    }
}

/// Placeholder wire image of a raw instruction: index slots are written as
/// zero, to be resolved during compilation.
pub open spec fn spec_ser_raw_instruction(i: RawInstructionView) -> Seq<u8> {
    seq![0u8] + spec_varint(i.accounts.len() as u16) + Seq::new(i.accounts.len(), |j: int| 0u8)
        + spec_varint(i.data.len() as u16) + i.data
}

impl ByteSerialize for RawInstruction {
    open spec fn spec_bytes(&self) -> Seq<u8> {
        spec_ser_raw_instruction(self@)
    }

    open spec fn representable(&self) -> bool {
        &&& self@.accounts.len() <= varint_max()
        &&& self@.data.len() <= varint_max()
    }

    fn serialize_bytes(&self, writer: &mut Vec<u8>) -> (r: Result<(), TxAsmError>)
        ensures
            self.representable() ==> r == Ok::<(), TxAsmError>(()),
            self.representable() ==> final(writer)@ == old(writer)@ + self.spec_bytes(),
            !self.representable() ==> r == Err::<(), TxAsmError>(TxAsmError::Unrepresentable),
            !self.representable() ==> final(writer)@ == old(writer)@,
    {
        if self.accounts.len() > 0xFFFF || self.data.len() > 0xFFFF {
            return Err(TxAsmError::Unrepresentable);
        }
        let r1 = encode_u8(0, writer);
        let r2 = encode_compact_u16(self.accounts.len() as u16, writer);
        let ghost base = writer@;
        let mut i: usize = 0;
        while i < self.accounts.len()
            invariant
                i <= self.accounts@.len(),
                writer@ == base + Seq::new(i as nat, |j: int| 0u8),
            decreases self.accounts@.len() - i,
        {
            writer.push(0);
            proof {
                assert(writer@ =~= base + Seq::new((i + 1) as nat, |j: int| 0u8));
            }
            i = i + 1;
        }
        let r3 = encode_compact_u16(self.data.len() as u16, writer);
        writer.extend_from_slice(self.data.as_slice());
        proof {
            assert(final(writer)@ =~= old(writer)@ + self.spec_bytes());
        }
        Ok(())
    }

    fn byte_size(&self) -> (r: usize)
        ensures
            r == self.spec_bytes().len(),
    {
        let accounts_len_size: usize = if self.accounts.len() <= 0x7f {
            1
        } else if self.accounts.len() <= 0x3fff {
            2
        } else {
            3
        };
        let data_len_size: usize = if self.data.len() <= 0x7f {
            1
        } else if self.data.len() <= 0x3fff {
            2
        } else {
            3
        };
        1 + accounts_len_size + self.accounts.len() + data_len_size + self.data.len()
    }
}

/// Fluent builder for a [`RawInstruction`]: each call returns the modified
/// value; no shared state is involved.
pub struct InstructionEncoder {
    program_id: [u8; 32],
    accounts: Vec<AccountMeta>,
    data: Vec<u8>,
}

/// Mathematical image of an [`InstructionEncoder`].
pub struct InstructionEncoderView {
    pub program_id: Seq<u8>,
    pub accounts: Seq<AccountMetaView>,
    pub data: Seq<u8>,
}

impl View for InstructionEncoder {
    type V = InstructionEncoderView;

    closed spec fn view(&self) -> InstructionEncoderView {
        InstructionEncoderView {
            program_id: self.program_id@,
            accounts: metas_view(self.accounts@),
            data: self.data@,
        }
    }
}

impl InstructionEncoder {
    pub fn new(program_id: [u8; 32]) -> (r: Self)
        ensures
            r@.program_id == program_id@,
            r@.accounts == Seq::<AccountMetaView>::empty(),
            r@.data == Seq::<u8>::empty(),
    {
        let r = Self { program_id, accounts: Vec::new(), data: Vec::new() };
        proof {
            assert(r@.accounts =~= Seq::<AccountMetaView>::empty());
        }
        r
    }

    /// Start a builder from an SDK program address.
    pub fn from_pubkey(program_id: &solana_sdk::pubkey::Pubkey) -> (r: Self)
        ensures
            r@.accounts == Seq::<AccountMetaView>::empty(),
            r@.data == Seq::<u8>::empty(),
    {
        Self::new(crate::solana::pubkey_bytes(program_id))
    }

    /// Add one account reference.
    pub fn account(self, meta: AccountMeta) -> (r: Self)
        ensures
            r@.program_id == self@.program_id,
            r@.accounts == self@.accounts.push(meta@),
            r@.data == self@.data,
    {
        let ghost orig = self@;
        let mut s = self;
        s.accounts.push(meta);
        proof {
            assert(metas_view(s.accounts@) =~= orig.accounts.push(meta@));
        }
        s
    }

    /// Add several account references in order.
    pub fn accounts(self, metas: Vec<AccountMeta>) -> (r: Self)
        ensures
            r@.program_id == self@.program_id,
            r@.accounts == self@.accounts + metas_view(metas@),
            r@.data == self@.data,
    {
        let ghost orig = self@;
        let mut s = self;
        let mut i: usize = 0;
        while i < metas.len()
            invariant
                i <= metas@.len(),
                s@.program_id == orig.program_id,
                s@.accounts == orig.accounts + metas_view(metas@.take(i as int)),
                s@.data == orig.data,
            decreases metas@.len() - i,
        {
            let ghost prev = s.accounts@;
            s.accounts.push(metas[i]);
            proof {
                lemma_metas_view_push(prev, metas@[i as int]);
                assert(metas@.take(i + 1) =~= metas@.take(i as int).push(metas@[i as int]));
                lemma_metas_view_push(metas@.take(i as int), metas@[i as int]);
                assert(s@.accounts =~= orig.accounts + metas_view(metas@.take(i + 1)));
            }
            i = i + 1;
        }
        proof {
            assert(metas@.take(metas@.len() as int) =~= metas@);
        }
        s
    }

    /// Add a signer account.
    pub fn signer(self, pubkey: [u8; 32], is_writable: bool) -> (r: Self)
        ensures
            r@.program_id == self@.program_id,
            r@.accounts == self@.accounts.push(
                AccountMetaView { pubkey: pubkey@, is_signer: true, is_writable },
            ),
            r@.data == self@.data,
    {
        self.account(AccountMeta::new(pubkey, true, is_writable))
    }

    /// Add a writable account.
    pub fn writable(self, pubkey: [u8; 32], is_signer: bool) -> (r: Self)
        ensures
            r@.program_id == self@.program_id,
            r@.accounts == self@.accounts.push(
                AccountMetaView { pubkey: pubkey@, is_signer, is_writable: true },
            ),
            r@.data == self@.data,
    {
        self.account(AccountMeta::new(pubkey, is_signer, true))
    }

    /// Add a readonly, non-signing account.
    pub fn readonly(self, pubkey: [u8; 32]) -> (r: Self)
        ensures
            r@.program_id == self@.program_id,
            r@.accounts == self@.accounts.push(
                AccountMetaView { pubkey: pubkey@, is_signer: false, is_writable: false },
            ),
            r@.data == self@.data,
    {
        self.account(AccountMeta::new_readonly(pubkey, false))
    }

    /// Replace the payload.
    pub fn data(self, data: Vec<u8>) -> (r: Self)
        ensures
            r@.program_id == self@.program_id,
            r@.accounts == self@.accounts,
            r@.data == data@,
    {
        let mut s = self;
        s.data = data;
        s
    }

    /// Append bytes to the payload.
    pub fn append_data(self, data: &[u8]) -> (r: Self)
        ensures
            r@.program_id == self@.program_id,
            r@.accounts == self@.accounts,
            r@.data == self@.data + data@,
    {
        let mut s = self;
        s.data.extend_from_slice(data);
        s
    }

    /// Append one byte to the payload.
    pub fn append_u8(self, value: u8) -> (r: Self)
        ensures
            r@.program_id == self@.program_id,
            r@.accounts == self@.accounts,
            r@.data == self@.data.push(value),
    {
        let mut s = self;
        s.data.push(value);
        s
    }

    /// Append a 32-bit integer little-endian to the payload.
    pub fn append_u32(self, value: u32) -> (r: Self)
        ensures
            r@.program_id == self@.program_id,
            r@.accounts == self@.accounts,
            r@.data == self@.data + spec_u32_le(value),
    {
        let mut s = self;
        s.data.push((value % 0x100) as u8);
        s.data.push(((value / 0x100) % 0x100) as u8);
        s.data.push(((value / 0x1_0000) % 0x100) as u8);
        s.data.push((value / 0x100_0000) as u8);
        proof {
            assert(s@.data =~= self@.data + spec_u32_le(value));
        }
        s
    }

    /// Append a 64-bit integer little-endian to the payload.
    pub fn append_u64(self, value: u64) -> (r: Self)
        ensures
            r@.program_id == self@.program_id,
            r@.accounts == self@.accounts,
            r@.data == self@.data + spec_u64_le(value),
    {
        let mut s = self;
        s.data.push((value % 0x100) as u8);
        s.data.push(((value / 0x100) % 0x100) as u8);
        s.data.push(((value / 0x1_0000) % 0x100) as u8);
        s.data.push(((value / 0x100_0000) % 0x100) as u8);
        s.data.push(((value / 0x1_0000_0000) % 0x100) as u8);
        s.data.push(((value / 0x100_0000_0000) % 0x100) as u8);
        s.data.push(((value / 0x1_0000_0000_0000) % 0x100) as u8);
        s.data.push((value / 0x100_0000_0000_0000) as u8);
        proof {
            assert(s@.data =~= self@.data + spec_u64_le(value));
        }
        s
    }

    /// Finish building.
    pub fn build(self) -> (r: RawInstruction)
        ensures
            r@.program_id == self@.program_id,
            r@.accounts == self@.accounts,
            r@.data == self@.data,
    {
        RawInstruction { program_id: self.program_id, accounts: self.accounts, data: self.data }
    }

    /// Build and serialize in one step, in the placeholder layout of
    /// [`RawInstruction`]'s `ByteSerialize`.
    pub fn serialize(self) -> (r: Result<Vec<u8>, TxAsmError>)
        ensures
            self@.accounts.len() <= varint_max() && self@.data.len() <= varint_max() ==> {
                &&& r is Ok
                &&& r->Ok_0@ == spec_ser_raw_instruction(
                    RawInstructionView {
                        program_id: self@.program_id,
                        accounts: self@.accounts,
                        data: self@.data,
                    },
                )
            },
            !(self@.accounts.len() <= varint_max() && self@.data.len() <= varint_max()) ==> r
                == Err::<Vec<u8>, TxAsmError>(TxAsmError::Unrepresentable),
    {
        let instruction = self.build();
        let mut bytes: Vec<u8> = Vec::new();
        match instruction.serialize_bytes(&mut bytes) {
            Ok(()) => {
                proof {
                    assert(bytes@ =~= instruction.spec_bytes());
                }
                Ok(bytes)
            },
            Err(e) => Err(e),
        }
    }
}

/// Decoded form of a compiled instruction body: the program slot, the
/// account index list and the payload.
#[derive(Debug, Clone, PartialEq, Eq)]
pub struct DecodedInstruction {
    pub program_id_index: u8,
    pub account_indices: Vec<u8>,
    pub data: Vec<u8>,
}

/// The three parts of one instruction on the wire, as plain sequences.
pub struct InstructionParts {
    pub program_id_index: u8,
    pub account_indices: Seq<u8>,
    pub data: Seq<u8>,
}

/// Wire image of one instruction: program index, counted index list,
/// length-prefixed payload.
pub open spec fn spec_ser_instr_parts(p: InstructionParts) -> Seq<u8> {
    seq![p.program_id_index] + spec_varint(p.account_indices.len() as u16) + p.account_indices
        + spec_varint(p.data.len() as u16) + p.data
}

/// Both counted fields of the instruction fit the length prefix.
pub open spec fn spec_instr_parts_representable(p: InstructionParts) -> bool {
    &&& p.account_indices.len() <= varint_max()
    &&& p.data.len() <= varint_max()
}

/// Decoding one instruction at `pos`.
pub open spec fn spec_decode_instr_parts(s: Seq<u8>, pos: int) -> Result<
    (InstructionParts, int),
    TxAsmError,
> {
    if pos >= s.len() {
        Err(TxAsmError::TruncatedInput {
            needed: crate::serialization::spec_sat_add(pos, 1),
            available: s.len() as usize,
        })
    } else {
        let pidx = s[pos];
        match spec_decode_varint(s, pos + 1) {
            Err(e) => Err(e),
            Ok((cnt, p1)) => match spec_decode_fixed(s, p1, cnt as int) {
                Err(e) => Err(e),
                Ok((indices, p2)) => match spec_decode_len_prefixed(s, p2) {
                    Err(e) => Err(e),
                    Ok((data, p3)) => Ok((
                        InstructionParts { program_id_index: pidx, account_indices: indices, data },
                        p3,
                    )),
                },
            },
        }
    }
}

/// Decoding reads back exactly the instruction that was serialized,
/// whatever follows it in the buffer.
pub proof fn lemma_instr_parts_round_trip(s: Seq<u8>, pos: int, p: InstructionParts)
    requires
        spec_instr_parts_representable(p),
        begins_with(s, pos, spec_ser_instr_parts(p)),
    ensures
        spec_decode_instr_parts(s, pos) == Ok::<(InstructionParts, int), TxAsmError>((
            p,
            pos + spec_ser_instr_parts(p).len(),
        )),
{
    let head = seq![p.program_id_index];
    let v1 = spec_varint(p.account_indices.len() as u16);
    let v2 = spec_varint(p.data.len() as u16);
    let rest3 = v2 + p.data;
    let rest2 = p.account_indices + rest3;
    let rest1 = v1 + rest2;
    assert(spec_ser_instr_parts(p) =~= head + rest1);
    lemma_begins_with_split(s, pos, head, rest1);
    assert(s.subrange(pos, pos + 1)[0] == s[pos]);
    assert(s[pos] == p.program_id_index);
    let pos1 = pos + 1;
    lemma_begins_with_split(s, pos1, v1, rest2);
    lemma_varint_round_trip(s, pos1, p.account_indices.len() as u16);
    let pos2 = pos1 + v1.len();
    lemma_begins_with_split(s, pos2, p.account_indices, rest3);
    lemma_fixed_round_trip(s, pos2, p.account_indices);
    let pos3 = pos2 + p.account_indices.len();
    lemma_begins_with_split(s, pos3, v2, p.data);
    lemma_varint_round_trip(s, pos3, p.data.len() as u16);
    let pos4 = pos3 + v2.len();
    lemma_fixed_round_trip(s, pos4, p.data);
    assert(pos4 + p.data.len() == pos + spec_ser_instr_parts(p).len());
}

/// Decode the three fields of one instruction at `pos`: the program index,
/// the account index list, and the payload, with the position after them.
pub fn decode_instruction_fields(data: &[u8], pos: usize) -> (r: Result<
    ((u8, Vec<u8>, Vec<u8>), usize),
    TxAsmError,
>)
    requires
        pos <= data@.len(),
    ensures
        match spec_decode_instr_parts(data@, pos as int) {
            Ok((p, q)) => {
                &&& r is Ok
                &&& r->Ok_0.0.0 == p.program_id_index
                &&& r->Ok_0.0.1@ == p.account_indices
                &&& r->Ok_0.0.2@ == p.data
                &&& r->Ok_0.1 == q
            },
            Err(e) => r == Err::<((u8, Vec<u8>, Vec<u8>), usize), TxAsmError>(e),
        },
        r is Ok ==> pos <= r->Ok_0.1 <= data@.len(),
{
    let n: usize = data.len();
    let (program_id_index, p0) = match decode_u8(data, pos) {
        Ok(v) => v,
        Err(e) => {
            return Err(e);
        },
    };
    let (cnt, p1) = match decode_compact_u16(data, p0) {
        Ok(v) => v,
        Err(e) => {
            return Err(e);
        },
    };
    let (account_indices, p2) = match decode_bytes(data, p1, cnt as usize) {
        Ok(v) => v,
        Err(e) => {
            return Err(e);
        },
    };
    let (payload, p3) = match decode_length_prefixed(data, p2) {
        Ok(v) => v,
        Err(e) => {
            return Err(e);
        },
    };
    Ok(((program_id_index, account_indices, payload), p3))
}


/// A buffer that ends inside an encoded instruction makes the decoder
/// report truncated input, never a short value.
pub proof fn lemma_instr_parts_truncated(s: Seq<u8>, pos: int, p: InstructionParts)
    requires
        spec_instr_parts_representable(p),
        0 <= pos <= s.len(),
        s.len() < pos + spec_ser_instr_parts(p).len(),
        s.subrange(pos, s.len() as int) == spec_ser_instr_parts(p).take(s.len() - pos),
    ensures
        spec_decode_instr_parts(s, pos) is Err,
        spec_decode_instr_parts(s, pos)->Err_0 is TruncatedInput,
{
    let head = seq![p.program_id_index];
    let v1 = spec_varint(p.account_indices.len() as u16);
    let v2 = spec_varint(p.data.len() as u16);
    let rest3 = v2 + p.data;
    let rest2 = p.account_indices + rest3;
    let rest1 = v1 + rest2;
    assert(spec_ser_instr_parts(p) =~= head + rest1);
    assert(s.subrange(pos, s.len() as int) == (head + rest1).take(s.len() - pos));
    lemma_prefix_parts(s, pos, head, rest1);
    if s.len() < pos + 1 {
        assert(pos >= s.len());
    } else {
        assert(s.subrange(pos, pos + 1)[0] == s[pos]);
        assert(s[pos] == p.program_id_index);
        let pos1 = pos + 1;
        lemma_prefix_parts(s, pos1, v1, rest2);
        if s.len() < pos1 + v1.len() {
            lemma_varint_truncated(s, pos1, p.account_indices.len() as u16);
        } else {
            lemma_varint_round_trip(s, pos1, p.account_indices.len() as u16);
            let pos2 = pos1 + v1.len();
            lemma_prefix_parts(s, pos2, p.account_indices, rest3);
            if s.len() < pos2 + p.account_indices.len() {
                assert(spec_decode_fixed(s, pos2, p.account_indices.len() as int) is Err);
            } else {
                lemma_fixed_round_trip(s, pos2, p.account_indices);
                let pos3 = pos2 + p.account_indices.len();
                lemma_prefix_parts(s, pos3, v2, p.data);
                if s.len() < pos3 + v2.len() {
                    lemma_varint_truncated(s, pos3, p.data.len() as u16);
                } else {
                    lemma_varint_round_trip(s, pos3, p.data.len() as u16);
                    let pos4 = pos3 + v2.len();
                    assert(s.len() < pos4 + p.data.len());
                    assert(spec_decode_fixed(s, pos4, p.data.len() as int) is Err);
                }
            }
        }
    }
}

/// Decoder for compiled instruction bodies.
pub struct InstructionDecoder;

impl InstructionDecoder {
    /// Decode one compiled instruction from the start of `bytes`. Bytes
    /// after the instruction are ignored.
    pub fn decode(bytes: &[u8]) -> (r: Result<DecodedInstruction, TxAsmError>)
        ensures
            match spec_decode_instr_parts(bytes@, 0) {
                Ok((p, _)) => {
                    &&& r is Ok
                    &&& r->Ok_0.program_id_index == p.program_id_index
                    &&& r->Ok_0.account_indices@ == p.account_indices
                    &&& r->Ok_0.data@ == p.data
                },
                Err(e) => r == Err::<DecodedInstruction, TxAsmError>(e),
            },
    {
        match decode_instruction_fields(bytes, 0) {
            Ok(((program_id_index, account_indices, data), _)) => Ok(
                DecodedInstruction { program_id_index, account_indices, data },
            ),
            Err(e) => Err(e),
        }
    }

    /// The first eight payload bytes, the conventional discriminator slot;
    /// `None` when the payload is shorter.
    pub fn extract_discriminator(data: &[u8]) -> (r: Option<[u8; 8]>)
        ensures
            match r {
                Some(d) => data@.len() >= 8 && d@ == data@.subrange(0, 8),
                None => data@.len() < 8,
            },
    {
        if data.len() >= 8 {
            match decode_array::<8>(data, 0) {
                Ok((d, _)) => Some(d),
                Err(_) => None,
            }
        } else {
            None
        }
    }
}

impl DecodedInstruction {
    /// Payload length in bytes.
    pub fn data_size(&self) -> (r: usize)
        ensures
            r == self.data@.len(),
    {
        self.data.len()
    }

    /// Whether the payload begins with exactly this discriminator.
    pub fn matches_discriminator(&self, discriminator: &[u8; 8]) -> (r: bool)
        ensures
            r == (self.data@.len() >= 8 && self.data@.subrange(0, 8) == discriminator@),
    {
        if self.data.len() < 8 {
            return false;
        }
        let mut i: usize = 0;
        while i < 8
            invariant
                self.data@.len() >= 8,
                i <= 8,
                forall|j: int| 0 <= j < i ==> self.data@[j] == discriminator@[j],
            decreases 8 - i,
        {
            if self.data[i] != discriminator[i] {
                assert(self.data@.subrange(0, 8)[i as int] != discriminator@[i as int]);
                return false;
            }
            i = i + 1;
        }
        proof {
            assert(self.data@.subrange(0, 8) =~= discriminator@);
        }
        true
    }
}

} // verus!
