//! Mathematical model of the transaction compiler: the account registry
//! that deduplicates keys and merges access flags, and the orderer that
//! imposes the deterministic total order of the wire format.
//!
//! The registry is a sequence of account entries with pairwise distinct
//! keys; the payer's entry sits at the head and is never moved. Ordering
//! pins the payer first and sorts the remaining entries by access class,
//! then by key bytes ascending.

use vstd::prelude::*;
use vstd::relations::total_ordering;
use vstd::seq_lib::group_to_multiset_ensures;
use vstd::seq_lib::lemma_multiset_commutative;
use vstd::seq_lib::lemma_sorted_unique;
use vstd::relations::sorted_by;

use crate::error::TxAsmError;
use crate::instruction::{
    metas_view, raw_ixs_view, AccountMeta, AccountMetaView, InstructionParts, RawInstruction,
    RawInstructionView,
};
use vstd::slice::SliceAdditionalExecFns;

verus! {

/// Lexicographic order on byte sequences.
pub open spec fn key_le(a: Seq<u8>, b: Seq<u8>) -> bool
    decreases a.len(),
{
    if a.len() == 0 {
        true
    } else if b.len() == 0 {
        false
    } else if a[0] < b[0] {
        true
    } else if a[0] > b[0] {
        false
    } else {
        key_le(a.drop_first(), b.drop_first())
    }
}

/// The four-way partition that orders accounts: writable signers first,
/// then readonly signers, writable non-signers, readonly non-signers.
pub open spec fn account_class(m: AccountMetaView) -> int {
    if m.is_signer && m.is_writable {
        0
    } else if m.is_signer {
        1
    } else if m.is_writable {
        2
    } else {
        3
    }
}

/// Account order: by class, then by key bytes ascending.
pub open spec fn entry_le(a: AccountMetaView, b: AccountMetaView) -> bool {
    ||| account_class(a) < account_class(b)
    ||| (account_class(a) == account_class(b) && key_le(a.pubkey, b.pubkey))
}

/// The account order as a first-class relation, for sorting.
pub open spec fn entry_le_fn() -> spec_fn(AccountMetaView, AccountMetaView) -> bool {
    |a: AccountMetaView, b: AccountMetaView| entry_le(a, b)
}

pub proof fn lemma_key_le_refl(a: Seq<u8>)
    ensures
        key_le(a, a),
    decreases a.len(),
{
    if a.len() > 0 {
        lemma_key_le_refl(a.drop_first());
    }
}

pub proof fn lemma_key_le_antisym(a: Seq<u8>, b: Seq<u8>)
    requires
        key_le(a, b),
        key_le(b, a),
    ensures
        a == b,
    decreases a.len(),
{
    if a.len() == 0 {
        assert(b.len() == 0);
        assert(a =~= b);
    } else {
        assert(b.len() > 0);
        assert(a[0] == b[0]);
        lemma_key_le_antisym(a.drop_first(), b.drop_first());
        assert(a.drop_first().len() == a.len() - 1);
        assert(b.drop_first().len() == b.len() - 1);
        assert(a.len() == b.len());
        assert forall|i: int| 0 <= i < a.len() implies a[i] == b[i] by {
            if i > 0 {
                assert(a.drop_first()[i - 1] == a[i]);
                assert(b.drop_first()[i - 1] == b[i]);
            }
        }
        assert(a =~= b);
    }
}

pub proof fn lemma_key_le_trans(a: Seq<u8>, b: Seq<u8>, c: Seq<u8>)
    requires
        key_le(a, b),
        key_le(b, c),
    ensures
        key_le(a, c),
    decreases a.len(),
{
    if a.len() == 0 || b.len() == 0 || c.len() == 0 {
    } else {
        if a[0] == b[0] && b[0] == c[0] {
            lemma_key_le_trans(a.drop_first(), b.drop_first(), c.drop_first());
        }
    }
}

pub proof fn lemma_key_le_connected(a: Seq<u8>, b: Seq<u8>)
    ensures
        key_le(a, b) || key_le(b, a),
    decreases a.len(),
{
    if a.len() == 0 || b.len() == 0 {
    } else {
        lemma_key_le_connected(a.drop_first(), b.drop_first());
    }
}

/// The account order is a total order, so sorting by it is well-defined
/// and its result is unique.
pub proof fn lemma_entry_le_total_ordering()
    ensures
        total_ordering(entry_le_fn()),
{
    let leq = entry_le_fn();
    assert forall|a: AccountMetaView| #[trigger] leq(a, a) by {
        lemma_key_le_refl(a.pubkey);
    }
    assert forall|a: AccountMetaView, b: AccountMetaView| #[trigger]
        leq(a, b) && #[trigger] leq(b, a) implies a == b by {
        lemma_key_le_antisym(a.pubkey, b.pubkey);
    }
    assert forall|a: AccountMetaView, b: AccountMetaView, c: AccountMetaView| #[trigger]
        leq(a, b) && #[trigger] leq(b, c) implies leq(a, c) by {
        if account_class(a) == account_class(b) && account_class(b) == account_class(c) {
            lemma_key_le_trans(a.pubkey, b.pubkey, c.pubkey);
        }
    }
    assert forall|a: AccountMetaView, b: AccountMetaView| !(#[trigger] leq(a, b)) implies leq(
        b,
        a,
    ) by {
        lemma_key_le_connected(a.pubkey, b.pubkey);
    }
}

/// Index of the first entry with this key, or -1 when absent.
pub open spec fn find_key(reg: Seq<AccountMetaView>, key: Seq<u8>) -> int
    decreases reg.len(),
{
    if reg.len() == 0 {
        -1
    } else if reg[0].pubkey == key {
        0
    } else {
        let r = find_key(reg.drop_first(), key);
        if r < 0 {
            -1
        } else {
            r + 1
        }
    }
}

/// What `find_key` returns: the first index holding the key, or -1 when no
/// entry holds it.
pub proof fn lemma_find_key_props(reg: Seq<AccountMetaView>, key: Seq<u8>)
    ensures
        -1 <= find_key(reg, key) < reg.len(),
        find_key(reg, key) >= 0 ==> reg[find_key(reg, key)].pubkey == key,
        find_key(reg, key) >= 0 ==> forall|j: int|
            0 <= j < find_key(reg, key) ==> (#[trigger] reg[j]).pubkey != key,
        find_key(reg, key) == -1 ==> forall|j: int|
            0 <= j < reg.len() ==> (#[trigger] reg[j]).pubkey != key,
    decreases reg.len(),
{
    if reg.len() == 0 {
    } else if reg[0].pubkey == key {
    } else {
        lemma_find_key_props(reg.drop_first(), key);
        assert forall|j: int| 1 <= j < reg.len() implies reg[j] == reg.drop_first()[j - 1] by {}
    }
}

/// A key is found exactly when some entry holds it.
pub proof fn lemma_find_key_exists(reg: Seq<AccountMetaView>, key: Seq<u8>)
    ensures
        (find_key(reg, key) >= 0) <==> (exists|j: int|
            0 <= j < reg.len() && (#[trigger] reg[j]).pubkey == key),
{
    lemma_find_key_props(reg, key);
    if find_key(reg, key) >= 0 {
        assert(reg[find_key(reg, key)].pubkey == key);
    }
}

/// An entry after its flags were merged with one more occurrence: monotonic
/// OR over both flags; the key is kept.
pub open spec fn merge_flags(e: AccountMetaView, m: AccountMetaView) -> AccountMetaView {
    AccountMetaView {
        pubkey: e.pubkey,
        is_signer: e.is_signer || m.is_signer,
        is_writable: e.is_writable || m.is_writable,
    }
}

/// Merge one account reference into the registry: OR the flags into the
/// existing entry, or append a new one.
pub open spec fn reg_merge_meta(reg: Seq<AccountMetaView>, m: AccountMetaView) -> Seq<
    AccountMetaView,
> {
    let i = find_key(reg, m.pubkey);
    if i < 0 {
        reg.push(m)
    } else {
        reg.update(i, merge_flags(reg[i], m))
    }
}

/// Ensure a program key is present; a program reference carries no flags of
/// its own and never overwrites an existing entry.
pub open spec fn reg_add_program(reg: Seq<AccountMetaView>, key: Seq<u8>) -> Seq<AccountMetaView> {
    if find_key(reg, key) >= 0 {
        reg
    } else {
        reg.push(AccountMetaView { pubkey: key, is_signer: false, is_writable: false })
    }
}

/// Merge a list of account references, in order.
pub open spec fn reg_merge_metas(reg: Seq<AccountMetaView>, ms: Seq<AccountMetaView>) -> Seq<
    AccountMetaView,
>
    decreases ms.len(),
{
    if ms.len() == 0 {
        reg
    } else {
        reg_merge_metas(reg_merge_meta(reg, ms[0]), ms.drop_first())
    }
}

/// Register one instruction: its program key, then its account references.
pub open spec fn reg_add_instruction(reg: Seq<AccountMetaView>, ix: RawInstructionView) -> Seq<
    AccountMetaView,
> {
    reg_merge_metas(reg_add_program(reg, ix.program_id), ix.accounts)
}

/// Register a list of instructions, in order.
pub open spec fn reg_add_instructions(
    reg: Seq<AccountMetaView>,
    ixs: Seq<RawInstructionView>,
) -> Seq<AccountMetaView>
    decreases ixs.len(),
{
    if ixs.len() == 0 {
        reg
    } else {
        reg_add_instructions(reg_add_instruction(reg, ixs[0]), ixs.drop_first())
    }
}

/// The payer's registry entry, always a writable signer.
pub open spec fn payer_entry(payer: Seq<u8>) -> AccountMetaView {
    AccountMetaView { pubkey: payer, is_signer: true, is_writable: true }
}

/// The full registry of a compilation: seeded with the payer, then every
/// instruction merged in order.
pub open spec fn spec_registry(payer: Seq<u8>, ixs: Seq<RawInstructionView>) -> Seq<
    AccountMetaView,
> {
    reg_add_instructions(seq![payer_entry(payer)], ixs)
}

/// One fold step on the reference list.
pub proof fn lemma_merge_metas_take_succ(
    reg: Seq<AccountMetaView>,
    ms: Seq<AccountMetaView>,
    j: int,
)
    requires
        0 <= j < ms.len(),
    ensures
        reg_merge_metas(reg, ms.take(j + 1)) == reg_merge_meta(
            reg_merge_metas(reg, ms.take(j)),
            ms[j],
        ),
    decreases j,
{
    if j == 0 {
        let t1 = ms.take(1);
        assert(t1.len() == 1);
        assert(t1[0] == ms[0]);
        assert(t1.drop_first().len() == 0);
        assert(reg_merge_metas(reg, t1) == reg_merge_metas(reg_merge_meta(reg, ms[0]), t1.drop_first()));
        assert(ms.take(0).len() == 0);
        assert(reg_merge_metas(reg, ms.take(0)) == reg);
    } else {
        let t1 = ms.take(j + 1);
        let t0 = ms.take(j);
        assert(t1[0] == ms[0]);
        assert(t0[0] == ms[0]);
        assert(t1.drop_first() =~= ms.drop_first().take(j));
        assert(t0.drop_first() =~= ms.drop_first().take(j - 1));
        lemma_merge_metas_take_succ(reg_merge_meta(reg, ms[0]), ms.drop_first(), j - 1);
        assert(ms.drop_first()[j - 1] == ms[j]);
    }
}

/// One fold step on the instruction list.
pub proof fn lemma_add_instructions_take_succ(
    reg: Seq<AccountMetaView>,
    ixs: Seq<RawInstructionView>,
    j: int,
)
    requires
        0 <= j < ixs.len(),
    ensures
        reg_add_instructions(reg, ixs.take(j + 1)) == reg_add_instruction(
            reg_add_instructions(reg, ixs.take(j)),
            ixs[j],
        ),
    decreases j,
{
    if j == 0 {
        let t1 = ixs.take(1);
        assert(t1.len() == 1);
        assert(t1[0] == ixs[0]);
        assert(t1.drop_first().len() == 0);
        assert(reg_add_instructions(reg, t1) == reg_add_instructions(
            reg_add_instruction(reg, ixs[0]),
            t1.drop_first(),
        ));
        assert(ixs.take(0).len() == 0);
        assert(reg_add_instructions(reg, ixs.take(0)) == reg);
    } else {
        let t1 = ixs.take(j + 1);
        let t0 = ixs.take(j);
        assert(t1[0] == ixs[0]);
        assert(t0[0] == ixs[0]);
        assert(t1.drop_first() =~= ixs.drop_first().take(j));
        assert(t0.drop_first() =~= ixs.drop_first().take(j - 1));
        lemma_add_instructions_take_succ(reg_add_instruction(reg, ixs[0]), ixs.drop_first(), j - 1);
        assert(ixs.drop_first()[j - 1] == ixs[j]);
    }
}

/// What a registry always satisfies while it grows from the payer seed: it
/// keeps the payer entry at the head as a writable signer, and its keys
/// stay pairwise distinct.
pub open spec fn reg_invariant(reg: Seq<AccountMetaView>, payer: Seq<u8>) -> bool {
    &&& reg.len() >= 1
    &&& reg[0].pubkey == payer
    &&& reg[0].is_signer
    &&& reg[0].is_writable
    &&& forall|i: int, j: int|
        0 <= i < j < reg.len() ==> (#[trigger] reg[i]).pubkey != (#[trigger] reg[j]).pubkey
}

/// Merging one reference preserves the registry invariant and keeps every
/// present key present; the merged key is present afterwards.
pub proof fn lemma_merge_meta_invariant(reg: Seq<AccountMetaView>, payer: Seq<u8>, m: AccountMetaView)
    requires
        reg_invariant(reg, payer),
    ensures
        reg_invariant(reg_merge_meta(reg, m), payer),
        find_key(reg_merge_meta(reg, m), m.pubkey) >= 0,
        forall|k: Seq<u8>|
            find_key(reg, k) >= 0 ==> #[trigger] find_key(reg_merge_meta(reg, m), k) >= 0,
{
    let out = reg_merge_meta(reg, m);
    lemma_find_key_props(reg, m.pubkey);
    let i = find_key(reg, m.pubkey);
    if i < 0 {
        assert forall|k: Seq<u8>| find_key(reg, k) >= 0 implies #[trigger] find_key(out, k)
            >= 0 by {
            lemma_find_key_props(reg, k);
            let j = find_key(reg, k);
            assert(out[j].pubkey == k);
            lemma_find_key_exists(out, k);
        }
        lemma_find_key_exists(out, m.pubkey);
        assert(out[reg.len() as int].pubkey == m.pubkey);
    } else {
        assert(out[i].pubkey == m.pubkey);
        lemma_find_key_exists(out, m.pubkey);
        assert forall|k: Seq<u8>| find_key(reg, k) >= 0 implies #[trigger] find_key(out, k)
            >= 0 by {
            lemma_find_key_props(reg, k);
            let j = find_key(reg, k);
            assert(out[j].pubkey == k);
            lemma_find_key_exists(out, k);
        }
        if i == 0 {
            assert(out[0].pubkey == payer);
        }
    }
}

/// Adding a program key preserves the registry invariant and keeps every
/// present key present; the program key is present afterwards.
pub proof fn lemma_add_program_invariant(reg: Seq<AccountMetaView>, payer: Seq<u8>, key: Seq<u8>)
    requires
        reg_invariant(reg, payer),
    ensures
        reg_invariant(reg_add_program(reg, key), payer),
        find_key(reg_add_program(reg, key), key) >= 0,
        forall|k: Seq<u8>|
            find_key(reg, k) >= 0 ==> #[trigger] find_key(reg_add_program(reg, key), k) >= 0,
{
    let out = reg_add_program(reg, key);
    lemma_find_key_props(reg, key);
    if find_key(reg, key) >= 0 {
    } else {
        assert(out[reg.len() as int].pubkey == key);
        lemma_find_key_exists(out, key);
        assert forall|k: Seq<u8>| find_key(reg, k) >= 0 implies #[trigger] find_key(out, k)
            >= 0 by {
            lemma_find_key_props(reg, k);
            let j = find_key(reg, k);
            assert(out[j].pubkey == k);
            lemma_find_key_exists(out, k);
        }
    }
}

/// Merging a reference list preserves the registry invariant and keeps
/// every present key present; every merged key is present afterwards.
pub proof fn lemma_merge_metas_invariant(
    reg: Seq<AccountMetaView>,
    payer: Seq<u8>,
    ms: Seq<AccountMetaView>,
)
    requires
        reg_invariant(reg, payer),
    ensures
        reg_invariant(reg_merge_metas(reg, ms), payer),
        forall|k: Seq<u8>|
            find_key(reg, k) >= 0 ==> #[trigger] find_key(reg_merge_metas(reg, ms), k) >= 0,
        forall|j: int|
            0 <= j < ms.len() ==> find_key(reg_merge_metas(reg, ms), (#[trigger] ms[j]).pubkey)
                >= 0,
    decreases ms.len(),
{
    if ms.len() == 0 {
    } else {
        let reg1 = reg_merge_meta(reg, ms[0]);
        lemma_merge_meta_invariant(reg, payer, ms[0]);
        lemma_merge_metas_invariant(reg1, payer, ms.drop_first());
        assert forall|j: int| 0 <= j < ms.len() implies find_key(
            reg_merge_metas(reg, ms),
            (#[trigger] ms[j]).pubkey,
        ) >= 0 by {
            if j == 0 {
                assert(find_key(reg1, ms[0].pubkey) >= 0);
            } else {
                assert(ms.drop_first()[j - 1] == ms[j]);
            }
        }
    }
}

/// Registering one instruction preserves the registry invariant and keeps
/// every present key present; the instruction's keys are present
/// afterwards.
pub proof fn lemma_add_instruction_invariant(
    reg: Seq<AccountMetaView>,
    payer: Seq<u8>,
    ix: RawInstructionView,
)
    requires
        reg_invariant(reg, payer),
    ensures
        reg_invariant(reg_add_instruction(reg, ix), payer),
        forall|k: Seq<u8>|
            find_key(reg, k) >= 0 ==> #[trigger] find_key(reg_add_instruction(reg, ix), k) >= 0,
        find_key(reg_add_instruction(reg, ix), ix.program_id) >= 0,
        forall|j: int|
            0 <= j < ix.accounts.len() ==> find_key(
                reg_add_instruction(reg, ix),
                (#[trigger] ix.accounts[j]).pubkey,
            ) >= 0,
{
    let reg1 = reg_add_program(reg, ix.program_id);
    lemma_add_program_invariant(reg, payer, ix.program_id);
    lemma_merge_metas_invariant(reg1, payer, ix.accounts);
}

/// Registering an instruction list preserves the registry invariant and
/// keeps every present key present; every registered key is present
/// afterwards.
pub proof fn lemma_add_instructions_invariant(
    reg: Seq<AccountMetaView>,
    payer: Seq<u8>,
    ixs: Seq<RawInstructionView>,
)
    requires
        reg_invariant(reg, payer),
    ensures
        reg_invariant(reg_add_instructions(reg, ixs), payer),
        forall|k: Seq<u8>|
            find_key(reg, k) >= 0 ==> #[trigger] find_key(reg_add_instructions(reg, ixs), k) >= 0,
        forall|i: int|
            0 <= i < ixs.len() ==> find_key(
                reg_add_instructions(reg, ixs),
                (#[trigger] ixs[i]).program_id,
            ) >= 0,
        forall|i: int, j: int|
            0 <= i < ixs.len() && 0 <= j < ixs[i].accounts.len() ==> find_key(
                reg_add_instructions(reg, ixs),
                (#[trigger] ixs[i].accounts[j]).pubkey,
            ) >= 0,
    decreases ixs.len(),
{
    if ixs.len() == 0 {
    } else {
        let reg1 = reg_add_instruction(reg, ixs[0]);
        lemma_add_instruction_invariant(reg, payer, ixs[0]);
        lemma_add_instructions_invariant(reg1, payer, ixs.drop_first());
        assert forall|i: int| 0 <= i < ixs.len() implies find_key(
            reg_add_instructions(reg, ixs),
            (#[trigger] ixs[i]).program_id,
        ) >= 0 by {
            if i > 0 {
                assert(ixs.drop_first()[i - 1] == ixs[i]);
            }
        }
        assert forall|i: int, j: int|
            0 <= i < ixs.len() && 0 <= j < ixs[i].accounts.len() implies find_key(
            reg_add_instructions(reg, ixs),
            (#[trigger] ixs[i].accounts[j]).pubkey,
        ) >= 0 by {
            if i > 0 {
                assert(ixs.drop_first()[i - 1] == ixs[i]);
            }
        }
    }
}

/// Payer invariant: the registry of any compilation keeps the payer at the
/// head, merged as signer and writable, whatever else references that key,
/// and its keys are pairwise distinct.
pub proof fn lemma_registry_invariant(payer: Seq<u8>, ixs: Seq<RawInstructionView>)
    ensures
        reg_invariant(spec_registry(payer, ixs), payer),
        forall|i: int|
            0 <= i < ixs.len() ==> find_key(
                spec_registry(payer, ixs),
                (#[trigger] ixs[i]).program_id,
            ) >= 0,
        forall|i: int, j: int|
            0 <= i < ixs.len() && 0 <= j < ixs[i].accounts.len() ==> find_key(
                spec_registry(payer, ixs),
                (#[trigger] ixs[i].accounts[j]).pubkey,
            ) >= 0,
{
    let seed = seq![payer_entry(payer)];
    assert(reg_invariant(seed, payer));
    lemma_add_instructions_invariant(seed, payer, ixs);
}

/// The ordered account sequence: the payer entry first, the rest sorted by
/// class and key.
pub open spec fn spec_ordered_accounts(payer: Seq<u8>, ixs: Seq<RawInstructionView>) -> Seq<
    AccountMetaView,
> {
    let reg = spec_registry(payer, ixs);
    seq![reg[0]] + reg.drop_first().sort_by(entry_le_fn())
}

/// The ordered sequence holds exactly the registry's entries.
pub proof fn lemma_ordered_accounts_multiset(payer: Seq<u8>, ixs: Seq<RawInstructionView>)
    ensures
        spec_ordered_accounts(payer, ixs).to_multiset() == spec_registry(payer, ixs).to_multiset(),
        spec_ordered_accounts(payer, ixs).len() == spec_registry(payer, ixs).len(),
{
    broadcast use group_to_multiset_ensures;

    let reg = spec_registry(payer, ixs);
    lemma_registry_invariant(payer, ixs);
    let rest = reg.drop_first();
    lemma_entry_le_total_ordering();
    rest.lemma_sort_by_ensures(entry_le_fn());
    let ordered = spec_ordered_accounts(payer, ixs);
    lemma_multiset_commutative(seq![reg[0]], rest.sort_by(entry_le_fn()));
    lemma_multiset_commutative(seq![reg[0]], rest);
    assert(seq![reg[0]] + rest =~= reg);
    assert(ordered.to_multiset() =~= reg.to_multiset());
    assert(rest.to_multiset().len() == rest.len());
    let srt = rest.sort_by(entry_le_fn());
    assert(srt.to_multiset().len() == srt.len());
    assert(srt.len() == rest.len());
}

/// Is this account a required signer?
pub open spec fn signer_pred() -> spec_fn(AccountMetaView) -> bool {
    |m: AccountMetaView| m.is_signer
}

/// Is this account a readonly signer?
pub open spec fn ro_signed_pred() -> spec_fn(AccountMetaView) -> bool {
    |m: AccountMetaView| m.is_signer && !m.is_writable
}

/// Is this account readonly and unsigned?
pub open spec fn ro_unsigned_pred() -> spec_fn(AccountMetaView) -> bool {
    |m: AccountMetaView| !m.is_signer && !m.is_writable
}

/// Does this account fall in the given class?
pub open spec fn class_pred(c: int) -> spec_fn(AccountMetaView) -> bool {
    |m: AccountMetaView| account_class(m) == c
}

/// The header derived from the ordered account sequence: required
/// signatures, readonly signed, readonly unsigned.
pub open spec fn spec_header_of(ordered: Seq<AccountMetaView>) -> crate::transaction::MessageHeader {
    crate::transaction::MessageHeader {
        num_required_signatures: ordered.filter(signer_pred()).len() as u8,
        num_readonly_signed_accounts: ordered.filter(ro_signed_pred()).len() as u8,
        num_readonly_unsigned_accounts: ordered.filter(ro_unsigned_pred()).len() as u8,
    }
}

/// The keys of the ordered account sequence, in order.
pub open spec fn keys_of(ordered: Seq<AccountMetaView>) -> Seq<Seq<u8>> {
    ordered.map_values(|m: AccountMetaView| m.pubkey)
}

/// One instruction with its program reference and account references
/// resolved to indices; the payload is copied verbatim.
pub open spec fn spec_compile_ix(
    ordered: Seq<AccountMetaView>,
    ix: RawInstructionView,
) -> InstructionParts {
    InstructionParts {
        program_id_index: find_key(ordered, ix.program_id) as u8,
        account_indices: ix.accounts.map_values(
            |m: AccountMetaView| find_key(ordered, m.pubkey) as u8,
        ),
        data: ix.data,
    }
}

/// Every instruction resolved against the ordered account sequence.
pub open spec fn spec_compile_ixs(
    ordered: Seq<AccountMetaView>,
    ixs: Seq<RawInstructionView>,
) -> Seq<InstructionParts> {
    ixs.map_values(|ix: RawInstructionView| spec_compile_ix(ordered, ix))
}

/// The whole compilation: reject a builder without payer, recency token or
/// instructions; reject more than 255 distinct accounts; otherwise produce
/// the message with derived header, ordered keys and resolved instructions.
pub open spec fn spec_compile(
    payer: Option<Seq<u8>>,
    recent_blockhash: Option<Seq<u8>>,
    ixs: Seq<RawInstructionView>,
) -> Result<crate::transaction::CompiledMessageView, TxAsmError> {
    if payer is None || recent_blockhash is None || ixs.len() == 0 {
        Err(TxAsmError::InvalidTransaction)
    } else {
        let ordered = spec_ordered_accounts(payer->0, ixs);
        if ordered.len() > 255 {
            Err(TxAsmError::TooManyAccounts)
        } else {
            Ok(
                crate::transaction::CompiledMessageView {
                    header: spec_header_of(ordered),
                    account_keys: keys_of(ordered),
                    recent_blockhash: recent_blockhash->0,
                    instructions: spec_compile_ixs(ordered, ixs),
                },
            )
        }
    }
}

/// Header consistency: over any account sequence, the signer count is the
/// count of classes 0 and 1 together, the readonly-signed count is the
/// count of class 1, and the readonly-unsigned count is the count of class
/// 3.
pub proof fn lemma_header_consistency(s: Seq<AccountMetaView>)
    ensures
        s.filter(signer_pred()).len() == s.filter(class_pred(0)).len() + s.filter(
            class_pred(1),
        ).len(),
        s.filter(ro_signed_pred()).len() == s.filter(class_pred(1)).len(),
        s.filter(ro_unsigned_pred()).len() == s.filter(class_pred(3)).len(),
    decreases s.len(),
{
    broadcast use Seq::lemma_filter_len_push;

    if s.len() == 0 {
        reveal(Seq::filter);
    } else {
        let pre = s.drop_last();
        lemma_header_consistency(pre);
        assert(s =~= pre.push(s.last()));
    }
}

/// Determinism: the ordered account sequence depends only on the merged
/// registry contents, not on the order in which references were merged. Two
/// instruction lists whose registries hold the same entries compile to the
/// same account order and the same keys.
pub proof fn lemma_ordering_deterministic(
    payer: Seq<u8>,
    ixs1: Seq<RawInstructionView>,
    ixs2: Seq<RawInstructionView>,
)
    requires
        spec_registry(payer, ixs1).drop_first().to_multiset() == spec_registry(
            payer,
            ixs2,
        ).drop_first().to_multiset(),
    ensures
        spec_ordered_accounts(payer, ixs1) == spec_ordered_accounts(payer, ixs2),
        keys_of(spec_ordered_accounts(payer, ixs1)) == keys_of(spec_ordered_accounts(payer, ixs2)),
{
    let reg1 = spec_registry(payer, ixs1);
    let reg2 = spec_registry(payer, ixs2);
    lemma_registry_invariant(payer, ixs1);
    lemma_registry_invariant(payer, ixs2);
    assert(reg1[0] == payer_entry(payer));
    assert(reg2[0] == payer_entry(payer));
    lemma_entry_le_total_ordering();
    let rest1 = reg1.drop_first();
    let rest2 = reg2.drop_first();
    rest1.lemma_sort_by_ensures(entry_le_fn());
    rest2.lemma_sort_by_ensures(entry_le_fn());
    lemma_sorted_unique(rest1.sort_by(entry_le_fn()), rest2.sort_by(entry_le_fn()), entry_le_fn());
    assert(spec_ordered_accounts(payer, ixs1) =~= spec_ordered_accounts(payer, ixs2));
}

/// Payer invariant, at the output: the ordered sequence always starts with
/// the payer, merged as signer and writable.
pub proof fn lemma_payer_first(payer: Seq<u8>, ixs: Seq<RawInstructionView>)
    ensures
        spec_ordered_accounts(payer, ixs).len() >= 1,
        spec_ordered_accounts(payer, ixs)[0] == payer_entry(payer),
        keys_of(spec_ordered_accounts(payer, ixs))[0] == payer,
{
    lemma_registry_invariant(payer, ixs);
    let reg = spec_registry(payer, ixs);
    assert(reg[0] == payer_entry(payer));
    assert(spec_ordered_accounts(payer, ixs)[0] == reg[0]);
}

/// Header consistency at the output: for any compilation that fits the
/// index space, the required-signature count is the count of classes 0 and
/// 1, the readonly-signed count the count of class 1, and the
/// readonly-unsigned count the count of class 3 over the ordered accounts.
pub proof fn lemma_compiled_header_consistency(payer: Seq<u8>, ixs: Seq<RawInstructionView>)
    requires
        spec_ordered_accounts(payer, ixs).len() <= 255,
    ensures
        ({
            let ordered = spec_ordered_accounts(payer, ixs);
            let h = spec_header_of(ordered);
            &&& h.num_required_signatures as int == ordered.filter(class_pred(0)).len()
                + ordered.filter(class_pred(1)).len()
            &&& h.num_readonly_signed_accounts as int == ordered.filter(class_pred(1)).len()
            &&& h.num_readonly_unsigned_accounts as int == ordered.filter(class_pred(3)).len()
        }),
{
    let ordered = spec_ordered_accounts(payer, ixs);
    lemma_header_consistency(ordered);
    ordered.lemma_filter_len(signer_pred());
    ordered.lemma_filter_len(ro_signed_pred());
    ordered.lemma_filter_len(ro_unsigned_pred());
}

/// Keys present in the registry are present in the ordered sequence.
pub proof fn lemma_ordered_contains_key(payer: Seq<u8>, ixs: Seq<RawInstructionView>, k: Seq<u8>)
    requires
        find_key(spec_registry(payer, ixs), k) >= 0,
    ensures
        0 <= find_key(spec_ordered_accounts(payer, ixs), k) < spec_ordered_accounts(
            payer,
            ixs,
        ).len(),
{
    broadcast use group_to_multiset_ensures;

    let reg = spec_registry(payer, ixs);
    let ordered = spec_ordered_accounts(payer, ixs);
    lemma_ordered_accounts_multiset(payer, ixs);
    lemma_find_key_props(reg, k);
    let i = find_key(reg, k);
    assert(reg.to_multiset().contains(reg[i]));
    assert(ordered.to_multiset().contains(reg[i]));
    let j = choose|j: int| 0 <= j < ordered.len() && ordered[j] == reg[i];
    lemma_find_key_exists(ordered, k);
    lemma_find_key_props(ordered, k);
}

/// Whether two 32-byte keys hold the same bytes.
pub fn key_eq(a: &[u8; 32], b: &[u8; 32]) -> (r: bool)
    ensures
        r == (a@ == b@),
{
    let mut i: usize = 0;
    while i < 32
        invariant
            i <= 32,
            forall|j: int| 0 <= j < i ==> a@[j] == b@[j],
        decreases 32 - i,
    {
        if a[i] != b[i] {
            assert(a@[i as int] != b@[i as int]);
            return false;
        }
        i = i + 1;
    }
    proof {
        assert(a@ =~= b@);
    }
    true
}

/// The lexicographic order on two sequences is decided by their first
/// difference; equal prefixes do not matter.
proof fn lemma_key_le_common_prefix(a: Seq<u8>, b: Seq<u8>, i: int)
    requires
        0 <= i <= a.len(),
        0 <= i <= b.len(),
        forall|j: int| 0 <= j < i ==> a[j] == b[j],
    ensures
        key_le(a, b) == key_le(a.skip(i), b.skip(i)),
    decreases i,
{
    if i > 0 {
        assert(a.len() > 0 && b.len() > 0);
        assert(a[0] == b[0]);
        lemma_key_le_common_prefix(a.drop_first(), b.drop_first(), i - 1);
        assert(a.drop_first().skip(i - 1) =~= a.skip(i));
        assert(b.drop_first().skip(i - 1) =~= b.skip(i));
    } else {
        assert(a.skip(0) =~= a);
        assert(b.skip(0) =~= b);
    }
}

/// Whether `a` precedes or equals `b` in key byte order.
pub fn key_le_exec(a: &[u8; 32], b: &[u8; 32]) -> (r: bool)
    ensures
        r == key_le(a@, b@),
{
    let mut i: usize = 0;
    while i < 32
        invariant
            i <= 32,
            forall|j: int| 0 <= j < i ==> a@[j] == b@[j],
        decreases 32 - i,
    {
        if a[i] < b[i] {
            proof {
                lemma_key_le_common_prefix(a@, b@, i as int);
                assert(a@.skip(i as int)[0] == a@[i as int]);
                assert(b@.skip(i as int)[0] == b@[i as int]);
            }
            return true;
        }
        if a[i] > b[i] {
            proof {
                lemma_key_le_common_prefix(a@, b@, i as int);
                assert(a@.skip(i as int)[0] == a@[i as int]);
                assert(b@.skip(i as int)[0] == b@[i as int]);
            }
            return false;
        }
        i = i + 1;
    }
    proof {
        lemma_key_le_common_prefix(a@, b@, 32);
        assert(a@.skip(32).len() == 0);
    }
    true
}

/// Whether `a` precedes or equals `b` in the account order.
pub fn entry_le_exec(a: &AccountMeta, b: &AccountMeta) -> (r: bool)
    ensures
        r == entry_le(a@, b@),
{
    let class_a: u8 = if a.is_signer && a.is_writable {
        0
    } else if a.is_signer {
        1
    } else if a.is_writable {
        2
    } else {
        3
    };
    let class_b: u8 = if b.is_signer && b.is_writable {
        0
    } else if b.is_signer {
        1
    } else if b.is_writable {
        2
    } else {
        3
    };
    if class_a < class_b {
        true
    } else if class_a > class_b {
        false
    } else {
        key_le_exec(&a.pubkey, &b.pubkey)
    }
}

/// Position of the first entry holding this key, if any.
pub fn find_entry(reg: &Vec<AccountMeta>, key: &[u8; 32]) -> (r: Option<usize>)
    ensures
        match r {
            Some(i) => i < reg@.len() && find_key(metas_view(reg@), key@) == i,
            None => find_key(metas_view(reg@), key@) == -1,
        },
{
    let mut i: usize = 0;
    while i < reg.len()
        invariant
            i <= reg@.len(),
            forall|j: int| 0 <= j < i ==> (#[trigger] metas_view(reg@)[j]).pubkey != key@,
        decreases reg@.len() - i,
    {
        if key_eq(&reg[i].pubkey, key) {
            proof {
                lemma_find_key_props(metas_view(reg@), key@);
                lemma_find_key_exists(metas_view(reg@), key@);
                assert(metas_view(reg@)[i as int].pubkey == key@);
            }
            return Some(i);
        }
        i = i + 1;
    }
    proof {
        lemma_find_key_exists(metas_view(reg@), key@);
    }
    None
}

/// Overwrite one element of an entry vector.
fn entries_set(v: &mut Vec<AccountMeta>, i: usize, m: AccountMeta)
    requires
        i < old(v)@.len(),
    ensures
        final(v)@ == old(v)@.update(i as int, m),
{
    #[allow(deprecated)]
    let s = v.as_mut_slice();
    s.set(i, m);
}

/// Build the account registry: seed it with the payer as writable signer,
/// ensure each instruction's program key is present, and merge every
/// account reference's flags.
pub fn build_registry(payer: &[u8; 32], ixs: &Vec<RawInstruction>) -> (r: Vec<AccountMeta>)
    ensures
        metas_view(r@) == spec_registry(payer@, raw_ixs_view(ixs@)),
{
    let mut reg: Vec<AccountMeta> = Vec::new();
    reg.push(AccountMeta { pubkey: *payer, is_signer: true, is_writable: true });
    proof {
        assert(metas_view(reg@) =~= seq![payer_entry(payer@)]);
    }
    let ghost seed = seq![payer_entry(payer@)];
    let ghost ixsv = raw_ixs_view(ixs@);
    let mut i: usize = 0;
    while i < ixs.len()
        invariant
            i <= ixs@.len(),
            ixsv == raw_ixs_view(ixs@),
            metas_view(reg@) == reg_add_instructions(seed, ixsv.take(i as int)),
        decreases ixs@.len() - i,
    {
        let ghost reg0 = metas_view(reg@);
        let ghost ixv = ixsv[i as int];
        proof {
            assert(ixv == ixs@[i as int]@);
        }
        match find_entry(&reg, &ixs[i].program_id) {
            Some(_) => {
                proof {
                    assert(metas_view(reg@) =~= reg_add_program(reg0, ixv.program_id));
                }
            },
            None => {
                let ghost before = reg@;
                reg.push(AccountMeta { pubkey: ixs[i].program_id, is_signer: false, is_writable: false });
                proof {
                    assert(metas_view(reg@) =~= reg_add_program(reg0, ixv.program_id));
                }
            },
        }
        let ghost prog_reg = metas_view(reg@);
        let mut j: usize = 0;
        while j < ixs[i].accounts.len()
            invariant
                i < ixs@.len(),
                ixsv == raw_ixs_view(ixs@),
                ixv == ixsv[i as int],
                j <= ixs@[i as int].accounts@.len(),
                ixv.accounts == metas_view(ixs@[i as int].accounts@),
                metas_view(reg@) == reg_merge_metas(prog_reg, ixv.accounts.take(j as int)),
            decreases ixs@[i as int].accounts@.len() - j,
        {
            let m = ixs[i].accounts[j];
            let ghost cur = metas_view(reg@);
            proof {
                assert(m@ == ixv.accounts[j as int]);
            }
            match find_entry(&reg, &m.pubkey) {
                Some(k) => {
                    let mut e = reg[k];
                    proof {
                        assert(e@ == cur[k as int]);
                    }
                    e = AccountMeta {
                        pubkey: e.pubkey,
                        is_signer: e.is_signer || m.is_signer,
                        is_writable: e.is_writable || m.is_writable,
                    };
                    entries_set(&mut reg, k, e);
                    proof {
                        assert(e@ == merge_flags(cur[k as int], m@));
                        assert(metas_view(reg@) =~= cur.update(k as int, merge_flags(
                            cur[k as int],
                            m@,
                        )));
                        assert(metas_view(reg@) =~= reg_merge_meta(cur, m@));
                    }
                },
                None => {
                    reg.push(m);
                    proof {
                        assert(metas_view(reg@) =~= cur.push(m@));
                        assert(metas_view(reg@) =~= reg_merge_meta(cur, m@));
                    }
                },
            }
            proof {
                lemma_merge_metas_take_succ(prog_reg, ixv.accounts, j as int);
            }
            j = j + 1;
        }
        proof {
            assert(ixv.accounts.take(ixv.accounts.len() as int) =~= ixv.accounts);
            assert(metas_view(reg@) == reg_add_instruction(reg0, ixv));
            lemma_add_instructions_take_succ(seed, ixsv, i as int);
        }
        i = i + 1;
    }
    proof {
        assert(ixsv.take(ixsv.len() as int) =~= ixsv);
    }
    reg
}

/// Inserting an element at its position keeps a sequence sorted.
proof fn lemma_sorted_insert(x: Seq<AccountMetaView>, p: int, a: AccountMetaView)
    requires
        sorted_by(x, entry_le_fn()),
        0 <= p <= x.len(),
        forall|k: int| 0 <= k < p ==> entry_le(#[trigger] x[k], a),
        forall|k: int| p <= k < x.len() ==> entry_le(a, #[trigger] x[k]),
    ensures
        sorted_by(x.insert(p, a), entry_le_fn()),
{
    let y = x.insert(p, a);
    assert(y.len() == x.len() + 1);
    assert forall|i: int| 0 <= i < y.len() implies (if i < p {
        y[i] == x[i]
    } else if i == p {
        y[i] == a
    } else {
        y[i] == x[i - 1]
    }) by {}
    let leq = entry_le_fn();
    assert forall|i: int, j: int| 0 <= i < j < y.len() implies #[trigger] leq(y[i], y[j]) by {
        if i < p && j < p {
            assert(leq(x[i], x[j]));
            assert(leq(x[i], x[j]) == entry_le(x[i], x[j]));
        } else if i < p && j == p {
            assert(entry_le(x[i], a));
            assert(leq(x[i], a) == entry_le(x[i], a));
        } else if i < p && j > p {
            assert(leq(x[i], x[j - 1]));
        } else if i == p {
            assert(entry_le(a, x[j - 1]));
            assert(leq(a, x[j - 1]) == entry_le(a, x[j - 1]));
        } else {
            assert(leq(x[i - 1], x[j - 1]));
        }
    }
    assert(sorted_by(y, entry_le_fn()));
}

/// Sort every entry but the head by class and key, keeping the head — the
/// payer — first.
pub fn sort_entries(reg: Vec<AccountMeta>) -> (r: Vec<AccountMeta>)
    requires
        reg@.len() >= 1,
    ensures
        metas_view(r@) == seq![metas_view(reg@)[0]] + metas_view(reg@).drop_first().sort_by(
            entry_le_fn(),
        ),
        r@.len() == reg@.len(),
{
    broadcast use group_to_multiset_ensures;

    let mut sorted: Vec<AccountMeta> = Vec::new();
    sorted.push(reg[0]);
    proof {
        assert(metas_view(sorted@).drop_first() =~= Seq::<AccountMetaView>::empty());
        assert(metas_view(reg@).subrange(1, 1) =~= Seq::<AccountMetaView>::empty());
        assert(metas_view(sorted@).drop_first().to_multiset() =~= metas_view(reg@).subrange(
            1,
            1,
        ).to_multiset());
    }
    let mut i: usize = 1;
    while i < reg.len()
        invariant
            1 <= i <= reg@.len(),
            sorted@.len() == i,
            metas_view(sorted@)[0] == metas_view(reg@)[0],
            sorted_by(metas_view(sorted@).drop_first(), entry_le_fn()),
            metas_view(sorted@).drop_first().to_multiset() == metas_view(reg@).subrange(
                1,
                i as int,
            ).to_multiset(),
        decreases reg@.len() - i,
    {
        let e = reg[i];
        let mut j: usize = 1;
        while j < sorted.len() && entry_le_exec(&sorted[j], &e)
            invariant
                1 <= j <= sorted@.len(),
                forall|k: int| 1 <= k < j ==> entry_le(#[trigger] metas_view(sorted@)[k], e@),
            decreases sorted@.len() - j,
        {
            j = j + 1;
        }
        proof {
            lemma_entry_le_total_ordering();
            let leq = entry_le_fn();
            let sv = metas_view(sorted@).drop_first();
            assert forall|k: int| j - 1 <= k < sv.len() implies entry_le(e@, #[trigger] sv[k]) by {
                assert(sv[j - 1 as int] == metas_view(sorted@)[j as int]);
                assert(!entry_le(metas_view(sorted@)[j as int], e@));
                assert(leq(metas_view(sorted@)[j as int], e@) == entry_le(
                    metas_view(sorted@)[j as int],
                    e@,
                ));
                assert(leq(e@, sv[j - 1 as int]) || leq(sv[j - 1 as int], e@));
                assert(leq(e@, sv[j - 1 as int]) == entry_le(e@, sv[j - 1 as int]));
                if k > j - 1 {
                    assert(leq(sv[j - 1], sv[k]));
                    assert(leq(e@, sv[k]) == entry_le(e@, sv[k]));
                    assert(vstd::relations::transitive(leq));
                }
            }
            assert forall|k: int| 0 <= k < j - 1 implies entry_le(#[trigger] sv[k], e@) by {
                assert(sv[k] == metas_view(sorted@)[k + 1]);
            }
            lemma_sorted_insert(sv, j - 1, e@);
        }
        let ghost old_sorted = sorted@;
        sorted.insert(j, e);
        proof {
            assert(metas_view(sorted@) =~= metas_view(old_sorted).insert(j as int, e@));
            assert(metas_view(sorted@).drop_first() =~= metas_view(old_sorted).drop_first().insert(
                j - 1 as int,
                e@,
            ));
            assert(metas_view(reg@).subrange(1, i + 1) =~= metas_view(reg@).subrange(
                1,
                i as int,
            ).push(metas_view(reg@)[i as int]));
            assert(e@ == metas_view(reg@)[i as int]);
            vstd::seq_lib::to_multiset_insert(
                metas_view(old_sorted).drop_first(),
                j - 1 as int,
                e@,
            );
            vstd::seq_lib::to_multiset_build(
                metas_view(reg@).subrange(1, i as int),
                metas_view(reg@)[i as int],
            );
        }
        i = i + 1;
    }
    proof {
        lemma_entry_le_total_ordering();
        let restv = metas_view(reg@).drop_first();
        assert(metas_view(reg@).subrange(1, reg@.len() as int) =~= restv);
        restv.lemma_sort_by_ensures(entry_le_fn());
        lemma_sorted_unique(
            metas_view(sorted@).drop_first(),
            restv.sort_by(entry_le_fn()),
            entry_le_fn(),
        );
        assert(metas_view(sorted@) =~= seq![metas_view(reg@)[0]] + restv.sort_by(entry_le_fn()));
    }
    sorted
}

/// Count the required signers, readonly signers, and readonly unsigned
/// accounts of an ordered account sequence.
pub fn count_header(sorted: &Vec<AccountMeta>) -> (r: (u8, u8, u8))
    requires
        sorted@.len() <= 255,
    ensures
        r.0 as int == metas_view(sorted@).filter(signer_pred()).len(),
        r.1 as int == metas_view(sorted@).filter(ro_signed_pred()).len(),
        r.2 as int == metas_view(sorted@).filter(ro_unsigned_pred()).len(),
{
    broadcast use Seq::lemma_filter_len_push;
    broadcast use Seq::lemma_filter_len;

    let sv = Ghost(metas_view(sorted@));
    proof {
        reveal(Seq::filter);
        assert(sv@.take(0).len() == 0);
        assert(sv@.take(0).filter(signer_pred()).len() == 0);
        assert(sv@.take(0).filter(ro_signed_pred()).len() == 0);
        assert(sv@.take(0).filter(ro_unsigned_pred()).len() == 0);
    }
    let mut signers: u8 = 0;
    let mut ro_signed: u8 = 0;
    let mut ro_unsigned: u8 = 0;
    let mut i: usize = 0;
    while i < sorted.len()
        invariant
            sv@ == metas_view(sorted@),
            sorted@.len() <= 255,
            i <= sorted@.len(),
            signers as int == sv@.take(i as int).filter(signer_pred()).len(),
            ro_signed as int == sv@.take(i as int).filter(ro_signed_pred()).len(),
            ro_unsigned as int == sv@.take(i as int).filter(ro_unsigned_pred()).len(),
        decreases sorted@.len() - i,
    {
        proof {
            assert(sv@.take(i + 1) =~= sv@.take(i as int).push(sv@[i as int]));
            sv@.take(i as int).lemma_filter_len_push(signer_pred(), sv@[i as int]);
            sv@.take(i as int).lemma_filter_len_push(ro_signed_pred(), sv@[i as int]);
            sv@.take(i as int).lemma_filter_len_push(ro_unsigned_pred(), sv@[i as int]);
            sv@.take(i + 1).lemma_filter_len(signer_pred());
            sv@.take(i + 1).lemma_filter_len(ro_signed_pred());
            sv@.take(i + 1).lemma_filter_len(ro_unsigned_pred());
            assert(sv@.take(i + 1).filter(signer_pred()).len() <= sv@.take(i + 1).len());
            assert(sv@.take(i + 1).filter(ro_signed_pred()).len() <= sv@.take(i + 1).len());
            assert(sv@.take(i + 1).filter(ro_unsigned_pred()).len() <= sv@.take(i + 1).len());
        }
        proof {
            assert(sv@[i as int] == sorted@[i as int]@);
            assert(signer_pred()(sv@[i as int]) == sv@[i as int].is_signer);
            assert(ro_signed_pred()(sv@[i as int]) == (sv@[i as int].is_signer && !sv@[
            i as int].is_writable));
            assert(ro_unsigned_pred()(sv@[i as int]) == (!sv@[i as int].is_signer && !sv@[
            i as int].is_writable));
        }
        let m = sorted[i];
        if m.is_signer {
            signers = signers + 1;
        }
        if m.is_signer && !m.is_writable {
            ro_signed = ro_signed + 1;
        }
        if !m.is_signer && !m.is_writable {
            ro_unsigned = ro_unsigned + 1;
        }
        i = i + 1;
    }
    proof {
        assert(sv@.take(sv@.len() as int) =~= sv@);
    }
    (signers, ro_signed, ro_unsigned)
}

} // verus!
