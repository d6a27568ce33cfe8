//! The inline program entrypoint.
//!
//! This entrypoint lets a program read the instruction data first and decide
//! from it how many accounts it wants.

use crate::account::{
    AccountList, AccountView, Address, InputRegion, Region, DATA_LEN_OFFSET, PADDING_OFFSET,
};
use crate::bytes::{le_bytes, overwrite, window};
use crate::entrypoint::{
    account_count, account_list_of, accounts_of, deserialize, instruction_of,
    processor_arguments, program_id_of, valid_input, with_account_list,
};
use crate::error::{
    not_enough_account_keys, program_result_to_u64, result_code, ProgramResult,
};
use solana_program_error::ProgramError;
use vstd::arithmetic::power::pow;
use vstd::prelude::*;

verus! {

/// Maximum number of accounts that can be parsed inline in the entrypoint.
pub const MAX_INLINE_ACCOUNTS: usize = 10;

/// Representation of the program input parameters passed by the runtime to the
/// entrypoint.
#[derive(Debug)]
pub struct ProgramInput<'a> {
    /// The data for the instruction.
    pub instruction_data: &'a [u8],
    /// The address of the program.
    pub program_id: Address,
    /// The list of accounts in the input.
    pub accounts: AccountList<'a>,
    /// The number of accounts available in the input.
    pub available: usize,
}

/// The memory that starts at `base` after the data lengths of `accounts` have
/// been recorded, one account after the other.
pub open spec fn recorded(base: int, bytes: Seq<u8>, accounts: Seq<AccountView>) -> Seq<u8>
    decreases accounts.len(),
{
    if accounts.len() == 0 {
        bytes
    } else {
        accounts.last().recorded_in(base, recorded(base, bytes, accounts.drop_last()))
    }
}

/// Recording data lengths does not change how much memory there is.
pub proof fn lemma_recorded_len(base: int, bytes: Seq<u8>, accounts: Seq<AccountView>)
    ensures
        recorded(base, bytes, accounts).len() == bytes.len(),
    decreases accounts.len(),
{
    if accounts.len() > 0 {
        lemma_recorded_len(base, bytes, accounts.drop_last());
    }
}

/// Recording goes through the accounts in order. For each it copies the four low
/// bytes of the length of the data, which are bytes 80 to 83 of the header, to
/// bytes 4 to 7 of the header, and changes no other byte; for no account it
/// changes nothing.
pub proof fn law_recording_copies_in_order(
    base: int,
    bytes: Seq<u8>,
    accounts: Seq<AccountView>,
    account: AccountView,
)
    requires
        base <= account.raw,
        account.raw + 88 <= base + bytes.len(),
    ensures
        recorded(base, bytes, Seq::<AccountView>::empty()) == bytes,
        ({
            let at = account.raw - base;
            let before = recorded(base, bytes, accounts);
            let after = recorded(base, bytes, accounts.push(account));
            &&& after.len() == before.len() == bytes.len()
            &&& forall|p: int|
                0 <= p < bytes.len() ==> #[trigger] after[p] == if at + 4 <= p < at + 8 {
                    before[p + 76]
                } else {
                    before[p]
                }
        }),
{
    lemma_recorded_len(base, bytes, accounts);
    assert(accounts.push(account).drop_last() =~= accounts);
    account.law_recording_copies_four_bytes(base, recorded(base, bytes, accounts));
}

/// As long as the headers of no two accounts overlap, recording leaves a copy of
/// bytes 80 to 83 of each header in bytes 4 to 7 of it, and changes no other
/// byte.
pub proof fn law_recording_copies_every_length(
    base: int,
    bytes: Seq<u8>,
    accounts: Seq<AccountView>,
)
    requires
        forall|i: int|
            0 <= i < accounts.len() ==> base <= (#[trigger] accounts[i]).raw && accounts[i].raw
                + 88 <= base + bytes.len(),
        forall|i: int, j: int|
            0 <= i < accounts.len() && 0 <= j < accounts.len() ==> (#[trigger] accounts[i]).raw == (
            #[trigger] accounts[j]).raw || accounts[i].raw + 88 <= accounts[j].raw
                || accounts[j].raw + 88 <= accounts[i].raw,
    ensures
        recorded(base, bytes, accounts).len() == bytes.len(),
        forall|i: int, k: int|
            0 <= i < accounts.len() && 4 <= k < 8 ==> #[trigger] recorded(base, bytes, accounts)[(
            #[trigger] accounts[i]).raw - base + k] == bytes[accounts[i].raw - base + 76 + k],
        forall|p: int|
            0 <= p < bytes.len() && (forall|i: int|
                0 <= i < accounts.len() ==> !(4 <= p - ((#[trigger] accounts[i]).raw - base) < 8))
                ==> #[trigger] recorded(base, bytes, accounts)[p] == bytes[p],
    decreases accounts.len(),
{
    if accounts.len() > 0 {
        let front = accounts.drop_last();
        let last = accounts.last();
        let before = recorded(base, bytes, front);
        let after = recorded(base, bytes, accounts);
        assert(last == accounts[accounts.len() - 1]);
        assert forall|i: int| 0 <= i < front.len() implies front[i] == accounts[i] by {}
        law_recording_copies_every_length(base, bytes, front);
        assert(front.push(last) =~= accounts);
        law_recording_copies_in_order(base, bytes, front, last);
        let at = last.raw - base;
        assert forall|k: int| 80 <= k < 84 implies #[trigger] before[at + k] == bytes[at + k] by {
            assert forall|i: int| 0 <= i < front.len() implies !(4 <= at + k - ((
            #[trigger] front[i]).raw - base) < 8) by {
                assert(front[i] == accounts[i]);
            }
        }
        assert forall|i: int, k: int| 0 <= i < accounts.len() && 4 <= k < 8 implies
            #[trigger] after[(#[trigger] accounts[i]).raw - base + k] == bytes[accounts[i].raw - base
            + 76 + k] by {
            let p = accounts[i].raw - base + k;
            if accounts[i].raw == last.raw {
                assert(after[p] == before[p + 76]);
                assert(before[at + (k + 76)] == bytes[at + (k + 76)]);
            } else {
                assert(front[i] == accounts[i]);
                assert(before[front[i].raw - base + k] == bytes[front[i].raw - base + 76 + k]);
                assert(after[p] == before[p]);
            }
        }
        assert forall|p: int|
            0 <= p < bytes.len() && (forall|i: int|
                0 <= i < accounts.len() ==> !(4 <= p - ((#[trigger] accounts[i]).raw - base)
                    < 8)) implies #[trigger] after[p] == bytes[p] by {
            assert forall|i: int| 0 <= i < front.len() implies !(4 <= p - ((
            #[trigger] front[i]).raw - base) < 8) by {
                assert(front[i] == accounts[i]);
            }
            assert(before[p] == bytes[p]);
            assert(!(4 <= p - (accounts[accounts.len() - 1].raw - base) < 8));
        }
    }
}

/// Whether byte `k` of the memory that starts at `base` is in the padding of
/// the header of one of `accounts`.
pub open spec fn in_padding(base: int, accounts: Seq<AccountView>, k: int) -> bool {
    exists|i: int|
        0 <= i < accounts.len() && padding_of(base, #[trigger] accounts[i]) <= k < padding_of(
            base,
            accounts[i],
        ) + 4
}

/// Where the padding of an account's header is, in memory that starts at `base`.
pub open spec fn padding_of(base: int, account: AccountView) -> int {
    account.raw - base + PADDING_OFFSET
}

/// Whether the headers of all of `accounts` lie in the `len` bytes from `base`
/// on, and no two of different accounts overlap.
pub open spec fn separate(base: int, len: int, accounts: Seq<AccountView>) -> bool {
    &&& forall|i: int|
        0 <= i < accounts.len() ==> (#[trigger] accounts[i]).header_in(base, len)
    &&& forall|i: int, j: int|
        0 <= i < accounts.len() && 0 <= j < accounts.len() ==> (
        #[trigger] accounts[i]).same_or_apart(#[trigger] accounts[j])
}

/// After recording, the padding of each account's header holds the length of
/// the account's data, as far as four bytes can; no other byte has changed, so
/// the lengths themselves have not.
pub proof fn law_recording_stores_lengths(base: int, bytes: Seq<u8>, accounts: Seq<AccountView>)
    requires
        separate(base, bytes.len() as int, accounts),
    ensures
        recorded(base, bytes, accounts).len() == bytes.len(),
        forall|i: int|
            0 <= i < accounts.len() ==> window(
                recorded(base, bytes, accounts),
                (#[trigger] accounts[i]).raw - base + PADDING_OFFSET,
                4,
            ) == le_bytes(accounts[i].data_len_in(base, bytes) % 0x1_0000_0000, 4),
        forall|i: int|
            0 <= i < accounts.len() ==> (#[trigger] accounts[i]).data_len_in(
                base,
                recorded(base, bytes, accounts),
            ) == accounts[i].data_len_in(base, bytes),
        forall|k: int|
            0 <= k < bytes.len() && !in_padding(base, accounts, k) ==> #[trigger] recorded(
                base,
                bytes,
                accounts,
            )[k] == bytes[k],
    decreases accounts.len(),
{
    lemma_recorded_len(base, bytes, accounts);
    if accounts.len() > 0 {
        let front = accounts.drop_last();
        let last = accounts.last();
        assert forall|i: int| 0 <= i < front.len() implies front[i] == accounts[i] by {}
        law_recording_stores_lengths(base, bytes, front);
        let before = recorded(base, bytes, front);
        let after = recorded(base, bytes, accounts);
        let at = padding_of(base, last);
        assert(last == accounts[accounts.len() - 1]);
        lemma_data_len_kept(base, bytes, before, front, last);
        let word = le_bytes(last.data_len_in(base, bytes) % 0x1_0000_0000, 4);
        crate::bytes::lemma_le_bytes_len(last.data_len_in(base, bytes) % 0x1_0000_0000, 4);
        assert(after == overwrite(before, at, word));
        assert forall|i: int| 0 <= i < accounts.len() implies window(
            after,
            (#[trigger] accounts[i]).raw - base + PADDING_OFFSET,
            4,
        ) == le_bytes(accounts[i].data_len_in(base, bytes) % 0x1_0000_0000, 4) by {
            assert(accounts[i].same_or_apart(accounts[accounts.len() - 1]));
            if accounts[i] == last {
                crate::bytes::lemma_overwrite_here(before, at, word);
            } else {
                assert(front[i] == accounts[i]);
                crate::bytes::lemma_overwrite_elsewhere(
                    before,
                    at,
                    word,
                    padding_of(base, accounts[i]),
                    4,
                );
            }
        }
        assert forall|k: int|
            0 <= k < bytes.len() && !in_padding(base, accounts, k) implies #[trigger] after[k]
            == bytes[k] by {
            assert(padding_of(base, accounts[accounts.len() - 1]) == at);
            assert(!in_padding(base, front, k)) by {
                if in_padding(base, front, k) {
                    let i = choose|i: int|
                        0 <= i < front.len() && padding_of(base, #[trigger] front[i]) <= k
                            < padding_of(base, front[i]) + 4;
                    assert(accounts[i] == front[i]);
                }
            }
        }
        assert forall|i: int| 0 <= i < accounts.len() implies (
        #[trigger] accounts[i]).data_len_in(base, after) == accounts[i].data_len_in(base, bytes) by {
            lemma_data_len_kept(base, bytes, after, accounts, accounts[i]);
        }
    }
}

/// The length of an account's data is out of the way of recording.
proof fn lemma_data_len_kept(
    base: int,
    bytes: Seq<u8>,
    after: Seq<u8>,
    accounts: Seq<AccountView>,
    account: AccountView,
)
    requires
        after.len() == bytes.len(),
        forall|k: int|
            0 <= k < bytes.len() && !in_padding(base, accounts, k) ==> #[trigger] after[k]
                == bytes[k],
        forall|i: int| 0 <= i < accounts.len() ==> (#[trigger] accounts[i]).same_or_apart(account),
        account.header_in(base, bytes.len() as int),
    ensures
        account.data_len_in(base, after) == account.data_len_in(base, bytes),
{
    let at = account.raw - base + DATA_LEN_OFFSET;
    assert forall|k: int| at <= k < at + 8 implies after[k] == bytes[k] by {
        if in_padding(base, accounts, k) {
            let i = choose|i: int|
                0 <= i < accounts.len() && padding_of(base, #[trigger] accounts[i]) <= k
                    < padding_of(base, accounts[i]) + 4;
            assert(accounts[i].same_or_apart(account));
        }
    }
    assert(window(after, at, 8) =~= window(bytes, at, 8));
}

/// Recording a second time changes nothing.
pub proof fn law_recording_is_idempotent(base: int, bytes: Seq<u8>, accounts: Seq<AccountView>)
    requires
        separate(base, bytes.len() as int, accounts),
    ensures
        recorded(base, recorded(base, bytes, accounts), accounts) == recorded(
            base,
            bytes,
            accounts,
        ),
{
    let once = recorded(base, bytes, accounts);
    law_recording_stores_lengths(base, bytes, accounts);
    law_recording_stores_lengths(base, once, accounts);
    let twice = recorded(base, once, accounts);
    assert forall|k: int| 0 <= k < bytes.len() implies twice[k] == once[k] by {
        if in_padding(base, accounts, k) {
            let i = choose|i: int|
                0 <= i < accounts.len() && padding_of(base, #[trigger] accounts[i]) <= k
                    < padding_of(base, accounts[i]) + 4;
            let at = padding_of(base, accounts[i]);
            assert(window(twice, at, 4) == window(once, at, 4));
            assert(window(twice, at, 4)[k - at] == window(once, at, 4)[k - at]);
        }
    }
    assert(twice =~= once);
}

impl<'a> ProgramInput<'a> {
    /// Whether the list holds the accounts that are available.
    pub open spec fn wf(self) -> bool {
        self.available <= self.accounts@.len()
    }

    /// The accounts that are available are those for which the list has eight
    /// bytes each, or fewer, and up to ten of them can be asked for.
    pub proof fn law_list_holds_what_is_available(self, n: int)
        ensures
            self.wf() <==> 8 * self.available <= old(self.accounts.bytes)@.len(),
            n <= MAX_INLINE_ACCOUNTS <==> n <= 10,
    {
    }

    /// Creates a new `ProgramInput` for an input: what lies in front of the
    /// instruction data, and the instruction data and what follows it. The list
    /// of accounts lies in the input, and so does whatever is written to it.
    pub fn new_unchecked(
        program_input: &InputRegion<'_>,
        instruction_data: &'a mut [u8],
    ) -> (input: Self)
        requires
            valid_input(program_input@, old(instruction_data)@),
        ensures
            input.wf(),
            input.instruction_data@ == instruction_of(program_input@, old(instruction_data)@),
            input.program_id@ == program_id_of(program_input@, old(instruction_data)@),
            input.accounts@ == accounts_of(program_input@, old(instruction_data)@),
            input.accounts.bytes@ == account_list_of(program_input@, old(instruction_data)@),
            input.available == account_count(program_input@),
            final(instruction_data)@ == with_account_list(
                program_input@,
                old(instruction_data)@,
                final(input.accounts.bytes)@,
            ),
    {
        let parameters = deserialize(program_input, instruction_data);
        let available: usize = parameters.accounts.len();
        ProgramInput {
            instruction_data: parameters.instruction_data,
            program_id: parameters.program_id,
            accounts: parameters.accounts,
            available,
        }
    }

    /// Return the address of the program.
    pub fn program_id(&self) -> (program_id: &Address)
        ensures
            program_id@ == self.program_id@,
    {
        &self.program_id
    }

    /// The first `N` accounts, or `NotEnoughAccountKeys` if fewer are available.
    pub fn accounts<const N: usize>(&mut self) -> (accounts: Result<AccountList<'_>, ProgramError>)
        requires
            N <= MAX_INLINE_ACCOUNTS,
            old(self).wf(),
        ensures
            accounts is Ok <==> N <= old(self).available,
            match accounts {
                Ok(accounts) => {
                    &&& accounts@ == old(self).accounts@.take(N as int)
                    &&& accounts.bytes@ == old(self).accounts.bytes@.take(8 * N)
                    &&& final(self).accounts.bytes@ == final(accounts.bytes)@ + old(
                        self,
                    ).accounts.bytes@.skip(8 * N)
                },
                Err(error) => {
                    &&& error == ProgramError::NotEnoughAccountKeys
                    &&& final(self).accounts.bytes@ == old(self).accounts.bytes@
                },
            },
            final(final(self).accounts.bytes)@ == final(old(self).accounts.bytes)@,
            final(self).available == old(self).available,
            final(self).program_id@ == old(self).program_id@,
            final(self).instruction_data@ == old(self).instruction_data@,
    {
        if N > self.available {
            return Err(not_enough_account_keys());
        }
        Ok(self.accounts.first(N))
    }

    /// The first `N` accounts, or `NotEnoughAccountKeys` if fewer are available,
    /// for programs that resize accounts: records the length of each account's
    /// data in the padding of its header.
    pub fn accounts_for_resize<const N: usize>(
        &mut self,
        memory: &mut InputRegion<'_>,
    ) -> (accounts: Result<AccountList<'_>, ProgramError>)
        requires
            N <= MAX_INLINE_ACCOUNTS,
            old(self).wf(),
            N <= old(self).available ==> forall|i: int|
                0 <= i < N ==> (#[trigger] old(self).accounts@[i]).within(old(memory)@),
        ensures
            accounts is Ok <==> N <= old(self).available,
            match accounts {
                Ok(accounts) => {
                    &&& accounts@ == old(self).accounts@.take(N as int)
                    &&& accounts.bytes@ == old(self).accounts.bytes@.take(8 * N)
                    &&& final(self).accounts.bytes@ == final(accounts.bytes)@ + old(
                        self,
                    ).accounts.bytes@.skip(8 * N)
                    &&& final(memory).bytes@ == recorded(
                        old(memory).base as int,
                        old(memory).bytes@,
                        old(self).accounts@.take(N as int),
                    )
                },
                Err(error) => {
                    &&& error == ProgramError::NotEnoughAccountKeys
                    &&& final(self).accounts.bytes@ == old(self).accounts.bytes@
                    &&& final(memory).bytes@ == old(memory).bytes@
                },
            },
            final(memory).base == old(memory).base,
            final(final(memory).bytes)@ == final(old(memory).bytes)@,
            final(final(self).accounts.bytes)@ == final(old(self).accounts.bytes)@,
            final(self).available == old(self).available,
            final(self).program_id@ == old(self).program_id@,
            final(self).instruction_data@ == old(self).instruction_data@,
    {
        if N > self.available {
            return Err(not_enough_account_keys());
        }
        let list = self.accounts.first(N);
        let ghost accounts = list@;
        let ghost before = memory.bytes@;
        let mut i: usize = 0;
        assert(accounts.take(0) =~= Seq::empty());
        while i < N
            invariant
                i <= N == accounts.len(),
                list@ == accounts,
                memory.base == old(memory).base,
                before == old(memory).bytes@,
                final(memory.bytes)@ == final(old(memory).bytes)@,
                memory.bytes@.len() == before.len(),
                memory.bytes@ == recorded(memory.base as int, before, accounts.take(i as int)),
                forall|k: int| 0 <= k < N ==> (#[trigger] accounts[k]).within(old(memory)@),
            decreases N - i,
        {
            let account: AccountView = list.get(i);
            assert(account == accounts[i as int]);
            account.store_original_data_len(memory);
            proof {
                assert(accounts.take(i + 1).drop_last() =~= accounts.take(i as int));
                assert(accounts.take(i + 1).last() == account);
            }
            i += 1;
        }
        assert(accounts.take(N as int) =~= accounts);
        Ok(list)
    }
}

/// Has the instruction of an input processed and reports the result. The
/// processor is given the input parameters and the memory that holds the
/// accounts. Both that memory and the list of accounts lie in the input: what the
/// processor leaves in them stays there.
pub fn process_inline_entrypoint<F>(
    program_input: InputRegion<'_>,
    instruction_data: &mut [u8],
    process_instruction: F,
) -> (code: u64) where F: FnOnce(ProgramInput<'_>, InputRegion<'_>) -> ProgramResult
    requires
        valid_input(program_input@, old(instruction_data)@),
        forall|input: ProgramInput<'_>|
            inline_arguments(program_input@, old(instruction_data)@, input)
                ==> #[trigger] call_requires(process_instruction, (input, program_input)),
    ensures
        exists|input: ProgramInput<'_>, result: ProgramResult|
            {
                &&& inline_arguments(program_input@, old(instruction_data)@, input)
                &&& #[trigger] call_ensures(process_instruction, (input, program_input), result)
                &&& final(instruction_data)@ == with_account_list(
                    program_input@,
                    old(instruction_data)@,
                    final(input.accounts.bytes)@,
                )
                &&& code == result_code(result)
            },
{
    let input = ProgramInput::new_unchecked(&program_input, instruction_data);
    program_result_to_u64(process_instruction(input, program_input))
}

/// Whether these are the parameters with which an inline processor is to be
/// called for an input.
pub open spec fn inline_arguments(
    program_input: Region,
    instruction_data: Seq<u8>,
    input: ProgramInput<'_>,
) -> bool {
    &&& input.available == account_count(program_input)
    &&& input.instruction_data@ == instruction_of(program_input, instruction_data)
    &&& input.program_id@ == program_id_of(program_input, instruction_data)
    &&& input.accounts.bytes@ == account_list_of(program_input, instruction_data)
}

/// An inline processor is called with every account of the input available, with
/// as many bytes of instruction data as the input says, with the 32 bytes after
/// them, and with one word of eight bytes for each account.
pub proof fn law_inline_processor_gets_the_parts(
    program_input: Region,
    instruction_data: Seq<u8>,
    count: int,
    len: int,
    list: int,
    input: ProgramInput<'_>,
)
    requires
        program_input.bytes.len() >= 16,
        0 <= count <= u64::MAX,
        0 <= len <= u64::MAX,
        forall|k: int|
            0 <= k < 8 ==> count / #[trigger] pow(256, k as nat) % 256 == program_input.bytes[k],
        forall|k: int|
            0 <= k < 8 ==> len / #[trigger] pow(256, k as nat) % 256
                == program_input.bytes[program_input.bytes.len() - 8 + k],
        len + 32 <= list < len + 40,
        (program_input.base + program_input.bytes.len() + list) % 8 == 0,
        program_input.base + program_input.bytes.len() + len + 39 <= u64::MAX,
        list + 8 * count <= instruction_data.len(),
    ensures
        inline_arguments(program_input, instruction_data, input) <==> {
            &&& input.available == count
            &&& input.instruction_data@ == instruction_data.subrange(0, len)
            &&& input.program_id@ == instruction_data.subrange(len, len + 32)
            &&& old(input.accounts.bytes)@ == instruction_data.subrange(list, list + 8 * count)
        },
        inline_arguments(program_input, instruction_data, input) ==> {
            &&& input.wf()
            &&& input.accounts@.len() == count
            &&& input.instruction_data@.len() == len
        },
{
    crate::entrypoint::law_input_has_its_parts(program_input, instruction_data, count, len, list);
}

/// Both entrypoints hand the same parameters to the program.
pub proof fn law_entrypoints_agree(
    program_input: Region,
    instruction_data: Seq<u8>,
    input: ProgramInput<'_>,
)
    requires
        valid_input(program_input, instruction_data),
        inline_arguments(program_input, instruction_data, input),
    ensures
        input.wf(),
        processor_arguments(
            program_input,
            instruction_data,
            input.program_id@,
            old(input.accounts.bytes)@,
            input.instruction_data@,
        ),
{
}

} // verus!
