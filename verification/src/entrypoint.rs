//! The program entrypoint.
//!
//! When an instruction is directed at a program, the loader serializes the
//! program's input parameters and invokes the program's entrypoint with two
//! pointers: one to the start of the input, one to the instruction data within
//! it. Each program deserializes these parameters, processes the instruction
//! and reports the result.
//!
//! The input parameters are serialized as follows (all encoding is little
//! endian):
//!
//! - 8 bytes: the number of accounts;
//! - for each account, 1 byte that is `NON_DUP_MARKER` unless the account is a
//!   duplicate, and the index of the account it duplicates if it is one;
//!   - if the account is a duplicate, 7 bytes of padding;
//!   - if it is not, the rest of the account's header, the account's data,
//!     `MAX_PERMITTED_DATA_INCREASE` bytes of padding, as many bytes as align
//!     the offset to 8 bytes, and 8 bytes for the rent epoch;
//! - 8 bytes: the number of bytes of instruction data;
//! - the instruction data;
//! - 32 bytes: the address of the program;
//! - as many bytes as align the offset to 8 bytes;
//! - for each account, 8 bytes: the address of the account's header.
//!
//! Here the input comes in two parts, as the two pointers divide it: an
//! [`InputRegion`] with what lies in front of the instruction data, and a slice
//! with the instruction data and what follows it. Reading it allocates nothing:
//! the instruction data and the list of accounts are handed out where they lie,
//! so that a processor that changes the list changes the input. Only the address
//! of the program is copied.

pub mod inline;

pub use crate::account::NON_DUP_MARKER;
pub use crate::allocator::{
    BumpAllocator, NoAllocator, HEAP_LENGTH, HEAP_START_ADDRESS, MAX_HEAP_LENGTH,
};
use crate::account::{
    entries, AccountList, AccountView, Address, InputRegion, Region, ADDRESS_SIZE,
};
use crate::align::{align_address, align_up, BPF_ALIGN_OF_U128};
use crate::bytes::{le_value, read_u64, window};
use crate::error::{program_result_to_u64, result_code, ProgramResult};
use vstd::arithmetic::power::pow;
use vstd::prelude::*;

verus! {

/// The number of accounts of an input.
pub open spec fn account_count(program_input: Region) -> nat {
    le_value(window(program_input.bytes, 0, 8))
}

/// The number of bytes of instruction data of an input: the word just in front
/// of the instruction data.
pub open spec fn instruction_len(program_input: Region) -> nat {
    le_value(window(program_input.bytes, program_input.bytes.len() - 8, 8))
}

/// The address of the list of accounts, given the address and the length of the
/// instruction data: the first aligned one after the address of the program.
pub open spec fn account_list_at(instruction_data: int, len: int) -> int {
    align_up(instruction_data + len + ADDRESS_SIZE, BPF_ALIGN_OF_U128 as int)
}

/// Where the list of accounts starts, in bytes from the instruction data on.
pub open spec fn account_list_offset(program_input: Region) -> int {
    account_list_at(program_input.end(), instruction_len(program_input) as int)
        - program_input.end()
}

/// Whether the two parts of an input hold everything that they refer to.
pub open spec fn valid_input(program_input: Region, instruction_data: Seq<u8>) -> bool {
    &&& program_input.bytes.len() >= 16
    &&& program_input.end() + instruction_len(program_input) + ADDRESS_SIZE + BPF_ALIGN_OF_U128 - 1
        <= u64::MAX
    &&& instruction_len(program_input) + ADDRESS_SIZE <= instruction_data.len()
    &&& account_list_offset(program_input) + 8 * account_count(program_input)
        <= instruction_data.len()
}

/// The instruction data proper.
pub open spec fn instruction_of(program_input: Region, instruction_data: Seq<u8>) -> Seq<u8> {
    instruction_data.take(instruction_len(program_input) as int)
}

/// The address of the program, which follows the instruction data.
pub open spec fn program_id_of(program_input: Region, instruction_data: Seq<u8>) -> Seq<u8> {
    window(instruction_data, instruction_len(program_input) as int, ADDRESS_SIZE as int)
}

/// The list of accounts, as the input holds it.
pub open spec fn account_list_of(program_input: Region, instruction_data: Seq<u8>) -> Seq<u8> {
    window(
        instruction_data,
        account_list_offset(program_input),
        8 * account_count(program_input) as int,
    )
}

/// The accounts of an input.
pub open spec fn accounts_of(
    program_input: Region,
    instruction_data: Seq<u8>,
) -> Seq<AccountView> {
    entries(account_list_of(program_input, instruction_data))
}

/// The instruction data and what follows it, with another list of accounts.
pub open spec fn with_account_list(
    program_input: Region,
    instruction_data: Seq<u8>,
    list: Seq<u8>,
) -> Seq<u8> {
    instruction_data.take(account_list_offset(program_input)) + list + instruction_data.skip(
        account_list_offset(program_input) + 8 * account_count(program_input),
    )
}

/// What is left in the list of accounts is what the next reader of the input
/// finds there; it finds the instruction data and the address of the program as
/// they were.
pub proof fn law_changed_list_is_found(
    program_input: Region,
    instruction_data: Seq<u8>,
    list: Seq<u8>,
)
    requires
        valid_input(program_input, instruction_data),
        list.len() == 8 * account_count(program_input),
    ensures
        ({
            let after = with_account_list(program_input, instruction_data, list);
            &&& valid_input(program_input, after)
            &&& accounts_of(program_input, after) == entries(list)
            &&& instruction_of(program_input, after) == instruction_of(
                program_input,
                instruction_data,
            )
            &&& program_id_of(program_input, after) == program_id_of(
                program_input,
                instruction_data,
            )
        }),
{
    let after = with_account_list(program_input, instruction_data, list);
    assert(account_list_of(program_input, after) =~= list);
    assert(instruction_of(program_input, after) =~= instruction_of(
        program_input,
        instruction_data,
    ));
    assert(program_id_of(program_input, after) =~= program_id_of(
        program_input,
        instruction_data,
    ));
}

/// Whether these are the arguments with which an instruction processor is to be
/// called for an input.
pub open spec fn processor_arguments(
    program_input: Region,
    instruction_data: Seq<u8>,
    program_id: Seq<u8>,
    accounts: Seq<u8>,
    instruction: Seq<u8>,
) -> bool {
    &&& program_id == program_id_of(program_input, instruction_data)
    &&& accounts == account_list_of(program_input, instruction_data)
    &&& instruction == instruction_of(program_input, instruction_data)
}

/// The list of accounts starts at the first multiple of eight that leaves room
/// for the 32 bytes of the program's address after the instruction data.
pub proof fn law_account_list_is_aligned(instruction_data: int, len: int, address: int)
    ensures
        account_list_at(instruction_data, len) == address <==> {
            &&& address % 8 == 0
            &&& instruction_data + len + 32 <= address < instruction_data + len + 40
        },
{
    crate::align::law_align_up_is_least(instruction_data + len + 32, 8, address);
}

/// Where an input has its parts. Its first eight bytes are the digits of the
/// number of accounts, and the eight bytes in front of the instruction data are
/// the digits of the length of the instruction data, in base 256 and with the
/// lowest one first. The instruction data takes as many bytes as that length
/// says; the 32 bytes after it are the address of the program; the list of
/// accounts comes next, at the first address that is a multiple of eight, with
/// eight bytes for each account, which are the digits of the address of the
/// account's header.
pub proof fn law_input_has_its_parts(
    program_input: Region,
    instruction_data: Seq<u8>,
    count: int,
    len: int,
    list: int,
)
    requires
        program_input.bytes.len() >= 16,
        0 <= count <= u64::MAX,
        0 <= len <= u64::MAX,
        forall|k: int|
            0 <= k < 8 ==> count / #[trigger] pow(256, k as nat) % 256 == program_input.bytes[k],
        forall|k: int|
            0 <= k < 8 ==> len / #[trigger] pow(256, k as nat) % 256
                == program_input.bytes[program_input.bytes.len() - 8 + k],
        len + 32 <= list < len + 40,
        (program_input.base + program_input.bytes.len() + list) % 8 == 0,
        program_input.base + program_input.bytes.len() + len + 39 <= u64::MAX,
        list + 8 * count <= instruction_data.len(),
    ensures
        valid_input(program_input, instruction_data),
        account_count(program_input) == count,
        instruction_len(program_input) == len,
        account_list_offset(program_input) == list,
        instruction_of(program_input, instruction_data) == instruction_data.subrange(0, len),
        program_id_of(program_input, instruction_data) == instruction_data.subrange(len, len + 32),
        account_list_of(program_input, instruction_data) == instruction_data.subrange(
            list,
            list + 8 * count,
        ),
        accounts_of(program_input, instruction_data).len() == count,
        forall|i: int, k: int|
            0 <= i < count && 0 <= k < 8 ==> (#[trigger] accounts_of(
                program_input,
                instruction_data,
            )[i]).raw as int / #[trigger] pow(256, k as nat) % 256 == instruction_data[list + 8 * i
                + k],
{
    let bytes = program_input.bytes;
    crate::bytes::lemma_digits_make_word(bytes.subrange(0, 8), count);
    crate::bytes::lemma_digits_make_word(
        bytes.subrange(bytes.len() - 8, bytes.len() as int),
        len,
    );
    law_account_list_is_aligned(program_input.end(), len, program_input.end() + list);
    let words = instruction_data.subrange(list, list + 8 * count);
    crate::account::law_entries_are_addresses(words);
    assert forall|i: int, k: int| 0 <= i < count && 0 <= k < 8 implies (#[trigger] accounts_of(
        program_input,
        instruction_data,
    )[i]).raw as int / #[trigger] pow(256, k as nat) % 256 == instruction_data[list + 8 * i + k] by {
        assert(words[8 * i + k] == instruction_data[list + 8 * i + k]);
        assert(entries(words)[i].raw as int / pow(256, k as nat) % 256 == words[8 * i + k]);
    }
}

/// A processor is called with the 32 bytes after the instruction data, with as
/// many words of eight bytes as the input has accounts, and with as many bytes
/// of instruction data as the input says, and with nothing else.
pub proof fn law_processor_gets_the_parts(
    program_input: Region,
    instruction_data: Seq<u8>,
    count: int,
    len: int,
    list: int,
    program_id: Seq<u8>,
    accounts: Seq<u8>,
    instruction: Seq<u8>,
)
    requires
        program_input.bytes.len() >= 16,
        0 <= count <= u64::MAX,
        0 <= len <= u64::MAX,
        forall|k: int|
            0 <= k < 8 ==> count / #[trigger] pow(256, k as nat) % 256 == program_input.bytes[k],
        forall|k: int|
            0 <= k < 8 ==> len / #[trigger] pow(256, k as nat) % 256
                == program_input.bytes[program_input.bytes.len() - 8 + k],
        len + 32 <= list < len + 40,
        (program_input.base + program_input.bytes.len() + list) % 8 == 0,
        program_input.base + program_input.bytes.len() + len + 39 <= u64::MAX,
        list + 8 * count <= instruction_data.len(),
    ensures
        processor_arguments(program_input, instruction_data, program_id, accounts, instruction)
            <==> {
            &&& program_id == instruction_data.subrange(len, len + 32)
            &&& accounts == instruction_data.subrange(list, list + 8 * count)
            &&& instruction == instruction_data.subrange(0, len)
        },
        processor_arguments(program_input, instruction_data, program_id, accounts, instruction)
            ==> {
            &&& instruction.len() == len
            &&& entries(accounts).len() == count
        },
{
    law_input_has_its_parts(program_input, instruction_data, count, len, list);
}

/// Another list of accounts takes the place of the list that an input has, and
/// everything in front of it and after it stays.
pub proof fn law_list_keeps_its_place(
    program_input: Region,
    instruction_data: Seq<u8>,
    count: int,
    len: int,
    list: int,
    changed: Seq<u8>,
)
    requires
        program_input.bytes.len() >= 16,
        0 <= count <= u64::MAX,
        0 <= len <= u64::MAX,
        forall|k: int|
            0 <= k < 8 ==> count / #[trigger] pow(256, k as nat) % 256 == program_input.bytes[k],
        forall|k: int|
            0 <= k < 8 ==> len / #[trigger] pow(256, k as nat) % 256
                == program_input.bytes[program_input.bytes.len() - 8 + k],
        len + 32 <= list < len + 40,
        (program_input.base + program_input.bytes.len() + list) % 8 == 0,
        program_input.base + program_input.bytes.len() + len + 39 <= u64::MAX,
        list + 8 * count <= instruction_data.len(),
    ensures
        with_account_list(program_input, instruction_data, changed) == instruction_data.subrange(
            0,
            list,
        ) + changed + instruction_data.subrange(
            list + 8 * count,
            instruction_data.len() as int,
        ),
{
    law_input_has_its_parts(program_input, instruction_data, count, len, list);
    assert(instruction_data.take(list) =~= instruction_data.subrange(0, list));
    assert(instruction_data.skip(list + 8 * count) =~= instruction_data.subrange(
        list + 8 * count,
        instruction_data.len() as int,
    ));
}

/// The address of the list of accounts, given the address and the length of the
/// instruction data.
pub fn account_list_address(instruction_data: u64, len: u64) -> (address: u64)
    requires
        instruction_data + len + ADDRESS_SIZE + BPF_ALIGN_OF_U128 - 1 <= u64::MAX,
    ensures
        address == account_list_at(instruction_data as int, len as int),
        address % 8 == 0,
        instruction_data + len + 32 <= address < instruction_data + len + 40,
{
    align_address(instruction_data + len + ADDRESS_SIZE as u64)
}

/// The parameters of a program, as an input holds them.
#[derive(Debug)]
pub struct Parameters<'a> {
    pub instruction_data: &'a [u8],
    pub program_id: Address,
    pub accounts: AccountList<'a>,
}

/// Deserializes an input.
pub fn deserialize<'a>(
    program_input: &InputRegion<'_>,
    instruction_data: &'a mut [u8],
) -> (parameters: Parameters<'a>)
    requires
        valid_input(program_input@, old(instruction_data)@),
    ensures
        parameters.instruction_data@ == instruction_of(program_input@, old(instruction_data)@),
        parameters.program_id@ == program_id_of(program_input@, old(instruction_data)@),
        parameters.accounts@ == accounts_of(program_input@, old(instruction_data)@),
        parameters.accounts.bytes@ == account_list_of(program_input@, old(instruction_data)@),
        final(instruction_data)@ == with_account_list(
            program_input@,
            old(instruction_data)@,
            final(parameters.accounts.bytes)@,
        ),
{
    let ghost input = instruction_data@;
    let head: &[u8] = program_input.bytes;
    assert(instruction_data@.len() == instruction_data.len());
    // Loads the instruction data length (8 bytes before the instruction data).
    let len: u64 = read_u64(head, head.len() - 8);
    // The list of accounts is located right after the program id and alignment
    // padding. Its length is determined by the first 8 bytes of the input.
    let data_address: u64 = program_input.base + head.len() as u64;
    let list: u64 = account_list_address(data_address, len) - data_address;
    let count: u64 = read_u64(head, 0);
    let (front, rest) = instruction_data.split_at_mut(list as usize);
    let (accounts, _after) = rest.split_at_mut(8 * count as usize);
    let front: &'a [u8] = front;
    // The program id follows the instruction data.
    let (instruction, rest) = front.split_at(len as usize);
    let program_id = Address::read(rest);
    assert(instruction@ =~= instruction_of(program_input@, input));
    assert(program_id@ =~= program_id_of(program_input@, input));
    assert(accounts@ =~= account_list_of(program_input@, input));
    Parameters {
        instruction_data: instruction,
        program_id,
        accounts: AccountList { bytes: accounts },
    }
}

/// Deserializes an input, has the instruction processed and reports the result.
///
/// The processor is given the address of the program, all accounts required to
/// process the instruction, the instruction data, and the memory that holds the
/// accounts. Both that memory and the list of accounts lie in the input: what the
/// processor leaves in them stays there.
pub fn process_entrypoint<F>(
    program_input: InputRegion<'_>,
    instruction_data: &mut [u8],
    process_instruction: F,
) -> (code: u64) where
    F: FnOnce(&Address, AccountList<'_>, &[u8], InputRegion<'_>) -> ProgramResult,

    requires
        valid_input(program_input@, old(instruction_data)@),
        forall|program_id: &Address, accounts: AccountList<'_>, instruction: &[u8]|
            processor_arguments(
                program_input@,
                old(instruction_data)@,
                program_id@,
                accounts.bytes@,
                instruction@,
            ) ==> #[trigger] call_requires(
                process_instruction,
                (program_id, accounts, instruction, program_input),
            ),
    ensures
        exists|
            program_id: &Address,
            accounts: AccountList<'_>,
            instruction: &[u8],
            result: ProgramResult,
        |
            {
                &&& processor_arguments(
                    program_input@,
                    old(instruction_data)@,
                    program_id@,
                    accounts.bytes@,
                    instruction@,
                )
                &&& #[trigger] call_ensures(
                    process_instruction,
                    (program_id, accounts, instruction, program_input),
                    result,
                )
                &&& final(instruction_data)@ == with_account_list(
                    program_input@,
                    old(instruction_data)@,
                    final(accounts.bytes)@,
                )
                &&& code == result_code(result)
            },
{
    let parameters = deserialize(&program_input, instruction_data);
    let result = process_instruction(
        &parameters.program_id,
        parameters.accounts,
        parameters.instruction_data,
        program_input,
    );
    program_result_to_u64(result)
}

} // verus!
