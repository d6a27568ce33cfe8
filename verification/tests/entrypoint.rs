use pinocchio::account::{
    AccountList, AccountView, Address, InputRegion, ACCOUNT_HEADER_SIZE, ADDRESS_SIZE,
    MAX_PERMITTED_DATA_INCREASE, NON_DUP_MARKER, STATIC_ACCOUNT_DATA,
};
use pinocchio::entrypoint::inline::{process_inline_entrypoint, ProgramInput, MAX_INLINE_ACCOUNTS};
use pinocchio::entrypoint::{account_list_address, deserialize, process_entrypoint};
use pinocchio::error::ProgramResult;
use solana_account_view::NOT_BORROWED;
use solana_program_error::ProgramError;

/// The maximum number of accounts of a transaction.
const MAX_TX_ACCOUNTS: usize = 254;

/// The address at which the loader places the input.
const INPUT_START: u64 = 0x4_0000_0000;

/// The alignment of the parts of the input.
const ALIGN: usize = 8;

/// The mock program ID used for testing.
const MOCK_PROGRAM_ID: [u8; 32] = [5u8; 32];

/// The mock instruction data used for testing.
const MOCK_INSTRUCTION_DATA: [u8; 100] = [3u8; 100];

fn align(value: usize) -> usize {
    (value + (ALIGN - 1)) & !(ALIGN - 1)
}

/// Appends an account with zeroed data of length `i`.
fn write_account(input: &mut Vec<u8>, i: usize) {
    let mut account = vec![0u8; STATIC_ACCOUNT_DATA + 8];
    account[0] = NON_DUP_MARKER;
    account[80..88].copy_from_slice(&i.to_le_bytes());
    input.extend_from_slice(&account);
    input.extend_from_slice(&vec![0u8; align(i)]);
}

/// Completes an input: the instruction data, the program ID and the list of
/// accounts.
fn finish(
    mut input: Vec<u8>,
    pointers: &[usize],
    instruction_data: &[u8],
) -> (Vec<u8>, Vec<u8>) {
    input.extend_from_slice(&instruction_data.len().to_le_bytes());
    let offset = input.len();
    let mut rest = instruction_data.to_vec();
    rest.extend_from_slice(&MOCK_PROGRAM_ID);
    while (offset + rest.len()) % ALIGN != 0 {
        rest.push(0);
    }
    for pointer in pointers {
        rest.extend_from_slice(&(INPUT_START + *pointer as u64).to_le_bytes());
    }
    (input, rest)
}

/// The part of an input in front of the instruction data, where the loader
/// places it.
fn region(bytes: &mut [u8]) -> InputRegion<'_> {
    InputRegion {
        base: INPUT_START,
        bytes,
    }
}

/// Creates an input with a specified number of accounts and instruction data.
///
/// Each account created has zeroed data, apart from the `data_len` field, which
/// is set to the index of the account.
fn create_input(accounts: usize, instruction_data: &[u8]) -> (Vec<u8>, Vec<u8>) {
    create_input_with_duplicates(accounts, instruction_data, 0)
}

/// Creates an input of which the last `duplicated` accounts are duplicates of
/// the last unique account.
fn create_input_with_duplicates(
    accounts: usize,
    instruction_data: &[u8],
    duplicated: usize,
) -> (Vec<u8>, Vec<u8>) {
    let mut input = (accounts as u64).to_le_bytes().to_vec();
    let mut pointers = vec![];
    if accounts > 0 {
        assert!(
            duplicated < accounts,
            "Duplicated accounts must be less than total accounts"
        );
        let unique = accounts - duplicated;
        for i in 0..unique {
            pointers.push(input.len());
            write_account(&mut input, i);
        }
        let last_unique_offset = *pointers.last().unwrap();
        for _ in unique..accounts {
            pointers.push(last_unique_offset);
            input.extend_from_slice(&[(unique - 1) as u8, 0, 0, 0, 0, 0, 0, 0]);
        }
    }
    finish(input, &pointers, instruction_data)
}

/// The accounts of a list.
fn views(accounts: &AccountList<'_>) -> Vec<AccountView> {
    (0..accounts.len()).map(|i| accounts.get(i)).collect()
}

/// The place of an account's borrow state, the first byte of its header.
fn borrow_state(account: &AccountView, memory: &InputRegion<'_>) -> usize {
    (account.raw - memory.base) as usize
}

/// Marks an account as mutably borrowed, unless it is borrowed already.
fn try_borrow_mut(account: &AccountView, memory: &mut InputRegion<'_>) -> ProgramResult {
    let state = borrow_state(account, memory);
    if memory.bytes[state] != NOT_BORROWED {
        return Err(ProgramError::AccountBorrowFailed);
    }
    memory.bytes[state] = 0;
    Ok(())
}

/// Ends a mutable borrow.
fn release(account: &AccountView, memory: &mut InputRegion<'_>) {
    let state = borrow_state(account, memory);
    memory.bytes[state] = NOT_BORROWED;
}

/// Asserts that each account's data length matches its index.
fn assert_accounts(
    program_id: &Address,
    accounts: AccountList<'_>,
    instruction_data: &[u8],
    memory: InputRegion<'_>,
) -> ProgramResult {
    assert!(program_id == &Address::new_from_array(MOCK_PROGRAM_ID));

    for i in 0..accounts.len() {
        assert_eq!(accounts.get(i).data_len(&memory), i as u64);
    }

    assert_eq!(instruction_data, &MOCK_INSTRUCTION_DATA);

    Ok(())
}

/// Asserts that each account's data length matches its index for unique
/// accounts, and that duplicated accounts reference the last unique account.
fn assert_duplicated_accounts(
    program_id: &Address,
    accounts: AccountList<'_>,
    instruction_data: &[u8],
    mut memory: InputRegion<'_>,
) -> ProgramResult {
    assert!(program_id == &Address::new_from_array(MOCK_PROGRAM_ID));

    if accounts.len() > 0 {
        // Half of the accounts are duplicated.
        let unique = accounts.len() / 2;

        // Unique accounts should have `data_len` equal to their index.
        for i in 0..unique {
            assert_eq!(accounts.get(i).data_len(&memory), i as u64);
        }

        // Last unique account.
        let last_unique = &accounts.get(unique - 1);

        // No mutable borrow active at this point.
        assert!(try_borrow_mut(last_unique, &mut memory).is_ok());
        release(last_unique, &mut memory);

        // Duplicated accounts should reference (share) the last unique account.
        for i in unique..accounts.len() {
            let account = &accounts.get(i);
            assert_eq!(account, last_unique);
            assert_eq!(account.data_len(&memory), last_unique.data_len(&memory));

            try_borrow_mut(account, &mut memory).unwrap();
            // Only one mutable borrow at the same time should be allowed on the
            // duplicated account.
            assert!(try_borrow_mut(last_unique, &mut memory).is_err());
            release(account, &mut memory);
        }

        // There should not be any mutable borrow on the duplicated account at
        // this point.
        assert!(try_borrow_mut(last_unique, &mut memory).is_ok());
    }

    assert_eq!(instruction_data, &MOCK_INSTRUCTION_DATA);

    Ok(())
}

#[test]
fn test_process_entrypoint() {
    // Input with 0 accounts.

    let (mut program_input, mut instruction_data) = create_input(0, &MOCK_INSTRUCTION_DATA);
    assert_eq!(
        process_entrypoint(region(&mut program_input), &mut instruction_data, assert_accounts),
        0
    );

    // Input with 3 accounts.

    let (mut program_input, mut instruction_data) = create_input(3, &MOCK_INSTRUCTION_DATA);
    assert_eq!(
        process_entrypoint(region(&mut program_input), &mut instruction_data, assert_accounts),
        0
    );

    // Input with `MAX_TX_ACCOUNTS` accounts.

    let (mut program_input, mut instruction_data) =
        create_input(MAX_TX_ACCOUNTS, &MOCK_INSTRUCTION_DATA);
    assert_eq!(
        process_entrypoint(region(&mut program_input), &mut instruction_data, assert_accounts),
        0
    );
}

#[test]
fn test_deserialize_duplicated() {
    // Input with 0 accounts.

    let (mut program_input, mut instruction_data) =
        create_input_with_duplicates(0, &MOCK_INSTRUCTION_DATA, 0);
    assert_eq!(
        process_entrypoint(
            region(&mut program_input),
            &mut instruction_data,
            assert_duplicated_accounts
        ),
        0
    );

    // Input with 64 (32 duplicated) accounts.

    let (mut program_input, mut instruction_data) =
        create_input_with_duplicates(64, &MOCK_INSTRUCTION_DATA, 32);
    assert_eq!(
        process_entrypoint(
            region(&mut program_input),
            &mut instruction_data,
            assert_duplicated_accounts
        ),
        0
    );

    // Input with 250 (125 duplicated) accounts.

    let (mut program_input, mut instruction_data) =
        create_input_with_duplicates(250, &MOCK_INSTRUCTION_DATA, 125);
    assert_eq!(
        process_entrypoint(
            region(&mut program_input),
            &mut instruction_data,
            assert_duplicated_accounts
        ),
        0
    );
}

#[test]
fn sizes_agree_with_the_account_types() {
    assert_eq!(
        ACCOUNT_HEADER_SIZE,
        size_of::<solana_account_view::RuntimeAccount>()
    );
    assert_eq!(ADDRESS_SIZE, size_of::<solana_address::Address>());
    assert_eq!(
        MAX_PERMITTED_DATA_INCREASE,
        solana_account_view::MAX_PERMITTED_DATA_INCREASE
    );
    assert_eq!(STATIC_ACCOUNT_DATA, 10_328);
    assert_eq!(NON_DUP_MARKER, NOT_BORROWED);
}

#[test]
fn the_result_of_the_processor_is_reported() {
    let (mut program_input, mut instruction_data) = create_input(1, &[]);
    let code = process_entrypoint(region(&mut program_input), &mut instruction_data, |_, _, _, _| {
        Err(ProgramError::IllegalOwner)
    });
    assert_eq!(code, 18 << 32);

    let code = process_entrypoint(region(&mut program_input), &mut instruction_data, |_, _, _, _| {
        Err(ProgramError::Custom(7))
    });
    assert_eq!(code, 7);

    let code = process_entrypoint(region(&mut program_input), &mut instruction_data, |_, _, _, _| {
        Err(ProgramError::Custom(0))
    });
    assert_eq!(code, 1 << 32);

    let code = process_entrypoint(region(&mut program_input), &mut instruction_data, |_, _, _, _| Ok(()));
    assert_eq!(code, 0);
}

#[test]
fn what_the_processor_writes_stays_in_the_input() {
    let (mut program_input, mut instruction_data) = create_input(2, &[1, 2, 3]);
    let code = process_entrypoint(
        region(&mut program_input),
        &mut instruction_data,
        |_, accounts, data, memory| {
            let lamports = (accounts.get(1).raw - memory.base) as usize + 72;
            memory.bytes[lamports] = data[2];
            Ok(())
        },
    );
    assert_eq!(code, 0);
    assert_eq!(program_input[8 + STATIC_ACCOUNT_DATA + 8 + 72], 3);
}

#[test]
fn instruction_data_of_any_length_is_given_back() {
    for len in 0..20u8 {
        let data: Vec<u8> = (0..len).collect();
        let (mut program_input, mut instruction_data) = create_input_with_duplicates(3, &data, 1);
        let parameters = deserialize(&region(&mut program_input), &mut instruction_data);
        assert_eq!(parameters.instruction_data, &data);
        assert_eq!(parameters.program_id.as_array(), &MOCK_PROGRAM_ID);
        let first = INPUT_START + 8;
        let second = first + STATIC_ACCOUNT_DATA as u64 + 8;
        assert_eq!(
            views(&parameters.accounts),
            vec![
                AccountView { raw: first },
                AccountView { raw: second },
                AccountView { raw: second }
            ]
        );
    }
}

#[test]
fn views_of_different_accounts_are_apart() {
    let (mut program_input, mut instruction_data) = create_input(5, &[]);
    let accounts = views(&deserialize(&region(&mut program_input), &mut instruction_data).accounts);
    for i in 1..5 {
        let room = (STATIC_ACCOUNT_DATA + 8 + align(i - 1)) as u64;
        assert_eq!(accounts[i].raw, accounts[i - 1].raw + room);
    }
}

#[test]
fn list_of_accounts_is_aligned() {
    assert_eq!(account_list_address(0x4_0000_0010, 0), 0x4_0000_0030);
    assert_eq!(account_list_address(0x4_0000_0010, 1), 0x4_0000_0038);
    assert_eq!(account_list_address(0x4_0000_0010, 7), 0x4_0000_0038);
    assert_eq!(account_list_address(0x4_0000_0010, 8), 0x4_0000_0038);
    assert_eq!(account_list_address(0x4_0000_0010, 100), 0x4_0000_0098);
}

#[test]
fn inline_input_has_the_parameters() {
    let (mut program_input, mut instruction_data) = create_input(4, &MOCK_INSTRUCTION_DATA);
    let mut input = ProgramInput::new_unchecked(&region(&mut program_input), &mut instruction_data);
    assert_eq!(input.instruction_data, &MOCK_INSTRUCTION_DATA);
    assert_eq!(input.available, 4);
    assert_eq!(input.program_id().as_array(), &MOCK_PROGRAM_ID);

    let accounts = views(&input.accounts::<3>().unwrap());
    assert_eq!(accounts.len(), 3);
    for (i, account) in accounts.iter().enumerate() {
        assert_eq!(account.data_len(&region(&mut program_input)), i as u64);
    }
    assert_eq!(input.accounts::<0>().unwrap().len(), 0);
    assert_eq!(input.accounts::<4>().unwrap().len(), 4);
}

#[test]
fn inline_input_refuses_more_accounts_than_it_has() {
    let (mut program_input, mut instruction_data) = create_input(2, &[]);
    let mut input = ProgramInput::new_unchecked(&region(&mut program_input), &mut instruction_data);
    assert_eq!(
        input.accounts::<3>().err(),
        Some(ProgramError::NotEnoughAccountKeys)
    );
    assert_eq!(
        input.accounts::<MAX_INLINE_ACCOUNTS>().err(),
        Some(ProgramError::NotEnoughAccountKeys)
    );
    assert!(input.accounts::<2>().is_ok());

    // Fewer accounts may be made available.
    input.available = 1;
    assert_eq!(
        input.accounts::<2>().err(),
        Some(ProgramError::NotEnoughAccountKeys)
    );
    assert_eq!(input.accounts::<1>().unwrap().len(), 1);
}

#[test]
fn changes_to_the_accounts_last() {
    let (mut program_input, mut instruction_data) = create_input(3, &[]);
    let mut input = ProgramInput::new_unchecked(&region(&mut program_input), &mut instruction_data);
    let mut accounts = input.accounts::<2>().unwrap();
    let (first, second) = (accounts.get(0), accounts.get(1));
    accounts.set(0, second);
    accounts.set(1, first);
    let lens: Vec<u64> = views(&input.accounts::<3>().unwrap())
        .iter()
        .map(|account| account.data_len(&region(&mut program_input)))
        .collect();
    assert_eq!(lens, vec![1, 0, 2]);

    // The list lies in the input, where the next reader finds the change.
    let accounts = deserialize(&region(&mut program_input), &mut instruction_data).accounts;
    assert_eq!(accounts.get(0), second);
    assert_eq!(accounts.get(1), first);
    assert_eq!(accounts.get(2).data_len(&region(&mut program_input)), 2);
}

#[test]
fn a_processor_that_reorders_accounts_changes_the_input() {
    let (mut program_input, mut instruction_data) = create_input(3, &[1, 2, 3]);
    let before = instruction_data.clone();
    let code = process_entrypoint(
        region(&mut program_input),
        &mut instruction_data,
        |_, mut accounts, _, _| {
            let (first, last) = (accounts.get(0), accounts.get(2));
            accounts.set(0, last);
            accounts.set(2, first);
            Ok(())
        },
    );
    assert_eq!(code, 0);
    let list = before.len() - 24;
    assert_eq!(instruction_data[..list], before[..list]);
    assert_eq!(instruction_data[list..list + 8], before[list + 16..]);
    assert_eq!(
        instruction_data[list + 8..list + 16],
        before[list + 8..list + 16]
    );
    assert_eq!(instruction_data[list + 16..], before[list..list + 8]);
}

#[test]
fn the_inline_processor_changes_the_input_too() {
    let (mut program_input, mut instruction_data) = create_input(2, &[]);
    let code = process_inline_entrypoint(
        region(&mut program_input),
        &mut instruction_data,
        |mut input, _| {
            let mut accounts = input.accounts::<2>()?;
            let last = accounts.get(1);
            accounts.set(0, last);
            Ok(())
        },
    );
    assert_eq!(code, 0);
    let accounts = deserialize(&region(&mut program_input), &mut instruction_data).accounts;
    assert_eq!(accounts.get(0), accounts.get(1));
    assert_eq!(accounts.get(0).data_len(&region(&mut program_input)), 1);
}

/// The four bytes of padding in the header of an account.
fn padding(account: &AccountView, memory: &InputRegion<'_>) -> u32 {
    let at = (account.raw - memory.base) as usize + 4;
    u32::from_le_bytes(memory.bytes[at..at + 4].try_into().unwrap())
}

#[test]
fn resize_records_the_data_lengths() {
    let (mut program_input, mut instruction_data) = create_input(12, &[]);
    let before = program_input.clone();
    let mut input = ProgramInput::new_unchecked(&region(&mut program_input), &mut instruction_data);
    let accounts = views(&input.accounts_for_resize::<10>(&mut region(&mut program_input)).unwrap());
    assert_eq!(accounts.len(), 10);
    for (i, account) in accounts.iter().enumerate() {
        assert_eq!(padding(account, &region(&mut program_input)), i as u32);
        assert_eq!(account.data_len(&region(&mut program_input)), i as u64);
    }
    // Only the padding has changed, and only that of the first ten accounts.
    let mut after = program_input.clone();
    for account in &accounts {
        let at = (account.raw - INPUT_START) as usize + 4;
        after[at..at + 4].fill(0);
    }
    assert_eq!(after, before);
    assert_eq!(padding(&input.accounts.get(10), &region(&mut program_input)), 0);

    // A second time changes nothing.
    let once = program_input.clone();
    assert!(input
        .accounts_for_resize::<10>(&mut region(&mut program_input))
        .is_ok());
    assert_eq!(program_input, once);
}

#[test]
fn resize_records_three_two_one_and_no_accounts() {
    let (mut program_input, mut instruction_data) = create_input(4, &[]);
    let untouched = program_input.clone();
    let mut input = ProgramInput::new_unchecked(&region(&mut program_input), &mut instruction_data);
    assert!(input.accounts_for_resize::<0>(&mut region(&mut program_input)).is_ok());
    assert_eq!(program_input, untouched);
    assert!(input.accounts_for_resize::<1>(&mut region(&mut program_input)).is_ok());
    assert_eq!(padding(&input.accounts.get(1), &region(&mut program_input)), 0);
    assert!(input.accounts_for_resize::<2>(&mut region(&mut program_input)).is_ok());
    assert_eq!(padding(&input.accounts.get(1), &region(&mut program_input)), 1);
    assert_eq!(padding(&input.accounts.get(2), &region(&mut program_input)), 0);
    assert!(input.accounts_for_resize::<3>(&mut region(&mut program_input)).is_ok());
    assert_eq!(padding(&input.accounts.get(2), &region(&mut program_input)), 2);
    assert_eq!(padding(&input.accounts.get(3), &region(&mut program_input)), 0);
}

#[test]
fn resize_keeps_the_low_half_of_a_data_length() {
    let (mut program_input, mut instruction_data) = create_input(1, &[]);
    program_input[88..96].copy_from_slice(&0x1_2345_6789u64.to_le_bytes());
    let mut input = ProgramInput::new_unchecked(&region(&mut program_input), &mut instruction_data);
    assert!(input.accounts_for_resize::<1>(&mut region(&mut program_input)).is_ok());
    assert_eq!(padding(&input.accounts.get(0), &region(&mut program_input)), 0x2345_6789);
    assert_eq!(
        input.accounts.get(0).data_len(&region(&mut program_input)),
        0x1_2345_6789
    );
}

#[test]
fn resize_records_a_duplicate_once() {
    let (mut program_input, mut instruction_data) = create_input_with_duplicates(3, &[], 1);
    let mut input = ProgramInput::new_unchecked(&region(&mut program_input), &mut instruction_data);
    assert!(input.accounts_for_resize::<3>(&mut region(&mut program_input)).is_ok());
    assert_eq!(padding(&input.accounts.get(1), &region(&mut program_input)), 1);
    assert_eq!(padding(&input.accounts.get(2), &region(&mut program_input)), 1);
}

#[test]
fn resize_of_too_many_accounts_leaves_the_input_alone() {
    let (mut program_input, mut instruction_data) = create_input(2, &[]);
    let before = program_input.clone();
    let mut input = ProgramInput::new_unchecked(&region(&mut program_input), &mut instruction_data);
    assert_eq!(
        input.accounts_for_resize::<3>(&mut region(&mut program_input)).err(),
        Some(ProgramError::NotEnoughAccountKeys)
    );
    assert_eq!(program_input, before);
}

/// Chooses how many accounts to take from the instruction data.
fn process_inline(mut input: ProgramInput<'_>, memory: InputRegion<'_>) -> ProgramResult {
    match input.instruction_data.first() {
        Some(&0) => {
            assert_eq!(input.accounts::<3>()?.get(2).data_len(&memory), 2);
            Ok(())
        }
        _ => Err(ProgramError::InvalidInstructionData),
    }
}

#[test]
fn inline_entrypoint_reports_the_result() {
    let (mut program_input, mut instruction_data) = create_input(3, &[0]);
    assert_eq!(
        process_inline_entrypoint(region(&mut program_input), &mut instruction_data, process_inline),
        0
    );
    let (mut program_input, mut instruction_data) = create_input(3, &[1]);
    assert_eq!(
        process_inline_entrypoint(region(&mut program_input), &mut instruction_data, process_inline),
        3 << 32
    );
    let (mut program_input, mut instruction_data) = create_input(2, &[0]);
    assert_eq!(
        process_inline_entrypoint(region(&mut program_input), &mut instruction_data, process_inline),
        11 << 32
    );
}

#[test]
fn both_entrypoints_find_the_same() {
    let (mut program_input, mut instruction_data) = create_input_with_duplicates(6, &[9; 11], 2);
    let mut copy = instruction_data.clone();
    let parameters = deserialize(&region(&mut program_input), &mut copy);
    let input = ProgramInput::new_unchecked(&region(&mut program_input), &mut instruction_data);
    assert_eq!(input.instruction_data, parameters.instruction_data);
    assert_eq!(input.program_id(), &parameters.program_id);
    assert_eq!(views(&input.accounts), views(&parameters.accounts));
}
