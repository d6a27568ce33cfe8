use pinocchio::align::{align_address, align_to};
use pinocchio::bytes::{read_u64, write_u32, write_u64};
use pinocchio::error::{
    not_enough_account_keys, program_error_to_u64, program_result_to_u64, u64_to_program_error,
};
use solana_program_error::ProgramError;

/// Every error, with the number under which the runtime knows it.
fn builtin_errors() -> Vec<(u64, ProgramError)> {
    vec![
        (1, ProgramError::Custom(0)),
        (2, ProgramError::InvalidArgument),
        (3, ProgramError::InvalidInstructionData),
        (4, ProgramError::InvalidAccountData),
        (5, ProgramError::AccountDataTooSmall),
        (6, ProgramError::InsufficientFunds),
        (7, ProgramError::IncorrectProgramId),
        (8, ProgramError::MissingRequiredSignature),
        (9, ProgramError::AccountAlreadyInitialized),
        (10, ProgramError::UninitializedAccount),
        (11, ProgramError::NotEnoughAccountKeys),
        (12, ProgramError::AccountBorrowFailed),
        (13, ProgramError::MaxSeedLengthExceeded),
        (14, ProgramError::InvalidSeeds),
        (15, ProgramError::BorshIoError),
        (16, ProgramError::AccountNotRentExempt),
        (17, ProgramError::UnsupportedSysvar),
        (18, ProgramError::IllegalOwner),
        (19, ProgramError::MaxAccountsDataAllocationsExceeded),
        (20, ProgramError::InvalidRealloc),
        (21, ProgramError::MaxInstructionTraceLengthExceeded),
        (22, ProgramError::BuiltinProgramsMustConsumeComputeUnits),
        (23, ProgramError::InvalidAccountOwner),
        (24, ProgramError::ArithmeticOverflow),
        (25, ProgramError::Immutable),
        (26, ProgramError::IncorrectAuthority),
    ]
}

#[test]
fn errors_have_their_codes() {
    for (number, error) in builtin_errors() {
        assert_eq!(program_error_to_u64(error.clone()), number << 32);
        assert_eq!(u64_to_program_error(number << 32), error);
    }
    assert_eq!(program_error_to_u64(ProgramError::Custom(1)), 1);
    assert_eq!(
        program_error_to_u64(ProgramError::Custom(u32::MAX)),
        0xFFFF_FFFF
    );
}

#[test]
fn codes_give_the_errors_back() {
    for number in [0, 1, 5, u32::MAX] {
        let error = ProgramError::Custom(number);
        assert_eq!(u64_to_program_error(program_error_to_u64(error.clone())), error);
    }
    // Codes under which no error is reported.
    assert_eq!(u64_to_program_error(0), ProgramError::Custom(0));
    assert_eq!(u64_to_program_error(27 << 32), ProgramError::Custom(0));
    assert_eq!(
        u64_to_program_error((2 << 32) + 9),
        ProgramError::Custom(9)
    );
}

#[test]
fn results_have_their_codes() {
    assert_eq!(program_result_to_u64(Ok(())), 0);
    for (number, error) in builtin_errors() {
        assert_eq!(program_result_to_u64(Err(error)), number << 32);
    }
}

#[test]
fn missing_accounts_have_an_error() {
    assert_eq!(not_enough_account_keys(), ProgramError::NotEnoughAccountKeys);
}

#[test]
fn words_are_little_endian() {
    let bytes = [0, 1, 2, 3, 4, 5, 6, 7, 8, 9];
    assert_eq!(read_u64(&bytes, 1), 0x0807_0605_0403_0201);
    assert_eq!(read_u64(&[0xFF; 8], 0), u64::MAX);
    let mut bytes = vec![9; 7];
    write_u32(&mut bytes, 2, 0x0102_0304);
    assert_eq!(bytes, vec![9, 9, 4, 3, 2, 1, 9]);
    let mut bytes = vec![9; 10];
    write_u64(&mut bytes, 1, 0x0102_0304_0506_0708);
    assert_eq!(bytes, vec![9, 8, 7, 6, 5, 4, 3, 2, 1, 9]);
}

#[test]
fn addresses_are_aligned_upwards() {
    assert_eq!(align_address(0), 0);
    assert_eq!(align_address(1), 8);
    assert_eq!(align_address(8), 8);
    assert_eq!(align_address(u64::MAX - 7), u64::MAX - 7);
    assert_eq!(align_to(0x1001, 1), 0x1001);
    assert_eq!(align_to(0x1001, 64), 0x1040);
    assert_eq!(align_to(0x1040, 64), 0x1040);
}
