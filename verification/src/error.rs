//! The result of a program and the code under which the runtime reports it.

use solana_program_error::ProgramError;
use vstd::prelude::*;

verus! {

/// What an instruction processor returns.
pub type ProgramResult = Result<(), ProgramError>;

/// The code that tells the runtime that a program succeeded.
pub const SUCCESS: u64 = 0;

/// `solana_program_error::ProgramError`, with its variants.
#[verifier::external_type_specification]
pub struct ExProgramError(solana_program_error::ProgramError);

/// A code of the runtime's own errors: the number of the error in the upper
/// half of the word, nothing in the lower half.
pub open spec fn builtin_code(number: nat) -> nat {
    number * 0x1_0000_0000
}

/// The code under which an error is reported. An error of the program's own is
/// reported by its number; number zero has a code of its own, since zero means
/// success.
pub open spec fn error_code(error: ProgramError) -> nat {
    match error {
        ProgramError::Custom(number) => if number == 0 {
            builtin_code(1)
        } else {
            number as nat
        },
        ProgramError::InvalidArgument => builtin_code(2),
        ProgramError::InvalidInstructionData => builtin_code(3),
        ProgramError::InvalidAccountData => builtin_code(4),
        ProgramError::AccountDataTooSmall => builtin_code(5),
        ProgramError::InsufficientFunds => builtin_code(6),
        ProgramError::IncorrectProgramId => builtin_code(7),
        ProgramError::MissingRequiredSignature => builtin_code(8),
        ProgramError::AccountAlreadyInitialized => builtin_code(9),
        ProgramError::UninitializedAccount => builtin_code(10),
        ProgramError::NotEnoughAccountKeys => builtin_code(11),
        ProgramError::AccountBorrowFailed => builtin_code(12),
        ProgramError::MaxSeedLengthExceeded => builtin_code(13),
        ProgramError::InvalidSeeds => builtin_code(14),
        ProgramError::BorshIoError => builtin_code(15),
        ProgramError::AccountNotRentExempt => builtin_code(16),
        ProgramError::UnsupportedSysvar => builtin_code(17),
        ProgramError::IllegalOwner => builtin_code(18),
        ProgramError::MaxAccountsDataAllocationsExceeded => builtin_code(19),
        ProgramError::InvalidRealloc => builtin_code(20),
        ProgramError::MaxInstructionTraceLengthExceeded => builtin_code(21),
        ProgramError::BuiltinProgramsMustConsumeComputeUnits => builtin_code(22),
        ProgramError::InvalidAccountOwner => builtin_code(23),
        ProgramError::ArithmeticOverflow => builtin_code(24),
        ProgramError::Immutable => builtin_code(25),
        ProgramError::IncorrectAuthority => builtin_code(26),
    }
}

/// The code under which a result is reported.
pub open spec fn result_code(result: ProgramResult) -> nat {
    match result {
        Ok(_) => SUCCESS as nat,
        Err(error) => error_code(error),
    }
}

/// A result is reported as success exactly if the processor succeeded.
pub proof fn law_success_means_ok(result: ProgramResult)
    ensures
        result_code(result) == SUCCESS <==> result is Ok,
{
}

/// Two errors that are reported alike are the same error.
pub proof fn law_codes_tell_errors_apart(one: ProgramError, other: ProgramError)
    ensures
        error_code(one) == error_code(other) ==> one == other,
{
}

/// A program's own error is reported by its number, whatever the number, unless
/// it is zero; that one and the runtime's own errors are reported by a number in
/// the upper half of the code, with nothing in the lower half.
pub proof fn law_codes_of_errors(error: ProgramError)
    ensures
        match error {
            ProgramError::Custom(number) => {
                &&& number != 0 ==> error_code(error) == number
                &&& number == 0 ==> error_code(error) == 0x1_0000_0000
            },
            _ => {
                &&& error_code(error) % 0x1_0000_0000 == 0
                &&& 0x2_0000_0000 <= error_code(error) <= 0x1A_0000_0000
            },
        },
{
}

/// The runtime's own errors are numbered in the order of their declaration.
pub proof fn law_codes_are_numbered(error: ProgramError)
    ensures
        error is InvalidArgument ==> error_code(error) == 0x2_0000_0000,
        error is InvalidInstructionData ==> error_code(error) == 0x3_0000_0000,
        error is InvalidAccountData ==> error_code(error) == 0x4_0000_0000,
        error is AccountDataTooSmall ==> error_code(error) == 0x5_0000_0000,
        error is InsufficientFunds ==> error_code(error) == 0x6_0000_0000,
        error is IncorrectProgramId ==> error_code(error) == 0x7_0000_0000,
        error is MissingRequiredSignature ==> error_code(error) == 0x8_0000_0000,
        error is AccountAlreadyInitialized ==> error_code(error) == 0x9_0000_0000,
        error is UninitializedAccount ==> error_code(error) == 0xA_0000_0000,
        error is NotEnoughAccountKeys ==> error_code(error) == 0xB_0000_0000,
        error is AccountBorrowFailed ==> error_code(error) == 0xC_0000_0000,
        error is MaxSeedLengthExceeded ==> error_code(error) == 0xD_0000_0000,
        error is InvalidSeeds ==> error_code(error) == 0xE_0000_0000,
        error is BorshIoError ==> error_code(error) == 0xF_0000_0000,
        error is AccountNotRentExempt ==> error_code(error) == 0x10_0000_0000,
        error is UnsupportedSysvar ==> error_code(error) == 0x11_0000_0000,
        error is IllegalOwner ==> error_code(error) == 0x12_0000_0000,
        error is MaxAccountsDataAllocationsExceeded ==> error_code(error) == 0x13_0000_0000,
        error is InvalidRealloc ==> error_code(error) == 0x14_0000_0000,
        error is MaxInstructionTraceLengthExceeded ==> error_code(error) == 0x15_0000_0000,
        error is BuiltinProgramsMustConsumeComputeUnits ==> error_code(error) == 0x16_0000_0000,
        error is InvalidAccountOwner ==> error_code(error) == 0x17_0000_0000,
        error is ArithmeticOverflow ==> error_code(error) == 0x18_0000_0000,
        error is Immutable ==> error_code(error) == 0x19_0000_0000,
        error is IncorrectAuthority ==> error_code(error) == 0x1A_0000_0000,
{
}

/// A failure is reported under the code of its error, a success as zero.
pub proof fn law_result_is_reported(result: ProgramResult)
    ensures
        result is Ok ==> result_code(result) == 0,
        result matches Err(error) ==> result_code(result) == error_code(error),
        result matches Err(ProgramError::Custom(number)) ==> number > 0 ==> result_code(result)
            == number,
{
}

/// Two results that are reported alike are the same result.
pub proof fn law_codes_tell_results_apart(one: ProgramResult, other: ProgramResult)
    ensures
        result_code(one) == result_code(other) ==> one == other,
{
    match (one, other) {
        (Ok(one), Ok(other)) => {
            assert(one == other);
        },
        (Err(one), Err(other)) => {
            law_codes_tell_errors_apart(one, other);
        },
        _ => {},
    }
}

/// Whether `error` is the one that a code stands for: the error that is reported
/// under the code, or, if none is, the program's own error with the number in
/// the lower half of the code.
pub open spec fn stands_for(code: u64, error: ProgramError) -> bool {
    ||| error_code(error) == code
    ||| {
        &&& forall|other: ProgramError| #[trigger] error_code(other) != code
        &&& error == ProgramError::Custom((code % 0x1_0000_0000) as u32)
    }
}

/// A code stands for the error that was reported under it, and for no other.
pub proof fn law_code_gives_error_back(error: ProgramError, code: u64, found: ProgramError)
    requires
        code == error_code(error),
    ensures
        stands_for(code, found) <==> found == error,
{
    law_codes_tell_errors_apart(error, found);
}

/// A code under which no error is reported stands for the program's own error
/// with the number in the lower half of the code, and for no other.
pub proof fn law_other_codes_give_their_number(code: u64, found: ProgramError)
    requires
        forall|error: ProgramError| #[trigger] error_code(error) != code,
    ensures
        stands_for(code, found) <==> found == ProgramError::Custom((code % 0x1_0000_0000) as u32),
{
}

/// `u64::from`, the conversion of `solana_program_error::ProgramError` into a
/// `u64`: it returns the code of the error, as `error_code` gives it.
#[verifier::external_body]
fn error_into_u64(error: ProgramError) -> (code: u64)
    ensures
        code == error_code(error),
{
    error.into()
}

/// Converts a `ProgramError` into the `u64` that the runtime is given.
pub fn program_error_to_u64(error: ProgramError) -> (code: u64)
    ensures
        code == error_code(error),
        code != SUCCESS,
        error matches ProgramError::Custom(number) ==> number != 0 ==> code == number,
{
    error_into_u64(error)
}

/// `ProgramError::from`, the conversion of a `u64` into a
/// `solana_program_error::ProgramError`: it returns the error that the code
/// stands for, as `stands_for` tells.
#[verifier::external_body]
fn error_from_u64(code: u64) -> (error: ProgramError)
    ensures
        stands_for(code, error),
{
    code.into()
}

/// The `ProgramError` that a code which the runtime was given stands for.
pub fn u64_to_program_error(code: u64) -> (error: ProgramError)
    ensures
        stands_for(code, error),
        forall|reported: ProgramError| #[trigger] error_code(reported) == code ==> error == reported,
{
    let error = error_from_u64(code);
    proof {
        assert forall|reported: ProgramError| #[trigger] error_code(reported) == code implies error
            == reported by {
            law_code_gives_error_back(reported, code, error);
        }
    }
    error
}

/// Converts the result of a processor into the `u64` that the runtime is given.
pub fn program_result_to_u64(result: ProgramResult) -> (code: u64)
    ensures
        code == result_code(result),
        code == 0 <==> result is Ok,
        result matches Err(error) ==> code == error_code(error),
        result matches Err(ProgramError::Custom(number)) ==> number != 0 ==> code == number,
{
    match result {
        Ok(_) => SUCCESS,
        Err(error) => program_error_to_u64(error),
    }
}

/// The error for an instruction that needs more accounts than it was given.
pub fn not_enough_account_keys() -> (error: ProgramError)
    ensures
        error == ProgramError::NotEnoughAccountKeys,
{
    ProgramError::NotEnoughAccountKeys
}

} // verus!
