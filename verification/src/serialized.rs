//! What the loader serializes, and what a program gets back from it.
//!
//! The functions of this module describe the input of a program as the loader
//! builds it. The laws say that the entrypoints find in such an input what was
//! put into it.

use crate::account::{
    entries, Region, ACCOUNT_HEADER_SIZE, ADDRESS_SIZE, MAX_PERMITTED_DATA_INCREASE, NON_DUP_MARKER,
    PADDING_OFFSET, STATIC_ACCOUNT_DATA,
};
use crate::bytes::{le_bytes, le_value, window};
use crate::entrypoint::{
    account_count, account_list_of, account_list_offset, accounts_of, instruction_len,
    instruction_of, processor_arguments, program_id_of, valid_input,
};
use crate::entrypoint::inline::{
    in_padding, inline_arguments, law_recording_stores_lengths, recorded, ProgramInput,
};
use vstd::arithmetic::power::pow;
use vstd::prelude::*;

verus! {

/// An account, as the loader serializes it.
pub struct Account {
    pub is_signer: u8,
    pub is_writable: u8,
    pub executable: u8,
    pub padding: Seq<u8>,
    pub address: Seq<u8>,
    pub owner: Seq<u8>,
    pub lamports: u64,
    pub data: Seq<u8>,
    /// The room for the data to grow and the bytes that align what follows.
    pub spare: Seq<u8>,
    pub rent_epoch: u64,
}

impl Account {
    /// Whether the parts of the account have their sizes.
    pub open spec fn wf(self) -> bool {
        &&& self.padding.len() == 4
        &&& self.address.len() == ADDRESS_SIZE
        &&& self.owner.len() == ADDRESS_SIZE
        &&& MAX_PERMITTED_DATA_INCREASE <= self.spare.len() < MAX_PERMITTED_DATA_INCREASE + 8
        &&& (self.data.len() + self.spare.len()) % 8 == 0
    }

    /// The header of the account.
    pub open spec fn header(self) -> Seq<u8> {
        seq![NON_DUP_MARKER, self.is_signer, self.is_writable, self.executable] + self.padding
            + self.address + self.owner + le_bytes(self.lamports as nat, 8) + le_bytes(
            self.data.len(),
            8,
        )
    }

    /// The account in the input.
    pub open spec fn bytes(self) -> Seq<u8> {
        self.header() + self.data + self.spare + le_bytes(self.rent_epoch as nat, 8)
    }
}

/// An account of an instruction: one that was not given before, or the index of
/// the one that it duplicates.
pub enum Slot {
    Unique(Account),
    Duplicate { index: u8, padding: Seq<u8> },
}

impl Slot {
    /// The slot in the input.
    pub open spec fn bytes(self) -> Seq<u8> {
        match self {
            Slot::Unique(account) => account.bytes(),
            Slot::Duplicate { index, padding } => seq![index] + padding,
        }
    }
}

/// The slots in the input, one after the other.
pub open spec fn slots_bytes(slots: Seq<Slot>) -> Seq<u8>
    decreases slots.len(),
{
    if slots.len() == 0 {
        Seq::empty()
    } else {
        slots_bytes(slots.drop_last()) + slots.last().bytes()
    }
}

/// A list of words in the input, one after the other.
pub open spec fn words_bytes(words: Seq<nat>) -> Seq<u8>
    decreases words.len(),
{
    if words.len() == 0 {
        Seq::empty()
    } else {
        words_bytes(words.drop_last()) + le_bytes(words.last(), 8)
    }
}

/// The input of a program.
pub struct Input {
    /// The address at which the input starts.
    pub base: u64,
    pub slots: Seq<Slot>,
    pub instruction_data: Seq<u8>,
    pub program_id: Seq<u8>,
    /// The bytes that align the list of accounts.
    pub fill: Seq<u8>,
}

impl Input {
    /// Whether slot `i` is valid: an account whose parts have their sizes, or
    /// the duplicate of an account before it.
    pub open spec fn valid_slot(self, i: int) -> bool {
        match self.slots[i] {
            Slot::Unique(account) => account.wf(),
            Slot::Duplicate { index, padding } => {
                &&& index < i
                &&& self.slots[index as int] is Unique
                &&& padding.len() == 7
            },
        }
    }

    /// Whether this is an input that the loader can build: aligned, within the
    /// range of an address, and made of valid slots.
    pub open spec fn wf(self) -> bool {
        &&& self.base % 8 == 0
        &&& forall|i: int| 0 <= i < self.slots.len() ==> #[trigger] self.valid_slot(i)
        &&& self.program_id.len() == ADDRESS_SIZE
        &&& self.fill.len() < 8
        &&& (self.front().len() + self.instruction_data.len() + ADDRESS_SIZE + self.fill.len()) % 8
            == 0
        &&& self.base + self.front().len() + self.back().len() <= u64::MAX
    }

    /// The part of the input in front of the instruction data.
    pub open spec fn front(self) -> Seq<u8> {
        le_bytes(self.slots.len(), 8) + slots_bytes(self.slots) + le_bytes(
            self.instruction_data.len(),
            8,
        )
    }

    /// The instruction data and what follows it.
    pub open spec fn back(self) -> Seq<u8> {
        self.instruction_data + self.program_id + self.fill + words_bytes(self.addresses())
    }

    /// The index of the account that slot `i` stands for: its own, unless it is
    /// a duplicate.
    pub open spec fn account_index(self, i: int) -> int {
        match self.slots[i] {
            Slot::Unique(_) => i,
            Slot::Duplicate { index, .. } => index as int,
        }
    }

    /// The account that slot `i` stands for.
    pub open spec fn account(self, i: int) -> Account {
        self.slots[self.account_index(i)]->Unique_0
    }

    /// Where slot `i` starts, in bytes from the start of the input on.
    pub open spec fn slot_offset(self, i: int) -> int {
        8 + slots_bytes(self.slots.take(i)).len() as int
    }

    /// The addresses of the accounts' headers.
    pub open spec fn addresses(self) -> Seq<nat> {
        Seq::new(
            self.slots.len(),
            |i: int| (self.base + self.slot_offset(self.account_index(i))) as nat,
        )
    }

    /// Whether these two parts are this input in the program's memory.
    pub open spec fn placed(self, program_input: Region, instruction_data: Seq<u8>) -> bool {
        &&& program_input.base == self.base
        &&& program_input.bytes == self.front()
        &&& instruction_data == self.back()
    }
}

/// The size of an account's header.
proof fn lemma_header_len(account: Account)
    requires
        account.wf(),
    ensures
        account.header().len() == ACCOUNT_HEADER_SIZE,
        account.bytes().len() == ACCOUNT_HEADER_SIZE + account.data.len() + account.spare.len() + 8,
{
    crate::bytes::lemma_le_bytes_len(account.lamports as nat, 8);
    crate::bytes::lemma_le_bytes_len(account.data.len(), 8);
    crate::bytes::lemma_le_bytes_len(account.rent_epoch as nat, 8);
}

/// The size of a slot: a multiple of eight bytes, and no less than eight.
proof fn lemma_slot_len(input: Input, i: int)
    requires
        0 <= i < input.slots.len(),
        input.valid_slot(i),
    ensures
        input.slots[i].bytes().len() >= 8,
        input.slots[i].bytes().len() % 8 == 0,
        input.slots[i] is Unique ==> input.slots[i].bytes().len() >= STATIC_ACCOUNT_DATA
            + input.slots[i]->Unique_0.data.len() + 8,
{
    match input.slots[i] {
        Slot::Unique(account) => {
            lemma_header_len(account);
        },
        Slot::Duplicate { .. } => {},
    }
}

/// A slot lies at its offset among the slots, and the next one after it.
proof fn lemma_slot_at(input: Input, n: int, i: int)
    requires
        0 <= i < n <= input.slots.len(),
        forall|k: int| 0 <= k < input.slots.len() ==> #[trigger] input.valid_slot(k),
    ensures
        0 <= input.slot_offset(i) - 8,
        input.slot_offset(i + 1) == input.slot_offset(i) + input.slots[i].bytes().len(),
        input.slot_offset(i + 1) <= input.slot_offset(n),
        window(
            slots_bytes(input.slots.take(n)),
            input.slot_offset(i) - 8,
            input.slots[i].bytes().len() as int,
        ) == input.slots[i].bytes(),
    decreases n,
{
    let slots = input.slots.take(n);
    assert(slots.drop_last() =~= input.slots.take(n - 1));
    assert(slots.last() == input.slots[n - 1]);
    let front = slots_bytes(input.slots.take(n - 1));
    let last = input.slots[n - 1].bytes();
    assert(slots_bytes(slots) == front + last);
    if i == n - 1 {
        assert(window(front + last, front.len() as int, last.len() as int) =~= last);
    } else {
        lemma_slot_at(input, n - 1, i);
        let at = input.slot_offset(i) - 8;
        let len = input.slots[i].bytes().len() as int;
        assert(window(front + last, at, len) =~= window(front, at, len));
    }
}

/// The slots take at least eight bytes each.
proof fn lemma_slots_len(input: Input, n: int)
    requires
        0 <= n <= input.slots.len(),
        forall|k: int| 0 <= k < input.slots.len() ==> #[trigger] input.valid_slot(k),
    ensures
        slots_bytes(input.slots.take(n)).len() >= 8 * n,
    decreases n,
{
    if n > 0 {
        lemma_slots_len(input, n - 1);
        assert(input.slots.take(n).drop_last() =~= input.slots.take(n - 1));
        assert(input.valid_slot(n - 1));
        lemma_slot_len(input, n - 1);
    }
}

/// A word lies at its place in a list of words.
proof fn lemma_word_at(words: Seq<nat>, i: int)
    requires
        0 <= i < words.len(),
    ensures
        words_bytes(words).len() == 8 * words.len(),
        window(words_bytes(words), 8 * i, 8) == le_bytes(words[i], 8),
    decreases words.len(),
{
    let front = words_bytes(words.drop_last());
    let last = le_bytes(words.last(), 8);
    crate::bytes::lemma_le_bytes_len(words.last(), 8);
    lemma_words_len(words.drop_last());
    if i < words.len() - 1 {
        lemma_word_at(words.drop_last(), i);
        assert(window(front + last, 8 * i, 8) =~= window(front, 8 * i, 8));
    } else {
        assert(window(front + last, 8 * i, 8) =~= last);
    }
}

/// A list of words takes eight bytes for each.
proof fn lemma_words_len(words: Seq<nat>)
    ensures
        words_bytes(words).len() == 8 * words.len(),
    decreases words.len(),
{
    if words.len() > 0 {
        lemma_words_len(words.drop_last());
        crate::bytes::lemma_le_bytes_len(words.last(), 8);
    }
}

/// The words of an input hold what was put into them.
proof fn lemma_counts(input: Input, program_input: Region, instruction_data: Seq<u8>)
    requires
        input.wf(),
        input.placed(program_input, instruction_data),
    ensures
        account_count(program_input) == input.slots.len(),
        instruction_len(program_input) == input.instruction_data.len(),
        program_input.bytes.len() == 16 + slots_bytes(input.slots).len(),
        account_list_offset(program_input) == input.instruction_data.len() + ADDRESS_SIZE
            + input.fill.len(),
        valid_input(program_input, instruction_data),
{
    let count = le_bytes(input.slots.len(), 8);
    let slots = slots_bytes(input.slots);
    let len = le_bytes(input.instruction_data.len(), 8);
    crate::bytes::lemma_word_ranges();
    crate::bytes::lemma_le_bytes_len(input.slots.len(), 8);
    crate::bytes::lemma_le_bytes_len(input.instruction_data.len(), 8);
    lemma_slots_len(input, input.slots.len() as int);
    assert(input.slots.take(input.slots.len() as int) =~= input.slots);
    crate::bytes::law_le_round_trip(input.slots.len(), 8);
    crate::bytes::law_le_round_trip(input.instruction_data.len(), 8);
    let front = count + slots + len;
    assert(window(front, 0, 8) =~= count);
    assert(window(front, front.len() - 8, 8) =~= len);
    lemma_words_len(input.addresses());
}

/// The slots of an input follow each other from byte 8 on, and the length of the
/// instruction data follows them. A duplicate takes eight bytes. An account takes
/// 88 bytes for its header, its data with 10240 bytes of room to grow and up to
/// seven more that align what follows, and eight bytes.
pub proof fn law_slots_follow_each_other(input: Input, i: int)
    requires
        input.wf(),
        0 <= i < input.slots.len(),
    ensures
        input.slot_offset(0) == 8,
        input.slot_offset(i + 1) - input.slot_offset(i) == match input.slots[i] {
            Slot::Unique(account) => 88 + account.data.len() + account.spare.len() + 8,
            Slot::Duplicate { .. } => 8,
        },
        input.slots[i] matches Slot::Unique(account) ==> 10240 <= account.spare.len() < 10248,
        input.slot_offset(i) % 8 == 0,
        input.slot_offset(input.slots.len() as int) + 8 == input.front().len(),
    decreases i,
{
    let n = input.slots.len() as int;
    assert(input.valid_slot(i));
    assert(input.slots.take(0) =~= Seq::empty());
    assert(input.slots.take(n) =~= input.slots);
    lemma_slot_at(input, n, i);
    crate::bytes::lemma_le_bytes_len(input.slots.len(), 8);
    crate::bytes::lemma_le_bytes_len(input.instruction_data.len(), 8);
    match input.slots[i] {
        Slot::Unique(account) => {
            lemma_header_len(account);
        },
        Slot::Duplicate { .. } => {},
    }
    if i > 0 {
        law_slots_follow_each_other(input, i - 1);
        assert(input.valid_slot(i - 1));
        lemma_slot_at(input, n, i - 1);
        lemma_slot_len(input, i - 1);
    }
}

/// What a program gets is what the loader was given: the instruction data, the
/// address of the program, and as many accounts as there were, each at the
/// address of its header; the view of a duplicate is the view of the account
/// that it duplicates.
pub proof fn law_deserialize_gives_back(
    input: Input,
    program_input: Region,
    instruction_data: Seq<u8>,
)
    requires
        input.wf(),
        input.placed(program_input, instruction_data),
    ensures
        valid_input(program_input, instruction_data),
        instruction_of(program_input, instruction_data) == input.instruction_data,
        program_id_of(program_input, instruction_data) == input.program_id,
        accounts_of(program_input, instruction_data).len() == input.slots.len(),
        forall|i: int|
            0 <= i < input.slots.len() ==> (#[trigger] accounts_of(
                program_input,
                instruction_data,
            )[i]).raw == input.base + input.slot_offset(input.account_index(i)),
{
    lemma_counts(input, program_input, instruction_data);
    assert(account_list_of(program_input, instruction_data) =~= words_bytes(input.addresses())) by {
        lemma_words_len(input.addresses());
    }
    assert(instruction_of(program_input, instruction_data) =~= input.instruction_data);
    assert(program_id_of(program_input, instruction_data) =~= input.program_id);
    assert forall|i: int| 0 <= i < input.slots.len() implies (#[trigger] accounts_of(
        program_input,
        instruction_data,
    )[i]).raw == input.base + input.slot_offset(input.account_index(i)) by {
        assert(input.valid_slot(i));
        lemma_word_at(input.addresses(), i);
        let address = input.addresses()[i];
        lemma_slot_at(input, input.slots.len() as int, input.account_index(i));
        assert(input.slots.take(input.slots.len() as int) =~= input.slots);
        crate::bytes::lemma_word_ranges();
        crate::bytes::law_le_round_trip(address, 8);
    }
}

/// The arguments of a processor are what the loader was given: all of the
/// instruction data, the address of the program, and a list with one entry for
/// each account, which is the address of the account's header.
pub proof fn law_processor_gets_what_was_given(
    input: Input,
    program_input: Region,
    instruction_data: Seq<u8>,
    program_id: Seq<u8>,
    accounts: Seq<u8>,
    instruction: Seq<u8>,
)
    requires
        input.wf(),
        input.placed(program_input, instruction_data),
        processor_arguments(program_input, instruction_data, program_id, accounts, instruction),
    ensures
        instruction == input.instruction_data,
        program_id == input.program_id,
        entries(accounts).len() == input.slots.len(),
        accounts.len() == 8 * input.slots.len(),
        forall|i: int|
            0 <= i < input.slots.len() ==> (#[trigger] entries(accounts)[i]).raw == input.base
                + input.slot_offset(input.account_index(i)),
{
    law_deserialize_gives_back(input, program_input, instruction_data);
    lemma_counts(input, program_input, instruction_data);
}

/// The parameters of an inline processor are what the loader was given: every
/// account is available and has its entry in the list, and the instruction data
/// and the address of the program are there as a whole.
pub proof fn law_inline_processor_gets_what_was_given(
    input: Input,
    program_input: Region,
    instruction_data: Seq<u8>,
    parameters: ProgramInput<'_>,
)
    requires
        input.wf(),
        input.placed(program_input, instruction_data),
        inline_arguments(program_input, instruction_data, parameters),
    ensures
        parameters.available == input.slots.len(),
        parameters.accounts@.len() == input.slots.len(),
        parameters.instruction_data@ == input.instruction_data,
        parameters.program_id@ == input.program_id,
        forall|i: int|
            0 <= i < input.slots.len() ==> (#[trigger] parameters.accounts@[i]).raw == input.base
                + input.slot_offset(input.account_index(i)),
{
    law_deserialize_gives_back(input, program_input, instruction_data);
    lemma_counts(input, program_input, instruction_data);
}

/// Through the view of an account a program finds the account's header and its
/// data as the loader was given them, in memory that belongs to the input.
pub proof fn law_accounts_read_back(
    input: Input,
    program_input: Region,
    instruction_data: Seq<u8>,
    i: int,
)
    requires
        input.wf(),
        input.placed(program_input, instruction_data),
        0 <= i < input.slots.len(),
    ensures
        ({
            let view = accounts_of(program_input, instruction_data)[i];
            let account = input.account(i);
            let at = view.raw - program_input.base;
            &&& view.within(program_input)
            &&& view.raw + STATIC_ACCOUNT_DATA + account.data.len() + 8 <= program_input.end()
            &&& window(program_input.bytes, at, ACCOUNT_HEADER_SIZE as int) == account.header()
            &&& window(
                program_input.bytes,
                at + ACCOUNT_HEADER_SIZE,
                account.data.len() as int,
            ) == account.data
            &&& view.data_len_in(program_input.base as int, program_input.bytes)
                == account.data.len()
        }),
{
    law_deserialize_gives_back(input, program_input, instruction_data);
    lemma_counts(input, program_input, instruction_data);
    assert(input.valid_slot(i));
    let k = input.account_index(i);
    assert(input.valid_slot(k));
    let view = accounts_of(program_input, instruction_data)[i];
    let account = input.account(i);
    let at = view.raw - program_input.base;
    assert(input.slots.take(input.slots.len() as int) =~= input.slots);
    lemma_slot_at(input, input.slots.len() as int, k);
    lemma_slot_len(input, k);
    lemma_header_len(account);
    crate::bytes::lemma_le_bytes_len(input.slots.len(), 8);
    let slots = slots_bytes(input.slots);
    let bytes = account.bytes();
    let len = bytes.len() as int;
    assert(window(program_input.bytes, at, len) =~= window(slots, at - 8, len));
    assert(window(program_input.bytes, at, len) == bytes);
    assert(window(program_input.bytes, at, ACCOUNT_HEADER_SIZE as int) =~= account.header()) by {
        assert forall|j: int| 0 <= j < ACCOUNT_HEADER_SIZE implies program_input.bytes[at + j]
            == account.header()[j] by {
            assert(window(program_input.bytes, at, len)[j] == bytes[j]);
        }
    }
    assert(window(
        program_input.bytes,
        at + ACCOUNT_HEADER_SIZE,
        account.data.len() as int,
    ) =~= account.data) by {
        assert forall|j: int| 0 <= j < account.data.len() implies program_input.bytes[at
            + ACCOUNT_HEADER_SIZE + j] == account.data[j] by {
            assert(window(program_input.bytes, at, len)[ACCOUNT_HEADER_SIZE + j]
                == bytes[ACCOUNT_HEADER_SIZE + j]);
        }
    }
    let word = le_bytes(account.data.len(), 8);
    crate::bytes::lemma_le_bytes_len(account.lamports as nat, 8);
    crate::bytes::lemma_le_bytes_len(account.data.len(), 8);
    assert(window(program_input.bytes, at + 80, 8) =~= word) by {
        assert forall|j: int| 0 <= j < 8 implies program_input.bytes[at + 80 + j] == word[j] by {
            assert(window(program_input.bytes, at, len)[80 + j] == account.header()[80 + j]);
        }
    }
    crate::bytes::lemma_word_ranges();
    crate::bytes::law_le_round_trip(account.data.len(), 8);
}

/// Through the view of an account a program finds each part of the account in its
/// place: the marker, the three flags, four bytes of padding, the address, the
/// owner, the lamports, the length of the data, and the data.
pub proof fn law_parts_of_accounts_are_found(
    input: Input,
    program_input: Region,
    instruction_data: Seq<u8>,
    i: int,
)
    requires
        input.wf(),
        input.placed(program_input, instruction_data),
        0 <= i < input.slots.len(),
    ensures
        ({
            let account = input.account(i);
            let at = accounts_of(program_input, instruction_data)[i].raw - program_input.base;
            let bytes = program_input.bytes;
            &&& 0 <= at && at + 88 + account.data.len() + 10240 <= bytes.len()
            &&& bytes[at] == 255
            &&& bytes[at + 1] == account.is_signer
            &&& bytes[at + 2] == account.is_writable
            &&& bytes[at + 3] == account.executable
            &&& bytes.subrange(at + 4, at + 8) == account.padding
            &&& bytes.subrange(at + 8, at + 40) == account.address
            &&& bytes.subrange(at + 40, at + 72) == account.owner
            &&& forall|k: int|
                0 <= k < 8 ==> account.lamports as int / #[trigger] pow(256, k as nat) % 256
                    == bytes[at + 72 + k]
            &&& forall|k: int|
                0 <= k < 8 ==> account.data.len() as int / #[trigger] pow(256, k as nat) % 256
                    == bytes[at + 80 + k]
            &&& bytes.subrange(at + 88, at + 88 + account.data.len()) == account.data
        }),
{
    law_accounts_read_back(input, program_input, instruction_data, i);
    assert(input.valid_slot(i));
    assert(input.valid_slot(input.account_index(i)));
    let account = input.account(i);
    let at = accounts_of(program_input, instruction_data)[i].raw - program_input.base;
    let bytes = program_input.bytes;
    let header = account.header();
    crate::bytes::law_encoding_is_digits(account.lamports as nat, 8);
    crate::bytes::law_encoding_is_digits(account.data.len(), 8);
    assert forall|k: int| 0 <= k < 88 implies #[trigger] bytes[at + k] == header[k] by {
        assert(window(bytes, at, ACCOUNT_HEADER_SIZE as int)[k] == header[k]);
    }
    assert(bytes[at + 0] == header[0]);
    assert(bytes.subrange(at + 4, at + 8) =~= account.padding) by {
        assert forall|k: int| 0 <= k < 4 implies bytes[at + 4 + k] == account.padding[k] by {
            assert(bytes[at + (4 + k)] == header[4 + k]);
        }
    }
    assert(bytes.subrange(at + 8, at + 40) =~= account.address) by {
        assert forall|k: int| 0 <= k < 32 implies bytes[at + 8 + k] == account.address[k] by {
            assert(bytes[at + (8 + k)] == header[8 + k]);
        }
    }
    assert(bytes.subrange(at + 40, at + 72) =~= account.owner) by {
        assert forall|k: int| 0 <= k < 32 implies bytes[at + 40 + k] == account.owner[k] by {
            assert(bytes[at + (40 + k)] == header[40 + k]);
        }
    }
    assert forall|k: int| 0 <= k < 8 implies account.lamports as int / #[trigger] pow(
        256,
        k as nat,
    ) % 256 == bytes[at + 72 + k] by {
        assert(bytes[at + (72 + k)] == header[72 + k]);
    }
    assert forall|k: int| 0 <= k < 8 implies account.data.len() as int / #[trigger] pow(
        256,
        k as nat,
    ) % 256 == bytes[at + 80 + k] by {
        assert(bytes[at + (80 + k)] == header[80 + k]);
    }
}

/// The first byte of a slot tells whether the slot is a duplicate, and of which
/// account.
pub proof fn law_marker_tells_duplicates(input: Input, program_input: Region, i: int)
    requires
        input.wf(),
        program_input.bytes == input.front(),
        input.slots.len() <= NON_DUP_MARKER + 1,
        0 <= i < input.slots.len(),
    ensures
        ({
            let marker = program_input.bytes[input.slot_offset(i)];
            &&& marker == NON_DUP_MARKER <==> input.slots[i] is Unique
            &&& input.slots[i] is Duplicate ==> marker == input.account_index(i)
        }),
{
    assert(input.valid_slot(i));
    assert(input.slots.take(input.slots.len() as int) =~= input.slots);
    lemma_slot_at(input, input.slots.len() as int, i);
    lemma_slot_len(input, i);
    crate::bytes::lemma_le_bytes_len(input.slots.len(), 8);
    let slots = slots_bytes(input.slots);
    let bytes = input.slots[i].bytes();
    let at = input.slot_offset(i);
    assert(program_input.bytes[at] == slots[at - 8]);
    assert(window(slots, at - 8, bytes.len() as int)[0] == bytes[0]);
}

/// Views are equal exactly if they stand for the same account; views of
/// different accounts are far enough apart for the header, the data and the
/// room for the data to grow.
pub proof fn law_views_tell_accounts_apart(
    input: Input,
    program_input: Region,
    instruction_data: Seq<u8>,
    i: int,
    j: int,
)
    requires
        input.wf(),
        input.placed(program_input, instruction_data),
        0 <= i < input.slots.len(),
        0 <= j < input.slots.len(),
    ensures
        ({
            let one = accounts_of(program_input, instruction_data)[i];
            let other = accounts_of(program_input, instruction_data)[j];
            &&& one == other <==> input.account_index(i) == input.account_index(j)
            &&& input.account_index(i) < input.account_index(j) ==> one.raw + STATIC_ACCOUNT_DATA
                + input.account(i).data.len() + 8 <= other.raw
        }),
{
    law_deserialize_gives_back(input, program_input, instruction_data);
    assert(input.valid_slot(i));
    assert(input.valid_slot(j));
    let one = input.account_index(i);
    let other = input.account_index(j);
    if one < other {
        assert(input.valid_slot(one));
        lemma_slot_len(input, one);
        lemma_slot_at(input, other, one);
    } else if other < one {
        assert(input.valid_slot(other));
        lemma_slot_len(input, other);
        lemma_slot_at(input, one, other);
    }
}

/// Recording the data lengths of the first `n` accounts leaves the length of
/// each one's data in the padding of its header, to be read as a four byte word,
/// and leaves everything else in the input as it was.
pub proof fn law_resize_finds_original_lengths(
    input: Input,
    program_input: Region,
    instruction_data: Seq<u8>,
    n: int,
)
    requires
        input.wf(),
        input.placed(program_input, instruction_data),
        0 <= n <= input.slots.len(),
    ensures
        ({
            let base = program_input.base as int;
            let accounts = accounts_of(program_input, instruction_data).take(n);
            let after = recorded(base, program_input.bytes, accounts);
            &&& after.len() == program_input.bytes.len()
            &&& forall|i: int|
                0 <= i < n ==> le_value(
                    window(after, (#[trigger] accounts[i]).raw - base + PADDING_OFFSET, 4),
                ) == input.account(i).data.len() % 0x1_0000_0000
            &&& forall|k: int|
                0 <= k < after.len() && !in_padding(base, accounts, k) ==> #[trigger] after[k]
                    == program_input.bytes[k]
        }),
{
    let base = program_input.base as int;
    let bytes = program_input.bytes;
    let all = accounts_of(program_input, instruction_data);
    let accounts = all.take(n);
    law_deserialize_gives_back(input, program_input, instruction_data);
    assert forall|i: int| 0 <= i < accounts.len() implies (#[trigger] accounts[i]).header_in(
        base,
        bytes.len() as int,
    ) by {
        law_accounts_read_back(input, program_input, instruction_data, i);
    }
    assert forall|i: int, j: int| 0 <= i < accounts.len() && 0 <= j < accounts.len() implies (
    #[trigger] accounts[i]).same_or_apart(#[trigger] accounts[j]) by {
        law_views_tell_accounts_apart(input, program_input, instruction_data, i, j);
        law_views_tell_accounts_apart(input, program_input, instruction_data, j, i);
    }
    law_recording_stores_lengths(base, bytes, accounts);
    crate::bytes::lemma_word_ranges();
    assert forall|i: int| 0 <= i < n implies le_value(
        window(
            recorded(base, bytes, accounts),
            (#[trigger] accounts[i]).raw - base + PADDING_OFFSET,
            4,
        ),
    ) == input.account(i).data.len() % 0x1_0000_0000 by {
        law_accounts_read_back(input, program_input, instruction_data, i);
        crate::bytes::law_le_round_trip(input.account(i).data.len() % 0x1_0000_0000, 4);
    }
}

} // verus!
