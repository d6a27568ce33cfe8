//! Addresses, and accounts as they lie in the memory of a program's input.

use crate::bytes::{le_bytes, le_value, overwrite, read_u64, window, write_u32, write_u64};
use vstd::arithmetic::power::pow;
use vstd::prelude::*;

verus! {

/// The number of bytes of an address.
pub const ADDRESS_SIZE: usize = 32;

/// The number of bytes of an account's header, which the account's data
/// follows.
pub const ACCOUNT_HEADER_SIZE: usize = 88;

/// Maximum number of bytes a program may add to an account during a single
/// instruction.
pub const MAX_PERMITTED_DATA_INCREASE: usize = 10240;

/// The "static" size of an account in the input buffer: the size of the account
/// header plus the maximum permitted data increase.
pub const STATIC_ACCOUNT_DATA: usize = ACCOUNT_HEADER_SIZE + MAX_PERMITTED_DATA_INCREASE;

/// Value used to indicate that a serialized account is not a duplicate.
pub const NON_DUP_MARKER: u8 = u8::MAX;

/// Where the header of an account has its four bytes of padding.
pub const PADDING_OFFSET: usize = 4;

/// Where the header of an account has the length of the account's data.
pub const DATA_LEN_OFFSET: usize = 80;

/// The address of an account.
#[derive(Clone, Copy, Debug, PartialEq, Eq)]
pub struct Address {
    bytes: [u8; 32],
}

impl View for Address {
    type V = Seq<u8>;

    closed spec fn view(&self) -> Seq<u8> {
        self.bytes@
    }
}

impl Address {
    /// The address with the given bytes.
    pub fn new_from_array(bytes: [u8; 32]) -> (address: Self)
        ensures
            address@ == bytes@,
    {
        Address { bytes }
    }

    /// The bytes of the address.
    pub fn as_array(&self) -> (bytes: &[u8; 32])
        ensures
            bytes@ == self@,
    {
        &self.bytes
    }

    /// The address that the first bytes of a buffer hold.
    pub fn read(bytes: &[u8]) -> (address: Self)
        requires
            bytes@.len() >= ADDRESS_SIZE,
        ensures
            address@ == bytes@.take(ADDRESS_SIZE as int),
            address@ == bytes@.subrange(0, 32),
    {
        let mut copy: [u8; 32] = [0u8;32];
        let mut i: usize = 0;
        while i < ADDRESS_SIZE
            invariant
                i <= ADDRESS_SIZE,
                bytes@.len() >= ADDRESS_SIZE,
                forall|k: int| 0 <= k < i ==> copy@[k] == bytes@[k],
            decreases ADDRESS_SIZE - i,
        {
            copy[i] = bytes[i];
            i += 1;
        }
        assert(copy@ =~= bytes@.take(ADDRESS_SIZE as int));
        Address { bytes: copy }
    }
}

/// A stretch of the program's memory, with the address of its first byte.
///
/// The part of the input in front of the instruction data is such a region: it
/// holds the number of accounts, the accounts, and the length of the
/// instruction data.
#[derive(Debug)]
pub struct InputRegion<'a> {
    pub base: u64,
    pub bytes: &'a mut [u8],
}

/// What a stretch of memory holds, and the address of its first byte.
#[verifier::ext_equal]
pub struct Region {
    pub base: u64,
    pub bytes: Seq<u8>,
}

impl<'a> View for InputRegion<'a> {
    type V = Region;

    open spec fn view(&self) -> Region {
        Region { base: self.base, bytes: self.bytes@ }
    }
}

impl Region {
    /// The address after the last byte.
    pub open spec fn end(self) -> int {
        self.base + self.bytes.len()
    }
}

/// A list of accounts in the input: eight bytes for each, which hold the address
/// of the account's header. The list lies in the input, and so does whatever is
/// written to it.
#[derive(Debug)]
pub struct AccountList<'a> {
    pub bytes: &'a mut [u8],
}

/// The accounts that a list in the input refers to.
pub open spec fn entries(list: Seq<u8>) -> Seq<AccountView> {
    Seq::new(
        list.len() / 8,
        |i: int| AccountView { raw: le_value(window(list, 8 * i, 8)) as u64 },
    )
}

impl<'a> View for AccountList<'a> {
    type V = Seq<AccountView>;

    open spec fn view(&self) -> Seq<AccountView> {
        entries(self.bytes@)
    }
}

/// A list has an entry for every eight bytes, and they are the digits of the
/// address of the account's header, in base 256 and with the lowest one first.
pub proof fn law_entries_are_addresses(list: Seq<u8>)
    ensures
        entries(list).len() == list.len() / 8,
        forall|i: int, k: int|
            0 <= i < list.len() / 8 && 0 <= k < 8 ==> (#[trigger] entries(list)[i]).raw as int
                / #[trigger] pow(256, k as nat) % 256 == list[8 * i + k],
{
    assert forall|i: int, k: int| 0 <= i < list.len() / 8 && 0 <= k < 8 implies (
    #[trigger] entries(list)[i]).raw as int / #[trigger] pow(256, k as nat) % 256 == list[8 * i
        + k] by {
        let word = window(list, 8 * i, 8);
        crate::bytes::law_bytes_are_digits(word);
        crate::bytes::law_le_value_determines_bytes(word);
        crate::bytes::lemma_word_ranges();
        assert(word[k] == list[8 * i + k]);
    }
}

/// A list shows the accounts that its bytes refer to.
pub proof fn law_list_shows_its_entries(list: AccountList<'_>)
    ensures
        list@ == entries(old(list.bytes)@),
{
}

/// A region shows its own bytes and its own base.
pub proof fn law_region_shows_its_bytes(region: InputRegion<'_>)
    ensures
        region@.base == region.base,
        region@.bytes == old(region.bytes)@,
        region@.end() == region.base + old(region.bytes)@.len(),
{
}

/// Writing the address of an account over an entry of a list makes the entry
/// refer to the account, and leaves the other entries alone.
pub proof fn law_entry_is_replaced(list: Seq<u8>, i: int, account: AccountView)
    requires
        0 <= i < entries(list).len(),
    ensures
        entries(overwrite(list, 8 * i, le_bytes(account.raw as nat, 8))) == entries(list).update(
            i,
            account,
        ),
{
    let word = le_bytes(account.raw as nat, 8);
    let after = overwrite(list, 8 * i, word);
    crate::bytes::lemma_word_ranges();
    crate::bytes::law_le_round_trip(account.raw as nat, 8);
    crate::bytes::lemma_overwrite_here(list, 8 * i, word);
    assert forall|k: int| 0 <= k < entries(list).len() && k != i implies entries(after)[k]
        == entries(list)[k] by {
        crate::bytes::lemma_overwrite_elsewhere(list, 8 * i, word, 8 * k, 8);
    }
    assert(entries(after) =~= entries(list).update(i, account));
}

impl<'a> AccountList<'a> {
    /// The number of accounts.
    pub fn len(&self) -> (len: usize)
        ensures
            len == self@.len(),
    {
        self.bytes.len() / 8
    }

    /// Account number `i`.
    pub fn get(&self, i: usize) -> (account: AccountView)
        requires
            i < self@.len(),
        ensures
            account == self@[i as int],
    {
        assert(self.bytes@.len() == self.bytes.len());
        AccountView { raw: read_u64(self.bytes, 8 * i) }
    }

    /// Makes entry `i` refer to `account`.
    pub fn set(&mut self, i: usize, account: AccountView)
        requires
            i < old(self)@.len(),
        ensures
            final(self)@ == old(self)@.update(i as int, account),
            final(self).bytes@ == overwrite(
                old(self).bytes@,
                8 * i,
                le_bytes(account.raw as nat, 8),
            ),
            final(final(self).bytes)@ == final(old(self).bytes)@,
    {
        proof {
            assert(self.bytes@.len() == self.bytes.len());
            law_entry_is_replaced(self.bytes@, i as int, account);
        }
        write_u64(self.bytes, 8 * i, account.raw);
    }

    /// The first `n` accounts, as a list that lies where this one does.
    pub fn first(&mut self, n: usize) -> (list: AccountList<'_>)
        requires
            n <= old(self)@.len(),
        ensures
            list@ == old(self)@.take(n as int),
            list.bytes@ == old(self).bytes@.take(8 * n),
            final(self).bytes@ == final(list.bytes)@ + old(self).bytes@.skip(8 * n),
            final(final(self).bytes)@ == final(old(self).bytes)@,
    {
        proof {
            assert(self.bytes@.len() == self.bytes.len());
            lemma_entries_of_prefix(self.bytes@, n as int);
        }
        let (list, _rest) = self.bytes.split_at_mut(8 * n);
        AccountList { bytes: list }
    }
}

/// The entries of the front of a list are the first entries of the list.
proof fn lemma_entries_of_prefix(list: Seq<u8>, n: int)
    requires
        0 <= n <= entries(list).len(),
    ensures
        entries(list.take(8 * n)) == entries(list).take(n),
{
    assert forall|k: int| 0 <= k < n implies entries(list.take(8 * n))[k] == entries(list)[k] by {
        assert(window(list.take(8 * n), 8 * k, 8) =~= window(list, 8 * k, 8));
    }
    assert(entries(list.take(8 * n)) =~= entries(list).take(n));
}

/// An account of the input: the address of its header. Views of the same
/// account are equal, and share the account's memory.
#[derive(Clone, Copy, Debug, PartialEq, Eq, Structural)]
pub struct AccountView {
    pub raw: u64,
}

impl AccountView {
    /// Whether the header of the account lies in `region`.
    pub open spec fn within(self, region: Region) -> bool {
        self.header_in(region.base as int, region.bytes.len() as int)
    }

    /// Whether the header of the account lies in the `len` bytes from `base` on.
    pub open spec fn header_in(self, base: int, len: int) -> bool {
        base <= self.raw && self.raw + ACCOUNT_HEADER_SIZE <= base + len
    }

    /// Whether two views are of the same account, or of accounts whose headers
    /// do not overlap.
    pub open spec fn same_or_apart(self, other: AccountView) -> bool {
        ||| self == other
        ||| self.raw + ACCOUNT_HEADER_SIZE <= other.raw
        ||| other.raw + ACCOUNT_HEADER_SIZE <= self.raw
    }

    /// The length of the account's data, in memory that starts at `base`.
    pub open spec fn data_len_in(self, base: int, bytes: Seq<u8>) -> nat {
        le_value(window(bytes, self.raw - base + DATA_LEN_OFFSET, 8))
    }

    /// The memory after the length of the account's data has been recorded in
    /// the padding of the account's header.
    pub open spec fn recorded_in(self, base: int, bytes: Seq<u8>) -> Seq<u8> {
        overwrite(
            bytes,
            self.raw - base + PADDING_OFFSET,
            le_bytes(self.data_len_in(base, bytes) % 0x1_0000_0000, 4),
        )
    }

    /// The header of an account lies in a region if all of its 88 bytes do.
    pub proof fn law_within_holds_the_header(self, region: Region)
        ensures
            self.within(region) <==> region.base <= self.raw && self.raw + 88 <= region.base
                + region.bytes.len(),
    {
    }

    /// The length of an account's data is the number of which the last eight
    /// bytes of the header are the digits, in base 256 and with the lowest one
    /// first.
    pub proof fn law_data_len_ends_the_header(self, base: int, bytes: Seq<u8>)
        requires
            base <= self.raw,
            self.raw + 88 <= base + bytes.len(),
        ensures
            self.data_len_in(base, bytes) <= u64::MAX,
            forall|k: int|
                0 <= k < 8 ==> self.data_len_in(base, bytes) as int / #[trigger] pow(256, k as nat)
                    % 256 == bytes[self.raw - base + 80 + k],
    {
        let word = window(bytes, self.raw - base + 80, 8);
        crate::bytes::law_bytes_are_digits(word);
        crate::bytes::law_le_value_determines_bytes(word);
        crate::bytes::lemma_word_ranges();
        assert forall|k: int| 0 <= k < 8 implies self.data_len_in(base, bytes) as int
            / #[trigger] pow(256, k as nat) % 256 == bytes[self.raw - base + 80 + k] by {
            assert(word[k] == bytes[self.raw - base + 80 + k]);
        }
    }

    /// Recording copies the four low bytes of the length of the data, which are
    /// bytes 80 to 83 of the header, to bytes 4 to 7 of the header, and changes
    /// no other byte.
    pub proof fn law_recording_copies_four_bytes(self, base: int, bytes: Seq<u8>)
        requires
            base <= self.raw,
            self.raw + 88 <= base + bytes.len(),
        ensures
            self.recorded_in(base, bytes).len() == bytes.len(),
            forall|p: int|
                0 <= p < bytes.len() ==> #[trigger] self.recorded_in(base, bytes)[p] == if self.raw
                    - base + 4 <= p < self.raw - base + 8 {
                    bytes[p + 76]
                } else {
                    bytes[p]
                },
    {
        let word = window(bytes, self.raw - base + 80, 8);
        crate::bytes::lemma_lower_half(word);
        assert forall|k: int| 0 <= k < 4 implies word.take(4)[k] == #[trigger] bytes[self.raw - base
            + 80 + k] by {}
    }

    /// Where the header of the account starts in `region`.
    fn offset(&self, region: &InputRegion<'_>) -> (at: usize)
        requires
            self.within(region@),
        ensures
            at == self.raw - region.base,
            at + ACCOUNT_HEADER_SIZE <= region@.bytes.len(),
            at + ACCOUNT_HEADER_SIZE <= usize::MAX,
    {
        assert(self.raw - region.base + ACCOUNT_HEADER_SIZE <= region.bytes.len());
        (self.raw - region.base) as usize
    }

    /// The length of the account's data.
    pub fn data_len(&self, region: &InputRegion<'_>) -> (len: u64)
        requires
            self.within(region@),
        ensures
            len == self.data_len_in(region.base as int, region@.bytes),
    {
        let at: usize = self.offset(region);
        read_u64(region.bytes, at + DATA_LEN_OFFSET)
    }

    /// Records the length of the account's data in the padding of its header,
    /// as a four byte word.
    pub fn store_original_data_len(&self, region: &mut InputRegion<'_>)
        requires
            self.within(old(region)@),
        ensures
            final(region).base == old(region).base,
            final(region).bytes@ == self.recorded_in(
                old(region).base as int,
                old(region).bytes@,
            ),
            final(final(region).bytes)@ == final(old(region).bytes)@,
    {
        let len: u64 = self.data_len(region);
        let at: usize = self.offset(region);
        let word: u32 = (len % 0x1_0000_0000) as u32;
        write_u32(region.bytes, at + PADDING_OFFSET, word);
    }
}

} // verus!
