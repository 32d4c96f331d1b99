//! A non-owning, read-only view of an IPv4 header inside a caller-owned
//! byte buffer: pure accessors for every fixed field, validation of the
//! declared header length, the variable-length options region, and the
//! header checksum in both compute and verify mode.

use vstd::prelude::*;
use vstd::slice::slice_subrange;
use crate::checksum::{
    checksum16, checksum_ok, fold_carry, lemma_checksum_zero_iff, lemma_corruption_detected,
    lemma_double_fold, lemma_words_sum_bounds, lemma_words_sum_shift, lemma_words_sum_split,
    lemma_words_sum_update, wide_word_sum, words_sum,
};
use crate::errors::TCPError;
use crate::protocol::{spec_classify, Protocol};
use vstd::arithmetic::div_mod::{
    lemma_fundamental_div_mod, lemma_mod_multiples_basic,
};

verus! {

/// Version field: the high nibble of octet 0.
pub open spec fn spec_version(b: Seq<u8>) -> int {
    (b[0] as int) / 16
}

/// Internet header length nibble: the low nibble of octet 0, counting
/// 32-bit words. Valid headers carry 5 to 15.
pub open spec fn spec_ihl_nibble(b: Seq<u8>) -> int {
    (b[0] as int) % 16
}

/// Declared header length in bytes: the IHL nibble times 4.
pub open spec fn spec_header_len(b: Seq<u8>) -> int {
    spec_ihl_nibble(b) * 4
}

/// Differentiated services code point: the high 6 bits of octet 1.
pub open spec fn spec_dscp(b: Seq<u8>) -> int {
    (b[1] as int) / 4
}

/// Explicit congestion notification: the low 2 bits of octet 1.
pub open spec fn spec_ecn(b: Seq<u8>) -> int {
    (b[1] as int) % 4
}

/// The 16-bit big-endian word at octets `i` and `i + 1`.
pub open spec fn spec_word16(b: Seq<u8>, i: int) -> int {
    (b[i] as int) * 256 + (b[i + 1] as int)
}

/// Total datagram length, header included: octets 2 and 3.
pub open spec fn spec_total_len(b: Seq<u8>) -> int {
    spec_word16(b, 2)
}

/// Identification field: octets 4 and 5.
pub open spec fn spec_ident(b: Seq<u8>) -> int {
    spec_word16(b, 4)
}

/// Don't-fragment flag: bit 1 of octet 6.
pub open spec fn spec_dont_fragment(b: Seq<u8>) -> bool {
    ((b[6] as int) / 64) % 2 == 1
}

/// More-fragments flag: bit 2 of octet 6.
pub open spec fn spec_more_fragments(b: Seq<u8>) -> bool {
    ((b[6] as int) / 32) % 2 == 1
}

/// Fragment offset in 8-byte units: the low 5 bits of octet 6 and all of
/// octet 7.
pub open spec fn spec_fragment_offset(b: Seq<u8>) -> int {
    ((b[6] as int) % 32) * 256 + (b[7] as int)
}

/// Time to live: octet 8.
pub open spec fn spec_ttl(b: Seq<u8>) -> int {
    b[8] as int
}

/// Protocol number of the enclosed payload: octet 9.
pub open spec fn spec_protocol_number(b: Seq<u8>) -> u8 {
    b[9]
}

/// Header checksum as received on the wire: octets 10 and 11.
pub open spec fn spec_header_checksum(b: Seq<u8>) -> int {
    spec_word16(b, 10)
}

/// The byte region the checksum ranges over: the fixed fields plus the
/// options, i.e. the first `spec_header_len(b)` bytes. In compute mode the
/// checksum field itself counts as zero; in verify mode it is included as
/// received.
pub open spec fn spec_checksum_input(b: Seq<u8>, include_checksum: bool) -> Seq<u8> {
    if include_checksum {
        b.subrange(0, spec_header_len(b))
    } else {
        b.subrange(0, spec_header_len(b)).update(10, 0).update(11, 0)
    }
}

/// The fixed 20 header bytes as they enter the checksum.
pub open spec fn spec_fixed_input(b: Seq<u8>, include_checksum: bool) -> Seq<u8> {
    if include_checksum {
        b.subrange(0, 20)
    } else {
        b.subrange(0, 20).update(10, 0).update(11, 0)
    }
}

/// The checksum that belongs in octets 10 and 11: computed over the header
/// with the checksum field treated as zero.
pub open spec fn spec_calculated_checksum(b: Seq<u8>) -> int {
    checksum16(words_sum(spec_checksum_input(b, false), 0))
}

/// Whether the header verifies: the sum over the full checksummed region,
/// received checksum included, complements to zero.
pub open spec fn spec_checksum_valid(b: Seq<u8>) -> bool {
    checksum_ok(spec_checksum_input(b, true))
}

/// A non-owning view into a byte range that starts at an IPv4 header.
///
/// Construction performs no validation and no copy; every field is a pure
/// function of the underlying bytes, recomputed on each access. The view
/// borrows the caller's buffer, so the buffer must not be reused for the
/// next receive while the view or anything derived from it is still read.
pub struct IPv4Header<'a> {
    raw_data: &'a [u8],
}

impl<'a> View for IPv4Header<'a> {
    type V = Seq<u8>;

    closed spec fn view(&self) -> Seq<u8> {
        self.raw_data@
    }
}

impl<'a> IPv4Header<'a> {
    /// The underlying slice covers at least the 20 fixed header bytes.
    pub open spec fn wf(&self) -> bool {
        self@.len() >= 20
    }

    /// Wraps a byte slice that begins at the candidate IPv4 header.
    pub fn new(data: &'a [u8]) -> (h: IPv4Header<'a>)
        requires
            data@.len() >= 20,
        ensures
            h@ == data@,
            h.wf(),
    {
        IPv4Header { raw_data: data }
    }

    /// IP version: the high nibble of octet 0 (4 for this decoder).
    pub fn version(&self) -> (v: u8)
        requires
            self.wf(),
        ensures
            v == spec_version(self@),
    {
        self.raw_data[0] / 16
    }

    /// Internet header length nibble. A nibble below 5 would declare a
    /// header shorter than the 20-byte minimum and is rejected.
    pub fn ihl(&self) -> (r: Result<u8, TCPError>)
        requires
            self.wf(),
        ensures
            r == (if spec_ihl_nibble(self@) < 5 {
                Err::<u8, TCPError>(TCPError::HeaderLengthInvalid)
            } else {
                Ok::<u8, TCPError>(spec_ihl_nibble(self@) as u8)
            }),
    {
        let nibble = self.raw_data[0] % 16;
        if nibble < 5 {
            Err(TCPError::HeaderLengthInvalid)
        } else {
            Ok(nibble)
        }
    }

    /// Differentiated services code point: the high 6 bits of octet 1.
    pub fn dscp(&self) -> (v: u8)
        requires
            self.wf(),
        ensures
            v == spec_dscp(self@),
    {
        self.raw_data[1] / 4
    }

    /// Explicit congestion notification: the low 2 bits of octet 1.
    pub fn ecn(&self) -> (v: u8)
        requires
            self.wf(),
        ensures
            v == spec_ecn(self@),
    {
        self.raw_data[1] % 4
    }

    /// Total datagram length in bytes, header included.
    pub fn total_len(&self) -> (v: u16)
        requires
            self.wf(),
        ensures
            v == spec_total_len(self@),
    {
        (self.raw_data[2] as u16) * 256 + (self.raw_data[3] as u16)
    }

    /// Identification field, shared by the fragments of one datagram.
    pub fn ident(&self) -> (v: u16)
        requires
            self.wf(),
        ensures
            v == spec_ident(self@),
    {
        (self.raw_data[4] as u16) * 256 + (self.raw_data[5] as u16)
    }

    /// Don't-fragment flag: bit 1 of octet 6.
    pub fn dont_fragment(&self) -> (v: bool)
        requires
            self.wf(),
        ensures
            v == spec_dont_fragment(self@),
    {
        (self.raw_data[6] / 64) % 2 == 1
    }

    /// More-fragments flag: bit 2 of octet 6.
    pub fn more_fragments(&self) -> (v: bool)
        requires
            self.wf(),
        ensures
            v == spec_more_fragments(self@),
    {
        (self.raw_data[6] / 32) % 2 == 1
    }

    /// Fragment offset in 8-byte units: the low 5 bits of octet 6 together
    /// with octet 7.
    pub fn fragment_offset(&self) -> (v: u16)
        requires
            self.wf(),
        ensures
            v == spec_fragment_offset(self@),
    {
        ((self.raw_data[6] % 32) as u16) * 256 + (self.raw_data[7] as u16)
    }

    /// Time to live: octet 8.
    pub fn ttl(&self) -> (v: u8)
        requires
            self.wf(),
        ensures
            v == spec_ttl(self@),
    {
        self.raw_data[8]
    }

    /// Classifies the protocol number in octet 9.
    pub fn protocol(&self) -> (p: Protocol)
        requires
            self.wf(),
        ensures
            p == spec_classify(spec_protocol_number(self@)),
    {
        Protocol::classify(self.raw_data[9])
    }

    /// The checksum as received on the wire, octets 10 and 11.
    pub fn ip_header_checksum(&self) -> (v: u16)
        requires
            self.wf(),
        ensures
            v == spec_header_checksum(self@),
    {
        (self.raw_data[10] as u16) * 256 + (self.raw_data[11] as u16)
    }

    /// The source address as its four raw octets, 12 to 15.
    pub fn source_address_raw(&self) -> (r: &'a [u8])
        requires
            self.wf(),
        ensures
            r@ == self@.subrange(12, 16),
    {
        slice_subrange(self.raw_data, 12, 16)
    }

    /// The destination address as its four raw octets, 16 to 19.
    pub fn destination_address_raw(&self) -> (r: &'a [u8])
        requires
            self.wf(),
        ensures
            r@ == self@.subrange(16, 20),
    {
        slice_subrange(self.raw_data, 16, 20)
    }

    /// Checks the malformed-header conditions in one place: a header-length
    /// nibble below 5 is `HeaderLengthInvalid`; a declared header length or
    /// total length that exceeds the bytes actually available is
    /// `FrameTruncated`. Afterwards every accessor, the options region
    /// included, is safe to call.
    pub fn validate(&self) -> (r: Result<(), TCPError>)
        requires
            self.wf(),
        ensures
            r == (if spec_ihl_nibble(self@) < 5 {
                Err::<(), TCPError>(TCPError::HeaderLengthInvalid)
            } else if spec_header_len(self@) > self@.len() || spec_total_len(self@)
                > self@.len() {
                Err::<(), TCPError>(TCPError::FrameTruncated)
            } else {
                Ok::<(), TCPError>(())
            }),
    {
        let nibble = self.raw_data[0] % 16;
        if nibble < 5 {
            return Err(TCPError::HeaderLengthInvalid);
        }
        let hlen: usize = (nibble as usize) * 4;
        let total = self.total_len();
        if hlen > self.raw_data.len() || (total as usize) > self.raw_data.len() {
            return Err(TCPError::FrameTruncated);
        }
        Ok(())
    }

    /// The options region, octets 20 up to the declared header length:
    /// empty when the IHL nibble is exactly 5, otherwise `(ihl - 5) * 4`
    /// bytes. Legal to call only once the header length has validated.
    pub fn options(&self) -> (r: &'a [u8])
        requires
            self.wf(),
            5 <= spec_ihl_nibble(self@),
            spec_header_len(self@) <= self@.len(),
        ensures
            r@ == self@.subrange(20, spec_header_len(self@)),
            r@.len() == (spec_ihl_nibble(self@) - 5) * 4,
    {
        let nibble: usize = (self.raw_data[0] % 16) as usize;
        slice_subrange(self.raw_data, 20, nibble * 4)
    }

    /// Sum of the 16-bit words of the 20 fixed header bytes. In verify mode
    /// the received checksum word is included; in compute mode it is left
    /// out, which sums it as zero.
    fn header_fields_sum(&self, verify: bool) -> (r: u32)
        requires
            self.wf(),
        ensures
            r == words_sum(spec_fixed_input(self@, verify), 0),
    {
        let d = self.raw_data;
        let mut res: u32 = (d[0] as u32) * 256 + (d[1] as u32) + (d[2] as u32) * 256 + (
        d[3] as u32) + (d[4] as u32) * 256 + (d[5] as u32) + (d[6] as u32) * 256 + (
        d[7] as u32) + (d[8] as u32) * 256 + (d[9] as u32) + (d[12] as u32) * 256 + (
        d[13] as u32) + (d[14] as u32) * 256 + (d[15] as u32) + (d[16] as u32) * 256 + (
        d[17] as u32) + (d[18] as u32) * 256 + (d[19] as u32);
        if verify {
            res = res + (d[10] as u32) * 256 + (d[11] as u32);
        }
        proof {
            let s = spec_fixed_input(self@, verify);
            assert(s.len() == 20);
            reveal_with_fuel(words_sum, 12);
            assert(res == words_sum(s, 0));
        }
        res
    }

    /// Sum of the 16-bit words of the options region.
    fn options_sum(&self) -> (r: u32)
        requires
            self.wf(),
            5 <= spec_ihl_nibble(self@),
            spec_header_len(self@) <= self@.len(),
        ensures
            r == words_sum(self@.subrange(20, spec_header_len(self@)), 0),
    {
        wide_word_sum(self.options())
    }

    /// Computes the checksum that belongs in octets 10 and 11: the sum over
    /// fixed fields (checksum counted as zero) and options, carries folded
    /// back in twice, complemented.
    pub fn calculate_checksum(&self) -> (r: u16)
        requires
            self.wf(),
            5 <= spec_ihl_nibble(self@),
            spec_header_len(self@) <= self@.len(),
        ensures
            r == spec_calculated_checksum(self@),
    {
        let mut res: u32 = self.header_fields_sum(false);
        let nibble = self.raw_data[0] % 16;
        proof {
            lemma_words_sum_bounds(spec_fixed_input(self@, false), 0);
            lemma_words_sum_bounds(self@.subrange(20, spec_header_len(self@)), 0);
            lemma_checksum_decompose(self@, false);
        }
        if nibble > 5 {
            res = res + self.options_sum();
        }
        proof {
            lemma_double_fold(res as int);
        }
        let carry: u32 = res % 0x10000 + res / 0x10000;
        let folded: u32 = carry % 0x10000 + carry / 0x10000;
        0xFFFF - (folded as u16)
    }

    /// Verifies the received checksum: sums the full checksummed region,
    /// received checksum included, and accepts exactly when the folded sum
    /// is 0xFFFF, i.e. its complement is zero.
    pub fn verify_checksum(&self) -> (r: bool)
        requires
            self.wf(),
            5 <= spec_ihl_nibble(self@),
            spec_header_len(self@) <= self@.len(),
        ensures
            r == spec_checksum_valid(self@),
    {
        let mut res: u32 = self.header_fields_sum(true);
        let nibble = self.raw_data[0] % 16;
        proof {
            lemma_words_sum_bounds(spec_fixed_input(self@, true), 0);
            lemma_words_sum_bounds(self@.subrange(20, spec_header_len(self@)), 0);
            lemma_checksum_decompose(self@, true);
        }
        if nibble > 5 {
            res = res + self.options_sum();
        }
        proof {
            lemma_double_fold(res as int);
        }
        let carry: u32 = res % 0x10000 + res / 0x10000;
        let folded: u32 = carry % 0x10000 + carry / 0x10000;
        folded == 0xFFFF
    }
}

/// The checksummed region splits at the end of the fixed fields: its word
/// sum is the fixed-field sum plus the options sum. Octet 20 is an even
/// offset, so no word straddles the boundary.
proof fn lemma_checksum_decompose(b: Seq<u8>, include_checksum: bool)
    requires
        5 <= spec_ihl_nibble(b),
        spec_header_len(b) <= b.len(),
    ensures
        words_sum(spec_checksum_input(b, include_checksum), 0) == words_sum(
            spec_fixed_input(b, include_checksum),
            0,
        ) + words_sum(b.subrange(20, spec_header_len(b)), 0),
{
    let ln = spec_header_len(b);
    let full = spec_checksum_input(b, include_checksum);
    assert(full.len() == ln);
    lemma_words_sum_split(full, 0, 20);
    assert(full.subrange(0, 20) =~= spec_fixed_input(b, include_checksum));
    let opts = b.subrange(20, ln);
    assert forall|m: int| 0 <= m < full.len() - 20 implies #[trigger] full[20 + m] == opts[0 + m] by {
        assert(full[20 + m] == b[20 + m]);
        assert(opts[m] == b[20 + m]);
    }
    lemma_words_sum_shift(full, opts, 20, 0);
}

/// Writing the checksum computed over a header whose checksum field is
/// zero back into octets 10 and 11 yields a header that verifies.
pub proof fn lemma_checksum_round_trip(b: Seq<u8>)
    requires
        5 <= spec_ihl_nibble(b),
        spec_header_len(b) <= b.len(),
        b[10] == 0,
        b[11] == 0,
    ensures
        ({
            let c = spec_calculated_checksum(b);
            spec_checksum_valid(b.update(10, (c / 256) as u8).update(11, (c % 256) as u8))
        }),
{
    let ln = spec_header_len(b);
    let region = b.subrange(0, ln);
    assert(spec_checksum_input(b, false) =~= region);
    let s0 = words_sum(region, 0);
    lemma_words_sum_bounds(region, 0);
    lemma_double_fold(s0);
    let f = fold_carry(fold_carry(s0));
    let c = spec_calculated_checksum(b);
    assert(c == 0xFFFF - f);
    let hi = (c / 256) as u8;
    let lo = (c % 256) as u8;
    let b2 = b.update(10, hi).update(11, lo);
    assert(spec_ihl_nibble(b2) == spec_ihl_nibble(b));
    let region2 = region.update(10, hi).update(11, lo);
    assert(spec_checksum_input(b2, true) =~= region2);
    lemma_words_sum_update(region, 0, 10, hi);
    let region1 = region.update(10, hi);
    lemma_words_sum_update(region1, 0, 11, lo);
    assert(region1[11] == 0);
    lemma_fundamental_div_mod(c, 256);
    assert(words_sum(region2, 0) == s0 + c);
    let s2 = s0 + c;
    // s2 is a nonzero multiple of 0xFFFF: s0 and f share a residue, and the
    // complement tops the difference up by exactly 0xFFFF.
    let q1 = s0 / 0xFFFF;
    let q2 = f / 0xFFFF;
    lemma_fundamental_div_mod(s0, 0xFFFF);
    lemma_fundamental_div_mod(f, 0xFFFF);
    assert(s2 == (q1 - q2 + 1) * 0xFFFF);
    lemma_mod_multiples_basic(q1 - q2 + 1, 0xFFFF);
    assert(s2 % 0xFFFF == 0);
    assert(s2 != 0) by {
        if s0 == 0 {
            assert(f == 0);
        }
    }
    lemma_checksum_zero_iff(s2);
    assert(checksum_ok(region2));
}

/// A single corrupted byte anywhere in the checksummed range of a header
/// that verifies — fixed fields, received checksum, or options — makes
/// verification fail, as long as the corruption leaves the header-length
/// nibble itself unchanged. (A change to that nibble moves the boundary of
/// the checksummed range, so the range before and after are not
/// comparable.)
pub proof fn lemma_corrupted_header_rejected(b: Seq<u8>, j: int, v: u8)
    requires
        5 <= spec_ihl_nibble(b),
        spec_header_len(b) <= b.len(),
        0 <= j < spec_header_len(b),
        v != b[j],
        spec_ihl_nibble(b.update(j, v)) == spec_ihl_nibble(b),
        spec_checksum_valid(b),
    ensures
        !spec_checksum_valid(b.update(j, v)),
{
    let ln = spec_header_len(b);
    let b2 = b.update(j, v);
    let region = b.subrange(0, ln);
    assert(spec_checksum_input(b, true) == region);
    assert(spec_header_len(b2) == ln);
    assert(spec_checksum_input(b2, true) =~= region.update(j, v));
    lemma_corruption_detected(region, j, v);
}

} // verus!
