//! The USTAR header codec: a 512-byte fixed-layout record of NUL-padded text
//! fields, with an octal-text checksum over the whole record.

use vstd::prelude::*;

use crate::bytes::{
    all_zero, append_bytes, sum_bytes, take_range, vec_eq, zero_vec, zeros,
    lemma_sum_bytes_bounds, lemma_sum_bytes_take_step, lemma_sum_bytes_update,
};
use crate::error::TarError;
use crate::octal::{
    dec_to_oct, lemma_oct_render_digits, lemma_oct_render_injective, oct_render, pow8,
};

verus! {

/// The mathematical shape of a header: each field as a byte sequence, fixed
/// widths given by [`HeaderV::wf`].
pub ghost struct HeaderV {
    pub file_name: Seq<u8>,
    pub file_mode: Seq<u8>,
    pub own_user: Seq<u8>,
    pub own_group: Seq<u8>,
    pub file_size: Seq<u8>,
    pub mod_time: Seq<u8>,
    pub header_checksum: Seq<u8>,
    pub link_indicator: Seq<u8>,
    pub link_name: Seq<u8>,
    pub ustar_magic: Seq<u8>,
    pub ustar_version: Seq<u8>,
    pub own_user_name: Seq<u8>,
    pub own_group_name: Seq<u8>,
    pub device_major: Seq<u8>,
    pub device_minor: Seq<u8>,
    pub file_prefix: Seq<u8>,
    pub reserved: Seq<u8>,
}

/// The six magic bytes `"ustar "`.
pub open spec fn magic_seq() -> Seq<u8> {
    seq![0x75u8, 0x73u8, 0x74u8, 0x61u8, 0x72u8, 0x20u8]
}

/// The two version bytes: a space and a NUL.
pub open spec fn version_seq() -> Seq<u8> {
    seq![0x20u8, 0x00u8]
}

/// Eight space characters: the stand-in for the checksum field while the
/// checksum itself is being summed.
pub open spec fn spaces8() -> Seq<u8> {
    Seq::new(8, |i: int| 0x20u8)
}

impl HeaderV {
    /// Every field has its fixed layout width.
    pub open spec fn wf(self) -> bool {
        &&& self.file_name.len() == 100
        &&& self.file_mode.len() == 8
        &&& self.own_user.len() == 8
        &&& self.own_group.len() == 8
        &&& self.file_size.len() == 12
        &&& self.mod_time.len() == 12
        &&& self.header_checksum.len() == 8
        &&& self.link_indicator.len() == 1
        &&& self.link_name.len() == 100
        &&& self.ustar_magic.len() == 6
        &&& self.ustar_version.len() == 2
        &&& self.own_user_name.len() == 32
        &&& self.own_group_name.len() == 32
        &&& self.device_major.len() == 8
        &&& self.device_minor.len() == 8
        &&& self.file_prefix.len() == 155
        &&& self.reserved.len() == 12
    }

    /// The 512-byte record with `cks` in place of the checksum field.
    pub open spec fn enc_with(self, cks: Seq<u8>) -> Seq<u8> {
        self.file_name + self.file_mode + self.own_user + self.own_group + self.file_size
            + self.mod_time + cks + self.link_indicator + self.link_name + self.ustar_magic
            + self.ustar_version + self.own_user_name + self.own_group_name + self.device_major
            + self.device_minor + self.file_prefix + self.reserved
    }

    /// The serialized 512-byte record of this header.
    pub open spec fn enc(self) -> Seq<u8> {
        self.enc_with(self.header_checksum)
    }

    /// The record as summed for the checksum: the checksum field reads as
    /// eight spaces.
    pub open spec fn checksum_input(self) -> Seq<u8> {
        self.enc_with(spaces8())
    }

    /// The checksum value: the unsigned byte sum of the whole record, with
    /// the checksum field blanked to spaces.
    pub open spec fn checksum(self) -> int {
        sum_bytes(self.checksum_input())
    }

    /// The checksum as stored: six zero-padded octal digits, a NUL, a space.
    pub open spec fn checksum_field(self) -> Seq<u8> {
        oct_render(self.checksum(), 6) + seq![0x00u8, 0x20u8]
    }

    /// The stored checksum field matches the recomputed value byte for byte.
    pub open spec fn checksum_ok(self) -> bool {
        self.header_checksum == self.checksum_field()
    }

    /// The magic field holds the USTAR identifier.
    pub open spec fn magic_ok(self) -> bool {
        self.ustar_magic == magic_seq()
    }

    /// This header with the checksum field recomputed and stored.
    pub open spec fn with_updated_checksum(self) -> HeaderV {
        HeaderV { header_checksum: self.checksum_field(), ..self }
    }

    /// The all-zero header: the end-of-archive sentinel.
    pub open spec fn zeroed() -> HeaderV {
        HeaderV {
            file_name: zeros(100),
            file_mode: zeros(8),
            own_user: zeros(8),
            own_group: zeros(8),
            file_size: zeros(12),
            mod_time: zeros(12),
            header_checksum: zeros(8),
            link_indicator: zeros(1),
            link_name: zeros(100),
            ustar_magic: zeros(6),
            ustar_version: zeros(2),
            own_user_name: zeros(32),
            own_group_name: zeros(32),
            device_major: zeros(8),
            device_minor: zeros(8),
            file_prefix: zeros(155),
            reserved: zeros(12),
        }
    }
}

/// The header described by a 512-byte record: each field cut at its offset.
pub open spec fn decode_spec(b: Seq<u8>) -> HeaderV {
    HeaderV {
        file_name: b.subrange(0, 100),
        file_mode: b.subrange(100, 108),
        own_user: b.subrange(108, 116),
        own_group: b.subrange(116, 124),
        file_size: b.subrange(124, 136),
        mod_time: b.subrange(136, 148),
        header_checksum: b.subrange(148, 156),
        link_indicator: b.subrange(156, 157),
        link_name: b.subrange(157, 257),
        ustar_magic: b.subrange(257, 263),
        ustar_version: b.subrange(263, 265),
        own_user_name: b.subrange(265, 297),
        own_group_name: b.subrange(297, 329),
        device_major: b.subrange(329, 337),
        device_minor: b.subrange(337, 345),
        file_prefix: b.subrange(345, 500),
        reserved: b.subrange(500, 512),
    }
}

/// A well-formed header encodes to exactly 512 bytes, whatever stands in for
/// the checksum field.
pub proof fn lemma_enc_len(h: HeaderV, cks: Seq<u8>)
    requires
        h.wf(),
        cks.len() == 8,
    ensures
        h.enc_with(cks).len() == 512,
{
}

/// Cutting an encoded record at the field offsets gives the fields back.
pub proof fn lemma_decode_enc_with(h: HeaderV, cks: Seq<u8>)
    requires
        h.wf(),
        cks.len() == 8,
    ensures
        decode_spec(h.enc_with(cks)) == (HeaderV { header_checksum: cks, ..h }),
{
    let e = h.enc_with(cks);
    assert(e.subrange(0, 100) =~= h.file_name);
    assert(e.subrange(100, 108) =~= h.file_mode);
    assert(e.subrange(108, 116) =~= h.own_user);
    assert(e.subrange(116, 124) =~= h.own_group);
    assert(e.subrange(124, 136) =~= h.file_size);
    assert(e.subrange(136, 148) =~= h.mod_time);
    assert(e.subrange(148, 156) =~= cks);
    assert(e.subrange(156, 157) =~= h.link_indicator);
    assert(e.subrange(157, 257) =~= h.link_name);
    assert(e.subrange(257, 263) =~= h.ustar_magic);
    assert(e.subrange(263, 265) =~= h.ustar_version);
    assert(e.subrange(265, 297) =~= h.own_user_name);
    assert(e.subrange(297, 329) =~= h.own_group_name);
    assert(e.subrange(329, 337) =~= h.device_major);
    assert(e.subrange(337, 345) =~= h.device_minor);
    assert(e.subrange(345, 500) =~= h.file_prefix);
    assert(e.subrange(500, 512) =~= h.reserved);
}

/// Decoding is the inverse of encoding.
pub proof fn lemma_decode_enc(h: HeaderV)
    requires
        h.wf(),
    ensures
        decode_spec(h.enc()) == h,
{
    lemma_decode_enc_with(h, h.header_checksum);
}

/// The checksum stays within six octal digits: at most `255 * 512`, well
/// below `8 ^ 6`.
pub proof fn lemma_checksum_in_range(h: HeaderV)
    requires
        h.wf(),
    ensures
        0 <= h.checksum() < pow8(6),
{
    lemma_enc_len(h, spaces8());
    lemma_sum_bytes_bounds(h.checksum_input());
    assert(pow8(6) == 262144) by {
        reveal_with_fuel(pow8, 7);
    };
}

/// Recomputing the checksum always produces a header that validates.
pub proof fn lemma_update_checksum_validates(h: HeaderV)
    requires
        h.wf(),
    ensures
        h.with_updated_checksum().checksum_ok(),
        h.with_updated_checksum().wf(),
{
    let u = h.with_updated_checksum();
    assert(u.checksum_input() == h.checksum_input());
    lemma_checksum_in_range(h);
    lemma_oct_render_digits(h.checksum(), 6);
}

/// Changing any single byte outside the checksum field of a validated header
/// makes its checksum invalid: byte position `i` of the summed record changed
/// from one value to another, every other byte and the stored checksum field
/// kept.
pub proof fn lemma_checksum_detects_change(h1: HeaderV, h2: HeaderV, i: int)
    requires
        h1.wf(),
        h2.wf(),
        h1.checksum_ok(),
        h2.header_checksum == h1.header_checksum,
        0 <= i < 512,
        !(148 <= i < 156),
        h2.checksum_input() == h1.checksum_input().update(i, h2.checksum_input()[i]),
        h2.checksum_input()[i] != h1.checksum_input()[i],
    ensures
        !h2.checksum_ok(),
{
    lemma_enc_len(h1, spaces8());
    lemma_enc_len(h2, spaces8());
    lemma_sum_bytes_update(h1.checksum_input(), i, h2.checksum_input()[i]);
    assert(h2.checksum() != h1.checksum());
    lemma_checksum_in_range(h1);
    lemma_checksum_in_range(h2);
    lemma_oct_render_injective(h1.checksum(), h2.checksum(), 6);
    lemma_oct_render_digits(h1.checksum(), 6);
    lemma_oct_render_digits(h2.checksum(), 6);
    if h2.checksum_field() == h1.checksum_field() {
        assert(oct_render(h1.checksum(), 6) =~= h1.checksum_field().subrange(0, 6));
        assert(oct_render(h2.checksum(), 6) =~= h2.checksum_field().subrange(0, 6));
        assert(false);
    }
}

/// One entry's header: sixteen fixed-width text fields and twelve reserved
/// padding bytes, 512 bytes in all when encoded.
pub struct TarHeader {
    pub file_name: Vec<u8>,
    pub file_mode: Vec<u8>,
    pub own_user: Vec<u8>,
    pub own_group: Vec<u8>,
    pub file_size: Vec<u8>,
    pub mod_time: Vec<u8>,
    pub header_checksum: Vec<u8>,
    pub link_indicator: Vec<u8>,
    pub link_name: Vec<u8>,
    pub ustar_magic: Vec<u8>,
    pub ustar_version: Vec<u8>,
    pub own_user_name: Vec<u8>,
    pub own_group_name: Vec<u8>,
    pub device_major: Vec<u8>,
    pub device_minor: Vec<u8>,
    pub file_prefix: Vec<u8>,
    pub reserved: Vec<u8>,
}

impl View for TarHeader {
    type V = HeaderV;

    open spec fn view(&self) -> HeaderV {
        HeaderV {
            file_name: self.file_name@,
            file_mode: self.file_mode@,
            own_user: self.own_user@,
            own_group: self.own_group@,
            file_size: self.file_size@,
            mod_time: self.mod_time@,
            header_checksum: self.header_checksum@,
            link_indicator: self.link_indicator@,
            link_name: self.link_name@,
            ustar_magic: self.ustar_magic@,
            ustar_version: self.ustar_version@,
            own_user_name: self.own_user_name@,
            own_group_name: self.own_group_name@,
            device_major: self.device_major@,
            device_minor: self.device_minor@,
            file_prefix: self.file_prefix@,
            reserved: self.reserved@,
        }
    }
}

impl TarHeader {
    /// Every field vector has its layout width.
    pub open spec fn wf(&self) -> bool {
        self@.wf()
    }

    /// A header of all-zero fields: the end-of-archive sentinel.
    pub fn default() -> (r: TarHeader)
        ensures
            r@ == HeaderV::zeroed(),
            r.wf(),
    {
        let r = TarHeader {
            file_name: zero_vec(100),
            file_mode: zero_vec(8),
            own_user: zero_vec(8),
            own_group: zero_vec(8),
            file_size: zero_vec(12),
            mod_time: zero_vec(12),
            header_checksum: zero_vec(8),
            link_indicator: zero_vec(1),
            link_name: zero_vec(100),
            ustar_magic: zero_vec(6),
            ustar_version: zero_vec(2),
            own_user_name: zero_vec(32),
            own_group_name: zero_vec(32),
            device_major: zero_vec(8),
            device_minor: zero_vec(8),
            file_prefix: zero_vec(155),
            reserved: zero_vec(12),
        };
        r
    }

    /// Serializes the header fields in layout order, with `cks` written in
    /// the checksum field's place.
    fn encode_with(&self, cks: &Vec<u8>) -> (r: Vec<u8>)
        requires
            self.wf(),
            cks@.len() == 8,
        ensures
            r@ == self@.enc_with(cks@),
    {
        let mut out: Vec<u8> = Vec::new();
        append_bytes(&mut out, &self.file_name);
        append_bytes(&mut out, &self.file_mode);
        append_bytes(&mut out, &self.own_user);
        append_bytes(&mut out, &self.own_group);
        append_bytes(&mut out, &self.file_size);
        append_bytes(&mut out, &self.mod_time);
        append_bytes(&mut out, cks);
        append_bytes(&mut out, &self.link_indicator);
        append_bytes(&mut out, &self.link_name);
        append_bytes(&mut out, &self.ustar_magic);
        append_bytes(&mut out, &self.ustar_version);
        append_bytes(&mut out, &self.own_user_name);
        append_bytes(&mut out, &self.own_group_name);
        append_bytes(&mut out, &self.device_major);
        append_bytes(&mut out, &self.device_minor);
        append_bytes(&mut out, &self.file_prefix);
        append_bytes(&mut out, &self.reserved);
        assert(out@ =~= self@.enc_with(cks@));
        out
    }

    /// Encodes this header as its 512-byte record.
    pub fn to_bytes(&self) -> (r: Vec<u8>)
        requires
            self.wf(),
        ensures
            r@ == self@.enc(),
            r@.len() == 512,
    {
        let r = self.encode_with(&self.header_checksum);
        proof {
            lemma_enc_len(self@, self@.header_checksum);
        }
        r
    }

    /// Decodes a header from exactly one 512-byte record; any other length
    /// is a format error.
    pub fn from_bytes(input: &Vec<u8>) -> (r: Result<TarHeader, TarError>)
        ensures
            input@.len() == 512 ==> {
                &&& r is Ok
                &&& r->Ok_0@ == decode_spec(input@)
                &&& r->Ok_0.wf()
            },
            input@.len() != 512 ==> r == Err::<TarHeader, TarError>(TarError::EncodingFailure),
    {
        if input.len() != 512 {
            return Err(TarError::EncodingFailure);
        }
        Ok(TarHeader {
            file_name: take_range(input, 0, 100),
            file_mode: take_range(input, 100, 8),
            own_user: take_range(input, 108, 8),
            own_group: take_range(input, 116, 8),
            file_size: take_range(input, 124, 12),
            mod_time: take_range(input, 136, 12),
            header_checksum: take_range(input, 148, 8),
            link_indicator: take_range(input, 156, 1),
            link_name: take_range(input, 157, 100),
            ustar_magic: take_range(input, 257, 6),
            ustar_version: take_range(input, 263, 2),
            own_user_name: take_range(input, 265, 32),
            own_group_name: take_range(input, 297, 32),
            device_major: take_range(input, 329, 8),
            device_minor: take_range(input, 337, 8),
            file_prefix: take_range(input, 345, 155),
            reserved: take_range(input, 500, 12),
        })
    }

    /// True iff the magic field holds the USTAR identifier `"ustar "`.
    pub fn validate_magic(&self) -> (r: bool)
        ensures
            r == self@.magic_ok(),
    {
        let mut expected: Vec<u8> = Vec::new();
        expected.push(0x75);
        expected.push(0x73);
        expected.push(0x74);
        expected.push(0x61);
        expected.push(0x72);
        expected.push(0x20);
        assert(expected@ =~= magic_seq());
        vec_eq(&self.ustar_magic, &expected)
    }

    /// Sums the unsigned byte values of the encoded record, with the
    /// checksum field read as eight spaces.
    pub fn calc_checksum(&self) -> (r: usize)
        requires
            self.wf(),
        ensures
            r == self@.checksum(),
    {
        let mut spaces: Vec<u8> = Vec::new();
        let mut k: usize = 0;
        while k < 8
            invariant
                k <= 8,
                spaces@.len() == k,
                forall|i: int| 0 <= i < k ==> spaces@[i] == 0x20u8,
            decreases 8 - k,
        {
            spaces.push(0x20);
            k = k + 1;
        }
        assert(spaces@ =~= spaces8());
        let bytes = self.encode_with(&spaces);
        proof {
            lemma_enc_len(self@, spaces8());
        }
        let mut sum: usize = 0;
        let mut i: usize = 0;
        while i < bytes.len()
            invariant
                i <= bytes@.len(),
                bytes@.len() == 512,
                sum == sum_bytes(bytes@.take(i as int)),
                sum <= 255 * i,
            decreases bytes@.len() - i,
        {
            proof {
                lemma_sum_bytes_take_step(bytes@, i as int);
            }
            sum = sum + bytes[i] as usize;
            i = i + 1;
        }
        assert(bytes@.take(512) =~= bytes@);
        sum
    }

    /// Recomputes the checksum and stores it as six zero-padded octal
    /// digits, a NUL byte, and a trailing space.
    pub fn update_checksum(&mut self)
        requires
            old(self).wf(),
        ensures
            final(self)@ == old(self)@.with_updated_checksum(),
            final(self).wf(),
    {
        let sum = self.calc_checksum();
        proof {
            lemma_checksum_in_range(self@);
            lemma_update_checksum_validates(self@);
        }
        let mut field = dec_to_oct(sum, 6);
        field.push(0x00);
        field.push(0x20);
        assert(field@ =~= old(self)@.checksum_field());
        self.header_checksum = field;
    }

    /// True iff the stored checksum field equals the recomputed one byte for
    /// byte.
    pub fn validate_checksum(&self) -> (r: bool)
        requires
            self.wf(),
        ensures
            r == self@.checksum_ok(),
    {
        let sum = self.calc_checksum();
        proof {
            lemma_checksum_in_range(self@);
        }
        let mut field = dec_to_oct(sum, 6);
        field.push(0x00);
        field.push(0x20);
        assert(field@ =~= self@.checksum_field());
        vec_eq(&self.header_checksum, &field)
    }

}

/// A header whose magic field validates is never the all-zero sentinel: its
/// encoded record holds a non-zero byte where the magic begins.
pub proof fn lemma_valid_header_not_sentinel(h: HeaderV)
    requires
        h.wf(),
        h.magic_ok(),
    ensures
        !all_zero(h.enc()),
{
    lemma_decode_enc(h);
    assert(decode_spec(h.enc()).ustar_magic == h.enc().subrange(257, 263));
    assert(h.enc().subrange(257, 263)[0] == h.enc()[257]);
    assert(h.enc()[257] == 0x75);
}

} // verus!
