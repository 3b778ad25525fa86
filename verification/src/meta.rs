//! Building a header from file metadata: type classification, octal field
//! rendering, and the assembled, checksummed header record.

use vstd::prelude::*;

use crate::bytes::{pad_zero, take_range, zeros};
use crate::error::TarError;
use crate::header::{spaces8, version_seq, HeaderV, TarHeader};
use crate::octal::{dec_to_oct, oct_parse_ok, oct_to_dec, oct_val, oct_render, pow8};

verus! {

/// The closed set of entry types a header can describe.
#[allow(non_camel_case_types)]
#[derive(Clone, Copy, Debug, PartialEq, Eq, Structural)]
pub enum type_flag {
    Normal,
    Hard,
    Symbolic,
    Character,
    Block,
    Directory,
    FIFO,
    Unknown,
}

/// The single byte that encodes each entry type in the header's type field.
pub open spec fn flag_code(t: type_flag) -> u8 {
    match t {
        type_flag::Normal => 0x30,
        type_flag::Hard => 0x31,
        type_flag::Symbolic => 0x32,
        type_flag::Character => 0x33,
        type_flag::Block => 0x34,
        type_flag::Directory => 0x35,
        type_flag::FIFO => 0x36,
        type_flag::Unknown => 0x00,
    }
}

impl type_flag {
    /// The byte stored in the header's type field for this entry type.
    pub fn code(&self) -> (r: u8)
        ensures
            r == flag_code(*self),
    {
        match self {
            type_flag::Normal => 0x30,
            type_flag::Hard => 0x31,
            type_flag::Symbolic => 0x32,
            type_flag::Character => 0x33,
            type_flag::Block => 0x34,
            type_flag::Directory => 0x35,
            type_flag::FIFO => 0x36,
            type_flag::Unknown => 0x00,
        }
    }
}

/// File metadata as the metadata adapter reports it, reduced to plain
/// values: type predicates, permission and ownership numbers, size and
/// modification time, and — where applicable — a symlink target and device
/// numbers.
pub struct FileMeta {
    pub is_dir: bool,
    pub is_fifo: bool,
    pub is_char_device: bool,
    pub is_block_device: bool,
    pub is_symlink: bool,
    pub is_file: bool,
    pub mode: usize,
    pub uid: usize,
    pub gid: usize,
    pub size: usize,
    pub mtime: usize,
    pub link_name: Vec<u8>,
    pub device_major: usize,
    pub device_minor: usize,
}

/// The mathematical shape of [`FileMeta`].
pub ghost struct MetaV {
    pub is_dir: bool,
    pub is_fifo: bool,
    pub is_char_device: bool,
    pub is_block_device: bool,
    pub is_symlink: bool,
    pub is_file: bool,
    pub mode: int,
    pub uid: int,
    pub gid: int,
    pub size: int,
    pub mtime: int,
    pub link_name: Seq<u8>,
    pub device_major: int,
    pub device_minor: int,
}

impl View for FileMeta {
    type V = MetaV;

    open spec fn view(&self) -> MetaV {
        MetaV {
            is_dir: self.is_dir,
            is_fifo: self.is_fifo,
            is_char_device: self.is_char_device,
            is_block_device: self.is_block_device,
            is_symlink: self.is_symlink,
            is_file: self.is_file,
            mode: self.mode as int,
            uid: self.uid as int,
            gid: self.gid as int,
            size: self.size as int,
            mtime: self.mtime as int,
            link_name: self.link_name@,
            device_major: self.device_major as int,
            device_minor: self.device_minor as int,
        }
    }
}

/// Classifies metadata into exactly one entry type; `Unknown` is the
/// fallback when no predicate holds.
pub open spec fn classify(m: MetaV) -> type_flag {
    if m.is_dir {
        type_flag::Directory
    } else if m.is_fifo {
        type_flag::FIFO
    } else if m.is_char_device {
        type_flag::Character
    } else if m.is_block_device {
        type_flag::Block
    } else if m.is_symlink {
        type_flag::Symbolic
    } else if m.is_file {
        type_flag::Normal
    } else {
        type_flag::Unknown
    }
}

/// Returns the type-field byte for a file's metadata.
pub fn get_file_type(meta: &FileMeta) -> (r: u8)
    ensures
        r == flag_code(classify(meta@)),
{
    if meta.is_dir {
        return type_flag::Directory.code();
    }
    if meta.is_fifo {
        return type_flag::FIFO.code();
    }
    if meta.is_char_device {
        return type_flag::Character.code();
    }
    if meta.is_block_device {
        return type_flag::Block.code();
    }
    if meta.is_symlink {
        return type_flag::Symbolic.code();
    }
    if meta.is_file {
        return type_flag::Normal.code();
    }
    type_flag::Unknown.code()
}

/// The owner-name field: the supplied current-user name zero-padded to 32
/// bytes, or all zeros when none is available.
pub open spec fn user_name_field(user: Option<Seq<u8>>) -> Seq<u8> {
    match user {
        Some(u) => pad_zero(u, 32),
        None => zeros(32),
    }
}

/// The view of an optional borrowed user name.
pub open spec fn opt_view(user: Option<&Vec<u8>>) -> Option<Seq<u8>> {
    match user {
        Some(u) => Some(u@),
        None => None,
    }
}

/// The header assembled from a path name, its metadata and an optional
/// current-user name, before the checksum is written.
pub open spec fn build_header_base(name: Seq<u8>, m: MetaV, user: Option<Seq<u8>>) -> HeaderV {
    let t = classify(m);
    HeaderV {
        file_name: pad_zero(name, 100),
        file_mode: oct_render(m.mode % 0o1000, 7).push(0),
        own_user: oct_render(m.uid, 7).push(0),
        own_group: oct_render(m.gid, 7).push(0),
        file_size: oct_render(m.size, 11).push(0),
        mod_time: oct_render(m.mtime, 11).push(0),
        header_checksum: spaces8(),
        link_indicator: seq![flag_code(t)],
        link_name: if t is Symbolic {
            pad_zero(m.link_name, 100)
        } else {
            zeros(100)
        },
        ustar_magic: crate::header::magic_seq(),
        ustar_version: version_seq(),
        own_user_name: user_name_field(user),
        own_group_name: zeros(32),
        device_major: if t is Block || t is Character {
            oct_render(m.device_major, 7).push(0)
        } else {
            zeros(8)
        },
        device_minor: if t is Block || t is Character {
            oct_render(m.device_minor, 7).push(0)
        } else {
            zeros(8)
        },
        file_prefix: zeros(155),
        reserved: zeros(12),
    }
}

/// The finished header: the assembled record with its checksum computed and
/// stored.
pub open spec fn build_header_v(name: Seq<u8>, m: MetaV, user: Option<Seq<u8>>) -> HeaderV {
    build_header_base(name, m, user).with_updated_checksum()
}

/// The inputs [`generate_header`] accepts: every value fits its fixed-width
/// octal or text field.
pub open spec fn build_req(name: Seq<u8>, m: MetaV, user: Option<Seq<u8>>) -> bool {
    &&& name.len() <= 100
    &&& 0 <= m.uid < pow8(7)
    &&& 0 <= m.gid < pow8(7)
    &&& 0 <= m.size < pow8(11)
    &&& 0 <= m.mtime < pow8(11)
    &&& (classify(m) is Symbolic ==> m.link_name.len() <= 100)
    &&& ((classify(m) is Block || classify(m) is Character) ==> 0 <= m.device_major < pow8(7)
        && 0 <= m.device_minor < pow8(7))
    &&& (user is Some ==> user->0.len() <= 32)
}

/// Copies `src` into a fresh vector zero-padded to `width` bytes.
pub fn pad_field(src: &Vec<u8>, width: usize) -> (r: Vec<u8>)
    requires
        src@.len() <= width,
    ensures
        r@ == pad_zero(src@, width as nat),
{
    let mut r = take_range(src, 0, src.len());
    assert(r@ =~= src@);
    let mut i = src.len();
    while i < width
        invariant
            src@.len() <= i <= width,
            r@.len() == i,
            r@.subrange(0, src@.len() as int) == src@,
            forall|k: int| src@.len() <= k < i ==> r@[k] == 0,
        decreases width - i,
    {
        r.push(0);
        assert(r@.subrange(0, src@.len() as int) =~= src@);
        i = i + 1;
    }
    assert(r@ =~= pad_zero(src@, width as nat));
    r
}

/// Renders `value` as `digits` octal digit characters followed by a NUL
/// terminator.
fn oct_field(value: usize, digits: usize) -> (r: Vec<u8>)
    requires
        value < pow8(digits as nat),
    ensures
        r@ == oct_render(value as int, digits as nat).push(0),
        r@.len() == digits + 1,
{
    let mut r = dec_to_oct(value, digits);
    r.push(0x00);
    r
}

/// Builds a complete, checksummed header from a path name, its metadata and
/// an optional current-user name. Non-octal widths are the caller's to
/// respect: see [`build_req`].
pub fn generate_header(name: &Vec<u8>, meta: &FileMeta, user: Option<&Vec<u8>>) -> (r: TarHeader)
    requires
        build_req(name@, meta@, opt_view(user)),
    ensures
        r@ == build_header_v(name@, meta@, opt_view(user)),
        r.wf(),
{
    let t_code = get_file_type(meta);
    let mut h = TarHeader::default();

    h.file_name = pad_field(name, 100);
    proof {
        assert(meta@.mode % 0o1000 < pow8(7)) by {
            reveal_with_fuel(pow8, 8);
        };
    }
    h.file_mode = oct_field(meta.mode % 0o1000, 7);
    h.own_user = oct_field(meta.uid, 7);
    h.own_group = oct_field(meta.gid, 7);
    h.file_size = oct_field(meta.size, 11);
    h.mod_time = oct_field(meta.mtime, 11);

    let mut indicator: Vec<u8> = Vec::new();
    indicator.push(t_code);
    h.link_indicator = indicator;
    if t_code == 0x32 {
        h.link_name = pad_field(&meta.link_name, 100);
    }

    let mut magic: Vec<u8> = Vec::new();
    magic.push(0x75);
    magic.push(0x73);
    magic.push(0x74);
    magic.push(0x61);
    magic.push(0x72);
    magic.push(0x20);
    h.ustar_magic = magic;

    let mut version: Vec<u8> = Vec::new();
    version.push(0x20);
    version.push(0x00);
    h.ustar_version = version;

    match user {
        Some(u) => {
            h.own_user_name = pad_field(u, 32);
        },
        None => {},
    }

    if t_code == 0x34 || t_code == 0x33 {
        h.device_major = oct_field(meta.device_major, 7);
        h.device_minor = oct_field(meta.device_minor, 7);
    }

    let mut spaces: Vec<u8> = Vec::new();
    let mut k: usize = 0;
    while k < 8
        invariant
            k <= 8,
            spaces@.len() == k,
            forall|i: int| 0 <= i < k ==> spaces@[i] == 0x20u8,
        decreases 8 - k,
    {
        spaces.push(0x20);
        k = k + 1;
    }
    assert(spaces@ =~= spaces8());
    h.header_checksum = spaces;

    proof {
        let base = build_header_base(name@, meta@, opt_view(user));
        assert(h@.ustar_magic =~= crate::header::magic_seq());
        assert(h@.ustar_version =~= version_seq());
        assert(h@.link_indicator =~= seq![flag_code(classify(meta@))]);
        assert(h@ == base);
    }
    h.update_checksum();
    h
}

/// The numeric header fields of one entry, decoded from their octal text.
pub struct HeaderNums {
    pub mode: usize,
    pub uid: usize,
    pub gid: usize,
    pub size: usize,
    pub mtime: usize,
}

/// Reads the five always-octal numeric fields of a header back to numbers;
/// fails with `EncodingFailure` as soon as one field is not octal text.
pub fn convert_header_to_dec(header: &TarHeader) -> (r: Result<HeaderNums, TarError>)
    ensures
        r is Ok <==> {
            &&& oct_parse_ok(header@.file_mode)
            &&& oct_parse_ok(header@.own_user)
            &&& oct_parse_ok(header@.own_group)
            &&& oct_parse_ok(header@.file_size)
            &&& oct_parse_ok(header@.mod_time)
        },
        r is Ok ==> {
            &&& r->Ok_0.mode == oct_val(header@.file_mode.drop_last())
            &&& r->Ok_0.uid == oct_val(header@.own_user.drop_last())
            &&& r->Ok_0.gid == oct_val(header@.own_group.drop_last())
            &&& r->Ok_0.size == oct_val(header@.file_size.drop_last())
            &&& r->Ok_0.mtime == oct_val(header@.mod_time.drop_last())
        },
        r is Err ==> r->Err_0 == TarError::EncodingFailure,
{
    let mode = match oct_to_dec(&header.file_mode) {
        Ok(v) => v,
        Err(e) => {
            return Err(e);
        },
    };
    let uid = match oct_to_dec(&header.own_user) {
        Ok(v) => v,
        Err(e) => {
            return Err(e);
        },
    };
    let gid = match oct_to_dec(&header.own_group) {
        Ok(v) => v,
        Err(e) => {
            return Err(e);
        },
    };
    let size = match oct_to_dec(&header.file_size) {
        Ok(v) => v,
        Err(e) => {
            return Err(e);
        },
    };
    let mtime = match oct_to_dec(&header.mod_time) {
        Ok(v) => v,
        Err(e) => {
            return Err(e);
        },
    };
    Ok(HeaderNums { mode, uid, gid, size, mtime })
}

/// Writes numeric values into the octal text fields of an otherwise zeroed
/// header: the inverse of [`convert_header_to_dec`] on its numeric fields.
pub fn convert_header_to_oct(nums: &HeaderNums) -> (r: TarHeader)
    requires
        nums.mode < pow8(7),
        nums.uid < pow8(7),
        nums.gid < pow8(7),
        nums.size < pow8(11),
        nums.mtime < pow8(11),
    ensures
        r@ == (HeaderV {
            file_mode: oct_render(nums.mode as int, 7).push(0),
            own_user: oct_render(nums.uid as int, 7).push(0),
            own_group: oct_render(nums.gid as int, 7).push(0),
            file_size: oct_render(nums.size as int, 11).push(0),
            mod_time: oct_render(nums.mtime as int, 11).push(0),
            ..HeaderV::zeroed()
        }),
        r.wf(),
{
    let mut h = TarHeader::default();
    h.file_mode = oct_field(nums.mode, 7);
    h.own_user = oct_field(nums.uid, 7);
    h.own_group = oct_field(nums.gid, 7);
    h.file_size = oct_field(nums.size, 11);
    h.mod_time = oct_field(nums.mtime, 11);
    h
}

} // verus!
