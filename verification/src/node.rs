//! One archive entry: a header together with its 512-byte content blocks,
//! with serialization to a byte stream and parsing back from one.

use vstd::prelude::*;

use crate::bytes::{
    all_zero, append_bytes, flat, is_zero_vec, lemma_flat_block_at, lemma_flat_len, pad_zero,
    take_blocks, take_range, views_of, zeros,
};
use crate::error::TarError;
use crate::header::{
    decode_spec, lemma_decode_enc, lemma_enc_len, lemma_update_checksum_validates, HeaderV,
    TarHeader,
};
use crate::meta::{
    build_header_base, build_header_v, build_req, classify, flag_code, generate_header, opt_view,
    pad_field, FileMeta, MetaV,
};
use crate::octal::{
    lemma_oct_render_digits, lemma_oct_val_render, oct_parse_ok, oct_render, oct_to_dec, oct_val,
};

verus! {

/// The mathematical shape of an entry: a header and its content blocks.
pub ghost struct NodeV {
    pub header: HeaderV,
    pub data: Seq<Seq<u8>>,
}

impl NodeV {
    /// The header is well formed and every content block is 512 bytes.
    pub open spec fn wf(self) -> bool {
        &&& self.header.wf()
        &&& forall|i: int| 0 <= i < self.data.len() ==> #[trigger] self.data[i].len() == 512
    }

    /// The entry's wire form: the encoded header, then each block in order.
    pub open spec fn enc(self) -> Seq<u8> {
        self.header.enc() + flat(self.data)
    }
}

/// One entry of an archive: a header and its ordered content blocks.
pub struct TarNode {
    pub header: TarHeader,
    pub data: Vec<Vec<u8>>,
}

impl View for TarNode {
    type V = NodeV;

    open spec fn view(&self) -> NodeV {
        NodeV { header: self.header@, data: views_of(self.data@) }
    }
}

/// The number of 512-byte blocks needed to hold `len` bytes.
pub open spec fn chunk_count(len: int) -> int {
    (len + 511) / 512
}

/// Block `i` of a byte stream cut into 512-byte blocks: the final partial
/// block, if any, is zero-padded.
pub open spec fn chunk_at(s: Seq<u8>, i: int) -> Seq<u8> {
    if 512 * (i + 1) <= s.len() {
        s.subrange(512 * i, 512 * (i + 1))
    } else {
        s.subrange(512 * i, s.len() as int) + zeros((512 * (i + 1) - s.len()) as nat)
    }
}

/// A byte stream cut into consecutive 512-byte blocks, the last zero-padded.
pub open spec fn chunks(s: Seq<u8>) -> Seq<Seq<u8>> {
    Seq::new(chunk_count(s.len() as int) as nat, |i: int| chunk_at(s, i))
}

/// Every chunk is exactly 512 bytes.
pub proof fn lemma_chunks_wf(s: Seq<u8>)
    ensures
        forall|i: int| 0 <= i < chunks(s).len() ==> #[trigger] chunks(s)[i].len() == 512,
{
    assert forall|i: int| 0 <= i < chunks(s).len() implies #[trigger] chunks(s)[i].len()
        == 512 by {
        assert(chunks(s)[i] == chunk_at(s, i));
        if 512 * (i + 1) <= s.len() {
        } else {
            assert(512 * i < s.len()) by (nonlinear_arith)
                requires
                    0 <= i,
                    i < (s.len() + 511) / 512,
            ;
        }
    }
}

/// Flattening the chunks of a stream gives the stream back, zero-padded to a
/// whole number of blocks.
pub proof fn lemma_flat_chunks(s: Seq<u8>)
    ensures
        flat(chunks(s)) == s + zeros((512 * chunk_count(s.len() as int) - s.len()) as nat),
    decreases s.len(),
{
    let n = chunk_count(s.len() as int);
    if s.len() == 0 {
        assert(flat(chunks(s)) =~= s + zeros(0));
    } else {
        assert(0 < n && 512 * (n - 1) < s.len() <= 512 * n) by (nonlinear_arith)
            requires
                n == (s.len() + 511) / 512,
                s.len() > 0,
        ;
        let p = s.take(512 * (n - 1));
        assert(chunk_count(p.len() as int) == n - 1) by (nonlinear_arith)
            requires
                p.len() == 512 * (n - 1),
        ;
        lemma_flat_chunks(p);
        assert(chunks(s).drop_last() =~= chunks(p)) by {
            assert forall|i: int| 0 <= i < n - 1 implies chunk_at(s, i) == chunk_at(p, i) by {
                assert(512 * (i + 1) <= 512 * (n - 1)) by (nonlinear_arith)
                    requires
                        i + 1 <= n - 1,
                ;
                assert(chunk_at(p, i) =~= chunk_at(s, i));
            }
        };
        assert(chunks(s).last() == chunk_at(s, n - 1));
        assert(flat(chunks(s)) == flat(chunks(p)) + chunk_at(s, n - 1));
        assert(flat(chunks(p)) == p + zeros(0));
        assert(flat(chunks(s)) =~= s + zeros((512 * n - s.len()) as nat));
    }
}

/// The first `len` bytes of the flattened chunks are the stream itself.
pub proof fn lemma_flat_chunks_prefix(s: Seq<u8>)
    ensures
        flat(chunks(s)).subrange(0, s.len() as int) == s,
{
    lemma_flat_chunks(s);
    let n = chunk_count(s.len() as int);
    assert(512 * n >= s.len()) by (nonlinear_arith)
        requires
            n == (s.len() + 511) / 512,
    ;
    assert(flat(chunks(s)).subrange(0, s.len() as int) =~= s);
}

/// Cuts a byte stream into consecutive 512-byte blocks, zero-padding the
/// final partial block. A `len`-byte stream yields `ceil(len / 512)` blocks;
/// an empty stream yields none.
pub fn parse_data(input: &Vec<u8>) -> (r: Vec<Vec<u8>>)
    ensures
        views_of(r@) == chunks(input@),
        r@.len() == chunk_count(input@.len() as int),
{
    let ghost s = input@;
    let mut out: Vec<Vec<u8>> = Vec::new();
    let mut pos: usize = 0;
    assert(input@.len() <= usize::MAX) by {
        assert(input.len() == input@.len());
    };
    while input.len() - pos >= 512
        invariant
            s == input@,
            pos == 512 * out@.len(),
            pos <= s.len() <= usize::MAX,
            forall|j: int| 0 <= j < out@.len() ==> #[trigger] out@[j]@ == chunk_at(s, j),
        decreases s.len() - pos,
    {
        let ghost i = out@.len() as int;
        let block = take_range(input, pos, 512);
        assert(block@ == chunk_at(s, i)) by {
            assert(512 * (i + 1) <= s.len());
            assert(block@ =~= s.subrange(512 * i, 512 * (i + 1)));
        };
        out.push(block);
        pos = pos + 512;
    }
    let ghost i = out@.len() as int;
    if pos < input.len() {
        let rem = input.len() - pos;
        let partial = take_range(input, pos, rem);
        let block = pad_field(&partial, 512);
        assert(block@ == chunk_at(s, i)) by {
            assert(512 * (i + 1) > s.len());
            assert(partial@ =~= s.subrange(512 * i, s.len() as int));
            assert(block@ =~= chunk_at(s, i));
        };
        proof {
            assert(chunk_count(s.len() as int) == i + 1) by (nonlinear_arith)
                requires
                    512 * i < s.len(),
                    s.len() < 512 * i + 512,
            ;
        }
        out.push(block);
        assert(views_of(out@) =~= chunks(s));
    } else {
        proof {
            assert(chunk_count(s.len() as int) == i) by (nonlinear_arith)
                requires
                    s.len() == 512 * i,
            ;
            assert(views_of(out@) =~= chunks(s));
        }
    }
    out
}

/// Copies up to `max_chunks` whole 512-byte blocks out of `input` starting
/// at `offset`, stopping early when fewer than 512 bytes remain.
pub fn chunk_file(input: &Vec<u8>, offset: usize, max_chunks: usize) -> (r: Vec<Vec<u8>>)
    requires
        offset <= input@.len(),
    ensures
        views_of(r@) == take_blocks(input@, offset as int, r@.len() as nat),
        r@.len() == if (input@.len() - offset) / 512 <= max_chunks {
            (input@.len() - offset) / 512
        } else {
            max_chunks as int
        },
{
    let ghost s = input@;
    let mut out: Vec<Vec<u8>> = Vec::new();
    let mut pos: usize = offset;
    assert(input@.len() <= usize::MAX) by {
        assert(input.len() == input@.len());
    };
    while out.len() < max_chunks && input.len() - pos >= 512
        invariant
            s == input@,
            pos == offset + 512 * out@.len(),
            offset <= pos <= s.len() <= usize::MAX,
            out@.len() <= max_chunks,
            forall|j: int| 0 <= j < out@.len() ==> #[trigger] out@[j]@ == s.subrange(
                offset + 512 * j,
                offset + 512 * j + 512,
            ),
        decreases s.len() - pos,
    {
        let ghost i = out@.len() as int;
        let block = take_range(input, pos, 512);
        assert(block@ =~= s.subrange(offset + 512 * i, offset + 512 * i + 512));
        out.push(block);
        pos = pos + 512;
    }
    assert(views_of(out@) =~= take_blocks(s, offset as int, out@.len() as nat));
    proof {
        let i = out@.len() as int;
        if i < max_chunks {
            assert((s.len() - offset) / 512 == i) by (nonlinear_arith)
                requires
                    offset + 512 * i <= s.len(),
                    s.len() - (offset + 512 * i) < 512,
            ;
        } else {
            assert((s.len() - offset) / 512 >= i) by (nonlinear_arith)
                requires
                    offset + 512 * i <= s.len(),
            ;
        }
    }
    out
}

/// The 512 bytes of a stream starting at `pos`.
pub open spec fn block_at(s: Seq<u8>, pos: int) -> Seq<u8> {
    s.subrange(pos, pos + 512)
}

/// A decoded header record announces a readable entry: it is not the
/// end-of-archive sentinel, its magic and checksum validate, and its size
/// field is octal text.
pub open spec fn header_ok(b: Seq<u8>) -> bool {
    &&& !all_zero(b)
    &&& decode_spec(b).magic_ok()
    &&& decode_spec(b).checksum_ok()
    &&& oct_parse_ok(decode_spec(b).file_size)
}

/// How many content blocks the size field of a header record announces:
/// `floor(size / 512) + 1`.
pub open spec fn expected_blocks(b: Seq<u8>) -> int {
    oct_val(decode_spec(b).file_size.drop_last()) / 512 + 1
}

/// How many whole 512-byte blocks remain in the stream after the header.
pub open spec fn avail_blocks(s: Seq<u8>, pos: int) -> int {
    (s.len() - pos - 512) / 512
}

/// How many blocks a read at `pos` collects: the announced count, cut short
/// by the end of the stream.
pub open spec fn node_block_count(s: Seq<u8>, pos: int) -> int {
    if avail_blocks(s, pos) <= expected_blocks(block_at(s, pos)) {
        avail_blocks(s, pos)
    } else {
        expected_blocks(block_at(s, pos))
    }
}

/// What reading one entry at `pos` yields: the decoded header and the blocks
/// that follow, with the position after them — or nothing, when the record
/// is short, the sentinel, or fails validation.
pub open spec fn parse_node(s: Seq<u8>, pos: int) -> Option<(NodeV, int)> {
    if pos + 512 <= s.len() && header_ok(block_at(s, pos)) {
        let k = node_block_count(s, pos);
        Some(
            (
                NodeV {
                    header: decode_spec(block_at(s, pos)),
                    data: take_blocks(s, pos + 512, k as nat),
                },
                pos + 512 + 512 * k,
            ),
        )
    } else {
        None
    }
}

impl TarNode {
    /// The view is well formed.
    pub open spec fn wf(&self) -> bool {
        self@.wf()
    }

    /// An entry with an all-zero header and no content blocks.
    pub fn default() -> (r: TarNode)
        ensures
            r@ == (NodeV { header: HeaderV::zeroed(), data: Seq::<Seq<u8>>::empty() }),
            r.wf(),
    {
        let r = TarNode { header: TarHeader::default(), data: Vec::new() };
        assert(r@.data =~= Seq::<Seq<u8>>::empty());
        r
    }

    /// Serializes the entry: its encoded header, then each content block.
    /// The result is `512 * (1 + number of blocks)` bytes.
    pub fn write(&self) -> (r: Vec<u8>)
        requires
            self.wf(),
        ensures
            r@ == self@.enc(),
            r@.len() == 512 * (1 + self@.data.len()),
    {
        let mut out = self.header.to_bytes();
        assert(out@ =~= self@.header.enc() + flat(self@.data.take(0)));
        let mut i: usize = 0;
        while i < self.data.len()
            invariant
                i <= self.data@.len(),
                self.wf(),
                out@ == self@.header.enc() + flat(self@.data.take(i as int)),
            decreases self.data@.len() - i,
        {
            assert(self@.data[i as int] == self.data@[i as int]@);
            append_bytes(&mut out, &self.data[i]);
            proof {
                let d = self@.data;
                assert(d.take(i + 1).drop_last() =~= d.take(i as int));
                assert(d.take(i + 1).last() == d[i as int]);
                assert(out@ =~= self@.header.enc() + flat(d.take(i + 1)));
            }
            i = i + 1;
        }
        assert(self@.data.take(self.data@.len() as int) =~= self@.data);
        proof {
            lemma_enc_len(self@.header, self@.header.header_checksum);
            lemma_flat_len(self@.data);
        }
        out
    }

    /// Reads one entry from the stream at `offset`: decodes and validates a
    /// header record, then collects the announced number of content blocks,
    /// stopping early if the stream runs out. Fails with `EndOfTar` on the
    /// all-zero sentinel, `InvalidMagic` or `InvalidChecksum` on a bad
    /// header, `EncodingFailure` on a non-octal size field, and `IoFailure`
    /// when no whole header record remains.
    pub fn read(input: &Vec<u8>, offset: usize) -> (r: Result<(TarNode, usize), TarError>)
        requires
            offset <= input@.len(),
        ensures
            r is Ok <==> parse_node(input@, offset as int) is Some,
            r is Ok ==> parse_node(input@, offset as int) == Some(
                (r->Ok_0.0@, r->Ok_0.1 as int),
            ),
            r is Ok ==> r->Ok_0.0.wf() && offset + 512 <= r->Ok_0.1 <= input@.len(),
            input@.len() - offset < 512 ==> r == Err::<(TarNode, usize), TarError>(
                TarError::IoFailure,
            ),
            input@.len() - offset >= 512 ==> {
                let b = block_at(input@, offset as int);
                &&& (all_zero(b) ==> r == Err::<(TarNode, usize), TarError>(TarError::EndOfTar))
                &&& (!all_zero(b) && !decode_spec(b).magic_ok() ==> r == Err::<
                    (TarNode, usize),
                    TarError,
                >(TarError::InvalidMagic))
                &&& (!all_zero(b) && decode_spec(b).magic_ok() && !decode_spec(b).checksum_ok()
                    ==> r == Err::<(TarNode, usize), TarError>(TarError::InvalidChecksum))
                &&& (!all_zero(b) && decode_spec(b).magic_ok() && decode_spec(b).checksum_ok()
                    && !oct_parse_ok(decode_spec(b).file_size) ==> r == Err::<
                    (TarNode, usize),
                    TarError,
                >(TarError::EncodingFailure))
            },
    {
        let ghost s = input@;
        let ghost pos = offset as int;
        assert(input@.len() <= usize::MAX) by {
            assert(input.len() == input@.len());
        };
        if input.len() - offset < 512 {
            return Err(TarError::IoFailure);
        }
        let block = take_range(input, offset, 512);
        assert(block@ == block_at(s, pos));
        if is_zero_vec(&block) {
            return Err(TarError::EndOfTar);
        }
        let header = match TarHeader::from_bytes(&block) {
            Ok(h) => h,
            Err(_) => {
                proof {
                    assert(false);
                }
                return Err(TarError::EncodingFailure);
            },
        };
        assert(header@ == decode_spec(block_at(s, pos)));
        if !header.validate_magic() {
            return Err(TarError::InvalidMagic);
        }
        if !header.validate_checksum() {
            return Err(TarError::InvalidChecksum);
        }
        let size = match oct_to_dec(&header.file_size) {
            Ok(v) => v,
            Err(e) => {
                return Err(e);
            },
        };
        let expected = size / 512 + 1;
        let data = chunk_file(input, offset + 512, expected);
        let blocks = data.len();
        proof {
            assert(512 * ((s.len() - pos - 512) / 512) <= s.len() - pos - 512) by (
            nonlinear_arith)
                requires
                    pos + 512 <= s.len(),
            ;
            assert(blocks as int == node_block_count(s, pos));
        }
        let newpos = offset + 512 + 512 * blocks;
        let node = TarNode { header, data };
        proof {
            let k = node_block_count(s, pos);
            assert(node@.data =~= take_blocks(s, pos + 512, k as nat));
            assert(parse_node(s, pos) == Some((node@, newpos as int)));
            assert forall|i: int| 0 <= i < node@.data.len() implies #[trigger] node@.data[i].len()
                == 512 by {
                assert(node@.data[i] == take_blocks(s, pos + 512, k as nat)[i]);
            }
        }
        Ok((node, newpos))
    }

    /// Builds one entry from a file's path name, its metadata, its content
    /// bytes and an optional current-user name. Entries of every type other
    /// than `Normal` own no content blocks.
    pub fn read_file_to_tar(
        name: &Vec<u8>,
        meta: &FileMeta,
        content: &Vec<u8>,
        user: Option<&Vec<u8>>,
    ) -> (r: TarNode)
        requires
            build_req(name@, meta@, opt_view(user)),
            classify(meta@) is Normal ==> meta@.size == content@.len(),
        ensures
            r@ == node_built_v(name@, meta@, opt_view(user), content@),
            r.wf(),
    {
        let header = generate_header(name, meta, user);
        let is_normal = header.link_indicator[0] == 0x30;
        proof {
            assert(header@.link_indicator[0] == flag_code(classify(meta@)));
            assert(is_normal == (classify(meta@) is Normal));
        }
        let data: Vec<Vec<u8>> = if is_normal {
            parse_data(content)
        } else {
            Vec::new()
        };
        let r = TarNode { header, data };
        proof {
            if classify(meta@) is Normal {
                lemma_chunks_wf(content@);
            } else {
                assert(r@.data =~= Seq::<Seq<u8>>::empty());
            }
        }
        r
    }
}

/// The entry [`TarNode::read_file_to_tar`] builds: the header from the
/// metadata, and — for a regular file — the content cut into blocks.
pub open spec fn node_built_v(
    name: Seq<u8>,
    m: MetaV,
    user: Option<Seq<u8>>,
    content: Seq<u8>,
) -> NodeV {
    NodeV {
        header: build_header_v(name, m, user),
        data: if classify(m) is Normal {
            chunks(content)
        } else {
            Seq::empty()
        },
    }
}

/// Parsing the serialized form of a well-formed, validated entry whose size
/// field announces at least its own block count yields the entry itself,
/// with the whole stream consumed.
pub proof fn lemma_parse_encoded_node(nv: NodeV)
    requires
        nv.wf(),
        nv.header.checksum_ok(),
        nv.header.magic_ok(),
        oct_parse_ok(nv.header.file_size),
        nv.data.len() <= oct_val(nv.header.file_size.drop_last()) / 512 + 1,
    ensures
        parse_node(nv.enc(), 0) == Some((nv, nv.enc().len() as int)),
{
    let s = nv.enc();
    let h = nv.header;
    lemma_enc_len(h, h.header_checksum);
    lemma_flat_len(nv.data);
    assert(s.len() == 512 + 512 * nv.data.len());
    let b = block_at(s, 0);
    assert(b =~= h.enc());
    lemma_decode_enc(h);
    crate::header::lemma_valid_header_not_sentinel(h);
    assert(header_ok(b));
    let k = node_block_count(s, 0);
    assert(avail_blocks(s, 0) == nv.data.len()) by (nonlinear_arith)
        requires
            s.len() == 512 + 512 * nv.data.len(),
    ;
    assert(k == nv.data.len());
    assert(take_blocks(s, 512, k as nat) =~= nv.data) by {
        assert forall|i: int| 0 <= i < nv.data.len() implies take_blocks(s, 512, k as nat)[i]
            == nv.data[i] by {
            lemma_flat_block_at(nv.data, i);
            assert(s.subrange(512 + 512 * i, 512 + 512 * i + 512) =~= flat(nv.data).subrange(
                512 * i,
                512 * i + 512,
            ));
        }
    };
}

/// An entry built from a regular file is well formed and internally valid:
/// its checksum and magic validate, its size field is octal text holding the
/// file's length, and its name field is the zero-padded file name.
pub proof fn lemma_built_node_valid(
    name: Seq<u8>,
    m: MetaV,
    user: Option<Seq<u8>>,
    content: Seq<u8>,
)
    requires
        build_req(name, m, user),
        classify(m) is Normal,
        m.size == content.len(),
        content.len() <= usize::MAX,
    ensures
        ({
            let nv = node_built_v(name, m, user, content);
            &&& nv.wf()
            &&& nv.header.checksum_ok()
            &&& nv.header.magic_ok()
            &&& oct_parse_ok(nv.header.file_size)
            &&& oct_val(nv.header.file_size.drop_last()) == m.size
            &&& nv.data.len() == chunk_count(content.len() as int)
            &&& nv.header.file_name == pad_zero(name, 100)
        }),
{
    let nv = node_built_v(name, m, user, content);
    let base = build_header_base(name, m, user);
    let h = build_header_v(name, m, user);
    lemma_oct_render_digits(m.mode % 0o1000, 7);
    lemma_oct_render_digits(m.uid, 7);
    lemma_oct_render_digits(m.gid, 7);
    lemma_oct_render_digits(m.size, 11);
    lemma_oct_render_digits(m.mtime, 11);
    assert(base.wf());
    lemma_update_checksum_validates(base);
    assert(h.wf() && h.checksum_ok() && h.magic_ok());
    assert(h.file_size.drop_last() =~= oct_render(m.size, 11));
    lemma_oct_val_render(m.size, 11);
    assert(oct_parse_ok(h.file_size));
    lemma_chunks_wf(content);
    assert(nv.wf());
}

/// Round trip: an entry built from a regular file parses back from its own
/// serialized stream as the identical entry, and its content blocks, cut at
/// the file's length, are exactly the file's bytes.
pub proof fn lemma_node_roundtrip(
    name: Seq<u8>,
    m: MetaV,
    user: Option<Seq<u8>>,
    content: Seq<u8>,
)
    requires
        build_req(name, m, user),
        classify(m) is Normal,
        m.size == content.len(),
        content.len() <= usize::MAX,
    ensures
        ({
            let nv = node_built_v(name, m, user, content);
            parse_node(nv.enc(), 0) == Some((nv, nv.enc().len() as int))
        }),
        flat(node_built_v(name, m, user, content).data).subrange(0, content.len() as int)
            == content,
{
    let nv = node_built_v(name, m, user, content);
    lemma_built_node_valid(name, m, user, content);
    assert(nv.data.len() <= m.size / 512 + 1) by (nonlinear_arith)
        requires
            nv.data.len() == (content.len() + 511) / 512,
            m.size == content.len(),
            m.size >= 0,
    ;
    lemma_parse_encoded_node(nv);
    lemma_flat_chunks_prefix(content);
}

} // verus!
