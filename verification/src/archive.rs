//! The archive: an ordered collection of entries, serialized back to back
//! and terminated by eighteen all-zero 512-byte blocks.

use vstd::prelude::*;

use crate::bytes::{
    all_zero, append_bytes, flat, lemma_flat_block_at, lemma_flat_len, pad_zero, take_blocks,
    vec_eq, zeros,
};
use crate::header::{decode_spec, lemma_decode_enc, lemma_enc_len, HeaderV};
use crate::meta::{build_req, classify, opt_view, pad_field, FileMeta, MetaV};
use crate::node::{
    avail_blocks, block_at, expected_blocks, header_ok, lemma_built_node_valid,
    lemma_flat_chunks_prefix, node_block_count, node_built_v, parse_node, NodeV, TarNode,
};
use crate::octal::lemma_oct_val_bound;

verus! {

/// The mathematical contents of a sequence of entries.
pub open spec fn node_views(ns: Seq<TarNode>) -> Seq<NodeV> {
    Seq::new(ns.len(), |i: int| ns[i]@)
}

/// The serialized form of a run of entries, one after another.
pub open spec fn nodes_enc(ns: Seq<NodeV>) -> Seq<u8>
    decreases ns.len(),
{
    if ns.len() == 0 {
        Seq::empty()
    } else {
        nodes_enc(ns.drop_last()) + ns.last().enc()
    }
}

/// The serialized form of a whole archive: every entry in order, then the
/// 9216-byte terminator — or nothing at all for an empty archive.
pub open spec fn archive_enc(ns: Seq<NodeV>) -> Seq<u8> {
    if ns.len() == 0 {
        Seq::empty()
    } else {
        nodes_enc(ns) + zeros(9216)
    }
}

/// Reading one entry always advances the position, and never past the end.
pub proof fn lemma_parse_node_progress(s: Seq<u8>, pos: int)
    requires
        0 <= pos,
        parse_node(s, pos) is Some,
    ensures
        pos + 512 <= parse_node(s, pos)->Some_0.1 <= s.len(),
{
    let b = block_at(s, pos);
    lemma_oct_val_bound(crate::header::decode_spec(b).file_size.drop_last());
    let k = crate::node::node_block_count(s, pos);
    assert(0 <= k && pos + 512 + 512 * k <= s.len()) by (nonlinear_arith)
        requires
            pos + 512 <= s.len(),
            0 <= crate::node::expected_blocks(b),
            k == crate::node::node_block_count(s, pos),
            crate::node::avail_blocks(s, pos) == (s.len() - pos - 512) / 512,
            k == if crate::node::avail_blocks(s, pos) <= crate::node::expected_blocks(b) {
                crate::node::avail_blocks(s, pos)
            } else {
                crate::node::expected_blocks(b)
            },
    ;
}

/// Every entry a stream yields when read entry by entry from `pos` until the
/// first failure — the sentinel, a corrupt record, or the end of the stream.
pub open spec fn parse_archive(s: Seq<u8>, pos: int) -> Seq<NodeV>
    decreases s.len() - pos,
    when 0 <= pos
    via parse_archive_decreases
{
    match parse_node(s, pos) {
        Some(r) => seq![r.0] + parse_archive(s, r.1),
        None => Seq::empty(),
    }
}

#[via_fn]
proof fn parse_archive_decreases(s: Seq<u8>, pos: int) {
    match parse_node(s, pos) {
        Some(r) => {
            lemma_parse_node_progress(s, pos);
        },
        None => {},
    }
}

/// The archive: an ordered collection of entries. Insertion order is the
/// archive order and is kept by serialization.
pub struct TarFile {
    pub file: Vec<TarNode>,
}

impl View for TarFile {
    type V = Seq<NodeV>;

    open spec fn view(&self) -> Seq<NodeV> {
        node_views(self.file@)
    }
}

/// Serializes a run of entries back to back, with no terminator.
pub fn serialize(tar: &Vec<TarNode>) -> (r: Vec<u8>)
    requires
        forall|i: int| 0 <= i < tar@.len() ==> (#[trigger] tar@[i])@.wf(),
    ensures
        r@ == nodes_enc(node_views(tar@)),
{
    let ghost vs = node_views(tar@);
    let mut out: Vec<u8> = Vec::new();
    assert(out@ =~= nodes_enc(vs.take(0)));
    let mut i: usize = 0;
    while i < tar.len()
        invariant
            i <= tar@.len(),
            vs == node_views(tar@),
            forall|k: int| 0 <= k < tar@.len() ==> (#[trigger] tar@[k])@.wf(),
            out@ == nodes_enc(vs.take(i as int)),
        decreases tar@.len() - i,
    {
        assert(tar@[i as int]@.wf());
        let node_bytes = tar[i].write();
        append_bytes(&mut out, &node_bytes);
        proof {
            assert(vs.take(i + 1).drop_last() =~= vs.take(i as int));
            assert(vs.take(i + 1).last() == vs[i as int]);
            assert(out@ =~= nodes_enc(vs.take(i + 1)));
        }
        i = i + 1;
    }
    assert(vs.take(tar@.len() as int) =~= vs);
    out
}

/// Appends the end-of-archive terminator: eighteen 512-byte blocks of
/// zeros, 9216 bytes in all.
pub fn append_end(out: &mut Vec<u8>)
    ensures
        final(out)@ == old(out)@ + zeros(9216),
{
    let mut i: usize = 0;
    while i < 9216
        invariant
            i <= 9216,
            out@.len() == old(out)@.len() + i,
            out@.subrange(0, old(out)@.len() as int) == old(out)@,
            forall|k: int| old(out)@.len() <= k < out@.len() ==> out@[k] == 0,
        decreases 9216 - i,
    {
        out.push(0);
        assert(out@.subrange(0, old(out)@.len() as int) =~= old(out)@);
        i = i + 1;
    }
    assert(out@ =~= old(out)@ + zeros(9216));
}

impl TarFile {
    /// Every entry is well formed.
    pub open spec fn wf(&self) -> bool {
        forall|i: int| 0 <= i < self@.len() ==> (#[trigger] self@[i]).wf()
    }

    /// An archive with no entries.
    pub fn default() -> (r: TarFile)
        ensures
            r@ == Seq::<NodeV>::empty(),
            r.wf(),
    {
        let r = TarFile { file: Vec::new() };
        assert(r@ =~= Seq::<NodeV>::empty());
        r
    }

    /// Creates an archive holding exactly one entry, built from one file's
    /// path name, metadata, content bytes and optional current-user name.
    pub fn new(
        name: &Vec<u8>,
        meta: &FileMeta,
        content: &Vec<u8>,
        user: Option<&Vec<u8>>,
    ) -> (r: TarFile)
        requires
            build_req(name@, meta@, opt_view(user)),
            classify(meta@) is Normal ==> meta@.size == content@.len(),
        ensures
            r@ == seq![node_built_v(name@, meta@, opt_view(user), content@)],
            r.wf(),
    {
        let node = TarNode::read_file_to_tar(name, meta, content, user);
        let mut file: Vec<TarNode> = Vec::new();
        file.push(node);
        let r = TarFile { file };
        assert(r@ =~= seq![node_built_v(name@, meta@, opt_view(user), content@)]);
        r
    }

    /// Builds one more entry from a file and appends it to the archive.
    pub fn append(
        &mut self,
        name: &Vec<u8>,
        meta: &FileMeta,
        content: &Vec<u8>,
        user: Option<&Vec<u8>>,
    )
        requires
            build_req(name@, meta@, opt_view(user)),
            classify(meta@) is Normal ==> meta@.size == content@.len(),
            old(self).wf(),
        ensures
            final(self)@ == old(self)@.push(
                node_built_v(name@, meta@, opt_view(user), content@),
            ),
            final(self).wf(),
    {
        let node = TarNode::read_file_to_tar(name, meta, content, user);
        self.file.push(node);
        assert(self@ =~= old(self)@.push(node_built_v(name@, meta@, opt_view(user), content@)));
    }

    /// Serializes the whole archive: every entry in order, then — for a
    /// non-empty archive — the 9216-byte all-zero terminator. An empty
    /// archive writes no bytes at all.
    pub fn write(&self) -> (r: Vec<u8>)
        requires
            self.wf(),
        ensures
            r@ == archive_enc(self@),
    {
        proof {
            assert forall|i: int| 0 <= i < self.file@.len() implies (
            #[trigger] self.file@[i])@.wf() by {
                assert(self@[i] == self.file@[i]@);
            }
        }
        let mut out = serialize(&self.file);
        if self.file.len() > 0 {
            append_end(&mut out);
        } else {
            assert(self@.len() == 0);
        }
        out
    }

    /// Reads an archive out of a byte stream: entries are collected one
    /// after another until the end-of-archive sentinel, a corrupt record or
    /// the end of the stream stops the scan.
    pub fn open(input: &Vec<u8>) -> (r: TarFile)
        ensures
            r@ == parse_archive(input@, 0),
            r.wf(),
    {
        let ghost s = input@;
        let mut file: Vec<TarNode> = Vec::new();
        let mut pos: usize = 0;
        loop
            invariant_except_break
                s == input@,
                pos <= s.len(),
                forall|k: int| 0 <= k < file@.len() ==> (#[trigger] file@[k])@.wf(),
                parse_archive(s, 0) == node_views(file@) + parse_archive(s, pos as int),
            ensures
                parse_archive(s, 0) == node_views(file@),
                forall|k: int| 0 <= k < file@.len() ==> (#[trigger] file@[k])@.wf(),
            decreases s.len() - pos,
        {
            match TarNode::read(input, pos) {
                Ok(np) => {
                    let (n, p) = np;
                    proof {
                        assert(parse_node(s, pos as int) == Some((n@, p as int)));
                        assert(parse_archive(s, pos as int) == seq![n@] + parse_archive(
                            s,
                            p as int,
                        ));
                        assert(node_views(file@.push(n)) =~= node_views(file@).push(n@));
                        assert(node_views(file@) + (seq![n@] + parse_archive(s, p as int))
                            =~= node_views(file@).push(n@) + parse_archive(s, p as int));
                    }
                    file.push(n);
                    pos = p;
                },
                Err(_) => {
                    proof {
                        assert(parse_archive(s, pos as int) =~= Seq::<NodeV>::empty());
                        assert(node_views(file@) + Seq::<NodeV>::empty() =~= node_views(file@));
                    }
                    break ;
                },
            }
        }
        TarFile { file }
    }

    /// Removes the first entry whose name field equals `filename`,
    /// zero-padded to the fixed 100-byte field, and reports whether one was
    /// found; an archive with no match is left unchanged.
    pub fn remove(&mut self, filename: &Vec<u8>) -> (r: bool)
        requires
            filename@.len() <= 100,
        ensures
            r == (exists|j: int|
                0 <= j < old(self)@.len() && name_matches(
                    #[trigger] old(self)@[j].header,
                    filename@,
                )),
            !r ==> final(self)@ == old(self)@,
            r ==> (exists|j: int|
                {
                    &&& 0 <= j < old(self)@.len()
                    &&& name_matches(#[trigger] old(self)@[j].header, filename@)
                    &&& (forall|k: int|
                        0 <= k < j ==> !name_matches(
                            #[trigger] old(self)@[k].header,
                            filename@,
                        ))
                    &&& final(self)@ == old(self)@.remove(j)
                }),
    {
        let name = pad_field(filename, 100);
        let mut i: usize = 0;
        while i < self.file.len()
            invariant
                i <= self.file@.len(),
                *self == *old(self),
                name@ == pad_zero(filename@, 100),
                forall|k: int|
                    0 <= k < i ==> !name_matches(#[trigger] old(self)@[k].header, filename@),
            decreases self.file@.len() - i,
        {
            if vec_eq(&self.file[i].header.file_name, &name) {
                assert(name_matches(old(self)@[i as int].header, filename@));
                self.file.remove(i);
                proof {
                    assert(node_views(self.file@) =~= node_views(old(self).file@).remove(
                        i as int,
                    ));
                }
                return true;
            }
            assert(!name_matches(old(self)@[i as int].header, filename@));
            i = i + 1;
        }
        false
    }
}

/// An entry's name field holds `f`, zero-padded to the fixed 100-byte field.
pub open spec fn name_matches(h: HeaderV, f: Seq<u8>) -> bool {
    h.file_name == pad_zero(f, 100)
}

/// How many entries of a run match a name.
pub open spec fn count_matches(ns: Seq<NodeV>, f: Seq<u8>) -> int
    decreases ns.len(),
{
    if ns.len() == 0 {
        0
    } else {
        count_matches(ns.drop_last(), f) + if name_matches(ns.last().header, f) {
            1int
        } else {
            0int
        }
    }
}

/// Appending an entry raises the match count by one exactly when the entry's
/// name matches.
pub proof fn lemma_count_push(ns: Seq<NodeV>, nv: NodeV, f: Seq<u8>)
    ensures
        count_matches(ns.push(nv), f) == count_matches(ns, f) + if name_matches(nv.header, f) {
            1int
        } else {
            0int
        },
{
    assert(ns.push(nv).drop_last() =~= ns);
    assert(ns.push(nv).last() == nv);
}

/// Removing a matching entry lowers the match count by exactly one: one
/// `remove` call takes away one match, never more.
pub proof fn lemma_count_remove(ns: Seq<NodeV>, f: Seq<u8>, j: int)
    requires
        0 <= j < ns.len(),
        name_matches(ns[j].header, f),
    ensures
        count_matches(ns.remove(j), f) == count_matches(ns, f) - 1,
    decreases ns.len(),
{
    if j == ns.len() - 1 {
        assert(ns.remove(j) =~= ns.drop_last());
    } else {
        assert(ns.remove(j).drop_last() =~= ns.drop_last().remove(j));
        assert(ns.remove(j).last() == ns.last());
        lemma_count_remove(ns.drop_last(), f, j);
    }
}

/// A match count never leaves `0 ..= len`.
pub proof fn lemma_count_bounds(ns: Seq<NodeV>, f: Seq<u8>)
    ensures
        0 <= count_matches(ns, f) <= ns.len(),
    decreases ns.len(),
{
    if ns.len() > 0 {
        lemma_count_bounds(ns.drop_last(), f);
    }
}

/// A run's match count is zero exactly when no entry of it matches — the
/// state in which `remove` reports false and leaves the archive unchanged.
pub proof fn lemma_count_zero(ns: Seq<NodeV>, f: Seq<u8>)
    ensures
        (count_matches(ns, f) == 0) <==> (forall|j: int|
            0 <= j < ns.len() ==> !name_matches(#[trigger] ns[j].header, f)),
    decreases ns.len(),
{
    if ns.len() > 0 {
        lemma_count_zero(ns.drop_last(), f);
        lemma_count_bounds(ns.drop_last(), f);
        assert forall|j: int| 0 <= j < ns.len() - 1 implies ns.drop_last()[j] == ns[j] by {}
        if count_matches(ns, f) == 0 {
            assert forall|j: int| 0 <= j < ns.len() implies !name_matches(
                #[trigger] ns[j].header,
                f,
            ) by {
                if j < ns.len() - 1 {
                    assert(ns[j] == ns.drop_last()[j]);
                } else {
                    assert(ns[j] == ns.last());
                }
            }
        }
    }
}

/// Remove semantics: starting from an archive with no entry of a given
/// name, appending two entries of that name and then removing it once —
/// whichever of the two the scan finds first — leaves exactly one matching
/// entry.
pub proof fn lemma_append_twice_remove_once(
    ns: Seq<NodeV>,
    nv1: NodeV,
    nv2: NodeV,
    f: Seq<u8>,
    j: int,
)
    requires
        forall|i: int| 0 <= i < ns.len() ==> !name_matches(#[trigger] ns[i].header, f),
        name_matches(nv1.header, f),
        name_matches(nv2.header, f),
        0 <= j < ns.push(nv1).push(nv2).len(),
        name_matches(ns.push(nv1).push(nv2)[j].header, f),
    ensures
        count_matches(ns.push(nv1).push(nv2).remove(j), f) == 1,
{
    lemma_count_zero(ns, f);
    lemma_count_push(ns, nv1, f);
    lemma_count_push(ns.push(nv1), nv2, f);
    lemma_count_remove(ns.push(nv1).push(nv2), f, j);
}

/// Archive identity: an archive of exactly one entry built from a regular
/// file, serialized and then opened again, yields exactly one entry: its
/// header is the built header — so its name field is the zero-padded file
/// name — and its content blocks, cut at the file's length, are the file's
/// bytes.
pub proof fn lemma_archive_roundtrip(
    name: Seq<u8>,
    m: MetaV,
    user: Option<Seq<u8>>,
    content: Seq<u8>,
)
    requires
        build_req(name, m, user),
        classify(m) is Normal,
        m.size == content.len(),
        content.len() <= usize::MAX,
    ensures
        ({
            let nv = node_built_v(name, m, user, content);
            let parsed = parse_archive(archive_enc(seq![nv]), 0);
            &&& parsed.len() == 1
            &&& parsed[0].header == nv.header
            &&& parsed[0].header.file_name == pad_zero(name, 100)
            &&& flat(parsed[0].data).subrange(0, content.len() as int) == content
        }),
{
    let nv = node_built_v(name, m, user, content);
    let h = nv.header;
    let lc = content.len() as int;
    let c = nv.data.len() as int;
    lemma_built_node_valid(name, m, user, content);

    // the stream: the one entry's bytes, then the terminator
    assert(seq![nv].drop_last() =~= Seq::<NodeV>::empty());
    assert(nodes_enc(Seq::<NodeV>::empty()) == Seq::<u8>::empty());
    assert(nodes_enc(seq![nv]) == nodes_enc(seq![nv].drop_last()) + seq![nv].last().enc());
    assert(nodes_enc(seq![nv]) =~= nv.enc());
    let s = archive_enc(seq![nv]);
    assert(s == nv.enc() + zeros(9216));
    lemma_enc_len(h, h.header_checksum);
    lemma_flat_len(nv.data);
    assert(nv.enc().len() == 512 + 512 * c);
    assert(s.len() == 512 + 512 * c + 9216);

    // the first record of the stream is the entry's header, and it passes
    // every check
    let b = block_at(s, 0);
    assert(b =~= h.enc());
    lemma_decode_enc(h);
    crate::header::lemma_valid_header_not_sentinel(h);
    assert(header_ok(b));

    // the read collects the announced number of blocks: at most one beyond
    // the entry's own, taken out of the terminator
    let avail = avail_blocks(s, 0);
    let expected = expected_blocks(b);
    assert(expected == m.size / 512 + 1);
    assert(avail == c + 18) by (nonlinear_arith)
        requires
            avail == (512 + 512 * c + 9216 - 0 - 512) / 512,
            c >= 0,
    ;
    assert(c <= expected <= c + 1) by (nonlinear_arith)
        requires
            expected == lc / 512 + 1,
            c == (lc + 511) / 512,
            lc >= 0,
    ;
    let k = node_block_count(s, 0);
    assert(k == expected);
    assert forall|i: int| 0 <= i < c implies take_blocks(s, 512, k as nat)[i]
        == nv.data[i] by {
        lemma_flat_block_at(nv.data, i);
        assert(512 * (i + 1) <= 512 * c) by (nonlinear_arith)
            requires
                i + 1 <= c,
        ;
        assert(s.subrange(512 + 512 * i, 512 + 512 * i + 512) =~= flat(nv.data).subrange(
            512 * i,
            512 * i + 512,
        ));
    }
    let pn = NodeV { header: decode_spec(b), data: take_blocks(s, 512, k as nat) };
    let p = 512 + 512 * k;
    assert(parse_node(s, 0) == Some((pn, p)));
    assert(pn.header == h);

    // the parsed content, cut at the file's length, is the file's bytes
    lemma_flat_chunks_prefix(content);
    assert(lc <= 512 * c) by (nonlinear_arith)
        requires
            c == (lc + 511) / 512,
            lc >= 0,
    ;
    if k == c {
        assert(pn.data =~= nv.data);
        assert(flat(pn.data).subrange(0, lc) == content);
    } else {
        assert(k == c + 1);
        assert(take_blocks(s, 512, k as nat)[c] =~= zeros(512));
        assert(pn.data =~= nv.data.push(zeros(512)));
        assert(pn.data.drop_last() =~= nv.data);
        assert(pn.data.last() == zeros(512));
        assert(flat(pn.data) == flat(nv.data) + zeros(512));
        assert(flat(pn.data).subrange(0, lc) =~= flat(nv.data).subrange(0, lc));
        assert(flat(nv.data).subrange(0, lc) == content);
    }

    // after the entry only terminator zeros remain: the scan stops there
    assert(512 * k <= 512 * c + 512) by (nonlinear_arith)
        requires
            k <= c + 1,
    ;
    assert(512 * c <= 512 * k) by (nonlinear_arith)
        requires
            c <= k,
    ;
    assert(p + 512 <= s.len());
    assert(all_zero(block_at(s, p))) by {
        assert forall|j: int| 0 <= j < 512 implies block_at(s, p)[j] == 0 by {
            assert(block_at(s, p)[j] == s[p + j]);
            assert(p + j >= nv.enc().len());
            assert(s[p + j] == zeros(9216)[p + j - nv.enc().len()]);
        }
    };
    assert(parse_node(s, p) is None);
    assert(parse_archive(s, p) =~= Seq::<NodeV>::empty());
    assert(parse_archive(s, 0) =~= seq![pn]);
}

/// A non-empty archive's serialized stream ends in 9216 zero bytes; an
/// empty archive serializes to no bytes at all.
pub proof fn lemma_write_terminator(ns: Seq<NodeV>)
    ensures
        ns.len() == 0 ==> archive_enc(ns).len() == 0,
        ns.len() > 0 ==> archive_enc(ns).len() >= 9216 && archive_enc(ns).subrange(
            archive_enc(ns).len() - 9216,
            archive_enc(ns).len() as int,
        ) == zeros(9216),
{
    if ns.len() > 0 {
        let e = archive_enc(ns);
        assert(e.subrange(e.len() - 9216, e.len() as int) =~= zeros(9216));
    }
}

} // verus!
