//! The files of an inverted-file index besides the per-cluster indexes: the
//! header with the cluster centroids, and the map from a cluster's local
//! positions to global row numbers. Integers are little endian; a `usize`
//! takes 8 bytes (the layout on 64-bit targets); a centroid coordinate is kept as the 32 bits of its `f32`.

use vstd::prelude::*;

verus! {

// ---------------------------------------------------------------------------
// Little-endian integers
// ---------------------------------------------------------------------------

/// The 8 bytes of `v`, least significant first (`u64::to_le_bytes`).
pub open spec fn le_bytes_u64(v: u64) -> Seq<u8> {
    seq![
        v as u8,
        (v >> 8) as u8,
        (v >> 16) as u8,
        (v >> 24) as u8,
        (v >> 32) as u8,
        (v >> 40) as u8,
        (v >> 48) as u8,
        (v >> 56) as u8,
    ]
}

/// The 4 bytes of `v`, least significant first (`u32::to_le_bytes`).
pub open spec fn le_bytes_u32(v: u32) -> Seq<u8> {
    seq![v as u8, (v >> 8) as u8, (v >> 16) as u8, (v >> 24) as u8]
}

/// The `u64` stored little endian in `b[at..at + 8]` (`u64::from_le_bytes`).
pub open spec fn u64_at(b: Seq<u8>, at: int) -> u64 {
    (b[at] as u64) | ((b[at + 1] as u64) << 8u64) | ((b[at + 2] as u64) << 16u64) | ((b[at
        + 3] as u64) << 24u64) | ((b[at + 4] as u64) << 32u64) | ((b[at + 5] as u64) << 40u64)
        | ((b[at + 6] as u64) << 48u64) | ((b[at + 7] as u64) << 56u64)
}

/// The `u32` stored little endian in `b[at..at + 4]` (`u32::from_le_bytes`).
pub open spec fn u32_at(b: Seq<u8>, at: int) -> u32 {
    (b[at] as u32) | ((b[at + 1] as u32) << 8u32) | ((b[at + 2] as u32) << 16u32) | ((b[at
        + 3] as u32) << 24u32)
}

/// The bytes of 32-bit words, one word after the other.
pub open spec fn words_bytes(w: Seq<u32>) -> Seq<u8>
    decreases w.len(),
{
    if w.len() == 0 {
        Seq::empty()
    } else {
        words_bytes(w.drop_last()) + le_bytes_u32(w.last())
    }
}

/// The `n` words stored from `b[at]` on, 4 bytes each.
pub open spec fn words_at(b: Seq<u8>, at: int, n: nat) -> Seq<u32> {
    Seq::new(n, |i: int| u32_at(b, at + 4 * i))
}

proof fn lemma_u64_roundtrip(v: u64)
    ensures
        u64_at(le_bytes_u64(v), 0) == v,
{
    let b = le_bytes_u64(v);
    assert(b[0] == v as u8 && b[1] == (v >> 8) as u8 && b[2] == (v >> 16) as u8 && b[3] == (v
        >> 24) as u8 && b[4] == (v >> 32) as u8 && b[5] == (v >> 40) as u8 && b[6] == (v
        >> 48) as u8 && b[7] == (v >> 56) as u8);
    assert(((v as u8) as u64) | ((((v >> 8) as u8) as u64) << 8u64) | ((((v >> 16) as u8) as u64)
        << 16u64) | ((((v >> 24) as u8) as u64) << 24u64) | ((((v >> 32) as u8) as u64) << 32u64)
        | ((((v >> 40) as u8) as u64) << 40u64) | ((((v >> 48) as u8) as u64) << 48u64) | ((((v
        >> 56) as u8) as u64) << 56u64) == v) by (bit_vector);
}

proof fn lemma_u32_roundtrip(v: u32)
    ensures
        u32_at(le_bytes_u32(v), 0) == v,
{
    let b = le_bytes_u32(v);
    assert(b[0] == v as u8 && b[1] == (v >> 8) as u8 && b[2] == (v >> 16) as u8 && b[3] == (v
        >> 24) as u8);
    assert(((v as u8) as u32) | ((((v >> 8) as u8) as u32) << 8u32) | ((((v >> 16) as u8) as u32)
        << 16u32) | ((((v >> 24) as u8) as u32) << 24u32) == v) by (bit_vector);
}

proof fn lemma_u64_bytes_back(b: Seq<u8>, at: int)
    requires
        0 <= at,
        at + 8 <= b.len(),
    ensures
        le_bytes_u64(u64_at(b, at)) == b.subrange(at, at + 8),
{
    let (b0, b1, b2, b3, b4, b5, b6, b7) = (
        b[at],
        b[at + 1],
        b[at + 2],
        b[at + 3],
        b[at + 4],
        b[at + 5],
        b[at + 6],
        b[at + 7],
    );
    let v = u64_at(b, at);
    assert(v == (b0 as u64) | ((b1 as u64) << 8u64) | ((b2 as u64) << 16u64) | ((b3 as u64)
        << 24u64) | ((b4 as u64) << 32u64) | ((b5 as u64) << 40u64) | ((b6 as u64) << 48u64) | ((
    b7 as u64) << 56u64));
    assert(v == (b0 as u64) | ((b1 as u64) << 8u64) | ((b2 as u64) << 16u64) | ((b3 as u64)
        << 24u64) | ((b4 as u64) << 32u64) | ((b5 as u64) << 40u64) | ((b6 as u64) << 48u64) | ((
    b7 as u64) << 56u64) ==> v as u8 == b0 && (v >> 8) as u8 == b1 && (v >> 16) as u8 == b2 && (v
        >> 24) as u8 == b3 && (v >> 32) as u8 == b4 && (v >> 40) as u8 == b5 && (v >> 48) as u8
        == b6 && (v >> 56) as u8 == b7) by (bit_vector);
    assert(le_bytes_u64(v) =~= b.subrange(at, at + 8));
}

proof fn lemma_u32_bytes_back(b: Seq<u8>, at: int)
    requires
        0 <= at,
        at + 4 <= b.len(),
    ensures
        le_bytes_u32(u32_at(b, at)) == b.subrange(at, at + 4),
{
    let (b0, b1, b2, b3) = (b[at], b[at + 1], b[at + 2], b[at + 3]);
    let v = u32_at(b, at);
    assert(v == (b0 as u32) | ((b1 as u32) << 8u32) | ((b2 as u32) << 16u32) | ((b3 as u32)
        << 24u32));
    assert(v == (b0 as u32) | ((b1 as u32) << 8u32) | ((b2 as u32) << 16u32) | ((b3 as u32)
        << 24u32) ==> v as u8 == b0 && (v >> 8) as u8 == b1 && (v >> 16) as u8 == b2 && (v
        >> 24) as u8 == b3) by (bit_vector);
    assert(le_bytes_u32(v) =~= b.subrange(at, at + 4));
}

proof fn lemma_u64_at_sub(b: Seq<u8>, at: int)
    requires
        0 <= at,
        at + 8 <= b.len(),
    ensures
        u64_at(b, at) == u64_at(b.subrange(at, at + 8), 0),
{
    let s = b.subrange(at, at + 8);
    assert(s[0] == b[at] && s[1] == b[at + 1] && s[2] == b[at + 2] && s[3] == b[at + 3] && s[4]
        == b[at + 4] && s[5] == b[at + 5] && s[6] == b[at + 6] && s[7] == b[at + 7]);
}

fn put_u64(out: &mut Vec<u8>, v: u64)
    ensures
        final(out)@ == old(out)@ + le_bytes_u64(v),
{
    out.push(v as u8);
    out.push((v >> 8) as u8);
    out.push((v >> 16) as u8);
    out.push((v >> 24) as u8);
    out.push((v >> 32) as u8);
    out.push((v >> 40) as u8);
    out.push((v >> 48) as u8);
    out.push((v >> 56) as u8);
    assert(out@ =~= old(out)@ + le_bytes_u64(v));
}

fn put_u32(out: &mut Vec<u8>, v: u32)
    ensures
        final(out)@ == old(out)@ + le_bytes_u32(v),
{
    out.push(v as u8);
    out.push((v >> 8) as u8);
    out.push((v >> 16) as u8);
    out.push((v >> 24) as u8);
    assert(out@ =~= old(out)@ + le_bytes_u32(v));
}

fn get_u64(b: &[u8], at: usize) -> (v: u64)
    requires
        at + 8 <= b@.len(),
    ensures
        v == u64_at(b@, at as int),
{
    (b[at] as u64) | ((b[at + 1] as u64) << 8u64) | ((b[at + 2] as u64) << 16u64) | ((b[at
        + 3] as u64) << 24u64) | ((b[at + 4] as u64) << 32u64) | ((b[at + 5] as u64) << 40u64)
        | ((b[at + 6] as u64) << 48u64) | ((b[at + 7] as u64) << 56u64)
}

fn get_u32(b: &[u8], at: usize) -> (v: u32)
    requires
        at + 4 <= b@.len(),
    ensures
        v == u32_at(b@, at as int),
{
    (b[at] as u32) | ((b[at + 1] as u32) << 8u32) | ((b[at + 2] as u32) << 16u32) | ((b[at
        + 3] as u32) << 24u32)
}

fn put_words(out: &mut Vec<u8>, w: &Vec<u32>)
    ensures
        final(out)@ == old(out)@ + words_bytes(w@),
{
    let ghost start = out@;
    let mut i: usize = 0;
    assert(w@.take(0) =~= Seq::<u32>::empty());
    assert(out@ =~= start + words_bytes(w@.take(0)));
    while i < w.len()
        invariant
            0 <= i <= w@.len(),
            out@ == start + words_bytes(w@.take(i as int)),
        decreases w@.len() - i,
    {
        put_u32(out, w[i]);
        assert(w@.take(i + 1).drop_last() =~= w@.take(i as int));
        assert(out@ =~= start + words_bytes(w@.take(i + 1)));
        i = i + 1;
    }
    assert(w@.take(w@.len() as int) =~= w@);
}

proof fn lemma_words_len(w: Seq<u32>)
    ensures
        words_bytes(w).len() == 4 * w.len(),
    decreases w.len(),
{
    if w.len() > 0 {
        lemma_words_len(w.drop_last());
    }
}

/// Reading back the bytes of words gives the words.
proof fn lemma_words_roundtrip(w: Seq<u32>, prefix: Seq<u8>)
    ensures
        words_at(prefix + words_bytes(w), prefix.len() as int, w.len()) == w,
    decreases w.len(),
{
    if w.len() > 0 {
        let p = w.drop_last();
        lemma_words_roundtrip(p, prefix);
        lemma_words_len(p);
        let all = prefix + words_bytes(w);
        let short = prefix + words_bytes(p);
        let n = w.len() - 1;
        assert(all =~= short + le_bytes_u32(w.last()));
        assert forall|i: int| 0 <= i < n implies u32_at(all, prefix.len() + 4 * i) == w[i] by {
            assert(u32_at(short, prefix.len() + 4 * i) == p[i]);
            let at = prefix.len() + 4 * i;
            assert(all[at] == short[at] && all[at + 1] == short[at + 1] && all[at + 2] == short[at
                + 2] && all[at + 3] == short[at + 3]);
        }
        let at = prefix.len() + 4 * n;
        lemma_u32_roundtrip(w.last());
        let lb = le_bytes_u32(w.last());
        assert(all[at] == lb[0] && all[at + 1] == lb[1] && all[at + 2] == lb[2] && all[at + 3]
            == lb[3]);
        assert(words_at(all, prefix.len() as int, w.len()) =~= w);
    }
}

/// Writing back words read from bytes gives the bytes.
proof fn lemma_words_bytes_back(b: Seq<u8>, at: int, n: nat)
    requires
        0 <= at,
        at + 4 * n <= b.len(),
    ensures
        words_bytes(words_at(b, at, n)) == b.subrange(at, at + 4 * n),
    decreases n,
{
    if n > 0 {
        let m = (n - 1) as nat;
        lemma_words_bytes_back(b, at, m);
        assert(words_at(b, at, n).drop_last() =~= words_at(b, at, m));
        lemma_u32_bytes_back(b, at + 4 * m);
        assert(b.subrange(at, at + 4 * n) =~= b.subrange(at, at + 4 * m) + b.subrange(
            at + 4 * m,
            at + 4 * n,
        ));
    } else {
        assert(b.subrange(at, at) =~= Seq::<u8>::empty());
    }
}

// ---------------------------------------------------------------------------
// The index header
// ---------------------------------------------------------------------------

/// The header of an inverted-file index: the dimension, the bit width of
/// the per-cluster indexes, the number of clusters, and the centroids, row
/// after row (`num_lists * dim` coordinates), each as the bits of an `f32`.
pub struct IvfMeta {
    pub dim: usize,
    pub bit_width: usize,
    pub num_lists: usize,
    pub centroid_bits: Vec<u32>,
}

/// What the header holds, as plain values.
pub struct MetaView {
    pub dim: usize,
    pub bit_width: usize,
    pub num_lists: usize,
    pub centroids: Seq<u32>,
}

impl IvfMeta {
    pub open spec fn view(&self) -> MetaView {
        MetaView {
            dim: self.dim,
            bit_width: self.bit_width,
            num_lists: self.num_lists,
            centroids: self.centroid_bits@,
        }
    }
}

/// The header file: dimension, bit width and number of clusters as 8-byte
/// integers, then every centroid coordinate as 4 bytes.
pub open spec fn meta_bytes(m: MetaView) -> Seq<u8> {
    le_bytes_u64(m.dim as u64) + le_bytes_u64(m.bit_width as u64) + le_bytes_u64(
        m.num_lists as u64,
    ) + words_bytes(m.centroids)
}

/// Why a header file was refused.
#[derive(Clone, Copy, PartialEq, Eq, Debug)]
pub enum MetaError {
    /// The file does not hold `num_lists * dim` centroid coordinates.
    CentroidCountMismatch,
}

/// Whether a header file can be read without a panic: it holds the three
/// integers, and the number of clusters times the dimension fits a `usize`.
pub open spec fn meta_readable(b: Seq<u8>) -> bool {
    b.len() >= 24 && (u64_at(b, 16) as usize as int) * (u64_at(b, 0) as usize as int) <= usize::MAX
}

/// What a header file reads as: the three integers, then as many whole
/// 4-byte words as follow (a trailing partial word is ignored), which must
/// be `num_lists * dim` of them.
pub open spec fn read_meta(b: Seq<u8>) -> Result<MetaView, MetaError> {
    let dim = u64_at(b, 0) as usize;
    let bit_width = u64_at(b, 8) as usize;
    let num_lists = u64_at(b, 16) as usize;
    let count = ((b.len() - 24) / 4) as nat;
    if count != num_lists * dim {
        Err(MetaError::CentroidCountMismatch)
    } else {
        Ok(MetaView { dim, bit_width, num_lists, centroids: words_at(b, 24, count) })
    }
}

impl IvfMeta {
    /// The bytes of the header file. See [`meta_bytes`].
    pub fn to_bytes(&self) -> (b: Vec<u8>)
        ensures
            b@ == meta_bytes(self.view()),
    {
        let mut out: Vec<u8> = Vec::new();
        put_u64(&mut out, self.dim as u64);
        put_u64(&mut out, self.bit_width as u64);
        put_u64(&mut out, self.num_lists as u64);
        put_words(&mut out, &self.centroid_bits);
        assert(out@ =~= meta_bytes(self.view()));
        out
    }

    /// Reads a header file. See [`read_meta`].
    pub fn from_bytes(data: &[u8]) -> (r: Result<IvfMeta, MetaError>)
        requires
            meta_readable(data@),
        ensures
            match r {
                Ok(m) => read_meta(data@) == Ok::<MetaView, MetaError>(m.view()),
                Err(e) => read_meta(data@) == Err::<MetaView, MetaError>(e),
            },
    {
        let dim = get_u64(data, 0) as usize;
        let bit_width = get_u64(data, 8) as usize;
        let num_lists = get_u64(data, 16) as usize;
        let count = (data.len() - 24) / 4;
        if count != num_lists * dim {
            return Err(MetaError::CentroidCountMismatch);
        }
        let mut centroid_bits: Vec<u32> = Vec::new();
        let mut i: usize = 0;
        proof {
            vstd::arithmetic::div_mod::lemma_fundamental_div_mod(data@.len() - 24, 4);
        }
        while i < count
            invariant
                0 <= i <= count,
                24 + 4 * count <= data@.len(),
                data@.len() == data.len(),
                count == (data@.len() - 24) / 4,
                data@.len() >= 24,
                centroid_bits@ == words_at(data@, 24, i as nat),
            decreases count - i,
        {
            let w = get_u32(data, 24 + 4 * i);
            centroid_bits.push(w);
            assert(centroid_bits@ =~= words_at(data@, 24, (i + 1) as nat));
            i = i + 1;
        }
        let m = IvfMeta { dim, bit_width, num_lists, centroid_bits };
        assert(m.view() == MetaView {
            dim,
            bit_width,
            num_lists,
            centroids: words_at(data@, 24, count as nat),
        });
        Ok(m)
    }
}

/// Reading the header file that a header writes gives the header back,
/// whenever it holds `num_lists * dim` centroid coordinates.
pub proof fn lemma_meta_roundtrip(m: MetaView)
    requires
        m.centroids.len() == m.num_lists * m.dim,
        m.num_lists * m.dim <= usize::MAX,
    ensures
        meta_readable(meta_bytes(m)),
        read_meta(meta_bytes(m)) == Ok::<MetaView, MetaError>(m),
{
    let b = meta_bytes(m);
    let h = le_bytes_u64(m.dim as u64) + le_bytes_u64(m.bit_width as u64) + le_bytes_u64(
        m.num_lists as u64,
    );
    lemma_words_len(m.centroids);
    lemma_u64_roundtrip(m.dim as u64);
    lemma_u64_roundtrip(m.bit_width as u64);
    lemma_u64_roundtrip(m.num_lists as u64);
    assert(h.len() == 24);
    assert(b.subrange(0, 8) =~= le_bytes_u64(m.dim as u64));
    assert(b.subrange(8, 16) =~= le_bytes_u64(m.bit_width as u64));
    assert(b.subrange(16, 24) =~= le_bytes_u64(m.num_lists as u64));
    lemma_u64_at_sub(b, 0);
    lemma_u64_at_sub(b, 8);
    lemma_u64_at_sub(b, 16);
    lemma_words_roundtrip(m.centroids, h);
    assert(b == h + words_bytes(m.centroids));
    assert((b.len() - 24) / 4 == m.centroids.len());
    assert((m.dim as u64) as usize == m.dim);
    assert((m.num_lists as u64) as usize == m.num_lists);
    assert((m.bit_width as u64) as usize == m.bit_width);
}

/// Writing the header that a header file reads as gives the file back,
/// whenever the file has no trailing partial word.
pub proof fn lemma_meta_bytes_back(b: Seq<u8>)
    requires
        meta_readable(b),
        (b.len() - 24) % 4 == 0,
        read_meta(b) is Ok,
        u64_at(b, 0) <= usize::MAX,
        u64_at(b, 8) <= usize::MAX,
        u64_at(b, 16) <= usize::MAX,
    ensures
        meta_bytes(read_meta(b)->Ok_0) == b,
{
    let m = read_meta(b)->Ok_0;
    let n = ((b.len() - 24) / 4) as nat;
    lemma_u64_bytes_back(b, 0);
    lemma_u64_bytes_back(b, 8);
    lemma_u64_bytes_back(b, 16);
    lemma_words_bytes_back(b, 24, n);
    vstd::arithmetic::div_mod::lemma_fundamental_div_mod(b.len() - 24, 4);
    assert(24 + 4 * n == b.len());
    assert((u64_at(b, 0) as usize) as u64 == u64_at(b, 0));
    assert((u64_at(b, 8) as usize) as u64 == u64_at(b, 8));
    assert((u64_at(b, 16) as usize) as u64 == u64_at(b, 16));
    assert(b =~= b.subrange(0, 8) + b.subrange(8, 16) + b.subrange(16, 24) + b.subrange(
        24,
        24 + 4 * n as int,
    ));
}

// ---------------------------------------------------------------------------
// The local-to-global map of a cluster
// ---------------------------------------------------------------------------

/// The bytes of a cluster's id map: each global row number as 4 bytes
/// (`i32::to_le_bytes`).
pub open spec fn idmap_bytes(ids: Seq<i32>) -> Seq<u8> {
    words_bytes(ids.map_values(|v: i32| v as u32))
}

/// What the bytes of an id map read as: every whole 4-byte word as an `i32`
/// (`i32::from_le_bytes`); a trailing partial word is ignored.
pub open spec fn read_idmap(b: Seq<u8>) -> Seq<i32> {
    Seq::new(b.len() / 4, |i: int| u32_at(b, 4 * i) as i32)
}

/// The bytes of a cluster's id map. See [`idmap_bytes`].
pub fn encode_idmap(ids: &Vec<i32>) -> (b: Vec<u8>)
    ensures
        b@ == idmap_bytes(ids@),
{
    let mut words: Vec<u32> = Vec::new();
    let mut i: usize = 0;
    while i < ids.len()
        invariant
            0 <= i <= ids@.len(),
            words@ == ids@.take(i as int).map_values(|v: i32| v as u32),
        decreases ids@.len() - i,
    {
        words.push(ids[i] as u32);
        assert(words@ =~= ids@.take(i + 1).map_values(|v: i32| v as u32));
        i = i + 1;
    }
    assert(ids@.take(ids@.len() as int) =~= ids@);
    let mut out: Vec<u8> = Vec::new();
    put_words(&mut out, &words);
    assert(out@ =~= idmap_bytes(ids@));
    out
}

/// Reads the bytes of a cluster's id map. See [`read_idmap`].
pub fn decode_idmap(data: &[u8]) -> (ids: Vec<i32>)
    ensures
        ids@ == read_idmap(data@),
{
    let count = data.len() / 4;
    let mut ids: Vec<i32> = Vec::new();
    let mut i: usize = 0;
    proof {
        vstd::arithmetic::div_mod::lemma_fundamental_div_mod(data@.len() as int, 4);
    }
    while i < count
        invariant
            0 <= i <= count,
            4 * count <= data@.len(),
            data@.len() == data.len(),
            count == data@.len() / 4,
            ids@ == Seq::new(i as nat, |j: int| u32_at(data@, 4 * j) as i32),
        decreases count - i,
    {
        let w = get_u32(data, 4 * i);
        ids.push(#[verifier::truncate] (w as i32));
        assert(ids@ =~= Seq::new((i + 1) as nat, |j: int| u32_at(data@, 4 * j) as i32));
        i = i + 1;
    }
    ids
}

/// Reading the bytes of an id map gives the map back.
pub proof fn lemma_idmap_roundtrip(ids: Seq<i32>)
    ensures
        read_idmap(idmap_bytes(ids)) == ids,
{
    let w = ids.map_values(|v: i32| v as u32);
    lemma_words_roundtrip(w, Seq::empty());
    lemma_words_len(w);
    assert(Seq::<u8>::empty() + words_bytes(w) =~= words_bytes(w));
    assert forall|i: int| 0 <= i < ids.len() implies (u32_at(idmap_bytes(ids), 4 * i) as i32)
        == ids[i] by {
        assert(u32_at(idmap_bytes(ids), 0 + 4 * i) == w[i]);
        let v = ids[i];
        assert(((v as u32) as i32) == v) by (bit_vector);
    }
    assert(read_idmap(idmap_bytes(ids)) =~= ids);
}

/// The global row number of the row at local position `local` of a
/// cluster: the id map's entry where it has one, else the local position
/// itself (as an `i32`).
pub open spec fn global_row(local: usize, idmap: Seq<i32>) -> i32 {
    if local < idmap.len() {
        idmap[local as int]
    } else {
        local as i32
    }
}

/// The id map written for a cluster's rows maps each local position of the
/// cluster back to the global row it holds, for row numbers that fit an
/// `i32`: a search inside the cluster reports global rows.
pub proof fn lemma_idmap_maps_back(rows: Seq<usize>, j: usize)
    requires
        j < rows.len(),
        forall|k: int| 0 <= k < rows.len() ==> #[trigger] rows[k] <= i32::MAX,
    ensures
        global_row(j, read_idmap(idmap_bytes(rows.map_values(|r: usize| r as i32)))) as int
            == rows[j as int],
{
    let ids = rows.map_values(|r: usize| r as i32);
    lemma_idmap_roundtrip(ids);
    assert(rows[j as int] <= i32::MAX);
    assert(ids[j as int] == rows[j as int] as i32);
}

/// See [`global_row`].
pub fn to_global_row(local: usize, idmap: &Vec<i32>) -> (r: i32)
    ensures
        r == global_row(local, idmap@),
{
    if local < idmap.len() {
        idmap[local]
    } else {
        local as i32
    }
}

} // verus!
