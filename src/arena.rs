//! The append-only byte buffer that backs every binary payload of a scene.
use vstd::prelude::*;
use crate::coords::{Vec2, Vec3};

verus! {

/// `n` rounded up to the next multiple of four.
pub open spec fn align4(n: int) -> int {
    n + (4 - n % 4) % 4
}

/// The zero bytes that pad a buffer of length `n` to a multiple of four.
pub open spec fn padding(n: int) -> Seq<u8> {
    Seq::new(((4 - n % 4) % 4) as nat, |i: int| 0u8)
}

/// Rounds `*n` up to the next multiple of four.
pub fn align_to_multiple_of_four(n: &mut u32)
    requires
        align4(*old(n) as int) <= u32::MAX,
    ensures
        *final(n) as int == align4(*old(n) as int),
        *final(n) % 4 == 0,
{
    let r: u32 = *n % 4;
    if r != 0 {
        *n = *n + (4 - r);
    }
}

/// Appends zero bytes until the length of `vec` is a multiple of four.
pub fn pad_byte_vector(vec: &mut Vec<u8>)
    ensures
        final(vec)@ == old(vec)@ + padding(old(vec)@.len() as int),
        final(vec)@.len() % 4 == 0,
{
    let ghost start = vec@;
    while vec.len() % 4 != 0
        invariant
            start.len() <= vec@.len() <= align4(start.len() as int),
            vec@ == start + Seq::new((vec@.len() - start.len()) as nat, |i: int| 0u8),
        decreases align4(start.len() as int) - vec@.len(),
    {
        vec.push(0);
    }
    assert(vec@.len() == align4(start.len() as int));
    assert(vec@ =~= start + padding(start.len() as int));
}

/// The four little-endian bytes of `v`.
pub open spec fn le_bytes(v: u32) -> Seq<u8> {
    seq![(v % 256) as u8, ((v / 256) % 256) as u8, ((v / 65536) % 256) as u8, (v / 16777216) as u8]
}

/// The twelve bytes of a three-component vector.
pub open spec fn vec3_bytes(p: Vec3) -> Seq<u8> {
    le_bytes(p.x) + le_bytes(p.y) + le_bytes(p.z)
}

/// The eight bytes of a two-component vector.
pub open spec fn vec2_bytes(t: Vec2) -> Seq<u8> {
    le_bytes(t.u) + le_bytes(t.v)
}

/// Records that are all `k` bytes long flatten to `k` bytes each.
pub proof fn lemma_flatten_uniform(s: Seq<Seq<u8>>, k: int)
    requires
        k >= 0,
        forall|i: int| 0 <= i < s.len() ==> (#[trigger] s[i]).len() == k,
    ensures
        s.flatten().len() == k * s.len(),
    decreases s.len(),
{
    if s.len() > 0 {
        let t = s.drop_first();
        assert forall|i: int| 0 <= i < t.len() implies (#[trigger] t[i]).len() == k by {
            assert(t[i] == s[i + 1]);
        }
        lemma_flatten_uniform(t, k);
        assert(s.flatten() == s.first() + t.flatten());
        assert(s.first().len() == k);
        assert(k * s.len() == k + k * t.len()) by (nonlinear_arith)
            requires
                t.len() == s.len() - 1,
        ;
    } else {
        assert(k * s.len() == 0) by (nonlinear_arith)
            requires
                s.len() == 0,
        ;
    }
}

/// A growing byte sequence: bytes are appended and never changed or removed.
pub struct Arena {
    bytes: Vec<u8>,
}

impl View for Arena {
    type V = Seq<u8>;

    closed spec fn view(&self) -> Seq<u8> {
        self.bytes@
    }
}

impl Arena {
    /// An empty arena.
    pub fn new() -> (r: Arena)
        ensures
            r@ == Seq::<u8>::empty(),
    {
        Arena { bytes: Vec::new() }
    }

    /// The number of bytes held.
    pub fn current_length(&self) -> (r: u64)
        ensures
            r == self@.len(),
    {
        self.bytes.len() as u64
    }

    /// Appends `data` and returns the offset at which it starts, the length
    /// before the call.
    pub fn append(&mut self, data: &Vec<u8>) -> (offset: u64)
        ensures
            final(self)@ == old(self)@ + data@,
            offset == old(self)@.len(),
    {
        let offset = self.bytes.len() as u64;
        let mut i: usize = 0;
        while i < data.len()
            invariant
                i <= data@.len(),
                self@ == old(self)@ + data@.subrange(0, i as int),
            decreases data@.len() - i,
        {
            self.bytes.push(data[i]);
            i = i + 1;
            assert(data@.subrange(0, i as int) =~= data@.subrange(0, i - 1) + seq![data@[i - 1]]);
        }
        assert(data@.subrange(0, data@.len() as int) =~= data@);
        offset
    }

    /// Appends the four little-endian bytes of `v`.
    pub fn append_u32(&mut self, v: u32)
        ensures
            final(self)@ == old(self)@ + le_bytes(v),
    {
        self.bytes.push((v % 256) as u8);
        self.bytes.push(((v / 256) % 256) as u8);
        self.bytes.push(((v / 65536) % 256) as u8);
        self.bytes.push((v / 16777216) as u8);
        assert(self@ =~= old(self)@ + le_bytes(v));
    }

    /// Appends the components of `p` in order.
    pub fn append_vec3(&mut self, p: Vec3)
        ensures
            final(self)@ == old(self)@ + vec3_bytes(p),
    {
        self.append_u32(p.x);
        self.append_u32(p.y);
        self.append_u32(p.z);
        assert(self@ =~= old(self)@ + vec3_bytes(p));
    }

    /// Appends the components of `t` in order.
    pub fn append_vec2(&mut self, t: Vec2)
        ensures
            final(self)@ == old(self)@ + vec2_bytes(t),
    {
        self.append_u32(t.u);
        self.append_u32(t.v);
        assert(self@ =~= old(self)@ + vec2_bytes(t));
    }

    /// Appends zero bytes until the length is a multiple of four.
    pub fn pad_to_four(&mut self)
        ensures
            final(self)@ == old(self)@ + padding(old(self)@.len() as int),
            final(self)@.len() % 4 == 0,
    {
        pad_byte_vector(&mut self.bytes);
    }

    /// The bytes held.
    pub fn as_bytes(&self) -> (r: &Vec<u8>)
        ensures
            r@ == self@,
    {
        &self.bytes
    }

    /// Gives up the arena for its bytes.
    pub fn into_bytes(self) -> (r: Vec<u8>)
        ensures
            r@ == self@,
    {
        self.bytes
    }
}

/// Where the `i`-th of `chunks`, appended in turn after `start`, begins.
pub open spec fn chunk_offset(start: Seq<u8>, chunks: Seq<Seq<u8>>, i: int) -> int {
    start.len() + chunks.take(i).flatten().len() as int
}

/// For appends of `chunks` in turn to an arena holding `start`, then a pad:
/// each append starts at the length the arena had before it, its bytes lie
/// there afterwards, and the padded length is a multiple of four.
pub proof fn lemma_appends_then_pad(start: Seq<u8>, chunks: Seq<Seq<u8>>)
    ensures
        forall|i: int|
            #![trigger chunks[i]]
            0 <= i < chunks.len() ==> (start + chunks.flatten()).subrange(
                chunk_offset(start, chunks, i),
                chunk_offset(start, chunks, i) + chunks[i].len(),
            ) == chunks[i],
        (start + chunks.flatten() + padding((start + chunks.flatten()).len() as int)).len() % 4 == 0,
    decreases chunks.len(),
{
    if chunks.len() > 0 {
        let rest = chunks.drop_last();
        lemma_appends_then_pad(start, rest);
        assert(rest.push(chunks.last()) =~= chunks);
        rest.lemma_flatten_push(chunks.last());
        let all = start + chunks.flatten();
        assert(all =~= (start + rest.flatten()) + chunks.last());
        assert forall|i: int| #![trigger chunks[i]] 0 <= i < chunks.len() implies all.subrange(
            chunk_offset(start, chunks, i),
            chunk_offset(start, chunks, i) + chunks[i].len(),
        ) == chunks[i] by {
            let off = chunk_offset(start, chunks, i);
            if i < chunks.len() - 1 {
                assert(chunks.take(i) =~= rest.take(i));
                assert(rest[i] == chunks[i]);
                lemma_flatten_prefix_len(rest, i);
                assert(all.subrange(off, off + chunks[i].len() as int) =~= (start + rest.flatten()).subrange(off, off + chunks[i].len() as int));
            } else {
                assert(chunks.take(i) =~= rest);
                assert(all.subrange(off, off + chunks[i].len() as int) =~= chunks.last());
            }
        }
    }
}

/// A record and the records before it lie within the flattened records.
proof fn lemma_flatten_prefix_len(s: Seq<Seq<u8>>, i: int)
    requires
        0 <= i < s.len(),
    ensures
        s.take(i).flatten().len() + s[i].len() <= s.flatten().len(),
    decreases s.len(),
{
    let rest = s.drop_last();
    assert(rest.push(s.last()) =~= s);
    rest.lemma_flatten_push(s.last());
    if i < s.len() - 1 {
        assert(s.take(i) =~= rest.take(i));
        lemma_flatten_prefix_len(rest, i);
    } else {
        assert(s.take(i) =~= rest);
    }
}

} // verus!
