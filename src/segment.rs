//! The segment file layout: a sixteen-byte header (magic, version, count,
//! dimension, each a little-endian `u32`) followed by `count` vectors of
//! `dimension` components each, every component four little-endian bytes.
//!
//! A component is the IEEE-754 bit pattern of a single-precision float
//! (`f32::to_bits`); the layout stores and returns those patterns unchanged.

use crate::binary_io::{le_words, read_f32_vec, read_u32, u32_at, write_f32_slice, write_u32};
use crate::vector::{vectors_view, Vector};
use vstd::bytes::{
    lemma_auto_spec_u32_to_from_le_bytes, spec_u32_from_le_bytes, spec_u32_to_le_bytes,
};
use vstd::prelude::*;
use vstd::slice::slice_subrange;

verus! {

/// Format tag: the ASCII bytes "VECT" read as a little-endian `u32`.
pub const MAGIC: u32 = 0x5443_4556;

/// The one format revision this library reads and writes.
pub const VERSION: u32 = 1;

/// Size of the header in bytes: magic, version, count and dimension.
pub const HEADER_SIZE: u64 = 16;

/// Declares `std::io::Error` so that a storage failure can travel inside
/// [`SegmentError`]; the library never inspects one.
#[verifier::external_type_specification]
#[verifier::external_body]
pub struct ExIoError(std::io::Error);

/// Why a segment could not be written or read.
#[derive(Debug)]
pub enum SegmentError {
    /// The first four bytes are not the format tag; `magic` is what was found.
    InvalidFormat { magic: u32 },
    /// The tag matches but the revision is not [`VERSION`].
    UnsupportedVersion { version: u32 },
    /// The input ends before the header, or the data it declares, is complete.
    TruncatedInput,
    /// The vector at `index` has `got` components where `expected` were due.
    DimensionMismatch { expected: usize, got: usize, index: usize },
    /// `index` is not below the segment's `count`.
    IndexOutOfBounds { index: u32, count: u32 },
    /// `start + len` exceeds the segment's `count`.
    RangeOutOfBounds { start: u32, len: u32, count: u32 },
    /// The underlying storage failed.
    IoError(std::io::Error),
}

/// The fixed preamble of a segment file.
#[derive(Debug, Clone, Copy, PartialEq, Eq, Structural)]
pub struct SegmentHeader {
    pub version: u32,
    pub count: u32,
    pub dimension: u32,
}

/// The sixteen header bytes that encode the given fields.
pub open spec fn header_bytes(version: u32, count: u32, dimension: u32) -> Seq<u8> {
    spec_u32_to_le_bytes(MAGIC) + spec_u32_to_le_bytes(version) + spec_u32_to_le_bytes(count)
        + spec_u32_to_le_bytes(dimension)
}

/// What decoding the header at the start of `b` gives. The fields are
/// checked in file order, so a short input is reported at the first field
/// that it cuts off.
pub open spec fn decode_header(b: Seq<u8>) -> Result<SegmentHeader, SegmentError> {
    if b.len() < 4 {
        Err(SegmentError::TruncatedInput)
    } else if u32_at(b, 0) != MAGIC {
        Err(SegmentError::InvalidFormat { magic: u32_at(b, 0) })
    } else if b.len() < 8 {
        Err(SegmentError::TruncatedInput)
    } else if u32_at(b, 4) != VERSION {
        Err(SegmentError::UnsupportedVersion { version: u32_at(b, 4) })
    } else if b.len() < 16 {
        Err(SegmentError::TruncatedInput)
    } else {
        Ok(SegmentHeader { version: u32_at(b, 4), count: u32_at(b, 8), dimension: u32_at(b, 12) })
    }
}

impl SegmentHeader {
    /// The encoding of this header.
    pub open spec fn spec_bytes(self) -> Seq<u8> {
        header_bytes(self.version, self.count, self.dimension)
    }

    /// Bytes taken by one vector.
    pub open spec fn spec_vector_byte_size(self) -> int {
        self.dimension * 4
    }

    /// Byte offset of the vector at `index`.
    pub open spec fn spec_vector_offset(self, index: int) -> int {
        HEADER_SIZE + index * self.spec_vector_byte_size()
    }

    /// Size of a complete segment file with this header.
    pub open spec fn spec_file_size(self) -> int {
        self.spec_vector_offset(self.count as int)
    }

    /// Byte offset at which vector data starts.
    pub fn data_offset(&self) -> (r: u64)
        ensures
            r == HEADER_SIZE,
    {
        HEADER_SIZE
    }

    /// Bytes taken by one vector: four per component.
    pub fn vector_byte_size(&self) -> (r: u64)
        ensures
            r == self.spec_vector_byte_size(),
    {
        self.dimension as u64 * 4
    }

    /// Size of a complete segment file with this header.
    pub fn file_size(&self) -> (r: u64)
        requires
            self.spec_file_size() <= u64::MAX,
        ensures
            r == self.spec_file_size(),
    {
        proof {
            lemma_offset_bounds(*self, self.count as int);
        }
        HEADER_SIZE + (self.count as u64 * self.dimension as u64 * 4)
    }

    /// Byte offset of the vector at `index`; it does not look at any file.
    pub fn vector_offset(&self, index: u32) -> (r: u64)
        requires
            self.spec_vector_offset(index as int) <= u64::MAX,
        ensures
            r == self.spec_vector_offset(index as int),
    {
        proof {
            lemma_offset_bounds(*self, index as int);
        }
        HEADER_SIZE + (index as u64 * self.dimension as u64 * 4)
    }

    /// Where the vectors `start .. start + len` lie in a complete file:
    /// the offset of the first and the bytes they take together.
    pub open spec fn spec_range_span(self, start: u32, len: u32) -> Result<(u64, u64), SegmentError> {
        if start + len > self.count {
            Err(SegmentError::RangeOutOfBounds { start, len, count: self.count })
        } else if self.spec_vector_offset(start + len) > u64::MAX {
            Err(SegmentError::TruncatedInput)
        } else {
            Ok(
                (
                    self.spec_vector_offset(start as int) as u64,
                    (len * self.spec_vector_byte_size()) as u64,
                ),
            )
        }
    }

    /// Where the vector at `index` lies in a complete file.
    pub open spec fn spec_vector_span(self, index: u32) -> Result<(u64, u64), SegmentError> {
        if index >= self.count {
            Err(SegmentError::IndexOutOfBounds { index, count: self.count })
        } else {
            self.spec_range_span(index, 1)
        }
    }

    /// Locates the vectors `start .. start + len`: the byte offset of the
    /// first and the bytes they take together. A range past `count` is
    /// `RangeOutOfBounds`; one that ends beyond any possible file,
    /// `TruncatedInput`.
    pub fn range_span(&self, start: u32, len: u32) -> (r: Result<(u64, u64), SegmentError>)
        ensures
            r == self.spec_range_span(start, len),
    {
        if start as u64 + len as u64 > self.count as u64 {
            return Err(SegmentError::RangeOutOfBounds { start, len, count: self.count });
        }
        let end = start + len;
        proof {
            lemma_word_product(end, self.dimension);
            lemma_offset_bounds(*self, end as int);
            lemma_offset_bounds(*self, start as int);
            lemma_offset_step(*self, start as int, end as int);
        }
        let words = end as u64 * self.dimension as u64;
        let bytes = match words.checked_mul(4) {
            Some(b) => b,
            None => return Err(SegmentError::TruncatedInput),
        };
        let end_offset = match bytes.checked_add(HEADER_SIZE) {
            Some(e) => e,
            None => return Err(SegmentError::TruncatedInput),
        };
        let offset = self.vector_offset(start);
        proof {
            let s = self.spec_vector_byte_size();
            assert((start + len) * s == start * s + len * s) by (nonlinear_arith);
        }
        Ok((offset, end_offset - offset))
    }

    /// Locates the vector at `index`: its byte offset and size. An index
    /// from `count` on is `IndexOutOfBounds`.
    pub fn vector_span(&self, index: u32) -> (r: Result<(u64, u64), SegmentError>)
        ensures
            r == self.spec_vector_span(index),
    {
        if index >= self.count {
            return Err(SegmentError::IndexOutOfBounds { index, count: self.count });
        }
        self.range_span(index, 1)
    }

    /// Appends the sixteen header bytes to `w`.
    pub fn write(&self, w: &mut Vec<u8>)
        ensures
            final(w)@ == old(w)@ + self.spec_bytes(),
    {
        write_u32(w, MAGIC);
        write_u32(w, self.version);
        write_u32(w, self.count);
        write_u32(w, self.dimension);
        proof {
            assert(final(w)@ =~= old(w)@ + self.spec_bytes());
        }
    }

    /// Decodes the header at the start of `r`.
    pub fn read(r: &[u8]) -> (res: Result<SegmentHeader, SegmentError>)
        ensures
            res == decode_header(r@),
    {
        let mut pos: usize = 0;
        let magic = match read_u32(r, &mut pos) {
            Some(m) => m,
            None => return Err(SegmentError::TruncatedInput),
        };
        if magic != MAGIC {
            return Err(SegmentError::InvalidFormat { magic });
        }
        let version = match read_u32(r, &mut pos) {
            Some(v) => v,
            None => return Err(SegmentError::TruncatedInput),
        };
        if version != VERSION {
            return Err(SegmentError::UnsupportedVersion { version });
        }
        let count = match read_u32(r, &mut pos) {
            Some(c) => c,
            None => return Err(SegmentError::TruncatedInput),
        };
        let dimension = match read_u32(r, &mut pos) {
            Some(d) => d,
            None => return Err(SegmentError::TruncatedInput),
        };
        Ok(SegmentHeader { version, count, dimension })
    }
}

/// The products behind the offsets are those of the 64-bit computation.
proof fn lemma_offset_bounds(h: SegmentHeader, index: int)
    requires
        0 <= index,
    ensures
        index * h.dimension * 4 == h.spec_vector_offset(index) - HEADER_SIZE,
        index * h.dimension >= 0,
{
    assert(index * h.dimension * 4 == index * (h.dimension * 4)) by (nonlinear_arith);
    assert(index * h.dimension >= 0) by (nonlinear_arith)
        requires
            index >= 0,
            h.dimension >= 0,
    ;
}

/// Decoding the encoding of a header gives it back, whatever follows it.
pub proof fn lemma_header_round_trip(h: SegmentHeader, rest: Seq<u8>)
    requires
        h.version == VERSION,
    ensures
        decode_header(h.spec_bytes() + rest) == Ok::<SegmentHeader, SegmentError>(h),
{
    lemma_auto_spec_u32_to_from_le_bytes();
    let b = h.spec_bytes() + rest;
    assert(b.subrange(0, 4) =~= spec_u32_to_le_bytes(MAGIC));
    assert(b.subrange(4, 8) =~= spec_u32_to_le_bytes(h.version));
    assert(b.subrange(8, 12) =~= spec_u32_to_le_bytes(h.count));
    assert(b.subrange(12, 16) =~= spec_u32_to_le_bytes(h.dimension));
}

/// All components of `vs`, vector after vector.
pub open spec fn flatten_vectors(vs: Seq<Seq<u32>>) -> Seq<u32>
    decreases vs.len(),
{
    if vs.len() == 0 {
        Seq::empty()
    } else {
        flatten_vectors(vs.drop_last()) + vs.last()
    }
}

/// The dimension a segment of `vs` records: the length of the first vector, or 0.
pub open spec fn spec_dimension(vs: Seq<Seq<u32>>) -> int {
    if vs.len() == 0 {
        0
    } else {
        vs[0].len() as int
    }
}

/// Every vector of `vs` has `d` components.
pub open spec fn all_of_dimension(vs: Seq<Seq<u32>>, d: int) -> bool {
    forall|i: int| 0 <= i < vs.len() ==> #[trigger] vs[i].len() == d
}

/// `index` is the first position of `vs` whose vector does not have `d` components.
pub open spec fn is_first_mismatch(vs: Seq<Seq<u32>>, d: int, index: int) -> bool {
    &&& 0 <= index < vs.len()
    &&& vs[index].len() != d
    &&& forall|j: int| 0 <= j < index ==> #[trigger] vs[j].len() == d
}

/// The bytes of the segment file that holds `vs`: the header, then every
/// component of every vector in input order.
pub open spec fn segment_bytes(vs: Seq<Seq<u32>>) -> Seq<u8> {
    header_bytes(VERSION, vs.len() as u32, spec_dimension(vs) as u32) + le_words(
        flatten_vectors(vs),
    )
}

/// Encodes `vectors` as a segment file. The dimension is that of the first
/// vector (0 for no vectors); the first vector of another length makes the
/// whole write fail with `DimensionMismatch`.
pub fn write_segment(vectors: &[Vector]) -> (res: Result<Vec<u8>, SegmentError>)
    requires
        vectors@.len() <= u32::MAX,
        vectors@.len() > 0 ==> vectors@[0]@.len() <= u32::MAX,
    ensures
        ({
            let vs = vectors_view(vectors@);
            let d = spec_dimension(vs);
            &&& res is Ok <==> all_of_dimension(vs, d)
            &&& match res {
                Ok(bytes) => bytes@ == segment_bytes(vs),
                Err(SegmentError::DimensionMismatch { expected, got, index }) => {
                    &&& is_first_mismatch(vs, d, index as int)
                    &&& expected == d
                    &&& got == vs[index as int].len()
                },
                Err(_) => false,
            }
        }),
{
    let ghost vs = vectors_view(vectors@);
    let dimension: usize = if vectors.len() == 0 {
        0
    } else {
        vectors[0].data.len()
    };
    let header = SegmentHeader {
        version: VERSION,
        count: vectors.len() as u32,
        dimension: dimension as u32,
    };
    let mut out: Vec<u8> = Vec::new();
    header.write(&mut out);
    assert(out@ =~= header.spec_bytes() + le_words(flatten_vectors(vs.subrange(0, 0))));
    let mut i: usize = 0;
    while i < vectors.len()
        invariant
            0 <= i <= vectors@.len(),
            vs == vectors_view(vectors@),
            dimension == spec_dimension(vs),
            header.spec_bytes() == header_bytes(VERSION, vs.len() as u32, dimension as u32),
            forall|k: int| 0 <= k < i ==> #[trigger] vs[k].len() == dimension,
            out@ == header.spec_bytes() + le_words(flatten_vectors(vs.subrange(0, i as int))),
        decreases vectors.len() - i,
    {
        let v = &vectors[i];
        assert(vs[i as int] == v@);
        if v.data.len() != dimension {
            assert(vs[i as int].len() != dimension);
            return Err(
                SegmentError::DimensionMismatch { expected: dimension, got: v.data.len(), index: i },
            );
        }
        let ghost done = flatten_vectors(vs.subrange(0, i as int));
        write_f32_slice(&mut out, v.data.as_slice());
        proof {
            lemma_le_words_append(done, v@);
        }
        proof {
            assert(vs.subrange(0, i + 1).drop_last() =~= vs.subrange(0, i as int));
        }
        i += 1;
    }
    assert(vs.subrange(0, vs.len() as int) =~= vs);
    Ok(out)
}

/// The components of the vector at `index`, as the bytes of `b` hold them
/// under header `h`.
pub open spec fn vector_at(b: Seq<u8>, h: SegmentHeader, index: int) -> Seq<u32> {
    Seq::new(h.dimension as nat, |j: int| u32_at(b, h.spec_vector_offset(index) + 4 * j))
}

/// The vectors `start .. start + len` as the bytes of `b` hold them under `h`.
pub open spec fn vectors_from(b: Seq<u8>, h: SegmentHeader, start: int, len: nat) -> Seq<Seq<u32>> {
    Seq::new(len, |k: int| vector_at(b, h, start + k))
}

/// What reading every vector of the segment file `b` gives.
pub open spec fn spec_read_segment(b: Seq<u8>) -> Result<Seq<Seq<u32>>, SegmentError> {
    match decode_header(b) {
        Ok(h) => if b.len() < h.spec_file_size() {
            Err(SegmentError::TruncatedInput)
        } else {
            Ok(vectors_from(b, h, 0, h.count as nat))
        },
        Err(e) => Err(e),
    }
}

/// What reading the vector at `index` of the segment file `b` gives.
pub open spec fn spec_read_vector_at(b: Seq<u8>, index: u32) -> Result<Seq<u32>, SegmentError> {
    match decode_header(b) {
        Ok(h) => if index >= h.count {
            Err(SegmentError::IndexOutOfBounds { index, count: h.count })
        } else if b.len() < h.spec_vector_offset(index + 1) {
            Err(SegmentError::TruncatedInput)
        } else {
            Ok(vector_at(b, h, index as int))
        },
        Err(e) => Err(e),
    }
}

/// What reading `len` vectors from `start` of the segment file `b` gives.
pub open spec fn spec_read_vectors_range(b: Seq<u8>, start: u32, len: u32) -> Result<
    Seq<Seq<u32>>,
    SegmentError,
> {
    match decode_header(b) {
        Ok(h) => if start + len > h.count {
            Err(SegmentError::RangeOutOfBounds { start, len, count: h.count })
        } else if len > 0 && b.len() < h.spec_vector_offset(start + len) {
            Err(SegmentError::TruncatedInput)
        } else {
            Ok(vectors_from(b, h, start as int, len as nat))
        },
        Err(e) => Err(e),
    }
}

/// A read of several vectors, seen as their components.
pub open spec fn many_view(r: Result<Vec<Vector>, SegmentError>) -> Result<Seq<Seq<u32>>, SegmentError> {
    match r {
        Ok(v) => Ok(vectors_view(v@)),
        Err(e) => Err(e),
    }
}

/// A read of one vector, seen as its components.
pub open spec fn one_view(r: Result<Vector, SegmentError>) -> Result<Seq<u32>, SegmentError> {
    match r {
        Ok(v) => Ok(v@),
        Err(e) => Err(e),
    }
}

proof fn lemma_word_product(a: u32, b: u32)
    ensures
        0 <= a * b <= u64::MAX,
{
    assert(0 <= a * b <= 0xffff_ffffu64 * 0xffff_ffffu64) by (nonlinear_arith)
        requires
            a <= 0xffff_ffffu64,
            b <= 0xffff_ffffu64,
    ;
}

/// Offsets grow with the index, one vector size per step.
proof fn lemma_offset_step(h: SegmentHeader, i: int, k: int)
    requires
        0 <= i <= k,
    ensures
        h.spec_vector_offset(i) <= h.spec_vector_offset(k),
        h.spec_vector_offset(i + 1) == h.spec_vector_offset(i) + h.spec_vector_byte_size(),
{
    let s = h.spec_vector_byte_size();
    assert(i * s <= k * s) by (nonlinear_arith)
        requires
            0 <= i <= k,
            0 <= s,
    ;
    assert((i + 1) * s == i * s + s) by (nonlinear_arith);
}

/// The `d` components of the `k`-th of the vectors that `w` holds back to
/// back from its start.
pub open spec fn window_vector(w: Seq<u8>, d: nat, k: int) -> Seq<u32> {
    Seq::new(d, |j: int| u32_at(w, 4 * (k * d + j)))
}

/// The `n` vectors of `d` components each that `w` holds from its start.
pub open spec fn window_vectors(w: Seq<u8>, d: nat, n: nat) -> Seq<Seq<u32>> {
    Seq::new(n, |k: int| window_vector(w, d, k))
}

/// Every vector of `vs` carries no tags.
pub open spec fn untagged(vs: Seq<Vector>) -> bool {
    forall|i: int| 0 <= i < vs.len() ==> (#[trigger] vs[i]).metadata@ == Map::<String, String>::empty()
}

/// Decodes one vector of `dimension` components from the start of `window`.
pub fn decode_vector(window: &[u8], dimension: u32) -> (r: Vector)
    requires
        4 * dimension <= window@.len(),
    ensures
        r@ == window_vector(window@, dimension as nat, 0),
        r.metadata@ == Map::<String, String>::empty(),
{
    let mut pos: usize = 0;
    let data = match read_f32_vec(window, &mut pos, dimension as usize) {
        Some(d) => d,
        None => {
            assert(false);
            Vec::new()
        },
    };
    assert(data@ =~= window_vector(window@, dimension as nat, 0));
    Vector::new(data)
}

/// Decodes `n` consecutive vectors of `dimension` components each from the
/// start of `window`.
pub fn decode_vectors(window: &[u8], dimension: u32, n: u32) -> (res: Vec<Vector>)
    requires
        n * (4 * dimension) <= window@.len(),
    ensures
        vectors_view(res@) == window_vectors(window@, dimension as nat, n as nat),
        untagged(res@),
{
    let ghost d = dimension as int;
    let len = window.len();
    let mut out: Vec<Vector> = Vec::new();
    let mut pos: usize = 0;
    let mut k: u32 = 0;
    while k < n
        invariant
            k <= n,
            n * (4 * d) <= len,
            len == window@.len(),
            d == dimension,
            pos == k * (4 * d),
            out@.len() == k,
            forall|m: int|
                0 <= m < k ==> #[trigger] out@[m]@ == window_vector(window@, dimension as nat, m),
            untagged(out@),
        decreases n - k,
    {
        assert((k + 1) * (4 * d) <= n * (4 * d)) by (nonlinear_arith)
            requires
                k < n,
                0 <= d,
        ;
        assert((k + 1) * (4 * d) == k * (4 * d) + 4 * d) by (nonlinear_arith);
        let mut cursor = pos;
        let data = match read_f32_vec(window, &mut cursor, dimension as usize) {
            Some(d) => d,
            None => {
                assert(false);
                Vec::new()
            },
        };
        assert(k * (4 * d) == 4 * (k * d)) by (nonlinear_arith);
        assert(data@ =~= window_vector(window@, dimension as nat, k as int));
        out.push(Vector::new(data));
        pos = pos + 4 * dimension as usize;
        k += 1;
    }
    assert(vectors_view(out@) =~= window_vectors(window@, dimension as nat, n as nat));
    out
}

/// The vectors that a window cut from a segment file at the span of
/// `start .. start + len` holds are those vectors of the file.
proof fn lemma_window(b: Seq<u8>, h: SegmentHeader, start: int, len: int)
    requires
        0 <= start,
        0 <= len,
        h.spec_vector_offset(start + len) <= b.len(),
    ensures
        h.spec_vector_offset(start) <= h.spec_vector_offset(start + len),
        window_vectors(
            b.subrange(h.spec_vector_offset(start), h.spec_vector_offset(start + len)),
            h.dimension as nat,
            len as nat,
        ) == vectors_from(b, h, start, len as nat),
{
    let d = h.dimension as int;
    let off = h.spec_vector_offset(start);
    let end = h.spec_vector_offset(start + len);
    lemma_offset_step(h, start, start + len);
    let w = b.subrange(off, end);
    let got = window_vectors(w, d as nat, len as nat);
    let want = vectors_from(b, h, start, len as nat);
    assert forall|k: int| 0 <= k < len implies #[trigger] got[k] == want[k] by {
        assert forall|j: int| 0 <= j < d implies #[trigger] got[k][j] == want[k][j] by {
            let p = 4 * (k * d + j);
            assert(off + p == h.spec_vector_offset(start + k) + 4 * j) by {
                assert((start + k) * (d * 4) + 4 * j == start * (d * 4) + 4 * (k * d + j))
                    by (nonlinear_arith);
            }
            assert(p + 4 <= end - off) by {
                assert(4 * (k * d + j) + 4 <= len * (d * 4)) by (nonlinear_arith)
                    requires
                        0 <= k < len,
                        0 <= j < d,
                ;
                assert((start + len) * (d * 4) == start * (d * 4) + len * (d * 4))
                    by (nonlinear_arith);
            }
            assert(w.subrange(p, p + 4) =~= b.subrange(off + p, off + p + 4));
        }
        assert(got[k] =~= want[k]);
    }
    assert(got =~= want);
}

/// A span that was found starts at the first vector's offset and ends at the
/// offset just past the last one.
proof fn lemma_span(h: SegmentHeader, start: u32, len: u32)
    requires
        h.spec_range_span(start, len) is Ok,
    ensures
        ({
            let span = h.spec_range_span(start, len)->Ok_0;
            &&& span.0 == h.spec_vector_offset(start as int)
            &&& span.0 + span.1 == h.spec_vector_offset(start + len)
            &&& span.1 == len * h.spec_vector_byte_size()
        }),
{
    let s = h.spec_vector_byte_size();
    lemma_offset_step(h, start as int, start + len);
    assert((start + len) * s == start * s + len * s) by (nonlinear_arith);
}

/// The bytes of `r` that a located span names: the span's own error, or
/// `TruncatedInput` when `r` ends inside it.
fn locate(r: &[u8], span: Result<(u64, u64), SegmentError>) -> (w: Result<&[u8], SegmentError>)
    requires
        span is Ok ==> span->Ok_0.0 + span->Ok_0.1 <= u64::MAX,
    ensures
        r@.len() <= u64::MAX,
        match span {
            Err(e) => w == Err::<&[u8], SegmentError>(e),
            Ok(s) => if s.0 + s.1 <= r@.len() {
                w is Ok && w->Ok_0@ == r@.subrange(s.0 as int, s.0 + s.1)
            } else {
                w == Err::<&[u8], SegmentError>(SegmentError::TruncatedInput)
            },
        },
{
    let len = r.len();
    match span {
        Err(e) => Err(e),
        Ok(s) => {
            if s.0 + s.1 > len as u64 {
                Err(SegmentError::TruncatedInput)
            } else {
                let start = s.0 as usize;
                Ok(slice_subrange(r, start, start + s.1 as usize))
            }
        },
    }
}

/// Reads every vector of the segment file `r`, in file order.
pub fn read_segment(r: &[u8]) -> (res: Result<Vec<Vector>, SegmentError>)
    ensures
        many_view(res) == spec_read_segment(r@),
        res is Ok ==> untagged(res->Ok_0@),
{
    let header = match SegmentHeader::read(r) {
        Ok(h) => h,
        Err(e) => return Err(e),
    };
    let span = header.range_span(0, header.count);
    proof {
        if span is Ok {
            lemma_span(header, 0, header.count);
        }
    }
    let window = match locate(r, span) {
        Ok(w) => w,
        Err(e) => return Err(e),
    };
    proof {
        lemma_window(r@, header, 0, header.count as int);
    }
    Ok(decode_vectors(window, header.dimension, header.count))
}

/// Reads only the header of the segment file `r`.
pub fn read_segment_header(r: &[u8]) -> (res: Result<SegmentHeader, SegmentError>)
    ensures
        res == decode_header(r@),
{
    SegmentHeader::read(r)
}

/// Reads the vector at `index` of the segment file `r`. Only the header and
/// that vector's own bytes are looked at.
pub fn read_vector_at(r: &[u8], index: u32) -> (res: Result<Vector, SegmentError>)
    ensures
        one_view(res) == spec_read_vector_at(r@, index),
        res is Ok ==> res->Ok_0.metadata@ == Map::<String, String>::empty(),
{
    let header = match SegmentHeader::read(r) {
        Ok(h) => h,
        Err(e) => return Err(e),
    };
    let span = header.vector_span(index);
    proof {
        if span is Ok {
            lemma_span(header, index, 1);
        }
    }
    let window = match locate(r, span) {
        Ok(w) => w,
        Err(e) => return Err(e),
    };
    proof {
        lemma_window(r@, header, index as int, 1);
        assert(window_vectors(window@, header.dimension as nat, 1)[0] == window_vector(
            window@,
            header.dimension as nat,
            0,
        ));
        assert(vectors_from(r@, header, index as int, 1)[0] == vector_at(r@, header, index as int));
    }
    Ok(decode_vector(window, header.dimension))
}

/// Reads `len` consecutive vectors from `start` of the segment file `r`.
/// An empty range within bounds reads no data and always succeeds.
pub fn read_vectors_range(r: &[u8], start: u32, len: u32) -> (res: Result<Vec<Vector>, SegmentError>)
    ensures
        many_view(res) == spec_read_vectors_range(r@, start, len),
        res is Ok ==> untagged(res->Ok_0@),
{
    let header = match SegmentHeader::read(r) {
        Ok(h) => h,
        Err(e) => return Err(e),
    };
    if start as u64 + len as u64 > header.count as u64 {
        return Err(SegmentError::RangeOutOfBounds { start, len, count: header.count });
    }
    if len == 0 {
        let none: Vec<Vector> = Vec::new();
        assert(vectors_view(none@) =~= vectors_from(r@, header, start as int, 0));
        return Ok(none);
    }
    let span = header.range_span(start, len);
    proof {
        if span is Ok {
            lemma_span(header, start, len);
        }
    }
    let window = match locate(r, span) {
        Ok(w) => w,
        Err(e) => return Err(e),
    };
    proof {
        lemma_window(r@, header, start as int, len as int);
        let d = header.dimension as int;
        assert(len * (4 * d) == len * (d * 4)) by (nonlinear_arith);
    }
    Ok(decode_vectors(window, header.dimension, len))
}

/// Each word of `ws` sits, encoded, at four times its index in `le_words(ws)`.
proof fn lemma_le_words(ws: Seq<u32>)
    ensures
        le_words(ws).len() == 4 * ws.len(),
        forall|k: int|
            0 <= k < ws.len() ==> #[trigger] le_words(ws).subrange(4 * k, 4 * k + 4)
                == spec_u32_to_le_bytes(ws[k]),
    decreases ws.len(),
{
    lemma_auto_spec_u32_to_from_le_bytes();
    if ws.len() > 0 {
        let init = ws.drop_last();
        lemma_le_words(init);
        let w = le_words(ws);
        assert forall|k: int| 0 <= k < ws.len() implies #[trigger] w.subrange(4 * k, 4 * k + 4)
            == spec_u32_to_le_bytes(ws[k]) by {
            if k < init.len() {
                assert(w.subrange(4 * k, 4 * k + 4) =~= le_words(init).subrange(4 * k, 4 * k + 4));
            } else {
                assert(w.subrange(4 * k, 4 * k + 4) =~= spec_u32_to_le_bytes(ws.last()));
            }
        }
    }
}

/// Encoding two runs of words one after the other encodes their concatenation.
proof fn lemma_le_words_append(a: Seq<u32>, b: Seq<u32>)
    ensures
        le_words(a + b) == le_words(a) + le_words(b),
    decreases b.len(),
{
    if b.len() == 0 {
        assert(a + b =~= a);
        assert(le_words(a) + le_words(b) =~= le_words(a));
    } else {
        lemma_le_words_append(a, b.drop_last());
        assert((a + b).drop_last() =~= a + b.drop_last());
        assert(le_words(a + b) =~= le_words(a) + le_words(b));
    }
}

/// Component `j` of vector `i` sits at `i * d + j` among all components.
proof fn lemma_flatten(vs: Seq<Seq<u32>>, d: int)
    requires
        0 <= d,
        all_of_dimension(vs, d),
    ensures
        flatten_vectors(vs).len() == vs.len() * d,
        forall|i: int, j: int|
            0 <= i < vs.len() && 0 <= j < d ==> #[trigger] flatten_vectors(vs)[i * d + j]
                == vs[i][j],
    decreases vs.len(),
{
    if vs.len() > 0 {
        let init = vs.drop_last();
        lemma_flatten(init, d);
        let n = init.len();
        assert((n + 1) * d == n * d + d) by (nonlinear_arith);
        assert forall|i: int, j: int| 0 <= i < vs.len() && 0 <= j < d implies #[trigger] flatten_vectors(
            vs,
        )[i * d + j] == vs[i][j] by {
            if i < n {
                assert(i * d + j < n * d) by (nonlinear_arith)
                    requires
                        0 <= i < n,
                        0 <= j < d,
                ;
            } else {
                assert(i * d == n * d);
            }
        }
    }
}

/// The word at byte `16 + 4 * m` of a segment image is component `m` of the data.
proof fn lemma_word_of_image(hb: Seq<u8>, ws: Seq<u32>, m: int)
    requires
        hb.len() == HEADER_SIZE,
        0 <= m < ws.len(),
    ensures
        u32_at(hb + le_words(ws), HEADER_SIZE + 4 * m) == ws[m],
{
    lemma_auto_spec_u32_to_from_le_bytes();
    lemma_le_words(ws);
    let b = hb + le_words(ws);
    assert(b.subrange(HEADER_SIZE + 4 * m, HEADER_SIZE + 4 * m + 4) =~= le_words(ws).subrange(
        4 * m,
        4 * m + 4,
    ));
}

/// Reading back a written segment gives the vectors that were written, in
/// the same order and component for component.
pub proof fn lemma_round_trip(vs: Seq<Seq<u32>>)
    requires
        vs.len() <= u32::MAX,
        spec_dimension(vs) <= u32::MAX,
        all_of_dimension(vs, spec_dimension(vs)),
    ensures
        spec_read_segment(segment_bytes(vs)) == Ok::<Seq<Seq<u32>>, SegmentError>(vs),
{
    let d = spec_dimension(vs);
    let h = SegmentHeader { version: VERSION, count: vs.len() as u32, dimension: d as u32 };
    let flat = flatten_vectors(vs);
    let b = segment_bytes(vs);
    lemma_auto_spec_u32_to_from_le_bytes();
    lemma_header_round_trip(h, le_words(flat));
    lemma_flatten(vs, d);
    lemma_le_words(flat);
    assert(spec_u32_to_le_bytes(MAGIC).len() == 4);
    assert(spec_u32_to_le_bytes(h.version).len() == 4);
    assert(spec_u32_to_le_bytes(h.count).len() == 4);
    assert(spec_u32_to_le_bytes(h.dimension).len() == 4);
    assert(h.spec_bytes().len() == HEADER_SIZE);
    assert(h.spec_file_size() == b.len()) by {
        assert(vs.len() * (d * 4) == 4 * (vs.len() * d)) by (nonlinear_arith);
    }
    let got = vectors_from(b, h, 0, h.count as nat);
    assert forall|i: int| 0 <= i < vs.len() implies #[trigger] got[i] == vs[i] by {
        assert forall|j: int| 0 <= j < d implies #[trigger] got[i][j] == vs[i][j] by {
            assert(i * (d * 4) + 4 * j == 4 * (i * d + j)) by (nonlinear_arith);
            assert(0 <= i * d + j < vs.len() * d) by (nonlinear_arith)
                requires
                    0 <= i < vs.len(),
                    0 <= j < d,
            ;
            lemma_word_of_image(h.spec_bytes(), flat, i * d + j);
        }
        assert(got[i] =~= vs[i]);
    }
    assert(got =~= vs);
}

/// An empty segment is exactly a header, and reads back as no vectors.
pub proof fn lemma_empty_segment()
    ensures
        segment_bytes(Seq::empty()).len() == HEADER_SIZE,
        spec_read_segment(segment_bytes(Seq::empty())) == Ok::<Seq<Seq<u32>>, SegmentError>(
            Seq::empty(),
        ),
{
    lemma_auto_spec_u32_to_from_le_bytes();
    lemma_round_trip(Seq::empty());
}

/// Reading the vector at a valid index gives the vector that reading the
/// whole segment gives at that index.
pub proof fn lemma_read_at_matches_read_all(b: Seq<u8>, index: u32)
    requires
        spec_read_segment(b) is Ok,
        index < spec_read_segment(b)->Ok_0.len(),
    ensures
        spec_read_vector_at(b, index) == Ok::<Seq<u32>, SegmentError>(
            spec_read_segment(b)->Ok_0[index as int],
        ),
{
    let h = decode_header(b)->Ok_0;
    lemma_offset_step(h, index + 1, h.count as int);
}

/// Reading a valid range gives the matching slice of the whole segment.
pub proof fn lemma_range_matches_read_all(b: Seq<u8>, start: u32, len: u32)
    requires
        spec_read_segment(b) is Ok,
        start + len <= spec_read_segment(b)->Ok_0.len(),
    ensures
        spec_read_vectors_range(b, start, len) == Ok::<Seq<Seq<u32>>, SegmentError>(
            spec_read_segment(b)->Ok_0.subrange(start as int, start + len),
        ),
{
    let h = decode_header(b)->Ok_0;
    let all = spec_read_segment(b)->Ok_0;
    lemma_offset_step(h, start + len, h.count as int);
    assert(vectors_from(b, h, start as int, len as nat) =~= all.subrange(
        start as int,
        start + len,
    ));
}

/// A header that does not open with the format tag is rejected as
/// `InvalidFormat`; one with the tag and another revision as
/// `UnsupportedVersion`.
pub proof fn lemma_magic_version_rejection(b: Seq<u8>)
    ensures
        b.len() >= 4 && b.subrange(0, 4) != spec_u32_to_le_bytes(MAGIC) ==> decode_header(
            b,
        ) is Err && decode_header(b)->Err_0 is InvalidFormat,
        b.len() >= 8 && b.subrange(0, 4) == spec_u32_to_le_bytes(MAGIC) && u32_at(b, 4) != VERSION
            ==> decode_header(b) == Err::<SegmentHeader, SegmentError>(
            SegmentError::UnsupportedVersion { version: u32_at(b, 4) },
        ),
{
    lemma_auto_spec_u32_to_from_le_bytes();
    assert(spec_u32_to_le_bytes(MAGIC).len() == 4);
    if b.len() >= 4 && u32_at(b, 0) == MAGIC {
        assert(spec_u32_to_le_bytes(spec_u32_from_le_bytes(b.subrange(0, 4))) == b.subrange(0, 4));
    }
}

/// Of a segment with a readable header, the index `count` is out of bounds,
/// and so is the range of `count + 1` vectors from the start.
pub proof fn lemma_bounds_checking(b: Seq<u8>)
    requires
        decode_header(b) is Ok,
    ensures
        ({
            let count = decode_header(b)->Ok_0.count;
            &&& spec_read_vector_at(b, count) == Err::<Seq<u32>, SegmentError>(
                SegmentError::IndexOutOfBounds { index: count, count },
            )
            &&& count < u32::MAX ==> spec_read_vectors_range(b, 0, (count + 1) as u32) == Err::<
                Seq<Seq<u32>>,
                SegmentError,
            >(SegmentError::RangeOutOfBounds { start: 0, len: (count + 1) as u32, count })
        }),
{
}

} // verus!
