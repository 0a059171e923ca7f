//! A region in memory, and the linear and blinear container formats.
use vstd::prelude::*;
use vstd::slice::slice_subrange;
use crate::bytes::{
    be_i32, be_i64, be_u32, i32_at, i64_at, push_all, push_i32, push_i64, push_u32, read_i32,
    read_i64, read_u64, u64_at,
};
use crate::tag::parse_tag;
use crate::chunk::{Chunk, sector_index, sector_x, sector_z};
use twox_hash::XxHash32;

verus! {

/// What a chunk reads as: `(x, z, timestamp, payload)`.
pub type ChunkView = (i32, i32, i64, Seq<u8>);

/// Why a region file could not be read.
#[derive(Debug, Clone, Copy, PartialEq, Eq, Structural)]
pub enum ParseError {
    /// The compressed part could not be decompressed.
    ReadError,
    /// The file does not start with the format's magic number.
    HeaderError,
    /// The format's version byte is not the supported one.
    VersionError,
    /// A field claims more bytes than remain.
    BufferUnderrun,
}

/// The magic number that opens a blinear file.
pub const BLINEAR_MAGIC: i64 = -0x200812250269i64;

/// The blinear format's version byte.
pub const BLINEAR_VERSION: u8 = 2;

/// The seed of each record's checksum.
pub const CHECKSUM_SEED: u32 = 0x0721;

/// The magic number that opens a linear file.
pub const LINEAR_MAGIC: u64 = 0xc3ff13183cca9d9a;

/// The linear format's version byte.
pub const LINEAR_VERSION: u8 = 3;

/// What `zstd::decode_all` gives for a stream, `None` where it fails.
pub uninterp spec fn zstd_decoded(data: Seq<u8>) -> Option<Seq<u8>>;

/// What `zstd::encode_all` gives for data and a level, `None` where it fails.
pub uninterp spec fn zstd_encoded(data: Seq<u8>, level: i32) -> Option<Seq<u8>>;

/// The 32-bit xxHash of `data` with `seed`.
pub uninterp spec fn xxh32_of(seed: u32, data: Seq<u8>) -> u32;

/// Relies on `zstd::decode_all`: decompresses one whole zstd stream, and fails
/// on input that is not one.
#[verifier::external_body]
fn zstd_decompress(data: &[u8]) -> (r: Option<Vec<u8>>)
    ensures
        match r {
            Some(v) => zstd_decoded(data@) == Some(v@),
            None => zstd_decoded(data@) is None,
        },
{
    zstd::decode_all(data).ok()
}

/// Relies on `zstd::encode_all`: compresses `data` at `level` into a zstd
/// stream, which `zstd::decode_all` turns back into `data`.
#[verifier::external_body]
fn zstd_compress(data: &[u8], level: i32) -> (r: Option<Vec<u8>>)
    ensures
        match r {
            Some(v) => zstd_encoded(data@, level) == Some(v@) && zstd_decoded(v@) == Some(data@),
            None => zstd_encoded(data@, level) is None,
        },
{
    zstd::encode_all(data, level).ok()
}

/// Relies on `twox_hash::XxHash32::oneshot`: the 32-bit xxHash of `data`.
#[verifier::external_body]
fn xxh32(seed: u32, data: &[u8]) -> (r: u32)
    ensures
        r == xxh32_of(seed, data@),
{
    XxHash32::oneshot(seed, data)
}

/// What each chunk of `cs` reads as.
pub open spec fn views(cs: Seq<Chunk>) -> Seq<ChunkView> {
    cs.map_values(|c: Chunk| c@)
}

/// The index of the first chunk at or after `i` whose slot is `s`.
pub open spec fn first_in_slot(cs: Seq<ChunkView>, s: i32, i: int) -> Option<int>
    decreases cs.len() - i,
{
    if i < 0 || i >= cs.len() {
        None
    } else if sector_index(cs[i].0, cs[i].1) == s {
        Some(i)
    } else {
        first_in_slot(cs, s, i + 1)
    }
}

/// The 18 bytes that open a blinear file.
pub open spec fn blinear_header(timestamp: i64, level: u8) -> Seq<u8> {
    be_i64(BLINEAR_MAGIC) + seq![BLINEAR_VERSION] + be_i64(timestamp) + seq![level]
}

/// The record of one chunk, given the checksum of its payload: its length,
/// then the payload's length, the timestamp, the checksum and the payload.
pub open spec fn blinear_record(c: ChunkView, checksum: u32) -> Seq<u8> {
    be_i32((c.3.len() + 16) as i32) + be_i32(c.3.len() as i32) + be_i64(c.2) + be_u32(checksum)
        + c.3
}

/// What slot `s` holds in the body: the record of the first chunk there, or
/// an empty marker.
pub open spec fn blinear_slot(cs: Seq<ChunkView>, s: i32) -> Seq<u8> {
    match first_in_slot(cs, s, 0) {
        Some(i) => blinear_record(cs[i], xxh32_of(CHECKSUM_SEED, cs[i].3)),
        None => be_i32(0),
    }
}

/// The uncompressed body for the slots below `n`.
pub open spec fn blinear_body(cs: Seq<ChunkView>, n: int) -> Seq<u8>
    decreases n,
{
    if n <= 0 {
        seq![]
    } else {
        blinear_body(cs, n - 1) + blinear_slot(cs, (n - 1) as i32)
    }
}

/// The blinear file of the chunks `cs`: the header, then the compressed body
/// (nothing where compression fails).
pub open spec fn blinear_encoded(cs: Seq<ChunkView>, timestamp: i64, level: u8) -> Seq<u8> {
    blinear_header(timestamp, level) + match zstd_encoded(blinear_body(cs, 1024), level as i32) {
        Some(c) => c,
        None => seq![],
    }
}

/// The chunks of a decompressed blinear body, read from slot `s` at `pos` on.
pub open spec fn blinear_sectors(d: Seq<u8>, s: int, pos: int) -> Result<Seq<ChunkView>, ParseError>
    decreases 1024 - s,
{
    if s >= 1024 || pos < 0 {
        Ok(seq![])
    } else if pos + 4 > d.len() {
        Err(ParseError::BufferUnderrun)
    } else {
        let n = i32_at(d, pos);
        if n <= 0 {
            blinear_sectors(d, s + 1, pos + 4)
        } else if n < 16 || pos + 4 + n > d.len() {
            Err(ParseError::BufferUnderrun)
        } else {
            let c = (sector_x(s as i32), sector_z(s as i32), i64_at(d, pos + 8), d.subrange(
                pos + 20,
                pos + 4 + n,
            ));
            match blinear_sectors(d, s + 1, pos + 4 + n) {
                Ok(rest) => Ok(seq![c] + rest),
                Err(e) => Err(e),
            }
        }
    }
}

/// `acc` followed by what `r` reads, or the error of `r`.
pub open spec fn prepend(acc: Seq<ChunkView>, r: Result<Seq<ChunkView>, ParseError>) -> Result<
    Seq<ChunkView>,
    ParseError,
> {
    match r {
        Ok(rest) => Ok(acc + rest),
        Err(e) => Err(e),
    }
}

/// What a blinear file reads as: its chunks and its master timestamp.
pub open spec fn blinear_decoded(b: Seq<u8>) -> Result<(Seq<ChunkView>, i64), ParseError> {
    if b.len() < 8 || i64_at(b, 0) != BLINEAR_MAGIC {
        Err(ParseError::HeaderError)
    } else if b.len() < 9 || b[8] != BLINEAR_VERSION {
        Err(ParseError::VersionError)
    } else if b.len() < 18 {
        Err(ParseError::BufferUnderrun)
    } else {
        match zstd_decoded(b.subrange(18, b.len() as int)) {
            None => Err(ParseError::ReadError),
            Some(d) => match blinear_sectors(d, 0, 0) {
                Ok(cs) => Ok((cs, i64_at(b, 9))),
                Err(e) => Err(e),
            },
        }
    }
}

/// A blinear file whose first eight bytes are not the magic number fails
/// with `HeaderError`; one that has the magic number and another version
/// byte fails with `VersionError`.
pub proof fn lemma_blinear_header_errors(b: Seq<u8>)
    ensures
        b.len() < 8 || i64_at(b, 0) != BLINEAR_MAGIC ==> blinear_decoded(b) == Err::<
            (Seq<ChunkView>, i64),
            ParseError,
        >(ParseError::HeaderError),
        b.len() >= 9 && i64_at(b, 0) == BLINEAR_MAGIC && b[8] != BLINEAR_VERSION ==> blinear_decoded(b)
            == Err::<(Seq<ChunkView>, i64), ParseError>(ParseError::VersionError),
{
}

/// The header fields of a linear file and the reserved block after them.
pub const LINEAR_PREAMBLE: usize = 154;

/// Where the feature list that starts at `pos` ends: after the zero length
/// that closes it. `None` where it runs past the end.
pub open spec fn linear_features_end(b: Seq<u8>, pos: int) -> Option<int>
    decreases b.len() - pos,
{
    if pos < 0 || pos >= b.len() {
        None
    } else if b[pos] == 0 {
        Some(pos + 1)
    } else if pos + 1 + b[pos] + 4 > b.len() {
        None
    } else {
        linear_features_end(b, pos + 1 + b[pos] + 4)
    }
}

/// The global coordinates of a chunk of a linear file: `chunk_index` is its
/// slot in the region, whose origin is 32 times `(region_x, region_z)`.
pub open spec fn linear_chunk_xz(region_x: i32, region_z: i32, chunk_index: int) -> (i32, i32) {
    ((32 * region_x + chunk_index % 32) as i32, (32 * region_z + chunk_index / 32) as i32)
}

/// The slot in the region of the `k`-th record of bucket `(x, z)`, whose side
/// is `dim`: the records go along `z` within each `x`.
pub open spec fn linear_chunk_index(x: int, z: int, dim: int, k: int) -> int {
    (x * dim + k / dim) + (z * dim + k % dim) * 32
}

/// The chunks of the decompressed bucket `(x, z)`, read from its `k`-th
/// record at `rp` on. Reading stops where fewer than 12 bytes remain.
pub open spec fn linear_records(
    d: Seq<u8>,
    region_x: i32,
    region_z: i32,
    x: int,
    z: int,
    dim: int,
    k: int,
    rp: int,
) -> Result<Seq<ChunkView>, ParseError>
    decreases dim * dim - k,
{
    if k < 0 || k >= dim * dim || rp < 0 || rp + 12 > d.len() {
        Ok(seq![])
    } else {
        let size = i32_at(d, rp);
        let ts = i64_at(d, rp + 4);
        if size <= 0 {
            linear_records(d, region_x, region_z, x, z, dim, k + 1, rp + 12)
        } else if size < 8 || rp + 12 + (size - 8) > d.len() {
            Err(ParseError::BufferUnderrun)
        } else {
            let xz = linear_chunk_xz(region_x, region_z, linear_chunk_index(x, z, dim, k));
            let c = (xz.0, xz.1, ts, d.subrange(rp + 12, rp + 12 + (size - 8)));
            prepend(
                seq![c],
                linear_records(d, region_x, region_z, x, z, dim, k + 1, rp + 12 + (size - 8)),
            )
        }
    }
}

/// The size of bucket `i`, from the table of bucket descriptors at `table`.
pub open spec fn linear_bucket_size(b: Seq<u8>, table: int, i: int) -> i32 {
    i32_at(b, table + 13 * i)
}

/// The chunks of the buckets from the `idx`-th on, whose payloads start at
/// `p`. Bucket `idx` is at `(idx / g, idx % g)` in the grid of side `g`.
pub open spec fn linear_buckets(
    b: Seq<u8>,
    table: int,
    g: int,
    region_x: i32,
    region_z: i32,
    idx: int,
    p: int,
) -> Result<Seq<ChunkView>, ParseError>
    decreases g * g - idx,
{
    if idx < 0 || idx >= g * g || g <= 0 {
        Ok(seq![])
    } else {
        let size = linear_bucket_size(b, table, idx);
        if size <= 0 {
            linear_buckets(b, table, g, region_x, region_z, idx + 1, p)
        } else if p < 0 || p + size > b.len() {
            Err(ParseError::BufferUnderrun)
        } else {
            match zstd_decoded(b.subrange(p, p + size)) {
                None => Err(ParseError::ReadError),
                Some(d) => match linear_records(d, region_x, region_z, idx / g, idx % g, 32int / g, 0, 0) {
                    Err(e) => Err(e),
                    Ok(cs) => prepend(
                        cs,
                        linear_buckets(b, table, g, region_x, region_z, idx + 1, p + size),
                    ),
                },
            }
        }
    }
}

/// What a linear file reads as: its chunks and its master timestamp.
pub open spec fn linear_decoded(b: Seq<u8>) -> Result<(Seq<ChunkView>, i64), ParseError> {
    if b.len() < 8 || u64_at(b, 0) != LINEAR_MAGIC {
        Err(ParseError::HeaderError)
    } else if b.len() < 9 || b[8] != LINEAR_VERSION {
        Err(ParseError::VersionError)
    } else if b.len() < LINEAR_PREAMBLE {
        Err(ParseError::BufferUnderrun)
    } else {
        match linear_features_end(b, LINEAR_PREAMBLE as int) {
            None => Err(ParseError::BufferUnderrun),
            Some(t) => {
                let g = b[17] as int;
                if t + 13 * (g * g) > b.len() {
                    Err(ParseError::BufferUnderrun)
                } else {
                    match linear_buckets(b, t, g, i32_at(b, 18), i32_at(b, 22), 0, t + 13 * (g * g)) {
                        Ok(cs) => Ok((cs, i64_at(b, 9))),
                        Err(e) => Err(e),
                    }
                }
            }
        }
    }
}

/// Whether every chunk of `cs` lies in the grid of one region, 0 to 31 on
/// each axis, and no two share their coordinates.
pub open spec fn distinct_in_grid(cs: Seq<ChunkView>) -> bool {
    &&& forall|i: int| 0 <= i < cs.len() ==> 0 <= #[trigger] cs[i].0 < 32 && 0 <= cs[i].1 < 32
    &&& forall|i: int, j: int|
        0 <= i < cs.len() && 0 <= j < cs.len() && i != j ==> (#[trigger] cs[i].0, cs[i].1) != (
        #[trigger] cs[j].0, cs[j].1)
}

/// Whether every payload of `cs` fits in a record.
pub open spec fn records_fit(cs: Seq<ChunkView>) -> bool {
    forall|i: int| 0 <= i < cs.len() ==> #[trigger] cs[i].3.len() + 16 <= i32::MAX
}

/// The chunks of one region and its master timestamp.
pub struct Region {
    chunks: Vec<Chunk>,
    timestamp: i64,
}

impl View for Region {
    type V = (Seq<ChunkView>, i64);

    closed spec fn view(&self) -> (Seq<ChunkView>, i64) {
        (views(self.chunks@), self.timestamp)
    }
}

impl Region {
    /// A region of `chunks` with master timestamp `timestamp`.
    pub fn new(chunks: Vec<Chunk>, timestamp: i64) -> (r: Self)
        ensures
            r@ == (views(chunks@), timestamp),
    {
        Region { chunks, timestamp }
    }

    /// The chunks, in order.
    pub fn chunks(&self) -> (r: &[Chunk])
        ensures
            views(r@) == self@.0,
    {
        self.chunks.as_slice()
    }

    /// The master timestamp.
    pub fn timestamp(&self) -> (r: i64)
        ensures
            r == self@.1,
    {
        self.timestamp
    }

    /// Whether every payload is short enough for its record length to fit in
    /// an `i32`.
    pub fn fits_records(&self) -> (r: bool)
        ensures
            r == records_fit(self@.0),
    {
        let mut i: usize = 0;
        while i < self.chunks.len()
            invariant
                i <= self.chunks@.len(),
                forall|j: int| 0 <= j < i ==> #[trigger] self@.0[j].3.len() + 16 <= i32::MAX,
            decreases self.chunks@.len() - i,
        {
            assert(self@.0[i as int] == self.chunks@[i as int]@);
            if self.chunks[i].get_data().as_bytes().len() > 0x7fff_ffef {
                return false;
            }
            i = i + 1;
        }
        true
    }

    /// The record of `c` with the given checksum of its payload.
    pub fn blinear_record(c: &Chunk, checksum: u32) -> (r: Vec<u8>)
        requires
            c@.3.len() + 16 <= i32::MAX,
        ensures
            r@ == blinear_record(c@, checksum),
    {
        let data = c.get_data().as_bytes();
        let len = data.len() as i32;
        let mut r: Vec<u8> = Vec::new();
        push_i32(&mut r, len + 16);
        push_i32(&mut r, len);
        push_i64(&mut r, c.timestamp());
        push_u32(&mut r, checksum);
        push_all(&mut r, data);
        r
    }

    /// Writes this region as a blinear file with the given master timestamp
    /// and compression level.
    pub fn to_bytes_blinear(&self, timestamp: i64, compression_level: u8) -> (r: Vec<u8>)
        requires
            records_fit(self@.0),
        ensures
            r@ == blinear_encoded(self@.0, timestamp, compression_level),
            distinct_in_grid(self@.0) && zstd_encoded(blinear_body(self@.0, 1024), compression_level as i32) is Some
                ==> (blinear_decoded(r@) matches Ok(dec) && dec.1 == timestamp && crate::round_trip::same_chunks(dec.0, self@.0)),
    {
        let ghost cs = self@.0;
        let mut result: Vec<u8> = Vec::new();
        push_i64(&mut result, BLINEAR_MAGIC);
        result.push(BLINEAR_VERSION);
        push_i64(&mut result, timestamp);
        result.push(compression_level);
        assert(result@ =~= blinear_header(timestamp, compression_level));

        let mut region_data: Vec<u8> = Vec::new();
        let mut index: i32 = 0;
        while index < 1024
            invariant
                0 <= index <= 1024,
                cs == self@.0,
                records_fit(self@.0),
                region_data@ == blinear_body(cs, index as int),
            decreases 1024 - index,
        {
            let mut found: Option<usize> = None;
            let mut k: usize = 0;
            while k < self.chunks.len()
                invariant_except_break
                    found is None,
                invariant
                    k <= self.chunks@.len(),
                    cs == self@.0,
                    cs.len() == self.chunks@.len(),
                    found is None ==> first_in_slot(cs, index, 0) == first_in_slot(cs, index, k as int),
                    found matches Some(j) ==> first_in_slot(cs, index, 0) == Some(j as int) && j < cs.len(),
                ensures
                    found is None ==> k == cs.len() && first_in_slot(cs, index, 0) == first_in_slot(
                        cs,
                        index,
                        k as int,
                    ),
                    found matches Some(j) ==> first_in_slot(cs, index, 0) == Some(j as int) && j < cs.len(),
                decreases self.chunks@.len() - k,
            {
                assert(cs[k as int] == self.chunks@[k as int]@);
                if self.chunks[k].position_to_sector_index() == index {
                    assert(first_in_slot(cs, index, k as int) == Some(k as int));
                    found = Some(k);
                    break;
                }
                k = k + 1;
            }
            let ghost before = region_data@;
            match found {
                None => {
                    assert(first_in_slot(cs, index, cs.len() as int) is None);
                    push_i32(&mut region_data, 0);
                },
                Some(j) => {
                    let c = &self.chunks[j];
                    assert(cs[j as int] == c@);
                    let sum = xxh32(CHECKSUM_SEED, c.get_data().as_bytes());
                    let rec = Self::blinear_record(c, sum);
                    push_all(&mut region_data, rec.as_slice());
                    assert(region_data@ == before + blinear_slot(cs, index));
                },
            }
            assert(blinear_body(cs, index + 1) == before + blinear_slot(cs, index));
            index = index + 1;
        }
        match zstd_compress(region_data.as_slice(), compression_level as i32) {
            Some(compressed) => {
                proof {
                    crate::round_trip::lemma_header_read(timestamp, compression_level, compressed@);
                    if distinct_in_grid(cs) {
                        crate::round_trip::lemma_blinear_body_round_trip(cs);
                    }
                }
                push_all(&mut result, compressed.as_slice());
            },
            None => {},
        }
        assert(result@ =~= blinear_encoded(cs, timestamp, compression_level));
        result
    }

    /// The chunks of one decompressed bucket `(x, z)` of a linear file, whose
    /// side is `dim`.
    pub fn linear_bucket_chunks(
        d: &[u8],
        region_x: i32,
        region_z: i32,
        x: usize,
        z: usize,
        dim: usize,
    ) -> (r: Result<Vec<Chunk>, ParseError>)
        requires
            x < 256,
            z < 256,
            dim <= 32,
        ensures
            match r {
                Ok(v) => linear_records(d@, region_x, region_z, x as int, z as int, dim as int, 0, 0)
                    == Ok::<Seq<ChunkView>, ParseError>(views(v@)),
                Err(e) => linear_records(d@, region_x, region_z, x as int, z as int, dim as int, 0, 0)
                    == Err::<Seq<ChunkView>, ParseError>(e),
            },
    {
        let ghost whole = linear_records(d@, region_x, region_z, x as int, z as int, dim as int, 0, 0);
        let mut out: Vec<Chunk> = Vec::new();
        let mut k: usize = 0;
        let mut rp: usize = 0;
        assert(dim * dim <= 1024) by (nonlinear_arith)
            requires
                dim <= 32,
        ;
        while k < dim * dim
            invariant
                x < 256,
                z < 256,
                dim <= 32,
                dim * dim <= 1024,
                rp <= d@.len(),
                whole == linear_records(d@, region_x, region_z, x as int, z as int, dim as int, 0, 0),
                whole == prepend(
                    views(out@),
                    linear_records(d@, region_x, region_z, x as int, z as int, dim as int, k as int, rp as int),
                ),
            decreases dim * dim - k,
        {
            let ghost here = linear_records(d@, region_x, region_z, x as int, z as int, dim as int, k as int, rp as int);
            if d.len() - rp < 12 {
                assert(here == Ok::<Seq<ChunkView>, ParseError>(seq![]));
                assert(views(out@) + seq![] =~= views(out@));
                return Ok(out);
            }
            let size = read_i32(d, rp);
            let ts = read_i64(d, rp + 4);
            if size <= 0 {
                rp = rp + 12;
            } else {
                if size < 8 || (size - 8) as usize > d.len() - rp - 12 {
                    return Err(ParseError::BufferUnderrun);
                }
                assert(k / dim < dim && k % dim < dim) by (nonlinear_arith)
                    requires
                        k < dim * dim,
                        dim > 0,
                ;
                assert(x * dim <= 255 * 32 && z * dim <= 255 * 32) by (nonlinear_arith)
                    requires
                        x < 256,
                        z < 256,
                        dim <= 32,
                ;
                let ci: i64 = ((x * dim + k / dim) + (z * dim + k % dim) * 32) as i64;
                let gx = (32 * (region_x as i64) + ci % 32) as i32;
                let gz = (32 * (region_z as i64) + ci / 32) as i32;
                let end = rp + 12 + (size - 8) as usize;
                let payload = slice_subrange(d, rp + 12, end);
                let c = Chunk::new_from_block_pos(gx, gz, ts, parse_tag(payload));
                let ghost cv = c@;
                let ghost old_out = views(out@);
                out.push(c);
                assert(views(out@) =~= old_out + seq![cv]);
                let ghost rest = linear_records(d@, region_x, region_z, x as int, z as int, dim as int, k + 1, end as int);
                assert(here == prepend(seq![cv], rest));
                assert(prepend(old_out, prepend(seq![cv], rest)) == prepend(views(out@), rest)) by {
                    if let Ok(t) = rest {
                        assert(old_out + (seq![cv] + t) =~= views(out@) + t);
                    }
                }
                rp = end;
            }
            k = k + 1;
        }
        assert(views(out@) + seq![] =~= views(out@));
        Ok(out)
    }

    /// Reads a linear file.
    pub fn from_bytes_linear_v2(bytes: &[u8]) -> (r: Result<Self, ParseError>)
        ensures
            match r {
                Ok(reg) => linear_decoded(bytes@) == Ok::<(Seq<ChunkView>, i64), ParseError>(reg@),
                Err(e) => linear_decoded(bytes@) == Err::<(Seq<ChunkView>, i64), ParseError>(e),
            },
    {
        if bytes.len() < 8 || read_u64(bytes, 0) != LINEAR_MAGIC {
            return Err(ParseError::HeaderError);
        }
        if bytes.len() < 9 || bytes[8] != LINEAR_VERSION {
            return Err(ParseError::VersionError);
        }
        if bytes.len() < LINEAR_PREAMBLE {
            return Err(ParseError::BufferUnderrun);
        }
        let master_timestamp = read_i64(bytes, 9);
        let grid_size = bytes[17];
        let region_x = read_i32(bytes, 18);
        let region_z = read_i32(bytes, 22);
        let ghost b = bytes@;
        let ghost fe = linear_features_end(b, LINEAR_PREAMBLE as int);

        let mut pos: usize = LINEAR_PREAMBLE;
        loop
            invariant_except_break
                fe == linear_features_end(b, pos as int),
            invariant
                b == bytes@,
                region_x == i32_at(b, 18),
                region_z == i32_at(b, 22),
                master_timestamp == i64_at(b, 9),
                grid_size == b[17],
                LINEAR_PREAMBLE <= pos <= b.len(),
                fe == linear_features_end(b, LINEAR_PREAMBLE as int),
                linear_decoded(b) == match fe {
                    None => Err(ParseError::BufferUnderrun),
                    Some(t) => {
                        let g = b[17] as int;
                        if t + 13 * (g * g) > b.len() {
                            Err(ParseError::BufferUnderrun)
                        } else {
                            match linear_buckets(b, t, g, i32_at(b, 18), i32_at(b, 22), 0, t + 13 * (g * g)) {
                                Ok(cs) => Ok((cs, i64_at(b, 9))),
                                Err(e) => Err(e),
                            }
                        }
                    },
                },
            ensures
                pos <= b.len(),
                fe == Some(pos as int),
                linear_decoded(b) == match fe {
                    None => Err(ParseError::BufferUnderrun),
                    Some(t) => {
                        let g = b[17] as int;
                        if t + 13 * (g * g) > b.len() {
                            Err(ParseError::BufferUnderrun)
                        } else {
                            match linear_buckets(b, t, g, i32_at(b, 18), i32_at(b, 22), 0, t + 13 * (g * g)) {
                                Ok(cs) => Ok((cs, i64_at(b, 9))),
                                Err(e) => Err(e),
                            }
                        }
                    },
                },
                b == bytes@,
                region_x == i32_at(b, 18),
                region_z == i32_at(b, 22),
                master_timestamp == i64_at(b, 9),
                grid_size == b[17],
            decreases b.len() - pos,
        {
            if pos >= bytes.len() {
                return Err(ParseError::BufferUnderrun);
            }
            let n = bytes[pos];
            if n == 0 {
                pos = pos + 1;
                break;
            }
            if n as usize + 5 > bytes.len() - pos {
                return Err(ParseError::BufferUnderrun);
            }
            pos = pos + 1 + n as usize + 4;
        }
        let t = pos;
        let g = grid_size as usize;
        assert(g * g <= 65025) by (nonlinear_arith)
            requires
                g < 256,
        ;
        let gg = g * g;
        if 13 * gg > bytes.len() - t {
            return Err(ParseError::BufferUnderrun);
        }
        let ghost whole = linear_buckets(b, t as int, g as int, region_x, region_z, 0, t + 13 * gg);
        let mut chunks: Vec<Chunk> = Vec::new();
        let mut p: usize = t + 13 * gg;
        let mut idx: usize = 0;
        while idx < gg
            invariant
                b == bytes@,
                b.len() >= LINEAR_PREAMBLE,
                g == b[17] as int,
                gg == g * g,
                g < 256,
                t + 13 * gg <= p <= b.len(),
                region_x == i32_at(b, 18),
                region_z == i32_at(b, 22),
                master_timestamp == i64_at(b, 9),
                linear_decoded(b) == match whole {
                    Ok(cs) => Ok((cs, master_timestamp)),
                    Err(e) => Err(e),
                },
                whole == prepend(views(chunks@), linear_buckets(b, t as int, g as int, region_x, region_z, idx as int, p as int)),
            decreases gg - idx,
        {
            let ghost here = linear_buckets(b, t as int, g as int, region_x, region_z, idx as int, p as int);
            let size = read_i32(bytes, t + 13 * idx);
            if size > 0 {
                if size as usize > bytes.len() - p {
                    return Err(ParseError::BufferUnderrun);
                }
                let end = p + size as usize;
                let d = match zstd_decompress(slice_subrange(bytes, p, end)) {
                    Some(d) => d,
                    None => {
                        return Err(ParseError::ReadError);
                    },
                };
                assert(idx / g < g) by (nonlinear_arith)
                    requires
                        idx < g * g,
                ;
                let ghost rest = linear_buckets(b, t as int, g as int, region_x, region_z, idx + 1, end as int);
                let mut found = match Self::linear_bucket_chunks(d.as_slice(), region_x, region_z, idx / g, idx % g, 32 / g) {
                    Ok(v) => v,
                    Err(e) => {
                        return Err(e);
                    },
                };
                let ghost old_chunks = views(chunks@);
                let ghost fv = views(found@);
                assert(here == prepend(fv, rest));
                chunks.append(&mut found);
                assert(views(chunks@) =~= old_chunks + fv);
                assert(prepend(old_chunks, prepend(fv, rest)) == prepend(views(chunks@), rest)) by {
                    if let Ok(u) = rest {
                        assert(old_chunks + (fv + u) =~= views(chunks@) + u);
                    }
                }
                p = end;
            }
            idx = idx + 1;
        }
        assert(views(chunks@) + seq![] =~= views(chunks@));
        Ok(Region { chunks, timestamp: master_timestamp })
    }

    /// The chunks of a decompressed blinear body, one slot after another.
    pub fn blinear_body_chunks(d: &[u8]) -> (r: Result<Vec<Chunk>, ParseError>)
        ensures
            match r {
                Ok(v) => blinear_sectors(d@, 0, 0) == Ok::<Seq<ChunkView>, ParseError>(views(v@)),
                Err(e) => blinear_sectors(d@, 0, 0) == Err::<Seq<ChunkView>, ParseError>(e),
            },
    {
        let mut chunks: Vec<Chunk> = Vec::new();
        let mut pos: usize = 0;
        let mut s: i32 = 0;
        while s < 1024
            invariant
                0 <= s <= 1024,
                pos <= d@.len(),
                blinear_sectors(d@, 0, 0) == prepend(views(chunks@), blinear_sectors(d@, s as int, pos as int)),
            decreases 1024 - s,
        {
            if d.len() - pos < 4 {
                assert(blinear_sectors(d@, s as int, pos as int) == Err::<Seq<ChunkView>, ParseError>(
                    ParseError::BufferUnderrun,
                ));
                return Err(ParseError::BufferUnderrun);
            }
            let n = read_i32(d, pos);
            if n <= 0 {
                assert(blinear_sectors(d@, s as int, pos as int) == blinear_sectors(
                    d@,
                    s + 1,
                    pos + 4,
                ));
                pos = pos + 4;
            } else {
                if n < 16 || (n as usize) > d.len() - pos - 4 {
                    assert(blinear_sectors(d@, s as int, pos as int) == Err::<
                        Seq<ChunkView>,
                        ParseError,
                    >(ParseError::BufferUnderrun));
                    return Err(ParseError::BufferUnderrun);
                }
                let timestamp = read_i64(d, pos + 8);
                let end = pos + 4 + n as usize;
                let payload = slice_subrange(d, pos + 20, end);
                let ghost old_chunks = chunks@;
                match Chunk::from_sector(s, timestamp, payload) {
                    Ok(c) => {
                        chunks.push(c);
                    },
                    Err(_) => {},
                }
                let ghost c = views(chunks@).last();
                assert(views(chunks@) =~= views(old_chunks) + seq![c]);
                assert(c == (sector_x(s), sector_z(s), i64_at(d@, pos + 8), d@.subrange(
                    pos + 20,
                    end as int,
                )));
                let ghost rest = blinear_sectors(d@, s + 1, end as int);
                assert(blinear_sectors(d@, s as int, pos as int) == prepend(seq![c], rest));
                assert(prepend(views(old_chunks), prepend(seq![c], rest)) == prepend(
                    views(chunks@),
                    rest,
                )) by {
                    if let Ok(t) = rest {
                        assert(views(old_chunks) + (seq![c] + t) =~= views(chunks@) + t);
                    }
                }
                pos = end;
            }
            s = s + 1;
        }
        assert(views(chunks@) + seq![] =~= views(chunks@));
        Ok(chunks)
    }

    /// Reads a blinear file.
    pub fn from_bytes_blinear(bytes: &[u8]) -> (r: Result<Self, ParseError>)
        ensures
            match r {
                Ok(reg) => blinear_decoded(bytes@) == Ok::<(Seq<ChunkView>, i64), ParseError>(reg@),
                Err(e) => blinear_decoded(bytes@) == Err::<(Seq<ChunkView>, i64), ParseError>(e),
            },
    {
        if bytes.len() < 8 || read_i64(bytes, 0) != BLINEAR_MAGIC {
            return Err(ParseError::HeaderError);
        }
        if bytes.len() < 9 || bytes[8] != BLINEAR_VERSION {
            return Err(ParseError::VersionError);
        }
        if bytes.len() < 18 {
            return Err(ParseError::BufferUnderrun);
        }
        let master_timestamp = read_i64(bytes, 9);
        let d = match zstd_decompress(slice_subrange(bytes, 18, bytes.len())) {
            Some(d) => d,
            None => {
                return Err(ParseError::ReadError);
            },
        };
        assert(blinear_decoded(bytes@) == match blinear_sectors(d@, 0, 0) {
            Ok(cs) => Ok((cs, master_timestamp)),
            Err(e) => Err(e),
        });
        let chunks = match Self::blinear_body_chunks(d.as_slice()) {
            Ok(chunks) => chunks,
            Err(e) => {
                return Err(e);
            },
        };
        Ok(Region { chunks, timestamp: master_timestamp })
    }
}

} // verus!
