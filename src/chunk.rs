//! One chunk of a region and the arithmetic of chunk addresses.
use vstd::prelude::*;
use crate::tag::{Tag, parse_tag};

verus! {

/// The position that holds `x` in its high word and `z` in its low word.
pub open spec fn pack(x: i32, z: i32) -> i64 {
    ((x as i64) << 32i64) | ((z as i64) & 0xFFFF_FFFFi64)
}

/// The `x` coordinate of a position: its high word.
pub open spec fn pos_x(p: i64) -> i32 {
    (p >> 32i64) as i32
}

/// The `z` coordinate of a position: its low word.
pub open spec fn pos_z(p: i64) -> i32 {
    p as i32
}

/// The slot, in a 32 by 32 grid, of the chunk at `(x, z)`.
pub open spec fn sector_index(x: i32, z: i32) -> i32 {
    (x & 31i32) | ((z & 31i32) << 5i32)
}

/// The `x` coordinate within its region of the chunk in slot `s`.
pub open spec fn sector_x(s: i32) -> i32 {
    s & 31i32
}

/// The `z` coordinate within its region of the chunk in slot `s`.
pub open spec fn sector_z(s: i32) -> i32 {
    (s >> 5i32) & 31i32
}

/// A position gives back the two coordinates it was packed from.
pub proof fn lemma_pack_unpack(x: i32, z: i32)
    ensures
        pos_x(pack(x, z)) == x,
        pos_z(pack(x, z)) == z,
{
    assert((((((x as i64) << 32i64) | ((z as i64) & 0xFFFF_FFFFi64)) >> 32i64) as i32) == x)
        by (bit_vector);
    assert(((((x as i64) << 32i64) | ((z as i64) & 0xFFFF_FFFFi64)) as i32) == z) by (bit_vector);
}

/// Over the coordinates 0 to 31 the slot index is a bijection onto 0 to 1023:
/// every index is in range, distinct coordinates get distinct indices, and
/// every index in range is the slot of the coordinates read back from it.
pub proof fn lemma_sector_index_bijective()
    ensures
        forall|x: i32, z: i32|
            0 <= x < 32 && 0 <= z < 32 ==> 0 <= #[trigger] sector_index(x, z) < 1024,
        forall|x: i32, z: i32|
            0 <= x < 32 && 0 <= z < 32 ==> sector_x(#[trigger] sector_index(x, z)) == x
                && sector_z(sector_index(x, z)) == z,
        forall|x1: i32, z1: i32, x2: i32, z2: i32|
            0 <= x1 < 32 && 0 <= z1 < 32 && 0 <= x2 < 32 && 0 <= z2 < 32 && #[trigger] sector_index(
                x1,
                z1,
            ) == #[trigger] sector_index(x2, z2) ==> x1 == x2 && z1 == z2,
        forall|s: i32|
            0 <= s < 1024 ==> 0 <= #[trigger] sector_x(s) < 32 && 0 <= sector_z(s) < 32
                && sector_index(sector_x(s), sector_z(s)) == s,
{
    assert forall|x: i32, z: i32| 0 <= x < 32 && 0 <= z < 32 implies 0 <= #[trigger] sector_index(
        x,
        z,
    ) < 1024 && sector_x(sector_index(x, z)) == x && sector_z(sector_index(x, z)) == z by {
        assert(0 <= x < 32 && 0 <= z < 32 ==> 0 <= ((x & 31i32) | ((z & 31i32) << 5i32)) < 1024
            && (((x & 31i32) | ((z & 31i32) << 5i32)) & 31i32) == x && ((((x & 31i32) | ((z
            & 31i32) << 5i32)) >> 5i32) & 31i32) == z) by (bit_vector);
    }
    assert forall|s: i32| 0 <= s < 1024 implies 0 <= #[trigger] sector_x(s) < 32 && 0 <= sector_z(
        s,
    ) < 32 && sector_index(sector_x(s), sector_z(s)) == s by {
        assert(0 <= s < 1024 ==> 0 <= (s & 31i32) < 32 && 0 <= ((s >> 5i32) & 31i32) < 32 && (((s
            & 31i32) & 31i32) | ((((s >> 5i32) & 31i32) & 31i32) << 5i32)) == s) by (bit_vector);
    }
}

/// One chunk: its position, its timestamp and its encoded payload.
pub struct Chunk {
    position: i64,
    timestamp: i64,
    pub data: Tag,
}

impl View for Chunk {
    /// `(x, z, timestamp, payload)`
    type V = (i32, i32, i64, Seq<u8>);

    closed spec fn view(&self) -> (i32, i32, i64, Seq<u8>) {
        (pos_x(self.position), pos_z(self.position), self.timestamp, self.data@)
    }
}

impl Chunk {
    /// A chunk of the legacy per-region layout: `chunk_index` is the slot in a
    /// 32 by 32 grid, and the region's origin is 1024 times its coordinates.
    /// Fails where the global coordinates do not fit in `i32`.
    pub fn from_region_index(
        chunk_index: usize,
        region_x: i32,
        region_z: i32,
        timestamp: i64,
        data: &[u8],
    ) -> (r: Result<Self, &'static str>)
        ensures
            ({
                let gx = 1024 * region_x + chunk_index % 32;
                let gz = 1024 * region_z + chunk_index / 32;
                match r {
                    Ok(c) => i32::MIN <= gx <= i32::MAX && i32::MIN <= gz <= i32::MAX && c@ == (
                    gx as i32, gz as i32, timestamp, data@),
                    Err(_) => !(i32::MIN <= gx <= i32::MAX && i32::MIN <= gz <= i32::MAX),
                }
            }),
    {
        let parsed_data = parse_tag(data);
        let local_x = (chunk_index % 32) as i64;
        let local_z = (chunk_index / 32) as i64;
        let global_x: i64 = 1024 * (region_x as i64) + local_x;
        let global_z: i64 = 1024 * (region_z as i64) + local_z;
        if global_x < i32::MIN as i64 || global_x > i32::MAX as i64 || global_z < i32::MIN as i64
            || global_z > i32::MAX as i64 {
            return Err("chunk coordinates out of range");
        }
        Ok(Self::new_from_block_pos(global_x as i32, global_z as i32, timestamp, parsed_data))
    }

    /// The chunk in slot `sector_index` of a region.
    pub fn from_sector(sector_index: i32, timestamp: i64, data: &[u8]) -> (r: Result<
        Self,
        &'static str,
    >)
        ensures
            r matches Ok(c) && c@ == (sector_x(sector_index), sector_z(sector_index), timestamp, data@),
    {
        let parsed_data = parse_tag(data);
        let x = sector_index & 31;
        let z = (sector_index >> 5) & 31;
        Ok(Self::new_from_block_pos(x, z, timestamp, parsed_data))
    }

    /// The encoded payload.
    pub fn to_raw_bytes(&self) -> (r: Vec<u8>)
        ensures
            r@ == self@.3,
    {
        self.data.to_bytes()
    }

    /// A chunk at a packed position.
    pub fn new(position: i64, timestamp: i64, data: Tag) -> (r: Self)
        ensures
            r@ == (pos_x(position), pos_z(position), timestamp, data@),
    {
        Self { position, timestamp, data }
    }

    /// A chunk at `(x, z)`.
    pub fn new_from_block_pos(x: i32, z: i32, timestamp: i64, data: Tag) -> (r: Self)
        ensures
            r@ == (x, z, timestamp, data@),
    {
        let position = ((x as i64) << 32) | (z as i64 & 0xFFFF_FFFF);
        proof {
            lemma_pack_unpack(x, z);
        }
        Self { position, timestamp, data }
    }

    /// The slot of this chunk in the 32 by 32 grid of its region.
    pub fn position_to_sector_index(&self) -> (r: i32)
        ensures
            r == sector_index(self@.0, self@.1),
    {
        let x = self.x();
        let z = self.z();
        (x & 31) | ((z & 31) << 5)
    }

    /// The `x` coordinate.
    pub fn x(&self) -> (r: i32)
        ensures
            r == self@.0,
    {
        (self.position >> 32) as i32
    }

    /// The `z` coordinate.
    pub fn z(&self) -> (r: i32)
        ensures
            r == self@.1,
    {
        self.position as i32
    }

    /// The payload.
    pub fn get_data(&self) -> (r: &Tag)
        ensures
            r@ == self@.3,
    {
        &self.data
    }

    /// The chunk's own timestamp.
    pub fn timestamp(&self) -> (r: i64)
        ensures
            r == self@.2,
    {
        self.timestamp
    }
}

} // verus!
