//! Writing a region as a blinear file and reading it back gives the same
//! chunks.
use vstd::prelude::*;
use crate::bytes::{be_i32, be_i64, be_u32, i32_at, i64_at, lemma_i32_round_trip, lemma_i64_round_trip};
use crate::chunk::{sector_index, sector_x, sector_z, lemma_sector_index_bijective};
use crate::region_file::{
    BLINEAR_MAGIC, BLINEAR_VERSION, CHECKSUM_SEED, ChunkView, ParseError, blinear_body, blinear_header,
    blinear_record, blinear_sectors, blinear_slot, distinct_in_grid, first_in_slot, prepend,
    records_fit, xxh32_of,
};

verus! {

/// Whether `a` and `b` hold the same chunks.
pub open spec fn same_chunks(a: Seq<ChunkView>, b: Seq<ChunkView>) -> bool {
    forall|v: ChunkView| a.contains(v) <==> b.contains(v)
}

pub(crate) proof fn lemma_header_read(timestamp: i64, level: u8, c: Seq<u8>)
    ensures
        ({
            let b = blinear_header(timestamp, level) + c;
            &&& b.len() >= 18
            &&& i64_at(b, 0) == BLINEAR_MAGIC
            &&& b[8] == BLINEAR_VERSION
            &&& i64_at(b, 9) == timestamp
            &&& b.subrange(18, b.len() as int) == c
        }),
{
    let b = blinear_header(timestamp, level) + c;
    let e: Seq<u8> = seq![];
    let rest = seq![BLINEAR_VERSION] + be_i64(timestamp) + seq![level] + c;
    assert(b =~= e + be_i64(BLINEAR_MAGIC) + rest);
    lemma_i64_round_trip(BLINEAR_MAGIC, e, rest);
    let pre = be_i64(BLINEAR_MAGIC) + seq![BLINEAR_VERSION];
    assert(b =~= pre + be_i64(timestamp) + (seq![level] + c));
    lemma_i64_round_trip(timestamp, pre, seq![level] + c);
    assert(b.subrange(18, b.len() as int) =~= c);
}

/// The chunks that the body written from `cs` holds in the slots from `s`
/// on, as they read back.
pub open spec fn slot_chunks(cs: Seq<ChunkView>, s: int) -> Seq<ChunkView>
    decreases 1024 - s,
{
    if s < 0 || s >= 1024 {
        seq![]
    } else {
        match first_in_slot(cs, s as i32, 0) {
            Some(i) => seq![(sector_x(s as i32), sector_z(s as i32), cs[i].2, cs[i].3)] + slot_chunks(
                cs,
                s + 1,
            ),
            None => slot_chunks(cs, s + 1),
        }
    }
}

proof fn lemma_first_in_slot_found(cs: Seq<ChunkView>, s: i32, k: int, i: int)
    requires
        0 <= k,
        first_in_slot(cs, s, k) == Some(i),
    ensures
        k <= i < cs.len(),
        sector_index(cs[i].0, cs[i].1) == s,
    decreases cs.len() - k,
{
    if k < cs.len() && sector_index(cs[k].0, cs[k].1) != s {
        lemma_first_in_slot_found(cs, s, k + 1, i);
    }
}

proof fn lemma_first_in_slot_exists(cs: Seq<ChunkView>, s: i32, k: int, i: int)
    requires
        0 <= k <= i < cs.len(),
        sector_index(cs[i].0, cs[i].1) == s,
    ensures
        first_in_slot(cs, s, k) is Some,
    decreases cs.len() - k,
{
    if sector_index(cs[k].0, cs[k].1) != s {
        lemma_first_in_slot_exists(cs, s, k + 1, i);
    }
}

proof fn lemma_body_prefix(cs: Seq<ChunkView>, m: int, n: int)
    requires
        0 <= m <= n,
    ensures
        blinear_body(cs, n) == blinear_body(cs, m) + blinear_body(cs, n).subrange(
            blinear_body(cs, m).len() as int,
            blinear_body(cs, n).len() as int,
        ),
    decreases n - m,
{
    if m < n {
        lemma_body_prefix(cs, m, n - 1);
        let a = blinear_body(cs, m);
        let b = blinear_body(cs, n - 1);
        assert(blinear_body(cs, n) == b + blinear_slot(cs, (n - 1) as i32));
        assert(blinear_body(cs, n) =~= a + blinear_body(cs, n).subrange(
            a.len() as int,
            blinear_body(cs, n).len() as int,
        ));
    } else {
        assert(blinear_body(cs, n) =~= blinear_body(cs, m) + blinear_body(cs, n).subrange(
            blinear_body(cs, m).len() as int,
            blinear_body(cs, n).len() as int,
        ));
    }
}

proof fn lemma_record_read(pre: Seq<u8>, c: ChunkView, sum: u32, tail: Seq<u8>)
    requires
        c.3.len() + 16 <= i32::MAX,
    ensures
        ({
            let d = pre + blinear_record(c, sum) + tail;
            let p = pre.len() as int;
            &&& blinear_record(c, sum).len() == c.3.len() + 20
            &&& i32_at(d, p) == c.3.len() + 16
            &&& i64_at(d, p + 8) == c.2
            &&& d.subrange(p + 20, p + 20 + c.3.len()) == c.3
        }),
{
    let d = pre + blinear_record(c, sum) + tail;
    let p = pre.len() as int;
    let n = (c.3.len() + 16) as i32;
    let after = be_i32(c.3.len() as i32) + be_i64(c.2) + be_u32(sum) + c.3;
    assert(blinear_record(c, sum) =~= be_i32(n) + after);
    assert(d =~= pre + be_i32(n) + (after + tail));
    lemma_i32_round_trip(n, pre, after + tail);
    let pre2 = pre + be_i32(n) + be_i32(c.3.len() as i32);
    let post2 = be_u32(sum) + c.3 + tail;
    assert(d =~= pre2 + be_i64(c.2) + post2);
    lemma_i64_round_trip(c.2, pre2, post2);
    assert(d.subrange(p + 20, p + 20 + c.3.len()) =~= c.3);
}

proof fn lemma_empty_read(pre: Seq<u8>, tail: Seq<u8>)
    ensures
        be_i32(0).len() == 4,
        i32_at(pre + be_i32(0) + tail, pre.len() as int) == 0,
{
    lemma_i32_round_trip(0, pre, tail);
}

proof fn lemma_read_slot(cs: Seq<ChunkView>, s: int)
    requires
        0 <= s < 1024,
        records_fit(cs),
    ensures
        ({
            let d = blinear_body(cs, 1024);
            let p = blinear_body(cs, s).len() as int;
            let q = blinear_body(cs, s + 1).len() as int;
            match first_in_slot(cs, s as i32, 0) {
                None => blinear_sectors(d, s, p) == blinear_sectors(d, s + 1, q),
                Some(i) => blinear_sectors(d, s, p) == prepend(
                    seq![(sector_x(s as i32), sector_z(s as i32), cs[i].2, cs[i].3)],
                    blinear_sectors(d, s + 1, q),
                ),
            }
        }),
{
    let d = blinear_body(cs, 1024);
    lemma_body_prefix(cs, s + 1, 1024);
    let pre = blinear_body(cs, s);
    let tail = d.subrange(blinear_body(cs, s + 1).len() as int, d.len() as int);
    let slot = blinear_slot(cs, s as i32);
    assert(blinear_body(cs, s + 1) == pre + slot);
    assert(d == pre + slot + tail);
    match first_in_slot(cs, s as i32, 0) {
        None => {
            lemma_empty_read(pre, tail);
        },
        Some(i) => {
            lemma_first_in_slot_found(cs, s as i32, 0, i);
            let c = cs[i];
            lemma_record_read(pre, c, xxh32_of(CHECKSUM_SEED, c.3), tail);
        },
    }
}

proof fn lemma_read_slots(cs: Seq<ChunkView>, s: int)
    requires
        0 <= s <= 1024,
        records_fit(cs),
    ensures
        blinear_sectors(blinear_body(cs, 1024), s, blinear_body(cs, s).len() as int) == Ok::<
            Seq<ChunkView>,
            ParseError,
        >(slot_chunks(cs, s)),
    decreases 1024 - s,
{
    if s < 1024 {
        lemma_read_slots(cs, s + 1);
        lemma_read_slot(cs, s);
    }
}

proof fn lemma_slot_chunks_member(cs: Seq<ChunkView>, s0: int, v: ChunkView)
    requires
        0 <= s0,
        slot_chunks(cs, s0).contains(v),
    ensures
        exists|s: int, i: int|
            s0 <= s < 1024 && #[trigger] first_in_slot(cs, s as i32, 0) == Some(i) && v == (
                sector_x(s as i32),
                sector_z(s as i32),
                #[trigger] cs[i].2,
                cs[i].3,
            ),
    decreases 1024 - s0,
{
    if s0 < 1024 {
        let rest = slot_chunks(cs, s0 + 1);
        match first_in_slot(cs, s0 as i32, 0) {
            Some(i) => {
                let c = (sector_x(s0 as i32), sector_z(s0 as i32), cs[i].2, cs[i].3);
                if v == c {
                    assert(first_in_slot(cs, s0 as i32, 0) == Some(i));
                } else {
                    let k = choose|k: int| 0 <= k < slot_chunks(cs, s0).len() && slot_chunks(cs, s0)[k] == v;
                    assert(rest[k - 1] == v);
                    lemma_slot_chunks_member(cs, s0 + 1, v);
                }
            },
            None => {
                lemma_slot_chunks_member(cs, s0 + 1, v);
            },
        }
    }
}

proof fn lemma_slot_chunks_has(cs: Seq<ChunkView>, s0: int, s: int, i: int)
    requires
        0 <= s0 <= s < 1024,
        first_in_slot(cs, s as i32, 0) == Some(i),
    ensures
        slot_chunks(cs, s0).contains((sector_x(s as i32), sector_z(s as i32), cs[i].2, cs[i].3)),
    decreases s - s0,
{
    let v = (sector_x(s as i32), sector_z(s as i32), cs[i].2, cs[i].3);
    if s0 == s {
        assert(slot_chunks(cs, s0)[0] == v);
    } else {
        lemma_slot_chunks_has(cs, s0 + 1, s, i);
        let rest = slot_chunks(cs, s0 + 1);
        let k = choose|k: int| 0 <= k < rest.len() && rest[k] == v;
        match first_in_slot(cs, s0 as i32, 0) {
            Some(j) => {
                assert(slot_chunks(cs, s0)[k + 1] == v);
            },
            None => {
                assert(slot_chunks(cs, s0)[k] == v);
            },
        }
    }
}

/// The body written from chunks that lie in one region's grid, none sharing
/// coordinates, reads back as the same chunks.
pub proof fn lemma_blinear_body_round_trip(cs: Seq<ChunkView>)
    requires
        distinct_in_grid(cs),
        records_fit(cs),
    ensures
        blinear_sectors(blinear_body(cs, 1024), 0, 0) matches Ok(ds) && same_chunks(ds, cs),
{
    lemma_read_slots(cs, 0);
    assert(blinear_body(cs, 0).len() == 0);
    let ds = slot_chunks(cs, 0);
    lemma_sector_index_bijective();
    assert forall|v: ChunkView| ds.contains(v) <==> cs.contains(v) by {
        if ds.contains(v) {
            lemma_slot_chunks_member(cs, 0, v);
            let (s, i) = choose|s: int, i: int|
                0 <= s < 1024 && #[trigger] first_in_slot(cs, s as i32, 0) == Some(i) && v == (
                    sector_x(s as i32),
                    sector_z(s as i32),
                    #[trigger] cs[i].2,
                    cs[i].3,
                );
            lemma_first_in_slot_found(cs, s as i32, 0, i);
            assert(cs[i].0 == sector_x(sector_index(cs[i].0, cs[i].1)));
            assert(v == cs[i]);
        }
        if cs.contains(v) {
            let i = choose|i: int| 0 <= i < cs.len() && cs[i] == v;
            let s = sector_index(v.0, v.1);
            assert(0 <= v.0 < 32 && 0 <= v.1 < 32);
            lemma_first_in_slot_exists(cs, s, 0, i);
            let j = first_in_slot(cs, s, 0)->Some_0;
            lemma_first_in_slot_found(cs, s, 0, j);
            assert(0 <= cs[j].0 < 32 && 0 <= cs[j].1 < 32);
            assert((cs[j].0, cs[j].1) == (v.0, v.1));
            assert(j == i);
            lemma_slot_chunks_has(cs, 0, s as int, j);
            assert(sector_x(s) == v.0);
        }
    }
}

} // verus!
