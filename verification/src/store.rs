//! The immutable point store and its binary snapshot format.
//!
//! The snapshot is little-endian and fixed-width:
//!
//! ```text
//! u32 version            (carried but not interpreted)
//! u32 count
//! repeat `count` times:
//!   u32 x, u32 y, u32 z  (IEEE 754 single-precision bit patterns)
//!   u8  category         (0 = unknown, 1 = general, 2 = neutron)
//!   u32 name_len
//!   u8[name_len] name    (UTF-8, not null-terminated)
//! ```
//!
//! Coordinates are decoded into fixed-point integers with
//! [`crate::geom::SCALE`] units per light-year, truncated toward zero and
//! saturated at [`MAX_COORD`]; non-finite bit patterns saturate as well.
//! A truncated stream, a name length running past the buffer, or name bytes
//! that are not valid UTF-8 are a hard failure: no partial store is returned.

use vstd::prelude::*;
use vstd::utf8::{decode_utf8, valid_utf8};

use crate::geom::{Pt, MAX_COORD};

verus! {

/// The category of an entity.  `Unknown` is a valid category: such entities
/// are kept in the store but never placed in a spatial index.
#[derive(Clone, Copy, PartialEq, Eq, Structural, Debug)]
pub enum StarKind {
    Unknown,
    General,
    Neutron,
}

/// The category a stored byte denotes; bytes other than 1 and 2 denote
/// `Unknown`.
pub open spec fn spec_kind_of_byte(b: u8) -> StarKind {
    if b == 1 {
        StarKind::General
    } else if b == 2 {
        StarKind::Neutron
    } else {
        StarKind::Unknown
    }
}

/// Maps a stored category byte to its [`StarKind`].
pub fn kind_of_byte(b: u8) -> (k: StarKind)
    ensures
        k == spec_kind_of_byte(b),
{
    match b {
        1 => StarKind::General,
        2 => StarKind::Neutron,
        _ => StarKind::Unknown,
    }
}

/// 2^k as a mathematical integer.
pub open spec fn p2(k: nat) -> int
    decreases k,
{
    if k == 0 {
        1
    } else {
        2 * p2((k - 1) as nat)
    }
}

pub proof fn lemma_p2_pos(k: nat)
    ensures
        p2(k) >= 1,
    decreases k,
{
    if k > 0 {
        lemma_p2_pos((k - 1) as nat);
    }
}

pub proof fn lemma_p2_mono(j: nat, k: nat)
    requires
        j <= k,
    ensures
        p2(j) <= p2(k),
    decreases k,
{
    lemma_p2_pos(j);
    if j < k {
        lemma_p2_mono(j, (k - 1) as nat);
    }
}

/// 2^k for small `k`, as an `i64`.
fn pow2_i64(k: u32) -> (r: i64)
    requires
        k <= 23,
    ensures
        r == p2(k as nat),
        1 <= r <= 0x80_0000,
{
    proof {
        lemma_p2_mono(k as nat, 23);
        reveal_with_fuel(p2, 24);
        assert(p2(23) == 0x80_0000);
    }
    let mut r: i64 = 1;
    let mut i: u32 = 0;
    while i < k
        invariant
            i <= k <= 23,
            r == p2(i as nat),
        decreases k - i,
    {
        proof {
            lemma_p2_mono((i + 1) as nat, 23);
            reveal_with_fuel(p2, 24);
            assert(p2(23) == 0x80_0000);
        }
        r = r * 2;
        i = i + 1;
    }
    r
}

/// The magnitude a stored bit pattern denotes, from its exponent and
/// fraction fields: the IEEE 754 single-precision magnitude scaled by 2^10,
/// truncated toward zero and saturated at [`MAX_COORD`].  Since the format
/// has bias 127 and 23 fraction bits, a significand `m` at exponent `e`
/// denotes `m * 2^(e - 150)`, which scales to `m * 2^(e - 140)`.  Infinities
/// and NaNs (`exp == 255`) saturate.
pub open spec fn spec_coord_magnitude(exp: int, frac: int) -> int {
    let m = if exp == 0 {
        frac
    } else {
        frac + 0x80_0000
    };
    let e = if exp == 0 {
        1
    } else {
        exp
    };
    if exp == 255 {
        MAX_COORD as int
    } else if e > 144 {
        // m >= 2^23 here, so the scaled value is at least 2^28 > MAX_COORD.
        MAX_COORD as int
    } else if e >= 140 {
        let v = m * p2((e - 140) as nat);
        if v > MAX_COORD {
            MAX_COORD as int
        } else {
            v
        }
    } else if 140 - e >= 24 {
        // m < 2^24, so the scaled value truncates to zero.
        0
    } else {
        m / p2((140 - e) as nat)
    }
}

/// The fixed-point coordinate a stored 32-bit pattern denotes.
pub open spec fn spec_decode_coord(bits: int) -> int {
    let sign = bits / 0x8000_0000;
    let exp = (bits / 0x80_0000) % 0x100;
    let frac = bits % 0x80_0000;
    if sign == 1 {
        -spec_coord_magnitude(exp, frac)
    } else {
        spec_coord_magnitude(exp, frac)
    }
}

/// Decodes a stored 32-bit coordinate pattern into its fixed-point value.
pub fn decode_coord(bits: u32) -> (r: i64)
    ensures
        r == spec_decode_coord(bits as int),
        -MAX_COORD <= r <= MAX_COORD,
{
    let sign: u32 = bits / 0x8000_0000;
    let exp: u32 = (bits / 0x80_0000) % 0x100;
    let frac: u32 = bits % 0x80_0000;
    let m: i64 = if exp == 0 {
        frac as i64
    } else {
        (frac + 0x80_0000) as i64
    };
    let e: u32 = if exp == 0 {
        1
    } else {
        exp
    };
    let mag: i64 = if exp == 255 {
        MAX_COORD
    } else if e > 144 {
        MAX_COORD
    } else if e >= 140 {
        let w: i64 = pow2_i64(e - 140);
        proof {
            lemma_p2_mono((e - 140) as nat, 4);
            reveal_with_fuel(p2, 5);
            assert(p2(4) == 0x10);
            assert(m * w <= 0x100_0000 * 0x10) by (nonlinear_arith)
                requires
                    0 <= m <= 0x100_0000,
                    0 <= w <= 0x10,
            ;
            assert(m * w >= 0) by (nonlinear_arith)
                requires
                    m >= 0,
                    w >= 0,
            ;
        }
        let v: i64 = m * w;
        if v > MAX_COORD {
            MAX_COORD
        } else {
            v
        }
    } else if 140 - e >= 24 {
        0
    } else {
        let w: i64 = pow2_i64(140 - e);
        proof {
            assert(0 <= m / w <= m) by (nonlinear_arith)
                requires
                    0 <= m,
                    1 <= w,
            ;
        }
        m / w
    };
    if sign == 1 {
        -mag
    } else {
        mag
    }
}

/// An entity of the store, as mathematics: a fixed-point coordinate, a name,
/// and a category.
pub ghost struct Entity {
    pub x: int,
    pub y: int,
    pub z: int,
    pub name: Seq<char>,
    pub kind: StarKind,
}

/// The entities a parallel triple of sequences holds.
pub open spec fn entities_of(coords: Seq<Pt>, names: Seq<String>, kinds: Seq<StarKind>) -> Seq<
    Entity,
> {
    Seq::new(
        coords.len(),
        |i: int|
            Entity {
                x: coords[i].x as int,
                y: coords[i].y as int,
                z: coords[i].z as int,
                name: names[i]@,
                kind: kinds[i],
            },
    )
}

/// The immutable in-memory table of all known entities.  Position in the
/// parallel vectors is the entity's id.
pub struct Store {
    pub coords: Vec<Pt>,
    pub names: Vec<String>,
    pub kinds: Vec<StarKind>,
}

impl Store {
    /// The parallel sequences have equal lengths and every coordinate is in
    /// range.
    pub open spec fn wf(self) -> bool {
        &&& self.names@.len() == self.coords@.len()
        &&& self.kinds@.len() == self.coords@.len()
        &&& forall|i: int|
            0 <= i < self.coords@.len() ==> (#[trigger] self.coords@[i]).wf()
    }

    /// Number of entities.
    pub open spec fn spec_len(self) -> nat {
        self.coords@.len()
    }

    /// Number of entities.
    pub fn len(&self) -> (n: usize)
        ensures
            n == self.spec_len(),
    {
        self.coords.len()
    }

    /// The entities of the store, in id order.
    pub open spec fn entities(self) -> Seq<Entity> {
        entities_of(self.coords@, self.names@, self.kinds@)
    }

    /// Looks a display name up, returning the highest id carrying that name
    /// (on duplicate names the last write wins), or `None` when no entity
    /// carries it.
    pub fn name_to_idx(&self, name: &String) -> (r: Option<usize>)
        requires
            self.wf(),
        ensures
            match r {
                Some(i) => {
                    &&& i < self.spec_len()
                    &&& self.names@[i as int]@ == name@
                    &&& forall|j: int|
                        i < j < self.spec_len() ==> (#[trigger] self.names@[j])@ != name@
                },
                None => forall|j: int|
                    0 <= j < self.spec_len() ==> (#[trigger] self.names@[j])@ != name@,
            },
    {
        let mut i: usize = self.names.len();
        while i > 0
            invariant
                i <= self.names@.len() == self.spec_len(),
                forall|j: int|
                    i <= j < self.spec_len() ==> (#[trigger] self.names@[j])@ != name@,
            decreases i,
        {
            i = i - 1;
            if self.names[i] == *name {
                return Some(i);
            }
        }
        None
    }
}

/// The little-endian 32-bit integer at offset `i` of a byte sequence.
pub open spec fn le32_at(s: Seq<u8>, i: int) -> int {
    s[i] + 0x100 * s[i + 1] + 0x1_0000 * s[i + 2] + 0x100_0000 * s[i + 3]
}

/// Reads the little-endian `u32` at `pos`.
fn read_u32(bytes: &[u8], pos: usize) -> (r: u32)
    requires
        pos + 4 <= bytes@.len(),
    ensures
        r == le32_at(bytes@, pos as int),
{
    let b0: u32 = bytes[pos] as u32;
    let b1: u32 = bytes[pos + 1] as u32;
    let b2: u32 = bytes[pos + 2] as u32;
    let b3: u32 = bytes[pos + 3] as u32;
    b0 + 0x100 * b1 + 0x1_0000 * b2 + 0x100_0000 * b3
}

/// Relies on `String::from_utf8`: returns the decoded string exactly when
/// the bytes are valid UTF-8, and fails exactly otherwise.
#[verifier::external_body]
fn bytes_to_string(bytes: Vec<u8>) -> (r: Option<String>)
    ensures
        (match r {
            Some(s) => valid_utf8(bytes@) && s@ == decode_utf8(bytes@),
            None => !valid_utf8(bytes@),
        }),
{
    match String::from_utf8(bytes) {
        Ok(s) => Some(s),
        Err(_) => None,
    }
}

/// Parses one entity record from the front of `s`, returning the entity and
/// the remaining bytes, or nothing if the record is truncated or its name is
/// not valid UTF-8.
pub open spec fn parse_rec(s: Seq<u8>) -> Option<(Entity, Seq<u8>)> {
    if s.len() < 17 {
        None
    } else {
        let nlen = le32_at(s, 13);
        if s.len() < 17 + nlen {
            None
        } else {
            let nb = s.subrange(17, 17 + nlen);
            if !valid_utf8(nb) {
                None
            } else {
                Some(
                    (
                        Entity {
                            x: spec_decode_coord(le32_at(s, 0)),
                            y: spec_decode_coord(le32_at(s, 4)),
                            z: spec_decode_coord(le32_at(s, 8)),
                            name: decode_utf8(nb),
                            kind: spec_kind_of_byte(s[12]),
                        },
                        s.skip(17 + nlen),
                    ),
                )
            }
        }
    }
}

/// Parses `n` entity records from the front of `s`.
pub open spec fn parse_recs(s: Seq<u8>, n: nat) -> Option<(Seq<Entity>, Seq<u8>)>
    decreases n,
{
    if n == 0 {
        Some((Seq::empty(), s))
    } else {
        match parse_rec(s) {
            None => None,
            Some(p) => match parse_recs(p.1, (n - 1) as nat) {
                None => None,
                Some(q) => Some((seq![p.0] + q.0, q.1)),
            },
        }
    }
}

/// Parses a whole snapshot: header, then exactly `count` records.  Trailing
/// bytes after the last record are ignored.
pub open spec fn parse_store(s: Seq<u8>) -> Option<Seq<Entity>> {
    if s.len() < 8 {
        None
    } else {
        match parse_recs(s.skip(8), le32_at(s, 4) as nat) {
            None => None,
            Some(p) => Some(p.0),
        }
    }
}

/// The one failure of deserialization: a truncated stream, a name length
/// running past the buffer, or name bytes that are not valid UTF-8.
#[derive(Clone, Copy, PartialEq, Eq, Structural, Debug)]
pub enum StoreError {
    Malformed,
}

/// Reads one entity record at offset `pos`, returning its decoded parts and
/// the offset of the next record.
#[verifier::loop_isolation(false)]
fn read_record(bytes: &[u8], pos: usize) -> (r: Result<(Pt, String, StarKind, usize), StoreError>)
    requires
        pos <= bytes@.len(),
    ensures
        match r {
            Ok(rec) => {
                &&& parse_rec(bytes@.skip(pos as int)) == Some(
                    (
                        Entity {
                            x: rec.0.x as int,
                            y: rec.0.y as int,
                            z: rec.0.z as int,
                            name: rec.1@,
                            kind: rec.2,
                        },
                        bytes@.skip(rec.3 as int),
                    ),
                )
                &&& pos < rec.3 <= bytes@.len()
                &&& rec.0.wf()
            },
            Err(e) => parse_rec(bytes@.skip(pos as int)) is None && e == StoreError::Malformed,
        },
{
    let ghost rem = bytes@.skip(pos as int);
    let n = bytes.len();
    if n - pos < 17 {
        assert(parse_rec(rem) is None);
        return Err(StoreError::Malformed);
    }
    let bx = read_u32(bytes, pos);
    let by = read_u32(bytes, pos + 4);
    let bz = read_u32(bytes, pos + 8);
    let kb = bytes[pos + 12];
    let nlen = read_u32(bytes, pos + 13) as usize;
    assert(le32_at(rem, 0) == bx && le32_at(rem, 4) == by && le32_at(rem, 8) == bz && le32_at(
        rem,
        13,
    ) == nlen && rem[12] == kb);
    if n - pos - 17 < nlen {
        assert(parse_rec(rem) is None);
        return Err(StoreError::Malformed);
    }
    let name_slice = vstd::slice::slice_subrange(bytes, pos + 17, pos + 17 + nlen);
    let nb = vstd::slice::slice_to_vec(name_slice);
    assert(nb@ =~= rem.subrange(17, 17 + nlen as int));
    let name = match bytes_to_string(nb) {
        Some(s) => s,
        None => {
            assert(parse_rec(rem) is None);
            return Err(StoreError::Malformed);
        },
    };
    let x = decode_coord(bx);
    let y = decode_coord(by);
    let z = decode_coord(bz);
    let new_pos = pos + 17 + nlen;
    let kind = kind_of_byte(kb);
    proof {
        assert(rem.skip(17 + nlen as int) =~= bytes@.skip(new_pos as int));
    }
    Ok((Pt { x, y, z }, name, kind, new_pos))
}

/// Deserializes a binary snapshot into a [`Store`].  Succeeds exactly when
/// [`parse_store`] accepts the bytes, and then returns exactly the entities
/// it denotes; returns `Malformed`, and no partial store, otherwise.
#[verifier::loop_isolation(false)]
#[verifier::rlimit(100)]
pub fn load_store_from_bytes(bytes: &[u8]) -> (r: Result<Store, StoreError>)
    ensures
        match r {
            Ok(store) => store.wf() && parse_store(bytes@) == Some(store.entities()),
            Err(e) => parse_store(bytes@) is None && e == StoreError::Malformed,
        },
{
    let n = bytes.len();
    if n < 8 {
        return Err(StoreError::Malformed);
    }
    let count = read_u32(bytes, 4) as usize;
    let mut coords: Vec<Pt> = Vec::new();
    let mut names: Vec<String> = Vec::new();
    let mut kinds: Vec<StarKind> = Vec::new();
    let mut pos: usize = 8;
    let mut i: usize = 0;
    proof {
        assert(Seq::<Entity>::empty() + parse_recs(bytes@.skip(8), count as nat)->Some_0.0
            =~= parse_recs(bytes@.skip(8), count as nat)->Some_0.0);
    }
    while i < count
        invariant
            8 <= pos <= bytes@.len(),
            i <= count,
            coords@.len() == i,
            names@.len() == i,
            kinds@.len() == i,
            forall|k: int| 0 <= k < i ==> (#[trigger] coords@[k]).wf(),
            (match parse_recs(bytes@.skip(pos as int), (count - i) as nat) {
                Some(p) => parse_recs(bytes@.skip(8), count as nat) == Some(
                    (entities_of(coords@, names@, kinds@) + p.0, p.1),
                ),
                None => parse_recs(bytes@.skip(8), count as nat) is None,
            }),
        decreases count - i,
    {
        let ghost rem = bytes@.skip(pos as int);
        let (pt, name, kind, new_pos) = match read_record(bytes, pos) {
            Ok(rec) => rec,
            Err(e) => {
                return Err(StoreError::Malformed);
            },
        };
        let ghost ent = parse_rec(rem)->Some_0.0;
        let ghost old_entities = entities_of(coords@, names@, kinds@);
        coords.push(pt);
        names.push(name);
        kinds.push(kind);
        proof {
            assert(entities_of(coords@, names@, kinds@) =~= old_entities.push(ent));
            let rest = bytes@.skip(new_pos as int);
            assert(parse_recs(rem, (count - i) as nat) == (match parse_recs(
                rest,
                (count - i - 1) as nat,
            ) {
                None => None::<(Seq<Entity>, Seq<u8>)>,
                Some(q) => Some((seq![ent] + q.0, q.1)),
            }));
            if parse_recs(rest, (count - i - 1) as nat) is Some {
                let q = parse_recs(rest, (count - i - 1) as nat)->Some_0;
                assert(old_entities + (seq![ent] + q.0) =~= old_entities.push(ent) + q.0);
            }
        }
        pos = new_pos;
        i = i + 1;
    }
    let store = Store { coords, names, kinds };
    proof {
        assert(parse_recs(bytes@.skip(pos as int), 0) == Some(
            (Seq::<Entity>::empty(), bytes@.skip(pos as int)),
        ));
        let p = parse_recs(bytes@.skip(8), count as nat)->Some_0;
        assert(store.entities() + Seq::<Entity>::empty() =~= store.entities());
    }
    Ok(store)
}

/// A raw entity record as laid out in the snapshot: the three coordinate
/// bit patterns, the category byte, and the name's UTF-8 bytes.
pub ghost struct RawRec {
    pub bx: u32,
    pub by: u32,
    pub bz: u32,
    pub kind_byte: u8,
    pub name: Seq<u8>,
}

impl RawRec {
    /// The name's length fits its 32-bit length field and its bytes are
    /// valid UTF-8.
    pub open spec fn wf(self) -> bool {
        &&& self.name.len() < 0x1_0000_0000
        &&& valid_utf8(self.name)
    }

    /// The entity this record denotes.
    pub open spec fn entity(self) -> Entity {
        Entity {
            x: spec_decode_coord(self.bx as int),
            y: spec_decode_coord(self.by as int),
            z: spec_decode_coord(self.bz as int),
            name: decode_utf8(self.name),
            kind: spec_kind_of_byte(self.kind_byte),
        }
    }
}

/// The little-endian bytes of a 32-bit value.
pub open spec fn le32_bytes(v: int) -> Seq<u8> {
    seq![
        (v % 0x100) as u8,
        ((v / 0x100) % 0x100) as u8,
        ((v / 0x1_0000) % 0x100) as u8,
        ((v / 0x100_0000) % 0x100) as u8,
    ]
}

/// The documented layout of one record.
pub open spec fn encode_rec(r: RawRec) -> Seq<u8> {
    le32_bytes(r.bx as int) + le32_bytes(r.by as int) + le32_bytes(r.bz as int) + seq![r.kind_byte]
        + le32_bytes(r.name.len() as int) + r.name
}

/// The records one after another.
pub open spec fn encode_recs(rs: Seq<RawRec>) -> Seq<u8>
    decreases rs.len(),
{
    if rs.len() == 0 {
        Seq::empty()
    } else {
        encode_rec(rs[0]) + encode_recs(rs.skip(1))
    }
}

/// The documented layout of a whole snapshot: version, count, records.
pub open spec fn encode_store(version: u32, rs: Seq<RawRec>) -> Seq<u8> {
    le32_bytes(version as int) + le32_bytes(rs.len() as int) + encode_recs(rs)
}

proof fn lemma_le32_round_trip(v: int, s: Seq<u8>, i: int)
    requires
        0 <= v < 0x1_0000_0000,
        0 <= i,
        i + 4 <= s.len(),
        s.subrange(i, i + 4) == le32_bytes(v),
    ensures
        le32_at(s, i) == v,
{
    assert(s[i] == le32_bytes(v)[0]);
    assert(s[i + 1] == le32_bytes(v)[1]);
    assert(s[i + 2] == le32_bytes(v)[2]);
    assert(s[i + 3] == le32_bytes(v)[3]);
    assert(v % 0x100 + 0x100 * ((v / 0x100) % 0x100) + 0x1_0000 * ((v / 0x1_0000) % 0x100)
        + 0x100_0000 * ((v / 0x100_0000) % 0x100) == v) by (nonlinear_arith)
        requires
            0 <= v < 0x1_0000_0000,
    ;
}

proof fn lemma_parse_rec_encode(r: RawRec, rest: Seq<u8>)
    requires
        r.wf(),
    ensures
        parse_rec(encode_rec(r) + rest) == Some((r.entity(), rest)),
{
    let s = encode_rec(r) + rest;
    let nlen = r.name.len() as int;
    assert(s.len() == 17 + nlen + rest.len());
    assert(s.subrange(0, 4) =~= le32_bytes(r.bx as int));
    assert(s.subrange(4, 8) =~= le32_bytes(r.by as int));
    assert(s.subrange(8, 12) =~= le32_bytes(r.bz as int));
    assert(s.subrange(13, 17) =~= le32_bytes(nlen));
    lemma_le32_round_trip(r.bx as int, s, 0);
    lemma_le32_round_trip(r.by as int, s, 4);
    lemma_le32_round_trip(r.bz as int, s, 8);
    lemma_le32_round_trip(nlen, s, 13);
    assert(s[12] == r.kind_byte);
    assert(s.subrange(17, 17 + nlen) =~= r.name);
    assert(s.skip(17 + nlen) =~= rest);
}

#[verifier::rlimit(100)]
proof fn lemma_parse_recs_encode(rs: Seq<RawRec>, rest: Seq<u8>)
    requires
        forall|i: int| 0 <= i < rs.len() ==> (#[trigger] rs[i]).wf(),
    ensures
        parse_recs(encode_recs(rs) + rest, rs.len()) == Some(
            (rs.map_values(|r: RawRec| r.entity()), rest),
        ),
    decreases rs.len(),
{
    if rs.len() == 0 {
        assert(encode_recs(rs) + rest =~= rest);
        assert(rs.map_values(|r: RawRec| r.entity()) =~= Seq::<Entity>::empty());
    } else {
        let tail = rs.skip(1);
        assert(forall|i: int| 0 <= i < tail.len() ==> (#[trigger] tail[i]).wf()) by {
            assert(forall|i: int| 0 <= i < tail.len() ==> tail[i] == rs[i + 1]);
        }
        lemma_parse_rec_encode(rs[0], encode_recs(tail) + rest);
        assert(encode_recs(rs) + rest =~= encode_rec(rs[0]) + (encode_recs(tail) + rest));
        lemma_parse_recs_encode(tail, rest);
        assert(seq![rs[0].entity()] + tail.map_values(|r: RawRec| r.entity()) =~= rs.map_values(
            |r: RawRec| r.entity(),
        ));
    }
}

/// Round-trip: a snapshot laid out as the format documents — version and
/// count words, then each record's coordinate words, category byte, name
/// length and name bytes — deserializes to exactly those records' entities,
/// in their original order.
pub proof fn lemma_store_round_trip(version: u32, rs: Seq<RawRec>)
    requires
        rs.len() < 0x1_0000_0000,
        forall|i: int| 0 <= i < rs.len() ==> (#[trigger] rs[i]).wf(),
    ensures
        parse_store(encode_store(version, rs)) == Some(rs.map_values(|r: RawRec| r.entity())),
{
    let s = encode_store(version, rs);
    assert(s.len() >= 8);
    assert(s.subrange(4, 8) =~= le32_bytes(rs.len() as int));
    lemma_le32_round_trip(rs.len() as int, s, 4);
    assert(s.skip(8) =~= encode_recs(rs) + Seq::<u8>::empty());
    lemma_parse_recs_encode(rs, Seq::empty());
}

} // verus!
