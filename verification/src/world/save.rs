use vstd::prelude::*;
use crate::utils::constants::CHUNK_VOLUME;
use crate::world::block::{Block, BlockKind, BLOCK_KIND_COUNT, kind_code};
use crate::world::chunk::{Chunk, ChunkPos};
use vstd::string::StringExecFns;

verus! {

// ── the byte layout of a saved chunk ─────────────────────────────────────

/// The four little-endian bytes of `v`.
pub open spec fn le_bytes_u32(v: u32) -> Seq<u8> {
    seq![
        (v & 0xff) as u8,
        ((v >> 8u32) & 0xff) as u8,
        ((v >> 16u32) & 0xff) as u8,
        ((v >> 24u32) & 0xff) as u8,
    ]
}

/// The eight little-endian bytes of `v`.
pub open spec fn le_bytes_u64(v: u64) -> Seq<u8> {
    le_bytes_u32((v & 0xffff_ffff) as u32) + le_bytes_u32((v >> 32u64) as u32)
}

/// The `u32` stored little-endian in `s[at..at + 4]`.
pub open spec fn u32_at(s: Seq<u8>, at: int) -> u32 {
    (s[at] as u32) | ((s[at + 1] as u32) << 8u32) | ((s[at + 2] as u32) << 16u32) | ((s[at + 3] as u32)
        << 24u32)
}

/// The `u64` stored little-endian in `s[at..at + 8]`.
pub open spec fn u64_at(s: Seq<u8>, at: int) -> u64 {
    (u32_at(s, at) as u64) | ((u32_at(s, at + 4) as u64) << 32u64)
}

/// The serialized form of a chunk record `(position, blocks)` in the
/// default encoding of the bincode crate: each coordinate as four
/// little-endian bytes, then the number of block bytes as eight
/// little-endian bytes, then the block bytes.
pub open spec fn record_bytes(x: i32, y: i32, z: i32, blocks: Seq<u8>) -> Seq<u8> {
    le_bytes_u32(x as u32) + le_bytes_u32(y as u32) + le_bytes_u32(z as u32) + le_bytes_u64(
        blocks.len() as u64,
    ) + blocks
}

/// Length of the fixed part of a record: three coordinates and the count.
pub open spec fn record_header_len() -> int {
    20
}

/// Whether `s` starts with a whole record: a header, and at least as many
/// bytes after it as the header's count says. Bytes after the record are
/// ignored.
pub open spec fn record_parses(s: Seq<u8>) -> bool {
    s.len() >= 20 && 20 + u64_at(s, 12) <= s.len()
}

/// The block bytes of the record that `s` starts with.
pub open spec fn record_blocks(s: Seq<u8>) -> Seq<u8> {
    s.subrange(20, 20 + u64_at(s, 12))
}

/// Serialize a chunk record with `bincode::serialize`.
///
/// Trusted: `bincode::serialize` (bincode 1.3) encodes with fixed-width
/// little-endian integers and a `u64` length before each sequence; a
/// tuple of a three-element array and a byte vector is encoded field by
/// field, exactly as a struct with those two fields, and with no size limit
/// the encoding cannot fail. The contract states that layout.
#[verifier::external_body]
fn serialize_record(position: [i32; 3], blocks: &Vec<u8>) -> (r: Option<Vec<u8>>)
    ensures
        r is Some,
        r.unwrap()@ == record_bytes(position[0], position[1], position[2], blocks@),
{
    bincode::serialize(&(position, blocks)).ok()
}

/// Deserialize a chunk record with `bincode::deserialize`.
///
/// Trusted: `bincode::deserialize` (bincode 1.3) reads the fixed-width
/// little-endian layout that `serialize_record` describes, fails when the
/// input ends before the record does, and ignores trailing bytes.
#[verifier::external_body]
fn deserialize_record(bytes: &[u8]) -> (r: Option<([i32; 3], Vec<u8>)>)
    ensures
        r is Some <==> record_parses(bytes@),
        r matches Some(rec) ==> {
            &&& rec.0[0] == u32_at(bytes@, 0) as i32
            &&& rec.0[1] == u32_at(bytes@, 4) as i32
            &&& rec.0[2] == u32_at(bytes@, 8) as i32
            &&& rec.1@ == record_blocks(bytes@)
        },
{
    bincode::deserialize::<([i32; 3], Vec<u8>)>(bytes).ok()
}

// ── file names ───────────────────────────────────────────────────────────

/// The decimal digit character of `d` (0 to 9).
pub open spec fn digit_char(d: int) -> char {
    if d == 0 {
        '0'
    } else if d == 1 {
        '1'
    } else if d == 2 {
        '2'
    } else if d == 3 {
        '3'
    } else if d == 4 {
        '4'
    } else if d == 5 {
        '5'
    } else if d == 6 {
        '6'
    } else if d == 7 {
        '7'
    } else if d == 8 {
        '8'
    } else {
        '9'
    }
}

/// The decimal digits of `n`, most significant first, without leading zeros.
pub open spec fn decimal_digits(n: nat) -> Seq<char>
    decreases n,
{
    if n < 10 {
        seq![digit_char(n as int)]
    } else {
        decimal_digits(n / 10).push(digit_char((n % 10) as int))
    }
}

/// The decimal text of `v`, with a leading minus sign when negative.
pub open spec fn decimal_text(v: int) -> Seq<char> {
    if v < 0 {
        seq!['-'] + decimal_digits((-v) as nat)
    } else {
        decimal_digits(v as nat)
    }
}

/// The file name of the chunk at `(x, y, z)`: `"{x}_{y}_{z}.bin"`.
pub open spec fn chunk_file_name_text(x: i32, y: i32, z: i32) -> Seq<char> {
    decimal_text(x as int) + seq!['_'] + decimal_text(y as int) + seq!['_'] + decimal_text(z as int) + seq![
        '.',
        'b',
        'i',
        'n',
    ]
}

/// The number spelt by a string of decimal digit characters, most
/// significant first: each character counts as its code minus the code of
/// `'0'`.
pub open spec fn digits_value(s: Seq<char>) -> int
    decreases s.len(),
{
    if s.len() == 0 {
        0
    } else {
        10 * digits_value(s.drop_last()) + (s.last() as int - '0' as int)
    }
}

/// Whether every character of `s` is one of `'0'` to `'9'`.
pub open spec fn all_digit_chars(s: Seq<char>) -> bool {
    forall|i: int| 0 <= i < s.len() ==> '0' as int <= #[trigger] s[i] as int <= '9' as int
}

/// The digit characters are the standard ones: digit `d` is written as the
/// character `'0' + d`.
pub proof fn lemma_digit_char_codes(d: int)
    requires
        0 <= d < 10,
    ensures
        digit_char(d) as int == '0' as int + d,
{
}

/// The decimal digits of `n` are digit characters that spell `n` back, at
/// least one, with no leading zero unless `n` is 0.
pub proof fn lemma_decimal_digits_spell(n: nat)
    ensures
        decimal_digits(n).len() >= 1,
        all_digit_chars(decimal_digits(n)),
        digits_value(decimal_digits(n)) == n,
        decimal_digits(n)[0] == '0' ==> n == 0,
    decreases n,
{
    if n < 10 {
        lemma_digit_char_codes(n as int);
        let s = decimal_digits(n);
        assert(s.drop_last() =~= Seq::<char>::empty());
        assert(digits_value(Seq::<char>::empty()) == 0);
        assert(s.last() == digit_char(n as int));
        assert(digits_value(s) == 10 * digits_value(s.drop_last()) + (s.last() as int - '0' as int));
    } else {
        lemma_decimal_digits_spell(n / 10);
        lemma_digit_char_codes((n % 10) as int);
        let p = decimal_digits(n / 10);
        let s = decimal_digits(n);
        assert(s == p.push(digit_char((n % 10) as int)));
        assert(s.drop_last() =~= p);
        assert(s[0] == p[0]);
        assert(n == 10 * (n / 10) + n % 10);
        assert(s.last() == digit_char((n % 10) as int));
        assert(digits_value(s) == 10 * digits_value(s.drop_last()) + (s.last() as int - '0' as int));
    }
}

/// Different numbers have different decimal texts: the text of `a` spells
/// `a` back, its sign included.
pub proof fn lemma_decimal_text_injective(a: int, b: int)
    requires
        decimal_text(a) == decimal_text(b),
    ensures
        a == b,
{
    if a < 0 {
        lemma_decimal_digits_spell((-a) as nat);
    } else {
        lemma_decimal_digits_spell(a as nat);
    }
    if b < 0 {
        lemma_decimal_digits_spell((-b) as nat);
    } else {
        lemma_decimal_digits_spell(b as nat);
    }
    let ta = decimal_text(a);
    if a < 0 && b < 0 {
        assert(ta.subrange(1, ta.len() as int) =~= decimal_digits((-a) as nat));
        assert(ta.subrange(1, ta.len() as int) =~= decimal_digits((-b) as nat));
    } else if a < 0 {
        assert(ta[0] == '-');
        assert('0' as int <= decimal_digits(b as nat)[0] as int);
    } else if b < 0 {
        assert(ta[0] == '-');
        assert('0' as int <= decimal_digits(a as nat)[0] as int);
    }
}

proof fn lemma_decimal_text_no_underscore(v: int)
    ensures
        forall|i: int| 0 <= i < decimal_text(v).len() ==> #[trigger] decimal_text(v)[i] != '_',
        forall|i: int| 0 <= i < decimal_text(v).len() ==> #[trigger] decimal_text(v)[i] != '.',
{
    if v < 0 {
        lemma_decimal_digits_spell((-v) as nat);
        let d = decimal_digits((-v) as nat);
        assert forall|i: int| 0 <= i < decimal_text(v).len() implies #[trigger] decimal_text(v)[i] != '_'
            && decimal_text(v)[i] != '.' by {
            if i > 0 {
                assert(decimal_text(v)[i] == d[i - 1]);
            }
        }
    } else {
        lemma_decimal_digits_spell(v as nat);
    }
}

proof fn lemma_split_at_separator(a: Seq<char>, r1: Seq<char>, b: Seq<char>, r2: Seq<char>, sep: char)
    requires
        a + seq![sep] + r1 == b + seq![sep] + r2,
        forall|i: int| 0 <= i < a.len() ==> #[trigger] a[i] != sep,
        forall|i: int| 0 <= i < b.len() ==> #[trigger] b[i] != sep,
    ensures
        a == b,
        r1 == r2,
{
    let l = a + seq![sep] + r1;
    let m = b + seq![sep] + r2;
    if a.len() < b.len() {
        assert(l[a.len() as int] == sep);
        assert(m[a.len() as int] == b[a.len() as int]);
    } else if b.len() < a.len() {
        assert(m[b.len() as int] == sep);
        assert(l[b.len() as int] == a[b.len() as int]);
    }
    assert(a =~= l.subrange(0, a.len() as int));
    assert(b =~= m.subrange(0, b.len() as int));
    assert(r1 =~= l.subrange(a.len() as int + 1, l.len() as int));
    assert(r2 =~= m.subrange(b.len() as int + 1, m.len() as int));
}

/// Different chunks are saved in different files: the file name of a
/// chunk spells its position back.
pub proof fn lemma_chunk_file_names_distinct(x1: i32, y1: i32, z1: i32, x2: i32, y2: i32, z2: i32)
    requires
        chunk_file_name_text(x1, y1, z1) == chunk_file_name_text(x2, y2, z2),
    ensures
        x1 == x2 && y1 == y2 && z1 == z2,
{
    let (tx1, ty1, tz1) = (decimal_text(x1 as int), decimal_text(y1 as int), decimal_text(z1 as int));
    let (tx2, ty2, tz2) = (decimal_text(x2 as int), decimal_text(y2 as int), decimal_text(z2 as int));
    let ext = seq!['b', 'i', 'n'];
    lemma_decimal_text_no_underscore(x1 as int);
    lemma_decimal_text_no_underscore(y1 as int);
    lemma_decimal_text_no_underscore(z1 as int);
    lemma_decimal_text_no_underscore(x2 as int);
    lemma_decimal_text_no_underscore(y2 as int);
    lemma_decimal_text_no_underscore(z2 as int);
    let r1 = ty1 + seq!['_'] + tz1 + seq!['.'] + ext;
    let r2 = ty2 + seq!['_'] + tz2 + seq!['.'] + ext;
    assert(chunk_file_name_text(x1, y1, z1) =~= tx1 + seq!['_'] + r1);
    assert(chunk_file_name_text(x2, y2, z2) =~= tx2 + seq!['_'] + r2);
    lemma_split_at_separator(tx1, r1, tx2, r2, '_');
    let q1 = tz1 + seq!['.'] + ext;
    let q2 = tz2 + seq!['.'] + ext;
    assert(r1 =~= ty1 + seq!['_'] + q1);
    assert(r2 =~= ty2 + seq!['_'] + q2);
    lemma_split_at_separator(ty1, q1, ty2, q2, '_');
    assert(q1 =~= tz1 + seq!['.'] + ext);
    lemma_split_at_separator(tz1, ext, tz2, ext, '.');
    lemma_decimal_text_injective(x1 as int, x2 as int);
    lemma_decimal_text_injective(y1 as int, y2 as int);
    lemma_decimal_text_injective(z1 as int, z2 as int);
}

/// The one-character text of decimal digit `d`.
fn digit_text(d: u32) -> (r: &'static str)
    requires
        d < 10,
    ensures
        r@ == seq![digit_char(d as int)],
{
    if d == 0 {
        proof {
            reveal_strlit("0");
        }
        "0"
    } else if d == 1 {
        proof {
            reveal_strlit("1");
        }
        "1"
    } else if d == 2 {
        proof {
            reveal_strlit("2");
        }
        "2"
    } else if d == 3 {
        proof {
            reveal_strlit("3");
        }
        "3"
    } else if d == 4 {
        proof {
            reveal_strlit("4");
        }
        "4"
    } else if d == 5 {
        proof {
            reveal_strlit("5");
        }
        "5"
    } else if d == 6 {
        proof {
            reveal_strlit("6");
        }
        "6"
    } else if d == 7 {
        proof {
            reveal_strlit("7");
        }
        "7"
    } else if d == 8 {
        proof {
            reveal_strlit("8");
        }
        "8"
    } else {
        proof {
            reveal_strlit("9");
        }
        "9"
    }
}

/// Append the decimal digits of `n` to `out`.
fn append_decimal(out: &mut String, n: u32)
    ensures
        final(out)@ == old(out)@ + decimal_digits(n as nat),
    decreases n,
{
    if n >= 10 {
        append_decimal(out, n / 10);
    }
    out.append(digit_text(n % 10));
    proof {
        if n >= 10 {
            assert(old(out)@ + decimal_digits((n / 10) as nat) + seq![digit_char((n % 10) as int)]
                =~= old(out)@ + decimal_digits((n / 10) as nat).push(digit_char((n % 10) as int)));
        } else {
            assert(n % 10 == n);
        }
    }
}

/// Append the decimal text of `v` to `out`, with a leading minus sign when
/// `v` is negative.
fn append_i32(out: &mut String, v: i32)
    ensures
        final(out)@ == old(out)@ + decimal_text(v as int),
{
    if v < 0 {
        proof {
            reveal_strlit("-");
        }
        out.append("-");
        let magnitude: u32 = (0i64 - v as i64) as u32;
        append_decimal(out, magnitude);
        assert(final(out)@ =~= old(out)@ + (seq!['-'] + decimal_digits((-v) as nat)));
    } else {
        append_decimal(out, v as u32);
    }
}

/// The name of the file a chunk at `pos` is saved in: `"{x}_{y}_{z}.bin"`
/// with the coordinates in decimal.
pub fn chunk_file_name(pos: ChunkPos) -> (r: String)
    ensures
        r@ == chunk_file_name_text(pos.x, pos.y, pos.z),
{
    proof {
        reveal_strlit("_");
        reveal_strlit(".bin");
    }
    let mut name = String::new();
    append_i32(&mut name, pos.x);
    name.append("_");
    append_i32(&mut name, pos.y);
    name.append("_");
    append_i32(&mut name, pos.z);
    name.append(".bin");
    assert(name@ =~= chunk_file_name_text(pos.x, pos.y, pos.z));
    name
}

// ── chunk records ────────────────────────────────────────────────────────

/// The kind with code `b`, for `b < BLOCK_KIND_COUNT`.
pub open spec fn kind_of_code(b: u8) -> BlockKind {
    if b == 0 {
        BlockKind::Air
    } else if b == 1 {
        BlockKind::Stone
    } else if b == 2 {
        BlockKind::Dirt
    } else if b == 3 {
        BlockKind::Grass
    } else if b == 4 {
        BlockKind::Sand
    } else if b == 5 {
        BlockKind::Water
    } else if b == 6 {
        BlockKind::Wood
    } else if b == 7 {
        BlockKind::Leaves
    } else if b == 8 {
        BlockKind::Bedrock
    } else if b == 9 {
        BlockKind::CoalOre
    } else if b == 10 {
        BlockKind::IronOre
    } else {
        BlockKind::DiamondOre
    }
}

/// The kind codes of a sequence of blocks.
pub open spec fn block_codes(cells: Seq<Block>) -> Seq<u8> {
    Seq::new(cells.len(), |i: int| kind_code(cells[i].kind))
}

/// Whether every byte is the code of a block kind.
pub open spec fn codes_valid(codes: Seq<u8>) -> bool {
    forall|i: int| 0 <= i < codes.len() ==> codes[i] < BLOCK_KIND_COUNT
}

/// The blocks whose kinds have the given codes.
pub open spec fn blocks_of_codes(codes: Seq<u8>) -> Seq<Block> {
    Seq::new(codes.len(), |i: int| Block { kind: kind_of_code(codes[i]) })
}

/// The saved form of a chunk: its position and one kind code per cell.
pub struct ChunkData {
    pub position: [i32; 3],
    pub blocks: Vec<u8>,
}

impl ChunkData {
    /// The record of a chunk: its position and the code of every cell.
    pub fn from_chunk(chunk: &Chunk) -> (r: ChunkData)
        ensures
            r.position[0] == chunk.position.x,
            r.position[1] == chunk.position.y,
            r.position[2] == chunk.position.z,
            r.blocks@ == block_codes(chunk.blocks@),
    {
        let mut blocks: Vec<u8> = Vec::new();
        let mut i: usize = 0;
        while i < chunk.blocks.len()
            invariant
                0 <= i <= chunk.blocks@.len(),
                blocks@ == block_codes(chunk.blocks@.subrange(0, i as int)),
            decreases chunk.blocks@.len() - i,
        {
            blocks.push(chunk.blocks[i].kind.to_u8());
            i = i + 1;
            assert(blocks@ =~= block_codes(chunk.blocks@.subrange(0, i as int)));
        }
        assert(chunk.blocks@.subrange(0, i as int) =~= chunk.blocks@);
        ChunkData { position: [chunk.position.x, chunk.position.y, chunk.position.z], blocks }
    }

    /// The chunk this record describes: `None` when the record does not
    /// hold one code per cell, or holds a byte that is no kind's code.
    pub fn to_chunk(&self) -> (r: Option<Chunk>)
        ensures
            r is Some <==> (self.blocks@.len() == CHUNK_VOLUME && codes_valid(self.blocks@)),
            r matches Some(c) ==> {
                &&& c.wf()
                &&& c.position == ChunkPos {
                    x: self.position[0],
                    y: self.position[1],
                    z: self.position[2],
                }
                &&& c.blocks@ == blocks_of_codes(self.blocks@)
                &&& c.needs_remesh
            },
    {
        if self.blocks.len() != CHUNK_VOLUME {
            return None;
        }
        let mut blocks: Vec<Block> = Vec::new();
        let mut i: usize = 0;
        while i < self.blocks.len()
            invariant
                0 <= i <= self.blocks@.len(),
                codes_valid(self.blocks@.subrange(0, i as int)),
                blocks@ == blocks_of_codes(self.blocks@.subrange(0, i as int)),
            decreases self.blocks@.len() - i,
        {
            let kind_byte = self.blocks[i];
            match BlockKind::try_from_u8(kind_byte) {
                Ok(kind) => {
                    blocks.push(Block { kind });
                    proof {
                        lemma_kind_of_code(kind, kind_byte);
                    }
                },
                Err(_) => {
                    assert(!codes_valid(self.blocks@)) by {
                        assert(self.blocks@[i as int] == kind_byte);
                    }
                    return None;
                },
            }
            i = i + 1;
            assert(blocks@ =~= blocks_of_codes(self.blocks@.subrange(0, i as int)));
            assert forall|j: int| 0 <= j < i implies self.blocks@.subrange(0, i as int)[j]
                < BLOCK_KIND_COUNT by {
                if j < i - 1 {
                    assert(self.blocks@.subrange(0, i as int)[j] == self.blocks@.subrange(
                        0,
                        i - 1,
                    )[j]);
                }
            }
        }
        assert(self.blocks@.subrange(0, i as int) =~= self.blocks@);
        Some(Chunk::new(ChunkPos::new(self.position[0], self.position[1], self.position[2]), blocks))
    }

    /// The bytes of this record as it is saved.
    pub fn to_bytes(&self) -> (r: Vec<u8>)
        ensures
            r@ == record_bytes(self.position[0], self.position[1], self.position[2], self.blocks@),
    {
        match serialize_record(self.position, &self.blocks) {
            Some(bytes) => bytes,
            None => {
                proof {
                    assert(false);
                }
                Vec::new()
            },
        }
    }

    /// The record that `bytes` start with; `None` when they hold none.
    pub fn from_bytes(bytes: &[u8]) -> (r: Option<ChunkData>)
        ensures
            r is Some <==> record_parses(bytes@),
            r matches Some(d) ==> {
                &&& d.position[0] == u32_at(bytes@, 0) as i32
                &&& d.position[1] == u32_at(bytes@, 4) as i32
                &&& d.position[2] == u32_at(bytes@, 8) as i32
                &&& d.blocks@ == record_blocks(bytes@)
            },
    {
        match deserialize_record(bytes) {
            Some((position, blocks)) => Some(ChunkData { position, blocks }),
            None => None,
        }
    }
}

proof fn lemma_kind_of_code(k: BlockKind, b: u8)
    requires
        kind_code(k) == b,
    ensures
        kind_of_code(b) == k,
{
}

/// The bytes a chunk is saved as.
pub open spec fn chunk_bytes(c: Chunk) -> Seq<u8> {
    record_bytes(c.position.x, c.position.y, c.position.z, block_codes(c.blocks@))
}

/// The bytes of `chunk` as it is saved.
pub fn encode_chunk(chunk: &Chunk) -> (r: Vec<u8>)
    ensures
        r@ == chunk_bytes(*chunk),
{
    ChunkData::from_chunk(chunk).to_bytes()
}

/// The chunk stored at the start of `bytes`: `None` when they hold no whole
/// record, or a record that is not one valid code per cell.
pub fn decode_chunk(bytes: &[u8]) -> (r: Option<Chunk>)
    ensures
        r is Some <==> (record_parses(bytes@) && record_blocks(bytes@).len() == CHUNK_VOLUME
            && codes_valid(record_blocks(bytes@))),
        r matches Some(c) ==> {
            &&& c.wf()
            &&& c.position == ChunkPos {
                x: u32_at(bytes@, 0) as i32,
                y: u32_at(bytes@, 4) as i32,
                z: u32_at(bytes@, 8) as i32,
            }
            &&& c.blocks@ == blocks_of_codes(record_blocks(bytes@))
            &&& c.needs_remesh
        },
{
    match ChunkData::from_bytes(bytes) {
        Some(data) => data.to_chunk(),
        None => None,
    }
}

proof fn lemma_u32_le_round_trip(v: u32)
    ensures
        u32_at(le_bytes_u32(v), 0) == v,
{
    let s = le_bytes_u32(v);
    let b0 = (v & 0xff) as u8;
    let b1 = ((v >> 8u32) & 0xff) as u8;
    let b2 = ((v >> 16u32) & 0xff) as u8;
    let b3 = ((v >> 24u32) & 0xff) as u8;
    assert(s[0] == b0 && s[1] == b1 && s[2] == b2 && s[3] == b3);
    assert((b0 as u32) | ((b1 as u32) << 8u32) | ((b2 as u32) << 16u32) | ((b3 as u32) << 24u32) == v)
        by (bit_vector)
        requires
            b0 == (v & 0xff) as u8,
            b1 == ((v >> 8u32) & 0xff) as u8,
            b2 == ((v >> 16u32) & 0xff) as u8,
            b3 == ((v >> 24u32) & 0xff) as u8,
    ;
}

proof fn lemma_u32_at_shift(s: Seq<u8>, t: Seq<u8>, at: int)
    requires
        0 <= at,
        at + 4 <= s.len(),
        t.len() >= 4,
        forall|i: int| 0 <= i < 4 ==> s[at + i] == t[i],
    ensures
        u32_at(s, at) == u32_at(t, 0),
{
    assert(s[at] == t[0] && s[at + 1] == t[1] && s[at + 2] == t[2] && s[at + 3] == t[3]);
}

proof fn lemma_u64_le_round_trip(v: u64)
    ensures
        u64_at(le_bytes_u64(v), 0) == v,
{
    let lo = (v & 0xffff_ffff) as u32;
    let hi = (v >> 32u64) as u32;
    let s = le_bytes_u64(v);
    lemma_u32_le_round_trip(lo);
    lemma_u32_le_round_trip(hi);
    lemma_u32_at_shift(s, le_bytes_u32(lo), 0);
    lemma_u32_at_shift(s, le_bytes_u32(hi), 4);
    assert(((lo as u64) | ((hi as u64) << 32u64)) == v) by (bit_vector)
        requires
            lo == (v & 0xffff_ffff) as u32,
            hi == (v >> 32u64) as u32,
    ;
}

proof fn lemma_i32_u32_round_trip(v: i32)
    ensures
        (v as u32) as i32 == v,
{
    assert((v as u32) as i32 == v) by (bit_vector);
}

/// Reading a saved record back gives the position and block bytes that
/// were written, whatever follows the record.
pub proof fn lemma_record_round_trip(x: i32, y: i32, z: i32, blocks: Seq<u8>, trailing: Seq<u8>)
    requires
        blocks.len() <= u64::MAX,
    ensures
        ({
            let s = record_bytes(x, y, z, blocks) + trailing;
            &&& record_parses(s)
            &&& u32_at(s, 0) as i32 == x
            &&& u32_at(s, 4) as i32 == y
            &&& u32_at(s, 8) as i32 == z
            &&& record_blocks(s) == blocks
        }),
{
    let s = record_bytes(x, y, z, blocks) + trailing;
    let n = blocks.len() as u64;
    assert(s.len() == 20 + blocks.len() + trailing.len());
    lemma_u32_le_round_trip(x as u32);
    lemma_u32_le_round_trip(y as u32);
    lemma_u32_le_round_trip(z as u32);
    lemma_u64_le_round_trip(n);
    lemma_i32_u32_round_trip(x);
    lemma_i32_u32_round_trip(y);
    lemma_i32_u32_round_trip(z);
    lemma_u32_at_shift(s, le_bytes_u32(x as u32), 0);
    lemma_u32_at_shift(s, le_bytes_u32(y as u32), 4);
    lemma_u32_at_shift(s, le_bytes_u32(z as u32), 8);
    let l = le_bytes_u64(n);
    assert(u64_at(s, 12) == u64_at(l, 0)) by {
        lemma_u32_at_shift(s, l, 12);
        lemma_u32_at_shift(s, l.subrange(4, 8), 16);
        lemma_u32_at_shift(l, l.subrange(4, 8), 4);
    }
    assert(record_blocks(s) =~= blocks);
}

/// Decoding the codes of a sequence of blocks gives the blocks back, and
/// those codes are all valid.
pub proof fn lemma_codes_round_trip(cells: Seq<Block>)
    ensures
        codes_valid(block_codes(cells)),
        blocks_of_codes(block_codes(cells)) == cells,
{
    assert forall|i: int| 0 <= i < cells.len() implies blocks_of_codes(block_codes(cells))[i]
        == cells[i] by {
        lemma_kind_of_code(cells[i].kind, kind_code(cells[i].kind));
    }
    assert(blocks_of_codes(block_codes(cells)) =~= cells);
}

/// Saving a well-formed chunk and loading the saved bytes (with anything
/// after them) gives back a chunk with the same position and the same
/// blocks.
pub proof fn lemma_save_load_round_trip(c: Chunk, trailing: Seq<u8>)
    requires
        c.wf(),
    ensures
        ({
            let s = chunk_bytes(c) + trailing;
            &&& record_parses(s)
            &&& record_blocks(s).len() == CHUNK_VOLUME
            &&& codes_valid(record_blocks(s))
            &&& (ChunkPos {
                x: u32_at(s, 0) as i32,
                y: u32_at(s, 4) as i32,
                z: u32_at(s, 8) as i32,
            }) == c.position
            &&& blocks_of_codes(record_blocks(s)) == c.blocks@
        }),
{
    lemma_record_round_trip(c.position.x, c.position.y, c.position.z, block_codes(c.blocks@), trailing);
    lemma_codes_round_trip(c.blocks@);
}

} // verus!
