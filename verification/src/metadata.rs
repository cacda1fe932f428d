//! Stream metadata: the prelude and metadata block at the head of every
//! stream, its version-dependent layout, and its encoder.

use vstd::prelude::*;
use vstd::arithmetic::mul::lemma_mul_inequality;
use crate::error::DbnError;
use crate::wire::{le_bytes, le_nat, lemma_le_cast_u32, lemma_le_cast_u64, lemma_le_nat_bound,
    lemma_le_value, lemma_pow256_values, push_bytes, read_le, write_le};

verus! {

/// The highest format version this decoder understands.
pub const DBN_VERSION: u8 = 2;

/// The byte length of the fixed portion of the metadata block.
pub const METADATA_FIXED_LEN: usize = 56;

/// The sentinel stored in the record-count field when no count is known.
pub const NULL_RECORD_COUNT: u64 = 0xffffffffffffffff;

/// Schema identifier: market-by-order.
pub const SCHEMA_MBO: u16 = 0;

/// Schema identifier: second aggregates.
pub const SCHEMA_OHLCV_1S: u16 = 5;

/// Schema identifier: minute aggregates.
pub const SCHEMA_OHLCV_1M: u16 = 6;

/// Schema identifier: hour aggregates.
pub const SCHEMA_OHLCV_1H: u16 = 7;

/// Schema identifier: day aggregates.
pub const SCHEMA_OHLCV_1D: u16 = 8;

/// Schema identifier: statistics.
pub const SCHEMA_STATISTICS: u16 = 10;

/// Does `b` begin with the stream magic?
pub open spec fn magic_ok(b: Seq<u8>) -> bool
    recommends
        b.len() >= 3,
{
    b[0] == 0x44u8 && b[1] == 0x42u8 && b[2] == 0x4eu8
}

/// The fixed width of one symbol entry, by format version: older streams
/// used a narrower symbol field.
pub open spec fn sym_width(version: u8) -> nat {
    if version <= 1 {
        22
    } else {
        71
    }
}

/// The concatenation of a sequence of byte strings.
pub open spec fn concat_bytes(ss: Seq<Seq<u8>>) -> Seq<u8>
    decreases ss.len(),
{
    if ss.len() == 0 {
        Seq::empty()
    } else {
        ss[0] + concat_bytes(ss.skip(1))
    }
}

pub proof fn lemma_concat_bytes_push(ss: Seq<Seq<u8>>, x: Seq<u8>)
    ensures
        concat_bytes(ss.push(x)) == concat_bytes(ss) + x,
    decreases ss.len(),
{
    if ss.len() == 0 {
        assert(ss.push(x).skip(1) =~= Seq::<Seq<u8>>::empty());
        assert(concat_bytes(Seq::<Seq<u8>>::empty()) == Seq::<u8>::empty());
        assert(concat_bytes(ss.push(x)) =~= concat_bytes(ss) + x);
    } else {
        assert(ss.push(x).skip(1) =~= ss.skip(1).push(x));
        lemma_concat_bytes_push(ss.skip(1), x);
        assert(ss.push(x)[0] == ss[0]);
        assert(concat_bytes(ss.push(x)) =~= concat_bytes(ss) + x);
    }
}

/// Concatenating strings of one fixed width `w` gives a string of length
/// `ss.len() * w`.
pub proof fn lemma_concat_bytes_len(ss: Seq<Seq<u8>>, w: nat)
    requires
        forall|i: int| 0 <= i < ss.len() ==> (#[trigger] ss[i]).len() == w,
    ensures
        concat_bytes(ss).len() == ss.len() * w,
    decreases ss.len(),
{
    if ss.len() == 0 {
        assert(ss.len() * w == 0) by (nonlinear_arith)
            requires
                ss.len() == 0,
        ;
    } else {
        let rest = ss.skip(1);
        lemma_concat_bytes_len(rest, w);
        assert(w + rest.len() * w == ss.len() * w) by (nonlinear_arith)
            requires
                rest.len() + 1 == ss.len(),
        ;
    }
}

/// Element `i` of a fixed-width concatenation can be read back at its own
/// offset.
pub proof fn lemma_concat_bytes_index(ss: Seq<Seq<u8>>, w: nat, i: int)
    requires
        forall|j: int| 0 <= j < ss.len() ==> (#[trigger] ss[j]).len() == w,
        0 <= i < ss.len(),
    ensures
        i * w >= 0,
        i * w + w <= concat_bytes(ss).len(),
        concat_bytes(ss).subrange(i * w, i * w + w as int) == ss[i],
    decreases i,
{
    lemma_concat_bytes_len(ss, w);
    assert(0 <= i * w && (i + 1) * w <= ss.len() * w && (i + 1) * w == i * w + w) by (
    nonlinear_arith)
        requires
            0 <= i < ss.len(),
    ;
    if i == 0 {
        assert(i * w == 0) by (nonlinear_arith)
            requires
                i == 0,
        ;
        assert(concat_bytes(ss).subrange(0, w as int) =~= ss[0]);
    } else {
        let rest = ss.skip(1);
        lemma_concat_bytes_index(rest, w, i - 1);
        assert((i - 1) * w == i * w - w) by (nonlinear_arith);
        assert(concat_bytes(ss).subrange(i * w, i * w + w as int) =~= concat_bytes(
            rest,
        ).subrange((i - 1) * w, (i - 1) * w + w as int));
        assert(rest[i - 1] == ss[i]);
    }
}

/// The mathematical content of a stream's metadata.
pub struct MetadataView {
    /// The format version the stream declared.
    pub version: u8,
    /// The sixteen-byte dataset identifier.
    pub dataset: Seq<u8>,
    /// The schema identifier of the stream's records.
    pub schema: u16,
    /// The start of the stream's time range.
    pub start: u64,
    /// The end of the stream's time range.
    pub end: u64,
    /// The record limit the stream was produced with.
    pub limit: u64,
    /// An advisory count of the records in the stream, when known.
    pub record_count: Option<u64>,
    /// The symbology type of the input symbols.
    pub stype_in: u8,
    /// The symbology type of the output symbols.
    pub stype_out: u8,
    /// Whether every record carries one extra trailing timestamp field.
    pub ts_out: bool,
    /// The stream's symbol list, each of the version's fixed width.
    pub symbols: Seq<Seq<u8>>,
}

impl MetadataView {
    /// A metadata value the encoder can represent exactly.
    pub open spec fn wf(self) -> bool {
        &&& self.version <= 2
        &&& self.dataset.len() == 16
        &&& (self.record_count matches Some(c) ==> c != 0xffffffffffffffffu64)
        &&& (forall|i: int|
            0 <= i < self.symbols.len() ==> (#[trigger] self.symbols[i]).len() == sym_width(
                self.version,
            ))
        &&& 60 + self.symbols.len() * sym_width(self.version) <= 0xffffffff
    }

    /// The raw on-wire value of the record-count field.
    pub open spec fn record_count_raw(self) -> u64 {
        match self.record_count {
            Some(c) => c,
            None => 0xffffffffffffffffu64,
        }
    }

    /// The byte length of the metadata block that follows the prelude.
    pub open spec fn block_len(self) -> nat {
        (60 + self.symbols.len() * sym_width(self.version)) as nat
    }

    /// The metadata block's bytes.
    pub open spec fn block_wire(self) -> Seq<u8> {
        self.dataset + le_bytes(self.schema as nat, 2) + le_bytes(self.start as nat, 8)
            + le_bytes(self.end as nat, 8) + le_bytes(self.limit as nat, 8) + le_bytes(
            self.record_count_raw() as nat,
            8,
        ) + seq![
            self.stype_in,
            self.stype_out,
            (if self.ts_out {
                1u8
            } else {
                0u8
            }),
            0u8,
            0u8,
            0u8,
        ] + le_bytes(self.symbols.len(), 4) + concat_bytes(self.symbols)
    }

    /// The stream head: magic, version, block length, then the block.
    pub open spec fn wire_spec(self) -> Seq<u8> {
        seq![0x44u8, 0x42u8, 0x4eu8, self.version] + le_bytes(self.block_len(), 4)
            + self.block_wire()
    }
}

/// The layout of the metadata block under a given version, applied to the
/// block's bytes. `None` when the symbol section overruns the block.
pub open spec fn parse_block(version: u8, block: Seq<u8>) -> Option<MetadataView>
    recommends
        block.len() >= 56,
{
    let raw = le_nat(block.subrange(42, 50));
    let base = MetadataView {
        version,
        dataset: block.subrange(0, 16),
        schema: le_nat(block.subrange(16, 18)) as u16,
        start: le_nat(block.subrange(18, 26)) as u64,
        end: le_nat(block.subrange(26, 34)) as u64,
        limit: le_nat(block.subrange(34, 42)) as u64,
        record_count: if raw == 0xffffffffffffffff {
            None
        } else {
            Some(raw as u64)
        },
        stype_in: block[50],
        stype_out: block[51],
        ts_out: block[52] != 0,
        symbols: Seq::empty(),
    };
    if block.len() < 60 {
        Some(base)
    } else {
        let count = le_nat(block.subrange(56, 60));
        let w = sym_width(version);
        if 60 + count * w <= block.len() {
            Some(
                MetadataView {
                    symbols: Seq::new(
                        count,
                        |i: int| block.subrange(60 + i * w, 60 + i * w + w as int),
                    ),
                    ..base
                },
            )
        } else {
            None
        }
    }
}

/// The byte length of a stream's head: the eight-byte prelude plus the
/// declared metadata block.
pub open spec fn metadata_head_len(rem: Seq<u8>) -> nat
    recommends
        rem.len() >= 8,
{
    8 + le_nat(rem.subrange(4, 8))
}

/// Does `rem` begin with a complete, valid stream head: correct magic, a
/// version this decoder understands, a block at least the fixed portion
/// long, all of it present, and a symbol section that fits?
pub open spec fn metadata_head_ok(rem: Seq<u8>) -> bool {
    &&& rem.len() >= 8
    &&& magic_ok(rem)
    &&& rem[3] <= 2
    &&& le_nat(rem.subrange(4, 8)) >= 56
    &&& rem.len() >= metadata_head_len(rem)
    &&& parse_block(rem[3], rem.subrange(8, metadata_head_len(rem) as int)) is Some
}

/// The metadata carried by a valid stream head.
pub open spec fn metadata_head(rem: Seq<u8>) -> MetadataView
    recommends
        metadata_head_ok(rem),
{
    parse_block(rem[3], rem.subrange(8, metadata_head_len(rem) as int)).unwrap()
}

/// A stream's metadata: produced once when the stream is opened, immutable
/// for the decoder's lifetime.
#[derive(Debug, Clone, PartialEq, Eq)]
pub struct Metadata {
    /// The format version the stream declared.
    pub version: u8,
    /// The sixteen-byte dataset identifier.
    pub dataset: Vec<u8>,
    /// The schema identifier of the stream's records.
    pub schema: u16,
    /// The start of the stream's time range.
    pub start: u64,
    /// The end of the stream's time range.
    pub end: u64,
    /// The record limit the stream was produced with.
    pub limit: u64,
    /// An advisory count of the records in the stream, when known.
    pub record_count: Option<u64>,
    /// The symbology type of the input symbols.
    pub stype_in: u8,
    /// The symbology type of the output symbols.
    pub stype_out: u8,
    /// Whether every record carries one extra trailing timestamp field.
    pub ts_out: bool,
    /// The stream's symbol list, each of the version's fixed width.
    pub symbols: Vec<Vec<u8>>,
}

impl View for Metadata {
    type V = MetadataView;

    open spec fn view(&self) -> MetadataView {
        MetadataView {
            version: self.version,
            dataset: self.dataset@,
            schema: self.schema,
            start: self.start,
            end: self.end,
            limit: self.limit,
            record_count: self.record_count,
            stype_in: self.stype_in,
            stype_out: self.stype_out,
            ts_out: self.ts_out,
            symbols: Seq::new(self.symbols@.len(), |i: int| self.symbols@[i]@),
        }
    }
}

impl Metadata {
    /// Appends the metadata's bytes — prelude and block — to `out`.
    #[verifier::rlimit(100)]
    pub fn encode_to(&self, out: &mut Vec<u8>)
        requires
            self@.wf(),
        ensures
            final(out)@ == old(out)@ + self@.wire_spec(),
    {
        out.push(0x44);
        out.push(0x42);
        out.push(0x4e);
        out.push(self.version);
        let w = sym_width_of(self.version);
        let count = self.symbols.len();
        proof {
            assert(count * w == self@.symbols.len() * sym_width(self.version)
                && count * w <= 0xffffffff) by (nonlinear_arith)
                requires
                    count == self@.symbols.len(),
                    w == sym_width(self.version),
                    60 + self@.symbols.len() * sym_width(self.version) <= 0xffffffff,
            ;
        }
        let block_len: u64 = 60 + (count as u64) * (w as u64);
        write_le(out, block_len, 4);
        push_bytes(out, self.dataset.as_slice());
        write_le(out, self.schema as u64, 2);
        write_le(out, self.start, 8);
        write_le(out, self.end, 8);
        write_le(out, self.limit, 8);
        let raw = match self.record_count {
            Some(c) => c,
            None => NULL_RECORD_COUNT,
        };
        write_le(out, raw, 8);
        out.push(self.stype_in);
        out.push(self.stype_out);
        out.push(
            if self.ts_out {
                1
            } else {
                0
            },
        );
        out.push(0);
        out.push(0);
        out.push(0);
        write_le(out, count as u64, 4);
        let ghost head = out@;
        let mut i: usize = 0;
        while i < count
            invariant
                i <= count,
                count == self.symbols@.len(),
                out@ == head + concat_bytes(self@.symbols.take(i as int)),
            decreases count - i,
        {
            let ghost pre = out@;
            push_bytes(out, self.symbols[i].as_slice());
            proof {
                lemma_concat_bytes_push(self@.symbols.take(i as int), self@.symbols[i as int]);
                assert(self@.symbols.take(i + 1) =~= self@.symbols.take(i as int).push(
                    self@.symbols[i as int],
                ));
                assert(out@ =~= head + concat_bytes(self@.symbols.take(i + 1)));
            }
            i = i + 1;
        }
        proof {
            assert(self@.symbols.take(count as int) =~= self@.symbols);
            assert(out@ =~= old(out)@ + self@.wire_spec());
        }
    }
}

/// A well-formed metadata value's bytes parse back to the value itself: the
/// prelude carries its version and block length, and the block parses to the
/// same metadata under that version's layout.
pub proof fn lemma_metadata_roundtrip(v: MetadataView)
    requires
        v.wf(),
    ensures
        v.wire_spec().len() == 8 + v.block_len(),
        magic_ok(v.wire_spec()),
        v.wire_spec()[3] == v.version,
        le_nat(v.wire_spec().subrange(4, 8)) == v.block_len(),
        v.wire_spec().subrange(8, 8 + v.block_len() as int) == v.block_wire(),
        v.block_wire().len() == v.block_len(),
        parse_block(v.version, v.block_wire()) == Some(v),
{
    let w = sym_width(v.version);
    let count = v.symbols.len();
    let b = v.block_wire();
    lemma_pow256_values();
    lemma_concat_bytes_len(v.symbols, w);
    lemma_le_value(v.schema as nat, 2);
    lemma_le_value(v.start as nat, 8);
    lemma_le_value(v.end as nat, 8);
    lemma_le_value(v.limit as nat, 8);
    lemma_le_value(v.record_count_raw() as nat, 8);
    lemma_le_value(count, 4);
    lemma_le_value(v.block_len(), 4);
    assert(b.len() == v.block_len());
    assert(v.wire_spec().len() == 8 + v.block_len());
    assert(v.wire_spec().subrange(4, 8) =~= le_bytes(v.block_len(), 4));
    assert(v.wire_spec().subrange(8, 8 + v.block_len() as int) =~= b);
    assert(b.subrange(0, 16) =~= v.dataset);
    assert(b.subrange(16, 18) =~= le_bytes(v.schema as nat, 2));
    assert(b.subrange(18, 26) =~= le_bytes(v.start as nat, 8));
    assert(b.subrange(26, 34) =~= le_bytes(v.end as nat, 8));
    assert(b.subrange(34, 42) =~= le_bytes(v.limit as nat, 8));
    assert(b.subrange(42, 50) =~= le_bytes(v.record_count_raw() as nat, 8));
    assert(b[50] == v.stype_in && b[51] == v.stype_out);
    assert(b[52] == (if v.ts_out {
        1u8
    } else {
        0u8
    }));
    assert(b.subrange(56, 60) =~= le_bytes(count, 4));
    let pm = parse_block(v.version, b);
    assert(60 + count * w <= b.len());
    assert(pm is Some);
    let p = pm.unwrap();
    assert forall|i: int| 0 <= i < count implies p.symbols[i] == v.symbols[i] by {
        lemma_concat_bytes_index(v.symbols, w, i);
        assert(b.subrange(60 + i * w, 60 + i * w + w as int) =~= concat_bytes(
            v.symbols,
        ).subrange(i * w, i * w + w as int));
    }
    assert(p.symbols =~= v.symbols);
    assert(p =~~= v) by {
        assert(p.dataset == v.dataset && p.schema == v.schema && p.start == v.start && p.end
            == v.end && p.limit == v.limit && p.record_count == v.record_count && p.stype_in
            == v.stype_in && p.stype_out == v.stype_out && p.ts_out == v.ts_out && p.version
            == v.version);
    }
}

/// The width of one symbol entry under `version`.
pub fn sym_width_of(version: u8) -> (w: usize)
    ensures
        w == sym_width(version),
{
    if version <= 1 {
        22
    } else {
        71
    }
}

/// Copies `buf[a..b]` into a fresh vector.
fn copy_range(buf: &[u8], a: usize, b: usize) -> (v: Vec<u8>)
    requires
        a <= b <= buf@.len(),
    ensures
        v@ == buf@.subrange(a as int, b as int),
{
    let mut v: Vec<u8> = Vec::new();
    let mut k: usize = a;
    while k < b
        invariant
            a <= k <= b <= buf@.len(),
            v@ == buf@.subrange(a as int, k as int),
        decreases b - k,
    {
        v.push(buf[k]);
        proof {
            assert(v@ =~= buf@.subrange(a as int, k + 1));
        }
        k = k + 1;
    }
    v
}

/// Parses the metadata block under `version`'s layout. The caller has
/// already validated the prelude: the magic, the version gate, and the
/// minimum block length.
pub fn parse_metadata_block(version: u8, block: &[u8]) -> (r: Result<Metadata, DbnError>)
    requires
        version <= 2,
        56 <= block@.len() <= 0xffffffff,
    ensures
        match r {
            Ok(m) => parse_block(version, block@) == Some(m@) && m@.wf(),
            Err(e) => e is Decode && parse_block(version, block@) is None && e.message_spec()
                == "Invalid DBN metadata. Symbol section shorter than symbol count."@,
        },
{
    proof {
        lemma_le_cast_u32(block@.subrange(16, 18));
        lemma_le_cast_u64(block@.subrange(18, 26));
        lemma_le_cast_u64(block@.subrange(26, 34));
        lemma_le_cast_u64(block@.subrange(34, 42));
        lemma_le_cast_u64(block@.subrange(42, 50));
    }
    let dataset = copy_range(block, 0, 16);
    let schema = read_le(block, 16, 2) as u16;
    let start = read_le(block, 18, 8);
    let end = read_le(block, 26, 8);
    let limit = read_le(block, 34, 8);
    let raw_count = read_le(block, 42, 8);
    let record_count = if raw_count == NULL_RECORD_COUNT {
        None
    } else {
        Some(raw_count)
    };
    let stype_in = block[50];
    let stype_out = block[51];
    let ts_out = block[52] != 0;
    let mut symbols: Vec<Vec<u8>> = Vec::new();
    if block.len() >= 60 {
        proof {
            lemma_le_cast_u32(block@.subrange(56, 60));
            lemma_le_nat_bound(block@.subrange(56, 60));
            lemma_pow256_values();
        }
        let count64 = read_le(block, 56, 4);
        let w = sym_width_of(version);
        proof {
            assert(count64 * (w as u64) < 0x10000000000) by (nonlinear_arith)
                requires
                    count64 < 0x100000000,
                    w <= 71,
            ;
        }
        let need: u64 = 60 + count64 * (w as u64);
        if need > block.len() as u64 {
            return Err(
                DbnError::Decode(
                    String::from_str(
                        "Invalid DBN metadata. Symbol section shorter than symbol count.",
                    ),
                ),
            );
        }
        let count = count64 as usize;
        let ghost spec_syms = Seq::new(
            count as nat,
            |i: int| block@.subrange(60 + i * sym_width(version), 60 + i * sym_width(version)
                + sym_width(version) as int),
        );
        let mut i: usize = 0;
        while i < count
            invariant
                i <= count,
                w == sym_width(version),
                60 + count * w <= block@.len(),
                block@.len() <= 0xffffffff,
                symbols@.len() == i,
                spec_syms.len() == count,
                forall|j: int|
                    0 <= j < count ==> #[trigger] spec_syms[j] == block@.subrange(
                        60 + j * sym_width(version),
                        60 + j * sym_width(version) + sym_width(version) as int,
                    ),
                forall|j: int| 0 <= j < i ==> #[trigger] symbols@[j]@ == spec_syms[j],
            decreases count - i,
        {
            proof {
                lemma_mul_inequality(i + 1 as int, count as int, w as int);
                assert((i + 1) * w == i * w + w) by (nonlinear_arith);
            }
            let s = 60 + i * w;
            symbols.push(copy_range(block, s, s + w));
            i = i + 1;
        }
        let m = Metadata {
            version,
            dataset,
            schema,
            start,
            end,
            limit,
            record_count,
            stype_in,
            stype_out,
            ts_out,
            symbols,
        };
        proof {
            assert(m@.symbols =~= spec_syms);
            let pm = parse_block(version, block@);
            let w_s = sym_width(version);
            let count_s = le_nat(block@.subrange(56, 60));
            assert(count_s == count64 as nat);
            assert(60 + count_s * w_s == need as nat);
            assert(pm is Some);
            let v = pm.unwrap();
            assert(v.symbols =~= spec_syms);
            assert(v.dataset == m@.dataset && v.schema == m@.schema && v.start == m@.start
                && v.end == m@.end && v.limit == m@.limit && v.record_count == m@.record_count
                && v.stype_in == m@.stype_in && v.stype_out == m@.stype_out && v.ts_out
                == m@.ts_out && v.version == m@.version);
            assert(pm == Some(m@));
            assert forall|i: int| 0 <= i < m@.symbols.len() implies (#[trigger] m@.symbols[i]).len()
                == w_s by {
                lemma_mul_inequality(i + 1 as int, count_s as int, w_s as int);
                assert((i + 1) * w_s == i * w_s + w_s) by (nonlinear_arith);
            }
            assert(60 + m@.symbols.len() * sym_width(version) <= 0xffffffff);
        }
        Ok(m)
    } else {
        let m = Metadata {
            version,
            dataset,
            schema,
            start,
            end,
            limit,
            record_count,
            stype_in,
            stype_out,
            ts_out,
            symbols,
        };
        proof {
            assert(m@.symbols =~= Seq::<Seq<u8>>::empty());
            assert(parse_block(version, block@) == Some(m@));
        }
        Ok(m)
    }
}

} // verus!
