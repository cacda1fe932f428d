//! Record layouts: the fixed header every record begins with, the closed set
//! of concrete record types, and the trailing-timestamp wrapper.

use vstd::prelude::*;
use crate::wire::{le_bytes, le_nat, lemma_le_bytes_len, lemma_le_bytes_of_le_nat,
    lemma_le_cast_u32, lemma_le_cast_u64, lemma_le_nat_bound, lemma_le_nat_of_le_bytes,
    lemma_le_value, lemma_pow256_values, pow256, read_le, write_le};

verus! {

/// The multiplier applied to a record's one-byte length prefix to obtain its
/// true byte length.
pub const LENGTH_MULTIPLIER: usize = 4;

/// The byte size of [`RecordHeader`] on the wire.
pub const RECORD_HEADER_LEN: usize = 16;

/// rtype tag of market-by-order records.
pub const RTYPE_MBO: u8 = 0xa0;

/// rtype tag of second-aggregate records.
pub const RTYPE_OHLCV_1S: u8 = 0x20;

/// rtype tag of minute-aggregate records.
pub const RTYPE_OHLCV_1M: u8 = 0x21;

/// rtype tag of hour-aggregate records.
pub const RTYPE_OHLCV_1H: u8 = 0x22;

/// rtype tag of day-aggregate records.
pub const RTYPE_OHLCV_1D: u8 = 0x23;

/// rtype tag of error records.
pub const RTYPE_ERROR: u8 = 0x15;

/// The true byte length a length prefix declares.
pub open spec fn rec_len(prefix: u8) -> nat {
    (prefix * 4) as nat
}

/// The fixed-size structure every record begins with.
#[derive(Clone, Copy, Debug, PartialEq, Eq, Structural)]
pub struct RecordHeader {
    /// The record's size on the wire, in units of [`LENGTH_MULTIPLIER`] bytes.
    pub length: u8,
    /// The tag selecting the record's concrete layout.
    pub rtype: u8,
    /// The publisher the record comes from.
    pub publisher_id: u16,
    /// The instrument the record is about.
    pub instrument_id: u32,
    /// The event timestamp.
    pub ts_event: u64,
}

impl RecordHeader {
    /// The header's bytes on the wire.
    pub open spec fn wire_spec(self) -> Seq<u8> {
        seq![self.length, self.rtype] + le_bytes(self.publisher_id as nat, 2) + le_bytes(
            self.instrument_id as nat,
            4,
        ) + le_bytes(self.ts_event as nat, 8)
    }

    /// The header read from the first bytes of a record.
    pub open spec fn parse_spec(b: Seq<u8>) -> RecordHeader
        recommends
            b.len() >= 16,
    {
        RecordHeader {
            length: b[0],
            rtype: b[1],
            publisher_id: le_nat(b.subrange(2, 4)) as u16,
            instrument_id: le_nat(b.subrange(4, 8)) as u32,
            ts_event: le_nat(b.subrange(8, 16)) as u64,
        }
    }

    /// A header for a record of type `T`, with the length field derived from
    /// `T`'s wire size.
    pub fn new<T: HasRType>(rtype: u8, publisher_id: u16, instrument_id: u32, ts_event: u64) -> (
        h: RecordHeader)
        ensures
            h.rtype == rtype,
            h.publisher_id == publisher_id,
            h.instrument_id == instrument_id,
            h.ts_event == ts_event,
            h.length as nat * 4 == T::size_spec(),
    {
        proof {
            T::lemma_size();
        }
        let length = (T::record_size_of() / LENGTH_MULTIPLIER) as u8;
        RecordHeader { length, rtype, publisher_id, instrument_id, ts_event }
    }

    /// The header's wire size is [`RECORD_HEADER_LEN`].
    pub proof fn lemma_wire_len(self)
        ensures
            self.wire_spec().len() == 16,
            self.wire_spec()[0] == self.length,
            self.wire_spec()[1] == self.rtype,
    {
        lemma_le_bytes_len(self.publisher_id as nat, 2);
        lemma_le_bytes_len(self.instrument_id as nat, 4);
        lemma_le_bytes_len(self.ts_event as nat, 8);
    }

    /// Parsing the header's own bytes recovers the header.
    pub proof fn lemma_parse_wire(self)
        ensures
            RecordHeader::parse_spec(self.wire_spec()) == self,
    {
        let w = self.wire_spec();
        self.lemma_wire_len();
        lemma_le_bytes_len(self.publisher_id as nat, 2);
        lemma_le_bytes_len(self.instrument_id as nat, 4);
        lemma_le_bytes_len(self.ts_event as nat, 8);
        assert(w.subrange(2, 4) =~= le_bytes(self.publisher_id as nat, 2));
        assert(w.subrange(4, 8) =~= le_bytes(self.instrument_id as nat, 4));
        assert(w.subrange(8, 16) =~= le_bytes(self.ts_event as nat, 8));
        assert(pow256(2) == 65536 && pow256(4) == 4294967296 && pow256(8)
            == 18446744073709551616) by {
            reveal_with_fuel(pow256, 9);
        }
        lemma_le_nat_of_le_bytes(self.publisher_id as nat, 2);
        lemma_le_nat_of_le_bytes(self.instrument_id as nat, 4);
        lemma_le_nat_of_le_bytes(self.ts_event as nat, 8);
    }

    /// A sixteen-byte string is recovered by re-encoding the header parsed
    /// from it.
    pub proof fn lemma_wire_parse(b: Seq<u8>)
        requires
            b.len() == 16,
        ensures
            RecordHeader::parse_spec(b).wire_spec() == b,
    {
        let h = RecordHeader::parse_spec(b);
        lemma_le_nat_bound(b.subrange(2, 4));
        lemma_le_nat_bound(b.subrange(4, 8));
        lemma_le_nat_bound(b.subrange(8, 16));
        assert(pow256(2) == 65536 && pow256(4) == 4294967296 && pow256(8)
            == 18446744073709551616) by {
            reveal_with_fuel(pow256, 9);
        }
        lemma_le_bytes_of_le_nat(b.subrange(2, 4));
        lemma_le_bytes_of_le_nat(b.subrange(4, 8));
        lemma_le_bytes_of_le_nat(b.subrange(8, 16));
        assert(h.wire_spec() =~= b);
    }

    /// Reads the header at the front of `buf`.
    pub fn parse_from(buf: &[u8]) -> (h: RecordHeader)
        requires
            buf@.len() >= 16,
        ensures
            h == RecordHeader::parse_spec(buf@),
    {
        proof {
            lemma_le_nat_bound(buf@.subrange(2, 4));
            lemma_le_nat_bound(buf@.subrange(4, 8));
            lemma_le_nat_bound(buf@.subrange(8, 16));
            assert(pow256(2) == 65536 && pow256(4) == 4294967296 && pow256(8)
                == 18446744073709551616) by {
                reveal_with_fuel(pow256, 9);
            }
        }
        RecordHeader {
            length: buf[0],
            rtype: buf[1],
            publisher_id: read_le(buf, 2, 2) as u16,
            instrument_id: read_le(buf, 4, 4) as u32,
            ts_event: read_le(buf, 8, 8),
        }
    }

    /// Appends the header's bytes to `out`.
    pub fn encode_to(&self, out: &mut Vec<u8>)
        ensures
            final(out)@ == old(out)@ + self.wire_spec(),
    {
        out.push(self.length);
        out.push(self.rtype);
        write_le(out, self.publisher_id as u64, 2);
        write_le(out, self.instrument_id as u64, 4);
        write_le(out, self.ts_event, 8);
        proof {
            assert(out@ =~= old(out)@ + self.wire_spec());
        }
    }
}

/// A concrete record layout, selected at run time by the rtype tag in the
/// record header. Every layout is a fixed number of bytes on the wire and
/// begins with a [`RecordHeader`].
pub trait HasRType: Sized {
    /// Does `rtype` select this layout?
    spec fn matches_rtype_spec(rtype: u8) -> bool;

    /// The layout's wire size in bytes.
    spec fn size_spec() -> nat;

    /// A self-consistent record: its header's length field covers exactly its
    /// own layout and its rtype selects that layout.
    spec fn wf(self) -> bool;

    /// The record's bytes on the wire.
    spec fn wire_spec(self) -> Seq<u8>;

    /// The record read from the front of `b`, if `b` is long enough and its
    /// rtype tag selects this layout; trailing bytes are ignored.
    spec fn parse_spec(b: Seq<u8>) -> Option<Self>;

    /// The record's header.
    spec fn header_spec(self) -> RecordHeader;

    /// Does `rtype` select this layout?
    fn matches_rtype(rtype: u8) -> (r: bool)
        ensures
            r == Self::matches_rtype_spec(rtype),
    ;

    /// The layout's wire size in bytes.
    fn record_size_of() -> (r: usize)
        ensures
            r == Self::size_spec(),
    ;

    /// The record's header.
    fn header(&self) -> (h: RecordHeader)
        ensures
            h == self.header_spec(),
    ;

    /// Reads a record of this layout from the front of `buf`.
    fn parse_from(buf: &[u8]) -> (r: Option<Self>)
        ensures
            r == Self::parse_spec(buf@),
    ;

    /// Appends the record's bytes to `out`.
    fn encode_to(&self, out: &mut Vec<u8>)
        ensures
            final(out)@ == old(out)@ + self.wire_spec(),
    ;

    /// The layout's size is at least a header, a whole number of length
    /// units, and small enough for a length prefix.
    proof fn lemma_size()
        ensures
            Self::size_spec() >= 16,
            Self::size_spec() % 4 == 0,
            Self::size_spec() <= 1020,
    ;

    /// Parsing succeeds exactly on byte strings long enough for the layout
    /// whose rtype tag selects it.
    proof fn lemma_parse_iff(b: Seq<u8>)
        ensures
            Self::parse_spec(b) is Some <==> (b.len() >= Self::size_spec()
                && Self::matches_rtype_spec(b[1])),
    ;

    /// A well-formed record's header is consistent with its own layout.
    proof fn lemma_wf(self)
        requires
            self.wf(),
        ensures
            self.header_spec().length as nat * 4 == Self::size_spec(),
            Self::matches_rtype_spec(self.header_spec().rtype),
    ;

    /// A record's bytes parse back to the record itself whenever its rtype
    /// tag selects its own layout.
    proof fn lemma_parse_of_wire(self)
        ensures
            self.wire_spec().len() == Self::size_spec(),
            self.wire_spec()[0] == self.header_spec().length,
            self.wire_spec()[1] == self.header_spec().rtype,
            Self::matches_rtype_spec(self.header_spec().rtype) ==> Self::parse_spec(
                self.wire_spec(),
            ) == Some(self),
    ;

    /// A parsed record re-encodes to exactly the bytes it was read from, and
    /// is well-formed exactly when those bytes were framed to its own size.
    proof fn lemma_wire_of_parse(b: Seq<u8>, r: Self)
        requires
            Self::parse_spec(b) == Some(r),
        ensures
            r.wire_spec() == b.take(Self::size_spec() as int),
            r.header_spec() == RecordHeader::parse_spec(b),
            r.wf() <==> r.header_spec().length as nat * 4 == Self::size_spec(),
    ;

    /// Parsing reads only the layout's own bytes: byte strings that agree on
    /// them parse alike.
    proof fn lemma_parse_stable(b: Seq<u8>, c: Seq<u8>)
        requires
            b.len() >= Self::size_spec(),
            c.len() >= Self::size_spec(),
            b.take(Self::size_spec() as int) == c.take(Self::size_spec() as int),
        ensures
            Self::parse_spec(b) == Self::parse_spec(c),
    ;
}

/// A record layout small enough to carry a trailing timestamp and still be
/// expressible by a length prefix.
pub trait WrappableRType: HasRType {
    proof fn lemma_wrappable()
        ensures
            Self::size_spec() <= 1012,
    ;
}

/// Two byte strings that agree on their first sixteen bytes parse to the same
/// header.
pub proof fn lemma_header_parse_prefix(b: Seq<u8>, c: Seq<u8>)
    requires
        b.len() >= 16,
        c.len() >= 16,
        b.take(16) == c.take(16),
    ensures
        RecordHeader::parse_spec(b) == RecordHeader::parse_spec(c),
{
    assert(forall|i: int| 0 <= i < 16 ==> b[i] == b.take(16)[i] && c[i] == c.take(16)[i]);
    assert(b.subrange(2, 4) =~= c.subrange(2, 4));
    assert(b.subrange(4, 8) =~= c.subrange(4, 8));
    assert(b.subrange(8, 16) =~= c.subrange(8, 16));
}

/// An aggregate (open/high/low/close/volume) record.
#[derive(Clone, Copy, Debug, PartialEq, Eq, Structural)]
pub struct OhlcvMsg {
    /// The common record header.
    pub hd: RecordHeader,
    /// The open price.
    pub open: u64,
    /// The high price.
    pub high: u64,
    /// The low price.
    pub low: u64,
    /// The close price.
    pub close: u64,
    /// The traded volume.
    pub volume: u64,
}

impl HasRType for OhlcvMsg {
    open spec fn matches_rtype_spec(rtype: u8) -> bool {
        rtype == RTYPE_OHLCV_1S || rtype == RTYPE_OHLCV_1M || rtype == RTYPE_OHLCV_1H || rtype
            == RTYPE_OHLCV_1D
    }

    open spec fn size_spec() -> nat {
        56
    }

    open spec fn wf(self) -> bool {
        self.hd.length as nat * 4 == 56 && Self::matches_rtype_spec(self.hd.rtype)
    }

    open spec fn wire_spec(self) -> Seq<u8> {
        self.hd.wire_spec() + le_bytes(self.open as nat, 8) + le_bytes(self.high as nat, 8)
            + le_bytes(self.low as nat, 8) + le_bytes(self.close as nat, 8) + le_bytes(
            self.volume as nat,
            8,
        )
    }

    open spec fn parse_spec(b: Seq<u8>) -> Option<OhlcvMsg> {
        if b.len() >= 56 && Self::matches_rtype_spec(b[1]) {
            Some(
                OhlcvMsg {
                    hd: RecordHeader::parse_spec(b),
                    open: le_nat(b.subrange(16, 24)) as u64,
                    high: le_nat(b.subrange(24, 32)) as u64,
                    low: le_nat(b.subrange(32, 40)) as u64,
                    close: le_nat(b.subrange(40, 48)) as u64,
                    volume: le_nat(b.subrange(48, 56)) as u64,
                },
            )
        } else {
            None
        }
    }

    open spec fn header_spec(self) -> RecordHeader {
        self.hd
    }

    fn matches_rtype(rtype: u8) -> (r: bool) {
        rtype == RTYPE_OHLCV_1S || rtype == RTYPE_OHLCV_1M || rtype == RTYPE_OHLCV_1H || rtype
            == RTYPE_OHLCV_1D
    }

    fn record_size_of() -> (r: usize) {
        56
    }

    fn header(&self) -> (h: RecordHeader) {
        self.hd
    }

    fn parse_from(buf: &[u8]) -> (r: Option<OhlcvMsg>) {
        if buf.len() >= 56 && Self::matches_rtype(buf[1]) {
            proof {
                lemma_le_cast_u64(buf@.subrange(16, 24));
                lemma_le_cast_u64(buf@.subrange(24, 32));
                lemma_le_cast_u64(buf@.subrange(32, 40));
                lemma_le_cast_u64(buf@.subrange(40, 48));
                lemma_le_cast_u64(buf@.subrange(48, 56));
            }
            Some(
                OhlcvMsg {
                    hd: RecordHeader::parse_from(buf),
                    open: read_le(buf, 16, 8),
                    high: read_le(buf, 24, 8),
                    low: read_le(buf, 32, 8),
                    close: read_le(buf, 40, 8),
                    volume: read_le(buf, 48, 8),
                },
            )
        } else {
            None
        }
    }

    fn encode_to(&self, out: &mut Vec<u8>) {
        self.hd.encode_to(out);
        write_le(out, self.open, 8);
        write_le(out, self.high, 8);
        write_le(out, self.low, 8);
        write_le(out, self.close, 8);
        write_le(out, self.volume, 8);
        proof {
            assert(out@ =~= old(out)@ + self.wire_spec());
        }
    }

    proof fn lemma_size() {
    }

    proof fn lemma_parse_iff(b: Seq<u8>) {
    }

    proof fn lemma_wf(self) {
    }

    proof fn lemma_parse_of_wire(self) {
        let w = self.wire_spec();
        self.hd.lemma_wire_len();
        lemma_pow256_values();
        lemma_le_value(self.open as nat, 8);
        lemma_le_value(self.high as nat, 8);
        lemma_le_value(self.low as nat, 8);
        lemma_le_value(self.close as nat, 8);
        lemma_le_value(self.volume as nat, 8);
        assert(w.take(16) =~= self.hd.wire_spec());
        assert(self.hd.wire_spec().take(16) =~= self.hd.wire_spec());
        lemma_header_parse_prefix(w, self.hd.wire_spec());
        self.hd.lemma_parse_wire();
        assert(w.subrange(16, 24) =~= le_bytes(self.open as nat, 8));
        assert(w.subrange(24, 32) =~= le_bytes(self.high as nat, 8));
        assert(w.subrange(32, 40) =~= le_bytes(self.low as nat, 8));
        assert(w.subrange(40, 48) =~= le_bytes(self.close as nat, 8));
        assert(w.subrange(48, 56) =~= le_bytes(self.volume as nat, 8));
    }

    proof fn lemma_wire_of_parse(b: Seq<u8>, r: Self) {
        lemma_le_cast_u64(b.subrange(16, 24));
        lemma_le_cast_u64(b.subrange(24, 32));
        lemma_le_cast_u64(b.subrange(32, 40));
        lemma_le_cast_u64(b.subrange(40, 48));
        lemma_le_cast_u64(b.subrange(48, 56));
        assert(b.len() >= 56);
        assert(b.take(16).take(16) =~= b.take(16));
        lemma_header_parse_prefix(b, b.take(16));
        RecordHeader::lemma_wire_parse(b.take(16));
        assert(r.wire_spec() =~= b.take(56));
    }

    proof fn lemma_parse_stable(b: Seq<u8>, c: Seq<u8>) {
        assert(forall|i: int| 0 <= i < 56 ==> b[i] == c[i]) by {
            assert(forall|i: int|
                0 <= i < 56 ==> b[i] == b.take(56)[i] && c[i] == c.take(56)[i]);
        }
        assert(b.take(16) =~= c.take(16));
        lemma_header_parse_prefix(b, c);
        assert(b.subrange(16, 24) =~= c.subrange(16, 24));
        assert(b.subrange(24, 32) =~= c.subrange(24, 32));
        assert(b.subrange(32, 40) =~= c.subrange(32, 40));
        assert(b.subrange(40, 48) =~= c.subrange(40, 48));
        assert(b.subrange(48, 56) =~= c.subrange(48, 56));
    }
}

impl WrappableRType for OhlcvMsg {
    proof fn lemma_wrappable() {
    }
}

/// A market-by-order record.
#[derive(Clone, Copy, Debug, PartialEq, Eq, Structural)]
pub struct MboMsg {
    /// The common record header.
    pub hd: RecordHeader,
    /// The order identifier.
    pub order_id: u64,
    /// The order price.
    pub price: u64,
    /// The order quantity.
    pub size: u32,
    /// Bit flags associated with the event.
    pub flags: u8,
    /// The channel the event arrived on.
    pub channel_id: u8,
    /// The event action.
    pub action: u8,
    /// The side of the order.
    pub side: u8,
    /// The receipt timestamp.
    pub ts_recv: u64,
    /// The delta between receipt and event time.
    pub ts_in_delta: u32,
    /// The message sequence number.
    pub sequence: u32,
}

impl HasRType for MboMsg {
    open spec fn matches_rtype_spec(rtype: u8) -> bool {
        rtype == RTYPE_MBO
    }

    open spec fn size_spec() -> nat {
        56
    }

    open spec fn wf(self) -> bool {
        self.hd.length as nat * 4 == 56 && Self::matches_rtype_spec(self.hd.rtype)
    }

    open spec fn wire_spec(self) -> Seq<u8> {
        self.hd.wire_spec() + le_bytes(self.order_id as nat, 8) + le_bytes(self.price as nat, 8)
            + le_bytes(self.size as nat, 4) + seq![
            self.flags,
            self.channel_id,
            self.action,
            self.side,
        ] + le_bytes(self.ts_recv as nat, 8) + le_bytes(self.ts_in_delta as nat, 4) + le_bytes(
            self.sequence as nat,
            4,
        )
    }

    open spec fn parse_spec(b: Seq<u8>) -> Option<MboMsg> {
        if b.len() >= 56 && Self::matches_rtype_spec(b[1]) {
            Some(
                MboMsg {
                    hd: RecordHeader::parse_spec(b),
                    order_id: le_nat(b.subrange(16, 24)) as u64,
                    price: le_nat(b.subrange(24, 32)) as u64,
                    size: le_nat(b.subrange(32, 36)) as u32,
                    flags: b[36],
                    channel_id: b[37],
                    action: b[38],
                    side: b[39],
                    ts_recv: le_nat(b.subrange(40, 48)) as u64,
                    ts_in_delta: le_nat(b.subrange(48, 52)) as u32,
                    sequence: le_nat(b.subrange(52, 56)) as u32,
                },
            )
        } else {
            None
        }
    }

    open spec fn header_spec(self) -> RecordHeader {
        self.hd
    }

    fn matches_rtype(rtype: u8) -> (r: bool) {
        rtype == RTYPE_MBO
    }

    fn record_size_of() -> (r: usize) {
        56
    }

    fn header(&self) -> (h: RecordHeader) {
        self.hd
    }

    fn parse_from(buf: &[u8]) -> (r: Option<MboMsg>) {
        if buf.len() >= 56 && Self::matches_rtype(buf[1]) {
            proof {
                lemma_le_cast_u64(buf@.subrange(16, 24));
                lemma_le_cast_u64(buf@.subrange(24, 32));
                lemma_le_cast_u32(buf@.subrange(32, 36));
                lemma_le_cast_u64(buf@.subrange(40, 48));
                lemma_le_cast_u32(buf@.subrange(48, 52));
                lemma_le_cast_u32(buf@.subrange(52, 56));
            }
            Some(
                MboMsg {
                    hd: RecordHeader::parse_from(buf),
                    order_id: read_le(buf, 16, 8),
                    price: read_le(buf, 24, 8),
                    size: read_le(buf, 32, 4) as u32,
                    flags: buf[36],
                    channel_id: buf[37],
                    action: buf[38],
                    side: buf[39],
                    ts_recv: read_le(buf, 40, 8),
                    ts_in_delta: read_le(buf, 48, 4) as u32,
                    sequence: read_le(buf, 52, 4) as u32,
                },
            )
        } else {
            None
        }
    }

    fn encode_to(&self, out: &mut Vec<u8>) {
        self.hd.encode_to(out);
        write_le(out, self.order_id, 8);
        write_le(out, self.price, 8);
        write_le(out, self.size as u64, 4);
        out.push(self.flags);
        out.push(self.channel_id);
        out.push(self.action);
        out.push(self.side);
        write_le(out, self.ts_recv, 8);
        write_le(out, self.ts_in_delta as u64, 4);
        write_le(out, self.sequence as u64, 4);
        proof {
            assert(out@ =~= old(out)@ + self.wire_spec());
        }
    }

    proof fn lemma_size() {
    }

    proof fn lemma_parse_iff(b: Seq<u8>) {
    }

    proof fn lemma_wf(self) {
    }

    proof fn lemma_parse_of_wire(self) {
        let w = self.wire_spec();
        self.hd.lemma_wire_len();
        lemma_pow256_values();
        lemma_le_value(self.order_id as nat, 8);
        lemma_le_value(self.price as nat, 8);
        lemma_le_value(self.size as nat, 4);
        lemma_le_value(self.ts_recv as nat, 8);
        lemma_le_value(self.ts_in_delta as nat, 4);
        lemma_le_value(self.sequence as nat, 4);
        assert(w.take(16) =~= self.hd.wire_spec());
        assert(self.hd.wire_spec().take(16) =~= self.hd.wire_spec());
        lemma_header_parse_prefix(w, self.hd.wire_spec());
        self.hd.lemma_parse_wire();
        assert(w.subrange(16, 24) =~= le_bytes(self.order_id as nat, 8));
        assert(w.subrange(24, 32) =~= le_bytes(self.price as nat, 8));
        assert(w.subrange(32, 36) =~= le_bytes(self.size as nat, 4));
        assert(w[36] == self.flags && w[37] == self.channel_id && w[38] == self.action && w[39]
            == self.side);
        assert(w.subrange(40, 48) =~= le_bytes(self.ts_recv as nat, 8));
        assert(w.subrange(48, 52) =~= le_bytes(self.ts_in_delta as nat, 4));
        assert(w.subrange(52, 56) =~= le_bytes(self.sequence as nat, 4));
    }

    proof fn lemma_wire_of_parse(b: Seq<u8>, r: Self) {
        lemma_le_cast_u64(b.subrange(16, 24));
        lemma_le_cast_u64(b.subrange(24, 32));
        lemma_le_cast_u32(b.subrange(32, 36));
        lemma_le_cast_u64(b.subrange(40, 48));
        lemma_le_cast_u32(b.subrange(48, 52));
        lemma_le_cast_u32(b.subrange(52, 56));
        assert(b.len() >= 56);
        assert(b.take(16).take(16) =~= b.take(16));
        lemma_header_parse_prefix(b, b.take(16));
        RecordHeader::lemma_wire_parse(b.take(16));
        assert(r.wire_spec() =~= b.take(56));
    }

    proof fn lemma_parse_stable(b: Seq<u8>, c: Seq<u8>) {
        assert(forall|i: int| 0 <= i < 56 ==> b[i] == c[i]) by {
            assert(forall|i: int|
                0 <= i < 56 ==> b[i] == b.take(56)[i] && c[i] == c.take(56)[i]);
        }
        assert(b.take(16) =~= c.take(16));
        lemma_header_parse_prefix(b, c);
        assert(b.subrange(16, 24) =~= c.subrange(16, 24));
        assert(b.subrange(24, 32) =~= c.subrange(24, 32));
        assert(b.subrange(32, 36) =~= c.subrange(32, 36));
        assert(b.subrange(40, 48) =~= c.subrange(40, 48));
        assert(b.subrange(48, 52) =~= c.subrange(48, 52));
        assert(b.subrange(52, 56) =~= c.subrange(52, 56));
    }
}

impl WrappableRType for MboMsg {
    proof fn lemma_wrappable() {
    }
}

/// A record together with the one extra trailing timestamp that every record
/// of a stream carries when the stream's `ts_out` flag is set. The flag is
/// carried out-of-band by the stream metadata, not by the record's bytes.
#[derive(Clone, Copy, Debug, PartialEq, Eq, Structural)]
pub struct WithTsOut<T> {
    /// The wrapped record.
    pub rec: T,
    /// The trailing timestamp appended to the wrapped record's bytes.
    pub ts_out: u64,
}

impl<T: WrappableRType> WithTsOut<T> {
    /// Wraps `rec` with the trailing timestamp `ts_out`.
    pub fn new(rec: T, ts_out: u64) -> (r: WithTsOut<T>)
        ensures
            r.rec == rec,
            r.ts_out == ts_out,
    {
        WithTsOut { rec, ts_out }
    }
}

impl<T: WrappableRType> HasRType for WithTsOut<T> {
    open spec fn matches_rtype_spec(rtype: u8) -> bool {
        T::matches_rtype_spec(rtype)
    }

    open spec fn size_spec() -> nat {
        T::size_spec() + 8
    }

    open spec fn wf(self) -> bool {
        self.rec.header_spec().length as nat * 4 == T::size_spec() + 8
            && T::matches_rtype_spec(self.rec.header_spec().rtype)
    }

    open spec fn wire_spec(self) -> Seq<u8> {
        self.rec.wire_spec() + le_bytes(self.ts_out as nat, 8)
    }

    open spec fn parse_spec(b: Seq<u8>) -> Option<WithTsOut<T>> {
        if b.len() >= T::size_spec() + 8 && T::matches_rtype_spec(b[1]) {
            match T::parse_spec(b) {
                Some(rec) => Some(
                    WithTsOut {
                        rec,
                        ts_out: le_nat(
                            b.subrange(T::size_spec() as int, T::size_spec() as int + 8),
                        ) as u64,
                    },
                ),
                None => None,
            }
        } else {
            None
        }
    }

    open spec fn header_spec(self) -> RecordHeader {
        self.rec.header_spec()
    }

    fn matches_rtype(rtype: u8) -> (r: bool) {
        T::matches_rtype(rtype)
    }

    fn record_size_of() -> (r: usize) {
        proof {
            T::lemma_wrappable();
        }
        T::record_size_of() + 8
    }

    fn header(&self) -> (h: RecordHeader) {
        self.rec.header()
    }

    fn parse_from(buf: &[u8]) -> (r: Option<WithTsOut<T>>) {
        proof {
            T::lemma_wrappable();
        }
        let size = T::record_size_of();
        if buf.len() >= size + 8 && T::matches_rtype(buf[1]) {
            match T::parse_from(buf) {
                Some(rec) => {
                    proof {
                        lemma_le_cast_u64(buf@.subrange(size as int, size + 8));
                    }
                    let ts_out = read_le(buf, size, 8);
                    Some(WithTsOut { rec, ts_out })
                },
                None => None,
            }
        } else {
            None
        }
    }

    fn encode_to(&self, out: &mut Vec<u8>) {
        self.rec.encode_to(out);
        write_le(out, self.ts_out, 8);
        proof {
            assert(out@ =~= old(out)@ + self.wire_spec());
        }
    }

    proof fn lemma_size() {
        T::lemma_size();
        T::lemma_wrappable();
    }

    proof fn lemma_parse_iff(b: Seq<u8>) {
        T::lemma_size();
        if b.len() >= T::size_spec() + 8 && T::matches_rtype_spec(b[1]) {
            T::lemma_parse_iff(b);
        }
    }

    proof fn lemma_wf(self) {
    }

    proof fn lemma_parse_of_wire(self) {
        let w = self.wire_spec();
        let size = T::size_spec() as int;
        T::lemma_size();
        self.rec.lemma_parse_of_wire();
        lemma_le_bytes_len(self.ts_out as nat, 8);
        if T::matches_rtype_spec(self.header_spec().rtype) {
            assert(w.take(size) =~= self.rec.wire_spec());
            assert(self.rec.wire_spec().take(size) =~= self.rec.wire_spec());
            T::lemma_parse_stable(w, self.rec.wire_spec());
            lemma_pow256_values();
            lemma_le_value(self.ts_out as nat, 8);
            assert(w.subrange(size, size + 8) =~= le_bytes(self.ts_out as nat, 8));
        }
    }

    proof fn lemma_wire_of_parse(b: Seq<u8>, r: Self) {
        let size = T::size_spec() as int;
        T::lemma_size();
        T::lemma_parse_iff(b);
        T::lemma_wire_of_parse(b, r.rec);
        lemma_le_cast_u64(b.subrange(size, size + 8));
        assert(r.wire_spec() =~= b.take(size + 8));
    }

    proof fn lemma_parse_stable(b: Seq<u8>, c: Seq<u8>) {
        let size = T::size_spec() as int;
        T::lemma_size();
        assert(forall|i: int| 0 <= i < size + 8 ==> b[i] == c[i]) by {
            assert(forall|i: int|
                0 <= i < size + 8 ==> b[i] == b.take(size + 8)[i] && c[i] == c.take(
                    size + 8,
                )[i]);
        }
        assert(b.take(size) =~= c.take(size));
        T::lemma_parse_stable(b, c);
        assert(b.subrange(size, size + 8) =~= c.subrange(size, size + 8));
    }
}

/// Threading the trailing timestamp: the bytes of a wrapped record parse
/// back, as the wrapped type, to the identical inner record and the
/// identical trailing timestamp; and the same bytes parse, as the bare
/// type, to the identical inner record, the trailing bytes ignored.
pub proof fn lemma_ts_out_threading<T: WrappableRType>(wt: WithTsOut<T>)
    requires
        T::matches_rtype_spec(wt.rec.header_spec().rtype),
    ensures
        WithTsOut::<T>::parse_spec(wt.wire_spec()) == Some(wt),
        T::parse_spec(wt.wire_spec()) == Some(wt.rec),
{
    wt.lemma_parse_of_wire();
    wt.rec.lemma_parse_of_wire();
    T::lemma_size();
    let size = T::size_spec() as int;
    assert(wt.wire_spec().take(size) =~= wt.rec.wire_spec());
    assert(wt.rec.wire_spec().take(size) =~= wt.rec.wire_spec());
    T::lemma_parse_stable(wt.wire_spec(), wt.rec.wire_spec());
}

} // verus!
