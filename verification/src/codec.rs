//! Decoding of the fixed-size records that an input device delivers.
//!
//! A record is two clock fields (seconds and microseconds, each as wide as
//! the platform's `long`), a 16-bit type tag, a 16-bit code and a signed
//! 32-bit value, laid out without padding in the byte order of the
//! platform. A read that did not deliver exactly one record is rejected.

use vstd::prelude::*;

verus! {

/// Type tag of relative-motion reports.
pub const EV_REL: u16 = 2;

/// Type tag of absolute-position reports.
pub const EV_ABS: u16 = 3;

/// Order of the bytes of a field.
#[derive(Clone, Copy, Debug, PartialEq, Eq)]
pub enum ByteOrder {
    /// Least significant byte first.
    LittleEndian,
    /// Most significant byte first.
    BigEndian,
}

/// Width of each of the two clock fields.
#[derive(Clone, Copy, Debug, PartialEq, Eq)]
pub enum ClockWidth {
    /// Four bytes.
    Four,
    /// Eight bytes.
    Eight,
}

/// How a platform lays out a record.
#[derive(Clone, Copy, Debug, PartialEq, Eq)]
pub struct RecordLayout {
    /// Byte order of every field.
    pub order: ByteOrder,
    /// Width of the seconds and of the microseconds field.
    pub clock: ClockWidth,
}

/// One decoded record.
#[derive(Clone, Copy, Debug, PartialEq, Eq)]
pub struct EventRecord {
    /// Whole seconds of the timestamp.
    pub seconds: i64,
    /// Microseconds of the timestamp.
    pub microseconds: i64,
    /// Type tag: the category of the event.
    pub kind: u16,
    /// Code within the category.
    pub code: u16,
    /// Value that the device reports.
    pub value: i32,
}

/// Number of values that `len` bytes can tell apart: 256 to the power `len`.
pub open spec fn radix(len: nat) -> nat
    decreases len,
{
    if len == 0 {
        1
    } else {
        256 * radix((len - 1) as nat)
    }
}

/// The number that the bytes spell, most significant byte first.
pub open spec fn unsigned_be(bytes: Seq<u8>) -> nat
    decreases bytes.len(),
{
    if bytes.len() == 0 {
        0
    } else {
        256 * unsigned_be(bytes.drop_last()) + bytes.last() as nat
    }
}

/// The number that the bytes spell, least significant byte first.
pub open spec fn unsigned_le(bytes: Seq<u8>) -> nat
    decreases bytes.len(),
{
    if bytes.len() == 0 {
        0
    } else {
        bytes.first() as nat + 256 * unsigned_le(bytes.drop_first())
    }
}

/// The number that the bytes spell in the given order.
pub open spec fn unsigned(bytes: Seq<u8>, order: ByteOrder) -> nat {
    match order {
        ByteOrder::LittleEndian => unsigned_le(bytes),
        ByteOrder::BigEndian => unsigned_be(bytes),
    }
}

/// The two's-complement number that the bytes spell in the given order.
pub open spec fn signed(bytes: Seq<u8>, order: ByteOrder) -> int {
    let raw = unsigned(bytes, order);
    if 2 * raw >= radix(bytes.len()) {
        raw - radix(bytes.len())
    } else {
        raw as int
    }
}

/// The `width` bytes from `start` on.
pub open spec fn field(bytes: Seq<u8>, start: int, width: int) -> Seq<u8> {
    bytes.subrange(start, start + width)
}

/// Whether `record` is what the bytes of one record spell in `layout`.
pub open spec fn decodes_to(bytes: Seq<u8>, layout: RecordLayout, record: EventRecord) -> bool {
    let w = layout.clock.bytes() as int;
    &&& record.seconds == signed(field(bytes, 0, w), layout.order)
    &&& record.microseconds == signed(field(bytes, w, w), layout.order)
    &&& record.kind == unsigned(field(bytes, 2 * w, 2), layout.order)
    &&& record.code == unsigned(field(bytes, 2 * w + 2, 2), layout.order)
    &&& record.value == signed(field(bytes, 2 * w + 4, 4), layout.order)
}

/// The record that the bytes of one record spell in `layout`.
pub open spec fn record_of(bytes: Seq<u8>, layout: RecordLayout) -> EventRecord {
    let w = layout.clock.bytes() as int;
    EventRecord {
        seconds: signed(field(bytes, 0, w), layout.order) as i64,
        microseconds: signed(field(bytes, w, w), layout.order) as i64,
        kind: unsigned(field(bytes, 2 * w, 2), layout.order) as u16,
        code: unsigned(field(bytes, 2 * w + 2, 2), layout.order) as u16,
        value: signed(field(bytes, 2 * w + 4, 4), layout.order) as i32,
    }
}

/// Whether a read that reported `bytes_read` bytes into a buffer of `len`
/// bytes delivered exactly one record.
pub open spec fn delivers_record(len: nat, bytes_read: int, layout: RecordLayout) -> bool {
    bytes_read == layout.size() && len == layout.size()
}

/// What a read decodes to: the record, or nothing where the read did not
/// deliver exactly one record.
pub open spec fn decode_spec(bytes: Seq<u8>, bytes_read: int, layout: RecordLayout) -> Option<
    EventRecord,
> {
    if delivers_record(bytes.len(), bytes_read, layout) {
        Some(record_of(bytes, layout))
    } else {
        None
    }
}

/// Microseconds as whole milliseconds, rounded towards zero.
pub open spec fn whole_millis(microseconds: int) -> int {
    if microseconds >= 0 {
        microseconds / 1000
    } else {
        -((-microseconds) / 1000)
    }
}

/// Milliseconds of a timestamp of seconds and microseconds.
pub open spec fn timestamp_of(seconds: int, microseconds: int) -> int {
    seconds * 1000 + whole_millis(microseconds)
}

impl ClockWidth {
    /// Number of bytes of one clock field.
    pub open spec fn bytes(self) -> nat {
        match self {
            ClockWidth::Four => 4,
            ClockWidth::Eight => 8,
        }
    }

    /// Number of bytes of one clock field.
    pub fn byte_count(self) -> (n: usize)
        ensures
            n == self.bytes(),
    {
        match self {
            ClockWidth::Four => 4,
            ClockWidth::Eight => 8,
        }
    }
}

impl RecordLayout {
    /// Size of one record in bytes: two clock fields and eight bytes more.
    pub open spec fn size(self) -> nat {
        2 * self.clock.bytes() + 8
    }

    /// Size of one record in bytes.
    pub fn record_size(self) -> (n: usize)
        ensures
            n == self.size(),
    {
        2 * self.clock.byte_count() + 8
    }
}

impl EventRecord {
    /// Timestamp in milliseconds: `seconds * 1000 + microseconds / 1000`,
    /// the quotient rounded towards zero.
    pub fn timestamp_ms(&self) -> (ms: i128)
        ensures
            ms == timestamp_of(self.seconds as int, self.microseconds as int),
    {
        let micros = self.microseconds as i128;
        let millis: i128 = if micros >= 0 {
            micros / 1000
        } else {
            -((-micros) / 1000)
        };
        (self.seconds as i128) * 1000 + millis
    }

    /// Whether the record reports motion: relative motion or an absolute
    /// position.
    pub fn is_movement(&self) -> (moving: bool)
        ensures
            moving == (self.kind == EV_REL || self.kind == EV_ABS),
    {
        self.kind == EV_REL || self.kind == EV_ABS
    }
}

/// More bytes tell more values apart.
proof fn lemma_radix_grows(shorter: nat, longer: nat)
    requires
        shorter <= longer,
    ensures
        0 < radix(shorter) <= radix(longer),
    decreases longer,
{
    if shorter < longer {
        lemma_radix_grows(shorter, (longer - 1) as nat);
    } else if longer > 0 {
        lemma_radix_grows((shorter - 1) as nat, (longer - 1) as nat);
    }
}

/// The values of `radix` for the widths of the fields.
proof fn lemma_radix_values()
    ensures
        radix(2) == 0x1_0000,
        radix(4) == 0x1_0000_0000,
        radix(8) == 0x1_0000_0000_0000_0000,
{
    reveal_with_fuel(radix, 9);
}

/// What `len` bytes spell is less than `radix(len)`.
pub proof fn lemma_unsigned_bound(bytes: Seq<u8>, order: ByteOrder)
    ensures
        unsigned(bytes, order) < radix(bytes.len()),
    decreases bytes.len(),
{
    if bytes.len() > 0 {
        lemma_unsigned_bound(bytes.drop_last(), order);
        lemma_unsigned_bound(bytes.drop_first(), order);
    }
}

/// What `len` bytes spell in two's complement lies in the signed range of
/// that width.
pub proof fn lemma_signed_bound(bytes: Seq<u8>, order: ByteOrder)
    requires
        bytes.len() > 0,
    ensures
        -(radix(bytes.len()) as int) <= 2 * signed(bytes, order) < radix(bytes.len()),
{
    lemma_unsigned_bound(bytes, order);
}

/// Reads the unsigned number of `width` bytes that starts at `start`.
fn read_unsigned(buffer: &[u8], start: usize, width: usize, order: ByteOrder) -> (value: u64)
    requires
        1 <= width <= 8,
        start + width <= buffer@.len() <= usize::MAX,
    ensures
        value == unsigned(field(buffer@, start as int, width as int), order),
{
    let ghost bytes = field(buffer@, start as int, width as int);
    let mut value: u64 = 0;
    let mut done: usize = 0;
    proof {
        lemma_radix_values();
    }
    match order {
        ByteOrder::BigEndian => {
            while done < width
                invariant
                    done <= width <= 8,
                    start + width <= buffer@.len() <= usize::MAX,
                    bytes == field(buffer@, start as int, width as int),
                    value == unsigned_be(bytes.take(done as int)),
                    value < radix(done as nat),
                    radix(8) == 0x1_0000_0000_0000_0000,
                decreases width - done,
            {
                proof {
                    let next = bytes.take(done + 1);
                    assert(next.drop_last() =~= bytes.take(done as int));
                    lemma_radix_grows((done + 1) as nat, 8);
                }
                value = value * 256 + buffer[start + done] as u64;
                done = done + 1;
            }
            assert(bytes.take(width as int) =~= bytes);
        },
        ByteOrder::LittleEndian => {
            while done < width
                invariant
                    done <= width <= 8,
                    start + width <= buffer@.len() <= usize::MAX,
                    bytes == field(buffer@, start as int, width as int),
                    value == unsigned_le(bytes.skip(width - done)),
                    value < radix(done as nat),
                    radix(8) == 0x1_0000_0000_0000_0000,
                decreases width - done,
            {
                proof {
                    let next = bytes.skip(width - done - 1);
                    assert(next.drop_first() =~= bytes.skip(width - done));
                    lemma_radix_grows((done + 1) as nat, 8);
                }
                value = value * 256 + buffer[start + (width - done - 1)] as u64;
                done = done + 1;
            }
            assert(bytes.skip(0) =~= bytes);
        },
    }
    value
}

/// Reads the two's-complement number of `width` bytes that starts at
/// `start`.
fn read_signed(buffer: &[u8], start: usize, width: usize, order: ByteOrder) -> (value: i64)
    requires
        width == 4 || width == 8,
        start + width <= buffer@.len() <= usize::MAX,
    ensures
        value == signed(field(buffer@, start as int, width as int), order),
{
    let raw = read_unsigned(buffer, start, width, order);
    proof {
        lemma_radix_values();
        lemma_unsigned_bound(field(buffer@, start as int, width as int), order);
    }
    let span: i128 = if width == 4 {
        0x1_0000_0000
    } else {
        0x1_0000_0000_0000_0000
    };
    let wide = raw as i128;
    if 2 * wide >= span {
        (wide - span) as i64
    } else {
        wide as i64
    }
}

/// Every field of a record fits the type that holds it: `record_of` loses
/// nothing.
pub proof fn lemma_record_fields(bytes: Seq<u8>, layout: RecordLayout)
    requires
        bytes.len() == layout.size(),
    ensures
        decodes_to(bytes, layout, record_of(bytes, layout)),
{
    let w = layout.clock.bytes() as int;
    lemma_radix_values();
    lemma_signed_bound(field(bytes, 0, w), layout.order);
    lemma_signed_bound(field(bytes, w, w), layout.order);
    lemma_unsigned_bound(field(bytes, 2 * w, 2), layout.order);
    lemma_unsigned_bound(field(bytes, 2 * w + 2, 2), layout.order);
    lemma_signed_bound(field(bytes, 2 * w + 4, 4), layout.order);
}

/// Decodes the record that a read delivered into `buffer`.
///
/// `bytes_read` is what the read reported. The read is rejected unless it
/// reported exactly the size of one record and the buffer has that size.
pub fn decode(buffer: &[u8], bytes_read: isize, layout: RecordLayout) -> (record: Option<
    EventRecord,
>)
    ensures
        record == decode_spec(buffer@, bytes_read as int, layout),
        record is Some <==> delivers_record(buffer@.len(), bytes_read as int, layout),
        record matches Some(r) ==> decodes_to(buffer@, layout, r),
{
    let size = layout.record_size();
    if bytes_read < 0 || bytes_read as usize != size || buffer.len() != size {
        return None;
    }
    let w = layout.clock.byte_count();
    let seconds = read_signed(buffer, 0, w, layout.order);
    let microseconds = read_signed(buffer, w, w, layout.order);
    let kind = read_unsigned(buffer, 2 * w, 2, layout.order);
    let code = read_unsigned(buffer, 2 * w + 2, 2, layout.order);
    let value = read_signed(buffer, 2 * w + 4, 4, layout.order);
    proof {
        lemma_record_fields(buffer@, layout);
    }
    Some(EventRecord { seconds, microseconds, kind: kind as u16, code: code as u16, value: value as i32 })
}

} // verus!
