//! The camera ring: a shared-memory file with a 64-byte little-endian header
//! followed by `num_slots` frame slots. Frame `seq` is stored in slot
//! `seq % num_slots`; the writer stores the payload first and publishes `seq`
//! in the header afterwards, so a reader that sees `seq` finds its frame.
//!
//! Header layout (`<IIIIIIIIQ`, then zero padding):
//! magic, fmt, width, height, stride, slot_size, num_slots, writer pid,
//! producer_seq.

use vstd::prelude::*;

verus! {

/// Default path of the shared ring file.
pub const CAM_RING_DEFAULT: &'static str = "/dev/shm/body_estim_camera";

/// Size of the ring header in bytes.
pub const HEADER_BYTES: usize = 64;

/// Pixel format code for packed RGB8.
pub const FMT_RGB8: u32 = 1;

/// Magic number at the start of the header.
pub const MAGIC: u32 = 0xCAC0_0001;

/// Byte offset of `producer_seq` in the header.
pub const OFF_SEQ: usize = 32;

/// The four bytes of `x`, least significant first.
pub open spec fn u32_le(x: u32) -> Seq<u8> {
    seq![x as u8, (x >> 8) as u8, (x >> 16) as u8, (x >> 24) as u8]
}

/// The eight bytes of `x`, least significant first.
pub open spec fn u64_le(x: u64) -> Seq<u8> {
    seq![
        x as u8,
        (x >> 8) as u8,
        (x >> 16) as u8,
        (x >> 24) as u8,
        (x >> 32) as u8,
        (x >> 40) as u8,
        (x >> 48) as u8,
        (x >> 56) as u8,
    ]
}

/// The little-endian `u32` stored at byte `off` of `s`.
pub open spec fn read_u32_le(s: Seq<u8>, off: int) -> u32 {
    (s[off] as u32) | ((s[off + 1] as u32) << 8) | ((s[off + 2] as u32) << 16) | ((s[off
        + 3] as u32) << 24)
}

/// The little-endian `u64` stored at byte `off` of `s`.
pub open spec fn read_u64_le(s: Seq<u8>, off: int) -> u64 {
    (s[off] as u64) | ((s[off + 1] as u64) << 8) | ((s[off + 2] as u64) << 16) | ((s[off
        + 3] as u64) << 24) | ((s[off + 4] as u64) << 32) | ((s[off + 5] as u64) << 40) | ((s[off
        + 6] as u64) << 48) | ((s[off + 7] as u64) << 56)
}

/// Reading back a little-endian `u32` gives the value written.
pub proof fn lemma_u32_le_roundtrip(x: u32, s: Seq<u8>, off: int)
    requires
        0 <= off,
        off + 4 <= s.len(),
        s.subrange(off, off + 4) == u32_le(x),
    ensures
        read_u32_le(s, off) == x,
{
    let b0 = s[off];
    let b1 = s[off + 1];
    let b2 = s[off + 2];
    let b3 = s[off + 3];
    assert(b0 == u32_le(x)[0] && b1 == u32_le(x)[1] && b2 == u32_le(x)[2] && b3 == u32_le(x)[3]);
    assert(b0 == x as u8 && b1 == (x >> 8) as u8 && b2 == (x >> 16) as u8 && b3 == (x
        >> 24) as u8 ==> (b0 as u32) | ((b1 as u32) << 8) | ((b2 as u32) << 16) | ((b3 as u32)
        << 24) == x) by (bit_vector);
}

/// Reading back a little-endian `u64` gives the value written.
pub proof fn lemma_u64_le_roundtrip(x: u64, s: Seq<u8>, off: int)
    requires
        0 <= off,
        off + 8 <= s.len(),
        s.subrange(off, off + 8) == u64_le(x),
    ensures
        read_u64_le(s, off) == x,
{
    let b0 = s[off];
    let b1 = s[off + 1];
    let b2 = s[off + 2];
    let b3 = s[off + 3];
    let b4 = s[off + 4];
    let b5 = s[off + 5];
    let b6 = s[off + 6];
    let b7 = s[off + 7];
    assert(b0 == u64_le(x)[0] && b1 == u64_le(x)[1] && b2 == u64_le(x)[2] && b3 == u64_le(x)[3]);
    assert(b4 == u64_le(x)[4] && b5 == u64_le(x)[5] && b6 == u64_le(x)[6] && b7 == u64_le(x)[7]);
    assert(b0 == x as u8 && b1 == (x >> 8) as u8 && b2 == (x >> 16) as u8 && b3 == (x
        >> 24) as u8 && b4 == (x >> 32) as u8 && b5 == (x >> 40) as u8 && b6 == (x >> 48) as u8
        && b7 == (x >> 56) as u8 ==> (b0 as u64) | ((b1 as u64) << 8) | ((b2 as u64) << 16) | ((b3
        as u64) << 24) | ((b4 as u64) << 32) | ((b5 as u64) << 40) | ((b6 as u64) << 48) | ((b7
        as u64) << 56) == x) by (bit_vector);
}


/// Why a ring cannot be created.
#[derive(Debug, Clone, Copy, PartialEq, Eq, Structural)]
pub enum RingError {
    /// The width or the height is zero.
    InvalidGeometry,
}

impl RingError {
    /// A human-readable description of the error.
    pub fn message(&self) -> (m: &'static str)
        ensures
            m@ == "ring needs a positive width/height"@,
    {
        match self {
            RingError::InvalidGeometry => "ring needs a positive width/height",
        }
    }
}

/// The abstract state of a ring writer.
pub ghost struct RingView {
    pub width: nat,
    pub height: nat,
    pub num_slots: nat,
    pub slot_size: nat,
    pub seq: nat,
}

/// Size in bytes of the whole ring file: header plus all slots.
pub open spec fn ring_len(num_slots: nat, slot_size: nat) -> int {
    HEADER_BYTES + num_slots * slot_size
}

/// Byte offset of the slot that frame `seq` is stored in.
pub open spec fn slot_offset(num_slots: nat, slot_size: nat, seq: nat) -> int {
    HEADER_BYTES + (seq % num_slots) * slot_size
}

/// The bytes of the slot that frame `seq` is stored in.
pub open spec fn slot_bytes(region: Seq<u8>, num_slots: nat, slot_size: nat, seq: nat) -> Seq<u8> {
    region.subrange(
        slot_offset(num_slots, slot_size, seq),
        slot_offset(num_slots, slot_size, seq) + slot_size,
    )
}

/// `new` differs from `old` at most in the `producer_seq` field of the header
/// and in the slot of frame `seq`.
pub open spec fn only_slot_and_seq_changed(
    old: Seq<u8>,
    new: Seq<u8>,
    num_slots: nat,
    slot_size: nat,
    seq: nat,
) -> bool {
    &&& new.len() == old.len()
    &&& forall|i: int|
        0 <= i < old.len() && !(OFF_SEQ <= i < OFF_SEQ + 8) && !(slot_offset(
            num_slots,
            slot_size,
            seq,
        ) <= i < slot_offset(num_slots, slot_size, seq) + slot_size) ==> new[i] == old[i]
}

/// The 64 header bytes the writer stores: every field little-endian, the
/// stride `width * 3`, the slot size truncated to 32 bits, `producer_seq` 0,
/// and zero padding.
pub open spec fn ring_header(width: nat, height: nat, slot_size: nat, num_slots: nat, pid: u32) -> Seq<
    u8,
> {
    u32_le(MAGIC) + u32_le(FMT_RGB8) + u32_le(width as u32) + u32_le(height as u32) + u32_le(
        (width * 3) as u32,
    ) + u32_le(slot_size as u32) + u32_le(num_slots as u32) + u32_le(pid) + u64_le(0)
        + Seq::new(24, |i: int| 0u8)
}

/// Appends `x` little-endian.
fn push_u32_le(buf: &mut Vec<u8>, x: u32)
    ensures
        final(buf)@ == old(buf)@ + u32_le(x),
{
    buf.push(x as u8);
    buf.push((x >> 8) as u8);
    buf.push((x >> 16) as u8);
    buf.push((x >> 24) as u8);
    assert(buf@ =~= old(buf)@ + u32_le(x));
}

/// Appends `x` little-endian.
fn push_u64_le(buf: &mut Vec<u8>, x: u64)
    ensures
        final(buf)@ == old(buf)@ + u64_le(x),
{
    buf.push(x as u8);
    buf.push((x >> 8) as u8);
    buf.push((x >> 16) as u8);
    buf.push((x >> 24) as u8);
    buf.push((x >> 32) as u8);
    buf.push((x >> 40) as u8);
    buf.push((x >> 48) as u8);
    buf.push((x >> 56) as u8);
    assert(buf@ =~= old(buf)@ + u64_le(x));
}

/// Stores `x` little-endian at byte `off`.
fn store_u64_le(buf: &mut [u8], off: usize, x: u64)
    requires
        off + 8 <= old(buf)@.len(),
    ensures
        final(buf)@ == old(buf)@.subrange(0, off as int) + u64_le(x) + old(buf)@.subrange(
            off + 8,
            old(buf)@.len() as int,
        ),
{
    buf[off] = x as u8;
    buf[off + 1] = (x >> 8) as u8;
    buf[off + 2] = (x >> 16) as u8;
    buf[off + 3] = (x >> 24) as u8;
    buf[off + 4] = (x >> 32) as u8;
    buf[off + 5] = (x >> 40) as u8;
    buf[off + 6] = (x >> 48) as u8;
    buf[off + 7] = (x >> 56) as u8;
    assert(buf@ =~= old(buf)@.subrange(0, off as int) + u64_le(x) + old(buf)@.subrange(
        off + 8,
        old(buf)@.len() as int,
    ));
}

/// A compiler fence with release ordering (`std::sync::atomic::compiler_fence`):
/// stores issued before it are not moved after stores issued after it. It
/// changes no value that the program can see.
#[verifier::external_body]
fn release_fence() {
    std::sync::atomic::compiler_fence(std::sync::atomic::Ordering::Release);
}

/// The writer state after publishing one frame: the same geometry, `seq` one
/// higher.
pub open spec fn after_submit(v: RingView) -> RingView {
    RingView { seq: v.seq + 1, ..v }
}

/// `v` is the state of a writer for `width` by `height` RGB8 frames in
/// `num_slots` slots: each row is `width * 3` bytes (the stride) and each slot
/// holds `height` rows.
pub open spec fn has_geometry(v: RingView, width: nat, height: nat, num_slots: nat) -> bool {
    &&& v.width == width
    &&& v.height == height
    &&& v.num_slots == num_slots
    &&& v.slot_size == (width * 3) * height
}

/// Writer side of the camera ring: its geometry and the sequence number of
/// the last frame published. The shared memory itself is handed to the
/// methods that write it.
pub struct CameraRingWriter {
    width: u32,
    height: u32,
    num_slots: u32,
    slot_size: usize,
    seq: u64,
}

impl View for CameraRingWriter {
    type V = RingView;

    closed spec fn view(&self) -> RingView {
        RingView {
            width: self.width as nat,
            height: self.height as nat,
            num_slots: self.num_slots as nat,
            slot_size: self.slot_size as nat,
            seq: self.seq as nat,
        }
    }
}

impl CameraRingWriter {
    #[verifier::type_invariant]
    spec fn inv(self) -> bool {
        &&& self.width > 0
        &&& self.height > 0
        &&& self.width * 3 <= u32::MAX
        &&& self.slot_size == self.width * 3 * self.height
        &&& ring_len(self.num_slots as nat, self.slot_size as nat) <= usize::MAX
    }

    /// Creates the writer state for a ring of `num_slots` slots of
    /// `width` by `height` RGB8 frames; refuses a zero width or height.
    pub fn new(width: u32, height: u32, num_slots: u32) -> (r: Result<CameraRingWriter, RingError>)
        requires
            width > 0 && height > 0 ==> width * 3 <= u32::MAX,
            width > 0 && height > 0 ==> width * 3 * height <= usize::MAX,
            width > 0 && height > 0 ==> ring_len(num_slots as nat, (width * 3 * height) as nat)
                <= usize::MAX,
        ensures
            r is Err <==> (width == 0 || height == 0),
            r matches Err(e) ==> e == RingError::InvalidGeometry,
            r matches Ok(w) ==> has_geometry(w@, width as nat, height as nat, num_slots as nat)
                && w@.seq == 0,
            r matches Ok(w) ==> w@ == (RingView {
                width: width as nat,
                height: height as nat,
                num_slots: num_slots as nat,
                slot_size: (width * 3 * height) as nat,
                seq: 0,
            }),
    {
        if width == 0 || height == 0 {
            return Err(RingError::InvalidGeometry);
        }
        let stride = width as usize * 3;
        let slot_size = stride * height as usize;
        Ok(CameraRingWriter { width, height, num_slots, slot_size, seq: 0 })
    }

    /// Frame width in pixels.
    pub fn width(&self) -> (r: u32)
        ensures
            r == self@.width,
    {
        self.width
    }

    /// Frame height in pixels.
    pub fn height(&self) -> (r: u32)
        ensures
            r == self@.height,
    {
        self.height
    }

    /// Number of frame slots.
    pub fn num_slots(&self) -> (r: u32)
        ensures
            r == self@.num_slots,
    {
        self.num_slots
    }

    /// Bytes per slot: one RGB8 frame.
    pub fn slot_size(&self) -> (r: usize)
        ensures
            r == self@.slot_size,
    {
        self.slot_size
    }

    /// Bytes per row: `width * 3`.
    pub fn stride(&self) -> (r: usize)
        ensures
            r == self@.width * 3,
    {
        proof {
            use_type_invariant(self);
        }
        self.width as usize * 3
    }

    /// Sequence number of the last frame published (0 before the first).
    pub fn seq(&self) -> (r: u64)
        ensures
            r == self@.seq,
    {
        self.seq
    }

    /// Writes the ring header for writer process `pid` into the first
    /// `HEADER_BYTES` of `region`, which starts at the beginning of the ring
    /// file; the rest of `region` is left as it was.
    pub fn write_header(&self, region: &mut [u8], pid: u32)
        requires
            old(region)@.len() >= HEADER_BYTES,
        ensures
            final(region)@ == ring_header(
                self@.width,
                self@.height,
                self@.slot_size,
                self@.num_slots,
                pid,
            ) + old(region)@.skip(HEADER_BYTES as int),
    {
        proof {
            use_type_invariant(self);
        }
        let mut h: Vec<u8> = Vec::new();
        push_u32_le(&mut h, MAGIC);
        push_u32_le(&mut h, FMT_RGB8);
        push_u32_le(&mut h, self.width);
        push_u32_le(&mut h, self.height);
        push_u32_le(&mut h, self.width * 3);
        push_u32_le(&mut h, self.slot_size as u32);
        push_u32_le(&mut h, self.num_slots);
        push_u32_le(&mut h, pid);
        push_u64_le(&mut h, 0);
        let ghost fields = h@;
        while h.len() < HEADER_BYTES
            invariant
                h@.len() <= HEADER_BYTES,
                fields.len() == 40,
                h@.len() >= 40,
                h@ == fields + Seq::new((h@.len() - 40) as nat, |i: int| 0u8),
            decreases HEADER_BYTES - h@.len(),
        {
            h.push(0);
            assert(h@ =~= fields + Seq::new((h@.len() - 40) as nat, |i: int| 0u8));
        }
        let mut i: usize = 0;
        while i < HEADER_BYTES
            invariant
                0 <= i <= HEADER_BYTES,
                h@.len() == HEADER_BYTES,
                old(region)@.len() >= HEADER_BYTES,
                region@.len() == old(region)@.len(),
                forall|j: int| 0 <= j < i ==> region@[j] == h@[j],
                forall|j: int| i <= j < region@.len() ==> region@[j] == old(region)@[j],
            decreases HEADER_BYTES - i,
        {
            region[i] = h[i];
            i += 1;
        }
        assert(h@ =~= ring_header(
            self@.width,
            self@.height,
            self@.slot_size,
            self@.num_slots,
            pid,
        ));
        assert(region@ =~= h@ + old(region)@.skip(HEADER_BYTES as int));
    }

    /// Publishes the next frame: advances `seq`, lets `write` fill the slot
    /// of the new `seq` in `region` (the whole ring file), then stores the new
    /// `seq` in the header. Nothing else in `region` changes.
    pub fn submit_with<F: FnOnce(&mut [u8])>(&mut self, region: &mut [u8], write: F)
        requires
            old(region)@.len() >= ring_len(old(self)@.num_slots, old(self)@.slot_size),
            old(self)@.num_slots > 0,
            old(self)@.seq < u64::MAX,
            forall|s: &mut [u8]| call_requires(write, (s,)),
            forall|s: &mut [u8]| call_ensures(write, (s,), ()) ==> final(s)@.len() == s@.len(),
        ensures
            final(self)@ == after_submit(old(self)@),
            final(region)@.subrange(OFF_SEQ as int, OFF_SEQ + 8) == u64_le(
                (old(self)@.seq + 1) as u64,
            ),
            only_slot_and_seq_changed(
                old(region)@,
                final(region)@,
                old(self)@.num_slots,
                old(self)@.slot_size,
                old(self)@.seq + 1,
            ),
            exists|s: &mut [u8]|
                call_ensures(write, (s,), ()) && s@ == slot_bytes(
                    old(region)@,
                    old(self)@.num_slots,
                    old(self)@.slot_size,
                    old(self)@.seq + 1,
                ) && final(s)@ == slot_bytes(
                    final(region)@,
                    old(self)@.num_slots,
                    old(self)@.slot_size,
                    old(self)@.seq + 1,
                ),
    {
        proof {
            use_type_invariant(&*self);
        }
        self.seq += 1;
        let slot = (self.seq % self.num_slots as u64) as usize;
        proof {
            let n = self.num_slots as int;
            let ss = self.slot_size as int;
            assert(slot * ss + ss <= n * ss) by (nonlinear_arith)
                requires
                    0 <= slot < n,
                    0 <= ss,
            ;
        }
        let off = HEADER_BYTES + slot * self.slot_size;
        let ghost before = region@;
        {
            let (_head, rest) = region.split_at_mut(off);
            let (payload, _tail) = rest.split_at_mut(self.slot_size);
            write(payload);
        }
        let ghost written = region@;
        release_fence();
        store_u64_le(region, OFF_SEQ, self.seq);
        assert(region@.subrange(OFF_SEQ as int, OFF_SEQ + 8) =~= u64_le(self.seq));
        assert forall|i: int|
            0 <= i < region@.len() && !(OFF_SEQ <= i < OFF_SEQ + 8) && !(off <= i < off
                + self.slot_size) implies region@[i] == before[i] by {
            assert(region@[i] == written[i]);
        }
        assert(region@.subrange(off as int, off + self.slot_size) =~= written.subrange(
            off as int,
            off + self.slot_size,
        ));
    }

    /// Size in bytes of the whole ring file.
    pub fn total_len(&self) -> (r: usize)
        ensures
            r == ring_len(self@.num_slots, self@.slot_size),
    {
        proof {
            use_type_invariant(self);
            assert(self.num_slots as usize * self.slot_size <= usize::MAX - HEADER_BYTES);
        }
        HEADER_BYTES + self.num_slots as usize * self.slot_size
    }
}


/// A reader decodes from the header exactly the fields the writer stored.
pub proof fn lemma_header_fields(width: nat, height: nat, slot_size: nat, num_slots: nat, pid: u32)
    ensures
        ring_header(width, height, slot_size, num_slots, pid).len() == HEADER_BYTES,
        read_u32_le(ring_header(width, height, slot_size, num_slots, pid), 0) == MAGIC,
        read_u32_le(ring_header(width, height, slot_size, num_slots, pid), 4) == FMT_RGB8,
        read_u32_le(ring_header(width, height, slot_size, num_slots, pid), 8) == width as u32,
        read_u32_le(ring_header(width, height, slot_size, num_slots, pid), 12) == height as u32,
        read_u32_le(ring_header(width, height, slot_size, num_slots, pid), 16) == (width
            * 3) as u32,
        read_u32_le(ring_header(width, height, slot_size, num_slots, pid), 20)
            == slot_size as u32,
        read_u32_le(ring_header(width, height, slot_size, num_slots, pid), 24)
            == num_slots as u32,
        read_u32_le(ring_header(width, height, slot_size, num_slots, pid), 28) == pid,
        read_u64_le(ring_header(width, height, slot_size, num_slots, pid), OFF_SEQ as int) == 0,
        forall|i: int|
            40 <= i < HEADER_BYTES ==> #[trigger] ring_header(
                width,
                height,
                slot_size,
                num_slots,
                pid,
            )[i] == 0,
{
    let h = ring_header(width, height, slot_size, num_slots, pid);
    assert(h.subrange(0, 4) =~= u32_le(MAGIC));
    assert(h.subrange(4, 8) =~= u32_le(FMT_RGB8));
    assert(h.subrange(8, 12) =~= u32_le(width as u32));
    assert(h.subrange(12, 16) =~= u32_le(height as u32));
    assert(h.subrange(16, 20) =~= u32_le((width * 3) as u32));
    assert(h.subrange(20, 24) =~= u32_le(slot_size as u32));
    assert(h.subrange(24, 28) =~= u32_le(num_slots as u32));
    assert(h.subrange(28, 32) =~= u32_le(pid));
    assert(h.subrange(32, 40) =~= u64_le(0));
    lemma_u32_le_roundtrip(MAGIC, h, 0);
    lemma_u32_le_roundtrip(FMT_RGB8, h, 4);
    lemma_u32_le_roundtrip(width as u32, h, 8);
    lemma_u32_le_roundtrip(height as u32, h, 12);
    lemma_u32_le_roundtrip((width * 3) as u32, h, 16);
    lemma_u32_le_roundtrip(slot_size as u32, h, 20);
    lemma_u32_le_roundtrip(num_slots as u32, h, 24);
    lemma_u32_le_roundtrip(pid, h, 28);
    lemma_u64_le_roundtrip(0, h, 32);
}

/// Every slot lies past the header and inside the ring file.
pub proof fn lemma_slot_in_ring(num_slots: nat, slot_size: nat, seq: nat)
    requires
        num_slots > 0,
    ensures
        HEADER_BYTES <= slot_offset(num_slots, slot_size, seq),
        slot_offset(num_slots, slot_size, seq) + slot_size <= ring_len(num_slots, slot_size),
{
    let k = seq % num_slots;
    assert(0 <= k * slot_size && k * slot_size + slot_size <= num_slots * slot_size)
        by (nonlinear_arith)
        requires
            0 <= k < num_slots,
    ;
}

/// The slots of frames fewer than `num_slots` apart do not overlap, so a
/// published frame stays intact while the next `num_slots - 1` frames are
/// written; frames `num_slots` apart share a slot.
pub proof fn lemma_slots_rotate(num_slots: nat, slot_size: nat, seq: nat, later: nat)
    requires
        num_slots > 0,
        seq < later < seq + num_slots,
    ensures
        slot_offset(num_slots, slot_size, seq) + slot_size <= slot_offset(
            num_slots,
            slot_size,
            later,
        ) || slot_offset(num_slots, slot_size, later) + slot_size <= slot_offset(
            num_slots,
            slot_size,
            seq,
        ),
        slot_offset(num_slots, slot_size, seq + num_slots) == slot_offset(
            num_slots,
            slot_size,
            seq,
        ),
{
    let a = seq % num_slots;
    let b = later % num_slots;
    vstd::arithmetic::div_mod::lemma_fundamental_div_mod(seq as int, num_slots as int);
    vstd::arithmetic::div_mod::lemma_fundamental_div_mod(later as int, num_slots as int);
    assert(a != b) by (nonlinear_arith)
        requires
            seq == num_slots * (seq / num_slots) + a,
            later == num_slots * (later / num_slots) + b,
            0 <= a < num_slots,
            0 <= b < num_slots,
            seq < later < seq + num_slots,
    ;
    if a < b {
        assert(a * slot_size + slot_size <= b * slot_size) by (nonlinear_arith)
            requires
                a < b,
        ;
    } else {
        assert(b * slot_size + slot_size <= a * slot_size) by (nonlinear_arith)
            requires
                b < a,
        ;
    }
    vstd::arithmetic::div_mod::lemma_mod_add_multiples_vanish(seq as int, num_slots as int);
}


/// Publishing a frame fewer than `num_slots` after frame `seq` leaves the
/// slot of `seq` as it was: a reader still finds frame `seq` there.
pub proof fn lemma_frame_survives_later_submit(
    old: Seq<u8>,
    new: Seq<u8>,
    num_slots: nat,
    slot_size: nat,
    seq: nat,
    later: nat,
)
    requires
        num_slots > 0,
        seq < later < seq + num_slots,
        old.len() >= ring_len(num_slots, slot_size),
        only_slot_and_seq_changed(old, new, num_slots, slot_size, later),
    ensures
        slot_bytes(new, num_slots, slot_size, seq) == slot_bytes(old, num_slots, slot_size, seq),
{
    lemma_slots_rotate(num_slots, slot_size, seq, later);
    lemma_slot_in_ring(num_slots, slot_size, seq);
    assert(slot_bytes(new, num_slots, slot_size, seq) =~= slot_bytes(
        old,
        num_slots,
        slot_size,
        seq,
    ));
}

/// After a frame is published, the header's `producer_seq` reads back as its
/// sequence number.
pub proof fn lemma_published_seq_reads_back(region: Seq<u8>, seq: u64)
    requires
        region.len() >= HEADER_BYTES,
        region.subrange(OFF_SEQ as int, OFF_SEQ + 8) == u64_le(seq),
    ensures
        read_u64_le(region, OFF_SEQ as int) == seq,
{
    lemma_u64_le_roundtrip(seq, region, OFF_SEQ as int);
}


/// Over any number of published frames the geometry of a writer stays what
/// it was created with, and after `i` frames `seq` is `i`: the states
/// `views[0]` (fresh from `new`), `views[1]`, ... each follow from the one
/// before by a `submit_with`.
pub proof fn lemma_geometry_constant(
    views: Seq<RingView>,
    width: nat,
    height: nat,
    num_slots: nat,
)
    requires
        views.len() > 0,
        has_geometry(views[0], width, height, num_slots),
        views[0].seq == 0,
        forall|i: int| 0 <= i < views.len() - 1 ==> views[i + 1] == after_submit(#[trigger] views[i]),
    ensures
        forall|i: int|
            0 <= i < views.len() ==> has_geometry(#[trigger] views[i], width, height, num_slots)
                && views[i].seq == i,
    decreases views.len(),
{
    if views.len() > 1 {
        let prefix = views.drop_last();
        assert forall|i: int| 0 <= i < prefix.len() - 1 implies prefix[i + 1] == after_submit(
            #[trigger] prefix[i],
        ) by {
            assert(views[i + 1] == after_submit(views[i]));
        }
        lemma_geometry_constant(prefix, width, height, num_slots);
        assert forall|i: int| 0 <= i < views.len() implies has_geometry(
            #[trigger] views[i],
            width,
            height,
            num_slots,
        ) && views[i].seq == i by {
            if i < views.len() - 1 {
                assert(views[i] == prefix[i]);
            } else {
                let j = i - 1;
                assert(prefix[j] == views[j]);
                assert(views[j + 1] == after_submit(views[j]));
            }
        }
    }
}

} // verus!
