//! The shared-memory region through which the vision process publishes the
//! AprilTags of its latest frame, and the seqlock that guards it.
use crate::state::VisionSnapshot;
use vstd::prelude::*;

verus! {

pub const MAX_TAGS: usize = 20;

/// Bytes before the first tag record.
pub const HEADER_LEN: usize = 32;

/// Bytes of one tag record.
pub const TAG_LEN: usize = 44;

/// Bytes of the whole region.
pub const REGION_LEN: usize = 912;

/// One detected tag. The measurements are single-precision numbers, held by
/// their IEEE 754 bits.
#[derive(Debug, Clone, Copy, PartialEq, Eq, Structural)]
pub struct AprilTagDetection {
    pub id: u16,  // The decoded tag ID (0-586 for 36h11)
    pub hamming: u8,  // Number of bit errors corrected (0, 1, or 2)
    pub rotation: u8,  // Physical rotation in 90-deg increments (0-3)
    pub confidence: u32,  // The decision margin from the GrayModel
    pub center_x: u32,  // Center pixel X
    pub center_y: u32,  // Center pixel Y
    pub tx: u32,
    pub ty: u32,
    pub tz: u32,
    pub yaw: u32,
    pub pitch: u32,
    pub roll: u32,
    pub distance_mm: u32,
}

/// One copy of the region. `seq` is the sequence number that was read before
/// the copy was made.
pub struct SharedTags {
    pub seq: u32,  // offset 0
    pub tag_count: u32,  // offset 4
    pub timestamp_us: u64,  // offset 8
    pub frame_w: u32,  // offset 16
    pub frame_h: u32,  // offset 20
    pub pad: u64,  // offset 24
    pub tags: [AprilTagDetection; MAX_TAGS],  // offset 32
}

// ---------------------------------------------------------------------------
// Layout
// ---------------------------------------------------------------------------
/// The number in the `n` bytes from `at` on, least significant byte first.
pub open spec fn le(image: Seq<u8>, at: int, n: nat) -> nat
    decreases n,
{
    if n == 0 {
        0
    } else {
        image[at] as nat + 256 * le(image, at + 1, (n - 1) as nat)
    }
}

/// The tag record that begins at `at`.
pub open spec fn tag_at(image: Seq<u8>, at: int) -> AprilTagDetection {
    AprilTagDetection {
        id: le(image, at, 2) as u16,
        hamming: image[at + 2],
        rotation: image[at + 3],
        confidence: le(image, at + 4, 4) as u32,
        center_x: le(image, at + 8, 4) as u32,
        center_y: le(image, at + 12, 4) as u32,
        tx: le(image, at + 16, 4) as u32,
        ty: le(image, at + 20, 4) as u32,
        tz: le(image, at + 24, 4) as u32,
        yaw: le(image, at + 28, 4) as u32,
        pitch: le(image, at + 32, 4) as u32,
        roll: le(image, at + 36, 4) as u32,
        distance_mm: le(image, at + 40, 4) as u32,
    }
}

/// All tag records of a region.
pub open spec fn region_tags(image: Seq<u8>) -> Seq<AprilTagDetection> {
    Seq::new(MAX_TAGS as nat, |i: int| tag_at(image, HEADER_LEN + TAG_LEN * i))
}

fn read_u16(image: &[u8], at: usize) -> (value: u16)
    requires
        at + 2 <= image.len(),
    ensures
        value == le(image@, at as int, 2),
{
    reveal_with_fuel(le, 3);
    image[at] as u16 + 256 * (image[at + 1] as u16)
}

pub(crate) fn read_u32(image: &[u8], at: usize) -> (value: u32)
    requires
        at + 4 <= image.len(),
    ensures
        value == le(image@, at as int, 4),
{
    reveal_with_fuel(le, 5);
    image[at] as u32 + 0x100 * (image[at + 1] as u32) + 0x1_0000 * (image[at + 2] as u32)
        + 0x100_0000 * (image[at + 3] as u32)
}

proof fn lemma_le_splits(image: Seq<u8>, at: int)
    ensures
        le(image, at, 8) == le(image, at, 4) + 0x1_0000_0000 * le(image, at + 4, 4),
{
    reveal_with_fuel(le, 9);
}

fn read_u64(image: &[u8], at: usize) -> (value: u64)
    requires
        at + 8 <= image.len(),
    ensures
        value == le(image@, at as int, 8),
{
    proof {
        lemma_le_splits(image@, at as int);
    }
    read_u32(image, at) as u64 + 0x1_0000_0000 * (read_u32(image, at + 4) as u64)
}

fn read_tag(image: &[u8], at: usize) -> (tag: AprilTagDetection)
    requires
        at + TAG_LEN <= image.len(),
    ensures
        tag == tag_at(image@, at as int),
{
    AprilTagDetection {
        id: read_u16(image, at),
        hamming: image[at + 2],
        rotation: image[at + 3],
        confidence: read_u32(image, at + 4),
        center_x: read_u32(image, at + 8),
        center_y: read_u32(image, at + 12),
        tx: read_u32(image, at + 16),
        ty: read_u32(image, at + 20),
        tz: read_u32(image, at + 24),
        yaw: read_u32(image, at + 28),
        pitch: read_u32(image, at + 32),
        roll: read_u32(image, at + 36),
        distance_mm: read_u32(image, at + 40),
    }
}

impl AprilTagDetection {
    /// A record whose bytes are all zero.
    pub fn zeroed() -> (tag: AprilTagDetection)
        ensures
            tag == (AprilTagDetection {
                id: 0,
                hamming: 0,
                rotation: 0,
                confidence: 0,
                center_x: 0,
                center_y: 0,
                tx: 0,
                ty: 0,
                tz: 0,
                yaw: 0,
                pitch: 0,
                roll: 0,
                distance_mm: 0,
            }),
    {
        AprilTagDetection {
            id: 0,
            hamming: 0,
            rotation: 0,
            confidence: 0,
            center_x: 0,
            center_y: 0,
            tx: 0,
            ty: 0,
            tz: 0,
            yaw: 0,
            pitch: 0,
            roll: 0,
            distance_mm: 0,
        }
    }
}

impl SharedTags {
    /// Whether the copy `self` reads as the bytes `image`, apart from `seq`.
    pub open spec fn reads_as(&self, image: Seq<u8>) -> bool {
        &&& self.tag_count == le(image, 4, 4)
        &&& self.timestamp_us == le(image, 8, 8)
        &&& self.frame_w == le(image, 16, 4)
        &&& self.frame_h == le(image, 20, 4)
        &&& self.pad == le(image, 24, 8)
        &&& self.tags@ == region_tags(image)
    }

    /// Decodes a copy of the region that was made after `seq` had been read
    /// from it. The sequence number in the copy itself is not looked at.
    pub fn decode(seq: u32, image: &[u8]) -> (shared: SharedTags)
        requires
            image.len() >= REGION_LEN,
        ensures
            shared.seq == seq,
            shared.reads_as(image@),
    {
        let mut tags: [AprilTagDetection; MAX_TAGS] = [AprilTagDetection::zeroed();MAX_TAGS];
        let mut i: usize = 0;
        while i < MAX_TAGS
            invariant
                i <= MAX_TAGS,
                image.len() >= REGION_LEN,
                tags@.len() == MAX_TAGS,
                forall|k: int| 0 <= k < i ==> tags@[k] == tag_at(image@, HEADER_LEN + TAG_LEN * k),
            decreases MAX_TAGS - i,
        {
            tags[i] = read_tag(image, HEADER_LEN + TAG_LEN * i);
            i = i + 1;
        }
        assert(tags@ =~= region_tags(image@));
        SharedTags {
            seq,
            tag_count: read_u32(image, 4),
            timestamp_us: read_u64(image, 8),
            frame_w: read_u32(image, 16),
            frame_h: read_u32(image, 20),
            pad: read_u64(image, 24),
            tags,
        }
    }

    /// Whether a writer is at work: it holds the sequence number odd meanwhile.
    pub fn writer_active(seq: u32) -> (active: bool)
        ensures
            active == (seq % 2 == 1),
    {
        assert(seq & 1 == seq % 2) by (bit_vector);
        seq & 1 == 1
    }

    /// Takes the snapshot out of this copy, unless the copy may be torn:
    /// `seq_after` is the sequence number read after the copy was made, and
    /// the copy counts only if no writer was at work then and none has been
    /// since. The caller reads again when it gets `None`.
    pub fn read_seqlock(&self, seq_after: u32) -> (snapshot: Option<VisionSnapshot>)
        ensures
            snapshot is Some <==> self.seq % 2 == 0 && self.seq == seq_after,
            snapshot matches Some(s) ==> {
                &&& s.well_formed()
                &&& s.timestamp_us == self.timestamp_us
                &&& s.tag_count == if self.tag_count <= MAX_TAGS {
                    self.tag_count
                } else {
                    MAX_TAGS as u32
                }
                &&& s.tags == self.tags
            },
    {
        if Self::writer_active(self.seq) || self.seq != seq_after {
            return None;
        }
        let tag_count = if self.tag_count <= MAX_TAGS as u32 {
            self.tag_count
        } else {
            MAX_TAGS as u32
        };
        Some(VisionSnapshot { timestamp_us: self.timestamp_us, tag_count, tags: self.tags })
    }
}

// ---------------------------------------------------------------------------
// Why an accepted copy is whole
// ---------------------------------------------------------------------------
/// What a writer keeps to while the region goes through its states `from` to
/// `to`: an even sequence number, once left, does not come back, and while it
/// stays the bytes stay as they are. The number may wrap; only all of its values
/// being gone through within these states is ruled out.
pub open spec fn writer_keeps_protocol(
    seqs: Seq<u32>,
    images: Seq<Seq<u8>>,
    from: int,
    to: int,
) -> bool {
    &&& seqs.len() == images.len()
    &&& 0 <= from <= to < seqs.len()
    &&& forall|t: int, u: int, v: int|
        #![trigger seqs[t], seqs[u], seqs[v]]
        from <= t <= u <= v <= to && seqs[t] == seqs[v] && seqs[t] % 2 == 0 ==> seqs[u] == seqs[t]
    &&& forall|t: int|
        #![trigger images[t + 1]]
        from <= t < to && seqs[t] == seqs[t + 1] && seqs[t] % 2 == 0 ==> images[t] == images[t + 1]
}

proof fn lemma_images_stay(seqs: Seq<u32>, images: Seq<Seq<u8>>, from: int, to: int, t: int)
    requires
        writer_keeps_protocol(seqs, images, from, to),
        from <= t <= to,
        seqs[from] == seqs[to],
        seqs[from] % 2 == 0,
    ensures
        images[from] == images[t],
    decreases t - from,
{
    if from < t {
        lemma_images_stay(seqs, images, from, to, t - 1);
        assert(seqs[t - 1] == seqs[from] && seqs[t] == seqs[from]);
        assert(images[t - 1 + 1] == images[t]);
    }
}

/// An accepted copy is a state that the region really was in. When `seq` is
/// read at time `before`, then each byte `i` at its own time `moments[i]`, then
/// `seq` again at time `after`, and [`SharedTags::read_seqlock`] accepts the
/// decoded bytes, they decode to what stood in the region at time `before`.
pub proof fn law_accepted_copy_is_not_torn(
    seqs: Seq<u32>,
    images: Seq<Seq<u8>>,
    before: int,
    moments: Seq<int>,
    after: int,
    copy: Seq<u8>,
    shared: SharedTags,
)
    requires
        writer_keeps_protocol(seqs, images, before, after),
        copy.len() == images[before].len(),
        moments.len() == copy.len(),
        forall|i: int| 0 <= i < moments.len() ==> before <= #[trigger] moments[i] <= after,
        forall|i: int| 0 <= i < copy.len() ==> #[trigger] copy[i] == images[moments[i]][i],
        shared.seq == seqs[before],
        shared.reads_as(copy),
        shared.seq % 2 == 0 && shared.seq == seqs[after],
    ensures
        shared.reads_as(images[before]),
{
    assert forall|i: int| 0 <= i < copy.len() implies copy[i] == images[before][i] by {
        assert(before <= moments[i] <= after);
        lemma_images_stay(seqs, images, before, after, moments[i]);
    }
    assert(copy =~= images[before]);
}

/// Where each value of the region stands, every number least significant byte
/// first: the count at 4, the time at 8, the size of the frame at 16 and 20, and
/// tag `i` in the 44 bytes from 32 + 44 * i on.
pub proof fn law_region_layout(shared: SharedTags, image: Seq<u8>, i: int)
    requires
        shared.reads_as(image),
        0 <= i < 20,
    ensures
        ({
            let four = |at: int|
                image[at] + 0x100 * image[at + 1] + 0x1_0000 * image[at + 2] + 0x100_0000 * image[at
                    + 3];
            let at = 32 + 44 * i;
            let tag = shared.tags@[i];
            &&& shared.tag_count as int == four(4)
            &&& shared.timestamp_us as int == four(8) + 0x1_0000_0000 * four(12)
            &&& shared.frame_w as int == four(16)
            &&& shared.frame_h as int == four(20)
            &&& shared.pad as int == four(24) + 0x1_0000_0000 * four(28)
            &&& tag.id as int == image[at] + 0x100 * image[at + 1]
            &&& tag.hamming == image[at + 2]
            &&& tag.rotation == image[at + 3]
            &&& tag.confidence as int == four(at + 4)
            &&& tag.center_x as int == four(at + 8)
            &&& tag.center_y as int == four(at + 12)
            &&& tag.tx as int == four(at + 16)
            &&& tag.ty as int == four(at + 20)
            &&& tag.tz as int == four(at + 24)
            &&& tag.yaw as int == four(at + 28)
            &&& tag.pitch as int == four(at + 32)
            &&& tag.roll as int == four(at + 36)
            &&& tag.distance_mm as int == four(at + 40)
        }),
{
    let at = 32 + 44 * i;
    lemma_le_splits(image, 8);
    lemma_le_splits(image, 24);
    lemma_le_bytes(image, at);
    lemma_le_bytes(image, 4);
    lemma_le_bytes(image, 8);
    lemma_le_bytes(image, 12);
    lemma_le_bytes(image, 16);
    lemma_le_bytes(image, 20);
    lemma_le_bytes(image, 24);
    lemma_le_bytes(image, 28);
    lemma_le_bytes(image, at + 4);
    lemma_le_bytes(image, at + 8);
    lemma_le_bytes(image, at + 12);
    lemma_le_bytes(image, at + 16);
    lemma_le_bytes(image, at + 20);
    lemma_le_bytes(image, at + 24);
    lemma_le_bytes(image, at + 28);
    lemma_le_bytes(image, at + 32);
    lemma_le_bytes(image, at + 36);
    lemma_le_bytes(image, at + 40);
    assert(shared.tags@[i] == tag_at(image, at));
}

proof fn lemma_le_bytes(image: Seq<u8>, at: int)
    ensures
        le(image, at, 2) == image[at] + 0x100 * image[at + 1],
        le(image, at, 4) == image[at] + 0x100 * image[at + 1] + 0x1_0000 * image[at + 2]
            + 0x100_0000 * image[at + 3],
{
    reveal_with_fuel(le, 5);
}

} // verus!
