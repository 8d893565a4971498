//! Packets, pictures and timestamps, and the frames that a decoder keeps for reference.
use crate::bits::{lemma_pow2i_values, pow2i};
use crate::inter::{RefFrames, RefSlot};
use crate::inter_block::{refs_model, refs_wf, slot_planes};
use vstd::prelude::*;

verus! {

/// A point in time, in units of `num` by `den` seconds.
#[derive(Debug, Clone, Copy, PartialEq, Eq, Structural)]
pub struct Timestamp {
    /// The number of units; none where the time is not known.
    pub value: Option<i64>,
    pub num: u32,
    pub den: u32,
}

/// A time that is not known.
pub open spec fn no_time() -> Timestamp {
    Timestamp { value: None, num: 0, den: 1 }
}

impl Timestamp {
    /// A time that is not known.
    pub fn none() -> (r: Self)
        ensures
            r == no_time(),
    {
        Timestamp { value: None, num: 0, den: 1 }
    }

    /// A number of units of `base.0` by `base.1` seconds.
    pub fn new(value: i64, base: (u32, u32)) -> (r: Self)
        ensures
            r == (Timestamp { value: Some(value), num: base.0, den: base.1 }),
    {
        Timestamp { value: Some(value), num: base.0, den: base.1 }
    }
}

/// The layout of the samples of a picture.
#[derive(Debug, Clone, Copy, PartialEq, Eq, Structural)]
pub enum PixelFormat {
    /// Y, then U, then V, with eight bits a sample and chroma halved both ways.
    Yuv420p,
}

/// A coded packet.
#[derive(Debug, Clone)]
pub struct Packet {
    pub data: Vec<u8>,
    pub is_key_frame: bool,
}

/// A decoded picture.
#[derive(Debug, Clone)]
pub struct VideoFrame {
    pub pts: Timestamp,
    pub dts: Timestamp,
    pub data: Vec<u8>,
    pub width: u32,
    pub height: u32,
    pub pixel_format: PixelFormat,
    pub is_key_frame: bool,
}

/// The model of a picture.
#[verifier::ext_equal]
pub struct FrameModel {
    pub pts: Timestamp,
    pub dts: Timestamp,
    pub data: Seq<u8>,
    pub width: int,
    pub height: int,
    pub is_key_frame: bool,
}

impl View for VideoFrame {
    type V = FrameModel;

    open spec fn view(&self) -> FrameModel {
        FrameModel {
            pts: self.pts,
            dts: self.dts,
            data: self.data@,
            width: self.width as int,
            height: self.height as int,
            is_key_frame: self.is_key_frame,
        }
    }
}

/// The number of luma samples of a picture.
pub open spec fn luma_area(w: int, h: int) -> int {
    w * h
}

/// The number of samples of each chroma plane of a picture.
pub open spec fn chroma_area(w: int, h: int) -> int {
    (w / 2) * (h / 2)
}

impl FrameModel {
    /// The picture holds its three planes.
    pub open spec fn whole(self) -> bool {
        self.data.len() >= luma_area(self.width, self.height) + 2 * chroma_area(
            self.width,
            self.height,
        )
    }

    /// A whole picture of a size that a frame header can code.
    pub open spec fn wf(self) -> bool {
        &&& 0 <= self.width <= 0x1_0000
        &&& 0 <= self.height <= 0x1_0000
        &&& self.whole()
    }

    /// The planes of the picture.
    pub open spec fn planes(self) -> Planes {
        let a = luma_area(self.width, self.height);
        let c = chroma_area(self.width, self.height);
        Planes {
            y: self.data.subrange(0, a),
            u: self.data.subrange(a, a + c),
            v: self.data.subrange(a + c, a + 2 * c),
            width: self.width,
            height: self.height,
        }
    }
}

/// The planes of a picture.
#[verifier::ext_equal]
pub struct Planes {
    pub y: Seq<u8>,
    pub u: Seq<u8>,
    pub v: Seq<u8>,
    pub width: int,
    pub height: int,
}

/// A picture that is kept for reference.
#[derive(Debug, Clone)]
pub struct StoredFrame {
    pub y: Vec<u8>,
    pub u: Vec<u8>,
    pub v: Vec<u8>,
    pub width: usize,
    pub height: usize,
}

impl View for StoredFrame {
    type V = Planes;

    open spec fn view(&self) -> Planes {
        Planes {
            y: self.y@,
            u: self.u@,
            v: self.v@,
            width: self.width as int,
            height: self.height as int,
        }
    }
}

impl Planes {
    /// Planes of the sizes that belong to the picture.
    pub open spec fn wf(self) -> bool {
        &&& 0 <= self.width <= 0x1_0000
        &&& 0 <= self.height <= 0x1_0000
        &&& self.y.len() == luma_area(self.width, self.height)
        &&& self.u.len() == chroma_area(self.width, self.height)
        &&& self.v.len() == chroma_area(self.width, self.height)
    }
}

/// A copy of a part of bytes.
pub fn copy_range(data: &Vec<u8>, from: usize, to: usize) -> (r: Vec<u8>)
    requires
        from <= to <= data@.len(),
    ensures
        r@ == data@.subrange(from as int, to as int),
{
    let mut r: Vec<u8> = Vec::new();
    let mut i: usize = from;
    while i < to
        invariant
            from <= i <= to <= data@.len(),
            r@.len() == i - from,
            forall|k: int| 0 <= k < r@.len() ==> #[trigger] r@[k] == data@[from + k],
        decreases to - i,
    {
        r.push(data[i]);
        i = i + 1;
    }
    assert(r@ =~= data@.subrange(from as int, to as int));
    r
}

/// A copy of bytes.
pub fn copy_bytes(data: &Vec<u8>) -> (r: Vec<u8>)
    ensures
        r@ == data@,
{
    let r: Vec<u8> = copy_range(data, 0, data.len());
    assert(r@ =~= data@);
    r
}

/// Appends bytes.
pub fn append_bytes(a: &mut Vec<u8>, b: &Vec<u8>)
    ensures
        final(a)@ == old(a)@ + b@,
{
    let mut i: usize = 0;
    let ghost a0 = a@;
    while i < b.len()
        invariant
            i <= b@.len(),
            a@.len() == a0.len() + i,
            forall|k: int|
                0 <= k < a@.len() ==> #[trigger] a@[k] == if k < a0.len() {
                    a0[k]
                } else {
                    b@[k - a0.len()]
                },
        decreases b.len() - i,
    {
        a.push(b[i]);
        i = i + 1;
    }
    assert(a@ =~= a0 + b@);
}

/// The areas of a picture that can be held.
pub proof fn lemma_areas(w: int, h: int)
    requires
        0 <= w <= 0x1_0000,
        0 <= h <= 0x1_0000,
    ensures
        0 <= luma_area(w, h) <= 0x1_0000_0000,
        0 <= chroma_area(w, h) <= 0x4000_0000,
        2 * chroma_area(w, h) <= luma_area(w, h),
{
    assert(0 <= w * h <= 0x1_0000_0000) by (nonlinear_arith)
        requires
            0 <= w <= 0x1_0000,
            0 <= h <= 0x1_0000,
    ;
    let a = w / 2;
    let b = h / 2;
    assert(0 <= a * b <= 0x4000_0000) by (nonlinear_arith)
        requires
            0 <= a <= 0x8000,
            0 <= b <= 0x8000,
    ;
    assert(2 * (a * b) <= w * h) by (nonlinear_arith)
        requires
            0 <= a,
            0 <= b,
            2 * a <= w,
            2 * b <= h,
    ;
}

proof fn lemma_area_signs(w: int, h: int)
    requires
        0 <= w,
        0 <= h,
    ensures
        0 <= luma_area(w, h),
        0 <= chroma_area(w, h),
{
    assert(0 <= w * h) by (nonlinear_arith)
        requires
            0 <= w,
            0 <= h,
    ;
    let a = w / 2;
    let b = h / 2;
    assert(0 <= a * b) by (nonlinear_arith)
        requires
            0 <= a,
            0 <= b,
    ;
}

/// Splits a picture into its planes.
pub fn split_planes(f: &VideoFrame) -> (r: (Vec<u8>, Vec<u8>, Vec<u8>))
    requires
        f@.whole(),
    ensures
        r.0@ == f@.planes().y,
        r.1@ == f@.planes().u,
        r.2@ == f@.planes().v,
{
    let w: usize = f.width as usize;
    let h: usize = f.height as usize;
    proof {
        lemma_area_signs(w as int, h as int);
        assert(f.data.len() <= usize::MAX);
    }
    let a: usize = w * h;
    let c: usize = (w / 2) * (h / 2);
    (
        copy_range(&f.data, 0, a),
        copy_range(&f.data, a, a + c),
        copy_range(&f.data, a + c, a + 2 * c),
    )
}

impl StoredFrame {
    /// The picture that is kept, without times.
    pub fn to_video_frame(&self) -> (r: VideoFrame)
        requires
            self@.wf(),
        ensures
            r@ == (FrameModel {
                pts: no_time(),
                dts: no_time(),
                data: self.y@ + self.u@ + self.v@,
                width: self.width as int,
                height: self.height as int,
                is_key_frame: false,
            }),
            r@.wf(),
    {
        let mut data: Vec<u8> = copy_bytes(&self.y);
        append_bytes(&mut data, &self.u);
        append_bytes(&mut data, &self.v);
        VideoFrame {
            pts: Timestamp::none(),
            dts: Timestamp::none(),
            data,
            width: self.width as u32,
            height: self.height as u32,
            pixel_format: PixelFormat::Yuv420p,
            is_key_frame: false,
        }
    }
}

/// What a slot keeps.
pub open spec fn slot_model(s: Option<StoredFrame>) -> Option<Planes> {
    match s {
        Some(f) => Some(f@),
        None => None,
    }
}

/// Bit `i` of a byte of flags.
pub open spec fn flag_bit(flags: int, i: int) -> bool {
    (flags / pow2i(i)) % 2 == 1
}

/// The pictures that are kept for reference, in eight slots.
pub struct RefFrameStore {
    slots: [Option<StoredFrame>; 8],
}

/// The slots after a picture is kept in every slot whose flag is set.
pub open spec fn refreshed(s: Seq<Option<Planes>>, flags: int, p: Planes) -> Seq<Option<Planes>> {
    Seq::new(
        s.len(),
        |i: int|
            if flag_bit(flags, i) {
                Some(p)
            } else {
                s[i]
            },
    )
}

/// The number of the first `n` slots that keep a picture.
pub open spec fn kept(s: Seq<Option<Planes>>, n: int) -> int
    decreases n,
{
    if n <= 0 {
        0
    } else {
        kept(s, n - 1) + if s[n - 1] is Some {
            1int
        } else {
            0
        }
    }
}

/// Every picture that is kept has planes of its size.
pub open spec fn store_wf(s: Seq<Option<Planes>>) -> bool {
    &&& s.len() == 8
    &&& forall|i: int|
        0 <= i < 8 ==> match #[trigger] s[i] {
            Some(p) => p.wf(),
            None => true,
        }
}

impl View for RefFrameStore {
    type V = Seq<Option<Planes>>;

    closed spec fn view(&self) -> Seq<Option<Planes>> {
        Seq::new(8, |i: int| slot_model(self.slots[i]))
    }
}

impl Default for RefFrameStore {
    /// A store without pictures.
    fn default() -> (r: Self)
        ensures
            r@ == Seq::new(8, |i: int| None::<Planes>),
    {
        RefFrameStore::new()
    }
}

impl RefFrameStore {
    /// A store without pictures.
    pub fn new() -> (r: Self)
        ensures
            r@ == Seq::new(8, |i: int| None::<Planes>),
            store_wf(r@),
    {
        let r: RefFrameStore = RefFrameStore {
            slots: [None, None, None, None, None, None, None, None],
        };
        assert(r@ =~= Seq::new(8, |i: int| None::<Planes>));
        r
    }

    /// Keeps a picture in every slot whose flag is set.
    pub fn refresh(&mut self, refresh_flags: u8, frame: &VideoFrame)
        requires
            frame@.whole(),
        ensures
            final(self)@ == refreshed(old(self)@, refresh_flags as int, frame@.planes()),
            store_wf(old(self)@) && frame@.wf() ==> store_wf(final(self)@),
    {
        let planes: (Vec<u8>, Vec<u8>, Vec<u8>) = split_planes(frame);
        let ghost s0 = self@;
        let ghost p = frame@.planes();
        proof {
            lemma_pow2i_values();
            lemma_area_signs(frame.width as int, frame.height as int);
            assert(frame@.wf() ==> p.wf());
        }
        let mut rest: u8 = refresh_flags;
        let mut i: usize = 0;
        while i < 8
            invariant
                i <= 8,
                s0.len() == 8,
                self@.len() == 8,
                p == frame@.planes(),
                planes.0@ == p.y,
                planes.1@ == p.u,
                planes.2@ == p.v,
                rest == refresh_flags as int / pow2i(i as int),
                forall|k: int|
                    0 <= k < 8 ==> #[trigger] self@[k] == if k < i && flag_bit(
                        refresh_flags as int,
                        k,
                    ) {
                        Some(p)
                    } else {
                        s0[k]
                    },
            decreases 8 - i,
        {
            let ghost before = *self;
            if rest % 2 == 1 {
                let kept_frame: StoredFrame = StoredFrame {
                    y: copy_bytes(&planes.0),
                    u: copy_bytes(&planes.1),
                    v: copy_bytes(&planes.2),
                    width: frame.width as usize,
                    height: frame.height as usize,
                };
                assert(kept_frame@ =~= p);
                self.slots[i] = Some(kept_frame);
                assert(forall|k: int| 0 <= k < 8 && k != i ==> #[trigger] self@[k] == before@[k]);
                assert(self@[i as int] == Some(p));
            }
            proof {
                lemma_halve_flags(refresh_flags as int, i as int);
            }
            rest = rest / 2;
            i = i + 1;
        }
        assert(self@ =~= refreshed(s0, refresh_flags as int, p));
    }

    /// The picture in a slot; none for a slot that does not exist.
    pub fn get(&self, slot: usize) -> (r: Option<&StoredFrame>)
        ensures
            match r {
                Some(f) => slot < 8 && self@[slot as int] == Some(f@),
                None => slot >= 8 || self@[slot as int] is None,
            },
    {
        if slot >= 8 {
            return None;
        }
        self.slots[slot].as_ref()
    }

    /// The number of slots that keep a picture.
    pub fn populated(&self) -> (r: usize)
        ensures
            r == kept(self@, 8),
    {
        let mut n: usize = 0;
        let mut i: usize = 0;
        while i < 8
            invariant
                i <= 8,
                n <= i,
                n == kept(self@, i as int),
            decreases 8 - i,
        {
            if self.slots[i].is_some() {
                n = n + 1;
            }
            i = i + 1;
        }
        n
    }
}

pub proof fn lemma_halve_flags(flags: int, i: int)
    requires
        0 <= flags,
        0 <= i,
    ensures
        (flags / pow2i(i)) / 2 == flags / pow2i(i + 1),
{
    crate::bits::lemma_pow2i_mono(0, i);
    vstd::arithmetic::div_mod::lemma_div_denominator(flags, pow2i(i), 2);
    assert(pow2i(i + 1) == pow2i(i) * 2);
}

/// A refresh keeps the picture in just the slots whose flag is set.
pub proof fn law_refresh(s: Seq<Option<Planes>>, flags: int, p: Planes, i: int)
    requires
        s.len() == 8,
        0 <= i < 8,
    ensures
        flag_bit(flags, i) ==> refreshed(s, flags, p)[i] == Some(p),
        !flag_bit(flags, i) ==> refreshed(s, flags, p)[i] == s[i],
{
}

/// All flags set keep the picture in every slot, none leaves the store as it is.
pub proof fn law_refresh_all_or_none(s: Seq<Option<Planes>>, p: Planes)
    requires
        s.len() == 8,
    ensures
        forall|i: int| 0 <= i < 8 ==> #[trigger] refreshed(s, 255, p)[i] == Some(p),
        refreshed(s, 0, p) == s,
{
    lemma_pow2i_values();
    assert forall|i: int| 0 <= i < 8 implies #[trigger] refreshed(s, 255, p)[i] == Some(p) by {
        assert(flag_bit(255, i)) by {
            if i == 0 {
            } else if i == 1 {
            } else if i == 2 {
            } else if i == 3 {
            } else if i == 4 {
            } else if i == 5 {
            } else if i == 6 {
            } else {
                assert(i == 7);
            }
        }
    }
    assert forall|i: int| 0 <= i < 8 implies #[trigger] refreshed(s, 0, p)[i] == s[i] by {
        crate::bits::lemma_pow2i_mono(0, i);
        vstd::arithmetic::div_mod::lemma_basic_div(0, pow2i(i));
    }
    assert(refreshed(s, 0, p) =~= s);
}

/// What a store keeps; nothing without a store.
pub open spec fn store_model(s: Option<&RefFrameStore>) -> Seq<Option<Planes>> {
    match s {
        Some(st) => st@,
        None => Seq::new(8, |i: int| None::<Planes>),
    }
}

fn show_slot<'a>(store: &'a RefFrameStore, i: usize) -> (r: Option<RefSlot<'a>>)
    requires
        i < 8,
    ensures
        slot_planes(r) == store@[i as int],
{
    match store.get(i) {
        Some(f) => Some(
            RefSlot {
                y: f.y.as_slice(),
                u: f.u.as_slice(),
                v: f.v.as_slice(),
                width: f.width,
                height: f.height,
            },
        ),
        None => None,
    }
}

/// The references that a store offers; none without a store.
pub fn build_ref_frames<'a>(ref_store: Option<&'a RefFrameStore>) -> (r: RefFrames<'a>)
    requires
        match ref_store {
            Some(s) => store_wf(s@),
            None => true,
        },
    ensures
        refs_model(r) == store_model(ref_store),
        refs_wf(r),
{
    match ref_store {
        None => {
            let r: RefFrames<'a> = RefFrames::empty();
            assert(refs_model(r) =~= store_model(ref_store));
            r
        },
        Some(s) => {
            let r: RefFrames<'a> = RefFrames {
                slots: [
                    show_slot(s, 0),
                    show_slot(s, 1),
                    show_slot(s, 2),
                    show_slot(s, 3),
                    show_slot(s, 4),
                    show_slot(s, 5),
                    show_slot(s, 6),
                    show_slot(s, 7),
                ],
            };
            proof {
                assert(refs_model(r) =~= s@);
                assert forall|i: int| 0 <= i < 8 implies match #[trigger] r.slots[i] {
                    Some(a) => a.wf(),
                    None => true,
                } by {
                    assert(refs_model(r)[i] == s@[i]);
                }
            }
            r
        },
    }
}

/// One slot has its flag set by any of the refreshes.
pub open spec fn ever_flagged(flags: Seq<u8>, i: int) -> bool {
    exists|k: int| 0 <= k < flags.len() && flag_bit(#[trigger] flags[k] as int, i)
}

/// The number of the first `n` slots whose flag was set by any of the refreshes.
pub open spec fn flagged(flags: Seq<u8>, n: int) -> int
    decreases n,
{
    if n <= 0 {
        0
    } else {
        flagged(flags, n - 1) + if ever_flagged(flags, n - 1) {
            1int
        } else {
            0
        }
    }
}

/// The store after a series of refreshes from an empty one.
pub open spec fn refreshed_by(flags: Seq<u8>, pictures: Seq<Planes>, n: int) -> Seq<Option<Planes>>
    decreases n,
{
    if n <= 0 {
        Seq::new(8, |i: int| None::<Planes>)
    } else {
        refreshed(refreshed_by(flags, pictures, n - 1), flags[n - 1] as int, pictures[n - 1])
    }
}

proof fn lemma_kept_slots(flags: Seq<u8>, pictures: Seq<Planes>, n: int, i: int)
    requires
        0 <= n <= flags.len(),
        0 <= i < 8,
    ensures
        refreshed_by(flags, pictures, n).len() == 8,
        refreshed_by(flags, pictures, n)[i] is Some <==> ever_flagged(flags.take(n), i),
    decreases n,
{
    if n > 0 {
        lemma_kept_slots(flags, pictures, n - 1, i);
        let a = flags.take(n - 1);
        let b = flags.take(n);
        if ever_flagged(a, i) {
            let k = choose|k: int| 0 <= k < a.len() && flag_bit(#[trigger] a[k] as int, i);
            assert(b[k] == a[k]);
        }
        if flag_bit(flags[n - 1] as int, i) {
            assert(b[n - 1] == flags[n - 1]);
        }
        if ever_flagged(b, i) {
            let k = choose|k: int| 0 <= k < b.len() && flag_bit(#[trigger] b[k] as int, i);
            if k < n - 1 {
                assert(a[k] == b[k]);
            }
        }
    }
}

proof fn lemma_kept_count(s: Seq<Option<Planes>>, flags: Seq<u8>, n: int)
    requires
        0 <= n <= 8,
        forall|i: int| 0 <= i < 8 ==> ((#[trigger] s[i]) is Some <==> ever_flagged(flags, i)),
    ensures
        kept(s, n) == flagged(flags, n),
        0 <= kept(s, n) <= n,
    decreases n,
{
    if n > 0 {
        lemma_kept_count(s, flags, n - 1);
        assert(s[n - 1] is Some <==> ever_flagged(flags, n - 1));
    }
}

/// After a series of refreshes as many slots keep a picture as had their flag set by any
/// of them.
pub proof fn law_populated(flags: Seq<u8>, pictures: Seq<Planes>)
    requires
        pictures.len() == flags.len(),
    ensures
        kept(refreshed_by(flags, pictures, flags.len() as int), 8) == flagged(flags, 8),
        0 <= flagged(flags, 8) <= 8,
{
    let n = flags.len() as int;
    let s = refreshed_by(flags, pictures, n);
    assert(flags.take(n) =~= flags);
    assert forall|i: int| 0 <= i < 8 implies ((#[trigger] s[i]) is Some <==> ever_flagged(
        flags,
        i,
    )) by {
        lemma_kept_slots(flags, pictures, n, i);
    }
    lemma_kept_count(s, flags, 8);
}

proof fn lemma_kept_grows(s: Seq<Option<Planes>>, flags: int, p: Planes, n: int)
    requires
        s.len() == 8,
        n <= 8,
    ensures
        kept(s, n) <= kept(refreshed(s, flags, p), n),
    decreases n,
{
    if n > 0 {
        lemma_kept_grows(s, flags, p, n - 1);
    }
}

/// No refresh lessens the number of slots that keep a picture.
pub proof fn law_refresh_loses_nothing(s: Seq<Option<Planes>>, flags: int, p: Planes)
    requires
        s.len() == 8,
    ensures
        kept(s, 8) <= kept(refreshed(s, flags, p), 8),
{
    lemma_kept_grows(s, flags, p, 8);
}

} // verus!
