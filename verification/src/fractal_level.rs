//! Fractal tracking: telling fractal maps from the link data, deciding when a
//! fractal run starts and ends, and preparing the screenshot that is read for
//! the fractal level.
use vstd::prelude::*;
use crate::decimal::{decimal, push_decimal};
use vstd::utf8::encode_utf8;
use crate::codec::{base64_encode, base64_len, base64_standard, png_encode_rgba8, png_rgba8};

verus! {

/// The ids of the fractal maps. The Mistlock Observatory (872) is not one of them.
pub open spec fn fractal_map_ids() -> Seq<u32> {
    seq![
        947u32, 948, 949, 950, 951, 952, 953, 954, 955, 956, 957, 958, 959, 960, 1164, 1177, 1205,
        1267, 1290, 1384,
    ]
}

/// The ids of the fractal maps, in the order of `fractal_map_ids`.
pub fn fractal_map_id_list() -> (ids: Vec<u32>)
    ensures
        ids@ == fractal_map_ids(),
{
    let ids: Vec<u32> = vec![
        947u32, 948, 949, 950, 951, 952, 953, 954, 955, 956, 957, 958, 959, 960, 1164, 1177, 1205,
        1267, 1290, 1384,
    ];
    assert(ids@ =~= fractal_map_ids());
    ids
}

/// The bytes of the text `"map_id":` (with its quotes).
pub open spec fn map_id_key() -> Seq<u8> {
    seq![34u8, 109, 97, 112, 95, 105, 100, 34, 58]
}

/// The text `"map_id":<id>,` that the link data holds while on map `id`.
pub open spec fn map_marker(id: u32) -> Seq<u8> {
    map_id_key() + decimal(id as nat) + seq![44u8]
}

/// The fractal maps are 947 to 960, 1164, 1177, 1205, 1267, 1290 and 1384:
/// link data that names one of them (by `"map_id":<id>,`) is fractal data,
/// and fractal data names one of them.
pub proof fn lemma_fractal_maps(data: Seq<u8>, id: u32)
    ensures
        (947 <= id <= 960 || id == 1164 || id == 1177 || id == 1205 || id == 1267 || id == 1290 || id == 1384) && contains_bytes(data, map_marker(id)) ==> is_fractal_data(data),
        is_fractal_data(data) ==> exists|m: u32|
            (947 <= m <= 960 || m == 1164 || m == 1177 || m == 1205 || m == 1267 || m == 1290 || m == 1384) && #[trigger] contains_bytes(data, map_marker(m)),
{
    if (947 <= id <= 960 || id == 1164 || id == 1177 || id == 1205 || id == 1267 || id == 1290 || id == 1384) && contains_bytes(data, map_marker(id)) {
        if id == 947 {
            assert(fractal_map_ids()[0] == 947u32);
            assert(contains_bytes(data, map_marker(fractal_map_ids()[0])));
        }
        if id == 948 {
            assert(fractal_map_ids()[1] == 948u32);
            assert(contains_bytes(data, map_marker(fractal_map_ids()[1])));
        }
        if id == 949 {
            assert(fractal_map_ids()[2] == 949u32);
            assert(contains_bytes(data, map_marker(fractal_map_ids()[2])));
        }
        if id == 950 {
            assert(fractal_map_ids()[3] == 950u32);
            assert(contains_bytes(data, map_marker(fractal_map_ids()[3])));
        }
        if id == 951 {
            assert(fractal_map_ids()[4] == 951u32);
            assert(contains_bytes(data, map_marker(fractal_map_ids()[4])));
        }
        if id == 952 {
            assert(fractal_map_ids()[5] == 952u32);
            assert(contains_bytes(data, map_marker(fractal_map_ids()[5])));
        }
        if id == 953 {
            assert(fractal_map_ids()[6] == 953u32);
            assert(contains_bytes(data, map_marker(fractal_map_ids()[6])));
        }
        if id == 954 {
            assert(fractal_map_ids()[7] == 954u32);
            assert(contains_bytes(data, map_marker(fractal_map_ids()[7])));
        }
        if id == 955 {
            assert(fractal_map_ids()[8] == 955u32);
            assert(contains_bytes(data, map_marker(fractal_map_ids()[8])));
        }
        if id == 956 {
            assert(fractal_map_ids()[9] == 956u32);
            assert(contains_bytes(data, map_marker(fractal_map_ids()[9])));
        }
        if id == 957 {
            assert(fractal_map_ids()[10] == 957u32);
            assert(contains_bytes(data, map_marker(fractal_map_ids()[10])));
        }
        if id == 958 {
            assert(fractal_map_ids()[11] == 958u32);
            assert(contains_bytes(data, map_marker(fractal_map_ids()[11])));
        }
        if id == 959 {
            assert(fractal_map_ids()[12] == 959u32);
            assert(contains_bytes(data, map_marker(fractal_map_ids()[12])));
        }
        if id == 960 {
            assert(fractal_map_ids()[13] == 960u32);
            assert(contains_bytes(data, map_marker(fractal_map_ids()[13])));
        }
        if id == 1164 {
            assert(fractal_map_ids()[14] == 1164u32);
            assert(contains_bytes(data, map_marker(fractal_map_ids()[14])));
        }
        if id == 1177 {
            assert(fractal_map_ids()[15] == 1177u32);
            assert(contains_bytes(data, map_marker(fractal_map_ids()[15])));
        }
        if id == 1205 {
            assert(fractal_map_ids()[16] == 1205u32);
            assert(contains_bytes(data, map_marker(fractal_map_ids()[16])));
        }
        if id == 1267 {
            assert(fractal_map_ids()[17] == 1267u32);
            assert(contains_bytes(data, map_marker(fractal_map_ids()[17])));
        }
        if id == 1290 {
            assert(fractal_map_ids()[18] == 1290u32);
            assert(contains_bytes(data, map_marker(fractal_map_ids()[18])));
        }
        if id == 1384 {
            assert(fractal_map_ids()[19] == 1384u32);
            assert(contains_bytes(data, map_marker(fractal_map_ids()[19])));
        }
    }
    if is_fractal_data(data) {
        let k = choose|k: int| 0 <= k < fractal_map_ids().len() && contains_bytes(data, #[trigger] map_marker(fractal_map_ids()[k]));
        if k == 0 {
            assert(fractal_map_ids()[0] == 947u32);
        }
        if k == 1 {
            assert(fractal_map_ids()[1] == 948u32);
        }
        if k == 2 {
            assert(fractal_map_ids()[2] == 949u32);
        }
        if k == 3 {
            assert(fractal_map_ids()[3] == 950u32);
        }
        if k == 4 {
            assert(fractal_map_ids()[4] == 951u32);
        }
        if k == 5 {
            assert(fractal_map_ids()[5] == 952u32);
        }
        if k == 6 {
            assert(fractal_map_ids()[6] == 953u32);
        }
        if k == 7 {
            assert(fractal_map_ids()[7] == 954u32);
        }
        if k == 8 {
            assert(fractal_map_ids()[8] == 955u32);
        }
        if k == 9 {
            assert(fractal_map_ids()[9] == 956u32);
        }
        if k == 10 {
            assert(fractal_map_ids()[10] == 957u32);
        }
        if k == 11 {
            assert(fractal_map_ids()[11] == 958u32);
        }
        if k == 12 {
            assert(fractal_map_ids()[12] == 959u32);
        }
        if k == 13 {
            assert(fractal_map_ids()[13] == 960u32);
        }
        if k == 14 {
            assert(fractal_map_ids()[14] == 1164u32);
        }
        if k == 15 {
            assert(fractal_map_ids()[15] == 1177u32);
        }
        if k == 16 {
            assert(fractal_map_ids()[16] == 1205u32);
        }
        if k == 17 {
            assert(fractal_map_ids()[17] == 1267u32);
        }
        if k == 18 {
            assert(fractal_map_ids()[18] == 1290u32);
        }
        if k == 19 {
            assert(fractal_map_ids()[19] == 1384u32);
        }
        let m = fractal_map_ids()[k];
        assert((947 <= m <= 960 || m == 1164 || m == 1177 || m == 1205 || m == 1267 || m == 1290 || m == 1384) && contains_bytes(data, map_marker(m)));
    }
}

/// `needle` stands in `hay` from index `i` on.
pub open spec fn occurs_at(hay: Seq<u8>, needle: Seq<u8>, i: int) -> bool {
    0 <= i && i + needle.len() <= hay.len() && hay.subrange(i, i + needle.len()) == needle
}

/// `needle` stands somewhere in `hay`.
pub open spec fn contains_bytes(hay: Seq<u8>, needle: Seq<u8>) -> bool {
    exists|i: int| occurs_at(hay, needle, i)
}

/// The link data names one of the fractal maps.
pub open spec fn is_fractal_data(data: Seq<u8>) -> bool {
    exists|k: int| 0 <= k < fractal_map_ids().len() && contains_bytes(data, #[trigger] map_marker(fractal_map_ids()[k]))
}

/// The bytes of `map_marker(id)`.
pub fn map_marker_bytes(id: u32) -> (m: Vec<u8>)
    ensures
        m@ == map_marker(id),
{
    let mut m: Vec<u8> = vec![34u8, 109, 97, 112, 95, 105, 100, 34, 58];
    assert(m@ =~= map_id_key());
    push_decimal(&mut m, id);
    m.push(44u8);
    assert(m@ =~= map_marker(id));
    m
}

/// Does `needle` stand in `hay` from index `i` on?
fn matches_at(hay: &[u8], needle: &[u8], i: usize) -> (r: bool)
    requires
        i + needle@.len() <= hay@.len(),
    ensures
        r == occurs_at(hay@, needle@, i as int),
{
    let hay_len = hay.len();
    let mut j: usize = 0;
    while j < needle.len()
        invariant
            i + needle@.len() <= hay@.len(),
            hay_len == hay@.len(),
            j <= needle@.len(),
            forall|t: int| 0 <= t < j ==> hay@[i + t] == needle@[t],
        decreases needle@.len() - j,
    {
        if hay[i + j] != needle[j] {
            assert(hay@.subrange(i as int, i + needle@.len())[j as int] != needle@[j as int]);
            return false;
        }
        j = j + 1;
    }
    assert(hay@.subrange(i as int, i + needle@.len()) =~= needle@);
    true
}

/// Does `needle` stand anywhere in `hay`?
pub fn contains_slice(hay: &[u8], needle: &[u8]) -> (r: bool)
    ensures
        r == contains_bytes(hay@, needle@),
{
    if needle.len() > hay.len() {
        assert forall|i: int| !occurs_at(hay@, needle@, i) by {}
        return false;
    }
    let last = hay.len() - needle.len();
    let mut i: usize = 0;
    while i < last
        invariant
            last == hay@.len() - needle@.len(),
            i <= last,
            forall|t: int| 0 <= t < i ==> !occurs_at(hay@, needle@, t),
        decreases last - i,
    {
        if matches_at(hay, needle, i) {
            return true;
        }
        i = i + 1;
    }
    if matches_at(hay, needle, last) {
        return true;
    }
    assert forall|t: int| !occurs_at(hay@, needle@, t) by {
        if 0 <= t && t + needle@.len() <= hay@.len() {
            assert(t <= last);
        }
    }
    false
}

/// Whether the link data names one of the fractal maps, by the text
/// `"map_id":<id>,` standing in it.
pub fn is_fractal_link(data: &str) -> (r: bool)
    ensures
        r == is_fractal_data(encode_utf8(data@)),
{
    let hay = data.as_bytes();
    let ids = fractal_map_id_list();
    let mut k: usize = 0;
    while k < ids.len()
        invariant
            hay@ == encode_utf8(data@),
            ids@ == fractal_map_ids(),
            k <= ids@.len(),
            forall|t: int| 0 <= t < k ==> !contains_bytes(hay@, #[trigger] map_marker(fractal_map_ids()[t])),
        decreases ids@.len() - k,
    {
        let marker = map_marker_bytes(ids[k]);
        if contains_slice(hay, marker.as_slice()) {
            assert(contains_bytes(hay@, map_marker(fractal_map_ids()[k as int])));
            return true;
        }
        k = k + 1;
    }
    false
}

/// What the fractal tracker asks for after a link update.
#[derive(Debug, PartialEq, Eq, Structural, Clone, Copy)]
pub enum FractalAction {
    /// Nothing to announce.
    Nothing,
    /// A fractal was entered: announce its start and read the fractal level
    /// off the screen.
    StartFractal,
    /// The fractal was left: announce its end.
    EndFractal,
}

/// Whether a fractal run is under way, updated on every link message.
pub struct FractalTracker {
    is_first_capture: bool,
}

/// The tracker's next state and its action, for a link that is or is not
/// on a fractal map.
pub open spec fn tracker_step(captured: bool, in_fractal: bool) -> (bool, FractalAction) {
    if in_fractal {
        if captured {
            (true, FractalAction::Nothing)
        } else {
            (true, FractalAction::StartFractal)
        }
    } else {
        (false, if captured { FractalAction::EndFractal } else { FractalAction::Nothing })
    }
}

impl FractalTracker {
    /// Whether the current fractal has been announced.
    pub closed spec fn captured(&self) -> bool {
        self.is_first_capture
    }

    /// A tracker outside of any fractal.
    pub fn new() -> (t: FractalTracker)
        ensures
            !t.captured(),
    {
        FractalTracker { is_first_capture: false }
    }

    /// Whether the current fractal has been announced.
    pub fn is_first_capture(&self) -> (b: bool)
        ensures
            b == self.captured(),
    {
        self.is_first_capture
    }

    /// Takes one link message: on entering a fractal map asks for the start
    /// (once), on leaving it asks for the end (if the start was given).
    pub fn on_link(&mut self, data: &str) -> (action: FractalAction)
        ensures
            (final(self).captured(), action) == tracker_step(
                old(self).captured(),
                is_fractal_data(encode_utf8(data@)),
            ),
    {
        if is_fractal_link(data) {
            let v = self.is_first_capture;
            if !v {
                self.is_first_capture = true;
                FractalAction::StartFractal
            } else {
                FractalAction::Nothing
            }
        } else {
            let v = self.is_first_capture;
            self.is_first_capture = false;
            if v {
                FractalAction::EndFractal
            } else {
                FractalAction::Nothing
            }
        }
    }
}

/// The starts and ends announced, in order, for a sequence of links (each
/// on a fractal map or not), from the state `captured`.
pub open spec fn announcements(captured: bool, links: Seq<bool>) -> Seq<FractalAction>
    decreases links.len(),
{
    if links.len() == 0 {
        Seq::empty()
    } else {
        let (next, a) = tracker_step(captured, links[0]);
        (if a == FractalAction::Nothing { Seq::empty() } else { seq![a] }) + announcements(
            next,
            links.drop_first(),
        )
    }
}

/// The tracker's state after a sequence of links.
pub open spec fn state_after(captured: bool, links: Seq<bool>) -> bool
    decreases links.len(),
{
    if links.len() == 0 {
        captured
    } else {
        state_after(tracker_step(captured, links[0]).0, links.drop_first())
    }
}

/// Starts and ends alternate; the first is a start when `starts_first`.
pub open spec fn alternating(starts_first: bool, acts: Seq<FractalAction>) -> bool {
    forall|i: int|
        0 <= i < acts.len() ==> #[trigger] acts[i] == if (i % 2 == 0) == starts_first {
            FractalAction::StartFractal
        } else {
            FractalAction::EndFractal
        }
}

/// Starts and ends of fractal runs alternate: from a state outside a fractal
/// the first announcement is a start, and no run is started twice or ended
/// without having been started. After the links the tracker is in a fractal
/// exactly when the last link was on a fractal map.
pub proof fn lemma_announcements_alternate(captured: bool, links: Seq<bool>)
    ensures
        alternating(!captured, announcements(captured, links)),
        state_after(captured, links) == if links.len() == 0 {
            captured
        } else {
            links.last()
        },
        (announcements(captured, links).len() % 2 == 1) == (state_after(captured, links) != captured),
    decreases links.len(),
{
    if links.len() > 0 {
        let (next, a) = tracker_step(captured, links[0]);
        let rest = links.drop_first();
        lemma_announcements_alternate(next, rest);
        let tail = announcements(next, rest);
        if a == FractalAction::Nothing {
            assert(announcements(captured, links) =~= tail);
        } else {
            assert(announcements(captured, links) =~= seq![a] + tail);
            assert forall|i: int| 0 <= i < (seq![a] + tail).len() implies #[trigger] (seq![a]
                + tail)[i] == if (i % 2 == 0) == !captured {
                FractalAction::StartFractal
            } else {
                FractalAction::EndFractal
            } by {
                if i > 0 {
                    assert((seq![a] + tail)[i] == tail[i - 1]);
                }
            }
        }
        if rest.len() > 0 {
            assert(rest.last() == links.last());
        }
    }
}

/// What a frame holds: its size in pixels and its RGBA bytes, row by row.
pub struct RgbaFrameView {
    pub width: u32,
    pub height: u32,
    pub pixels: Seq<u8>,
}

/// An RGBA image with 8 bits per channel, stored row by row. Its buffer holds
/// at least the `4 * width * height` bytes of its pixels.
pub struct RgbaFrame {
    width: u32,
    height: u32,
    pixels: Vec<u8>,
}

impl View for RgbaFrame {
    type V = RgbaFrameView;

    closed spec fn view(&self) -> RgbaFrameView {
        RgbaFrameView { width: self.width, height: self.height, pixels: self.pixels@ }
    }
}

impl RgbaFrame {
    #[verifier::type_invariant]
    spec fn holds_all_pixels(self) -> bool {
        4 * (self.width as int) * (self.height as int) <= self.pixels@.len()
    }

    /// An image over `buf`, if `buf` holds the `4 * width * height` bytes of
    /// its pixels; as `ImageBuffer::from_raw` does for RGBA images.
    pub fn from_raw(width: u32, height: u32, buf: Vec<u8>) -> (r: Option<RgbaFrame>)
        ensures
            r is Some <==> 4 * (width as int) * (height as int) <= buf@.len(),
            r matches Some(f) ==> f@ == (RgbaFrameView { width, height, pixels: buf@ }),
    {
        assert((width as int) * (height as int) <= 0xffff_ffff_ffff_ffff) by (nonlinear_arith)
            requires
                width <= 0xffff_ffff,
                height <= 0xffff_ffff,
        ;
        let need: u128 = 4u128 * ((width as u128) * (height as u128));
        assert(need == 4 * (width as int) * (height as int)) by (nonlinear_arith)
            requires
                need == 4 * ((width as int) * (height as int)),
        ;
        if need <= buf.len() as u128 {
            Some(RgbaFrame { width, height, pixels: buf })
        } else {
            None
        }
    }

    /// The width in pixels.
    pub fn width(&self) -> (w: u32)
        ensures
            w == self@.width,
    {
        self.width
    }

    /// The height in pixels.
    pub fn height(&self) -> (h: u32)
        ensures
            h == self@.height,
    {
        self.height
    }

    /// The raw buffer.
    pub fn as_raw(&self) -> (b: &[u8])
        ensures
            b@ == self@.pixels,
    {
        self.pixels.as_slice()
    }
}

/// The width of the screenshot region read for the fractal level.
pub const SNAP_WIDTH: u32 = 500;

/// The height of the screenshot region read for the fractal level.
pub const SNAP_HEIGHT: u32 = 200;

/// Row `y` of a captured BGRA frame turned into RGBA: the first three bytes
/// of every pixel reversed and the alpha set to 255.
pub open spec fn flipped_row(buf: Seq<u8>, stride: nat, w: nat, y: nat) -> Seq<u8> {
    Seq::new(
        4 * w,
        |k: int|
            if k % 4 == 3 {
                255u8
            } else {
                buf[stride * y + 4 * (k / 4) + 2 - k % 4]
            },
    )
}

/// The first `rows` rows of a captured frame, turned into RGBA.
pub open spec fn flipped(buf: Seq<u8>, stride: nat, w: nat, rows: nat) -> Seq<u8>
    decreases rows,
{
    if rows == 0 {
        Seq::empty()
    } else {
        flipped(buf, stride, w, (rows - 1) as nat) + flipped_row(buf, stride, w, (rows - 1) as nat)
    }
}

/// Every pixel a conversion reads lies inside the captured buffer, whose
/// rows are `len / h` bytes apart.
pub open spec fn capture_fits(len: nat, w: nat, h: nat) -> bool {
    h > 0 && (w == 0 || (len / h) * (h - 1) + 4 * (w - 1) + 2 < len)
}

/// A converted image has four bytes for every pixel.
pub proof fn lemma_flipped_len(buf: Seq<u8>, stride: nat, w: nat, rows: nat)
    ensures
        flipped(buf, stride, w, rows).len() == 4 * w * rows,
    decreases rows,
{
    if rows > 0 {
        let r1 = (rows - 1) as nat;
        lemma_flipped_len(buf, stride, w, r1);
        assert(flipped_row(buf, stride, w, r1).len() == 4 * w);
        assert(4 * w * r1 + 4 * w == 4 * w * rows) by (nonlinear_arith)
            requires
                r1 + 1 == rows,
        ;
    } else {
        assert(4 * w * rows == 0) by (nonlinear_arith)
            requires
                rows == 0,
        ;
    }
}

/// Pixel `x`, `y` of the converted image is pixel `x`, `y` of the capture
/// with its first three bytes reversed (blue, green, red becomes red, green,
/// blue) and an alpha of 255.
pub proof fn lemma_flipped_pixel(buf: Seq<u8>, stride: nat, w: nat, h: nat, x: nat, y: nat, k: nat)
    requires
        x < w,
        y < h,
        k < 4,
    ensures
        flipped(buf, stride, w, h)[(4 * (y * w + x) + k) as int] == if k == 3 {
            255u8
        } else {
            buf[(stride * y + 4 * x + 2 - k) as int]
        },
    decreases h,
{
    let h1 = (h - 1) as nat;
    lemma_flipped_len(buf, stride, w, h1);
    if y == h1 {
        assert(4 * (y * w + x) + k == 4 * w * h1 + (4 * x + k)) by (nonlinear_arith)
            requires
                y == h1,
        ;
        assert((4 * x + k) % 4 == k);
        assert((4 * x + k) / 4 == x);
    } else {
        assert(4 * (y * w + x) + k < 4 * w * h1) by (nonlinear_arith)
            requires
                y < h1,
                x < w,
                k < 4,
        ;
        lemma_flipped_pixel(buf, stride, w, h1, x, y, k);
    }
}

/// Turns a captured BGRA frame of `w` by `h` pixels, whose rows are
/// `buffer.len() / h` bytes apart, into an RGBA image.
pub fn scrap_buffer_to_rgbaimage(w: usize, h: usize, buffer: &[u8]) -> (img: RgbaFrame)
    requires
        capture_fits(buffer@.len(), w as nat, h as nat),
        w * h * 4 <= usize::MAX,
    ensures
        img@.width == w as u32,
        img@.height == h as u32,
        img@.pixels == flipped(buffer@, buffer@.len() / (h as nat), w as nat, h as nat),
{
    let len = buffer.len();
    let stride = len / h;
    let ghost gstride: nat = stride as nat;
    assert(4 * w <= usize::MAX) by (nonlinear_arith)
        requires
            w * h * 4 <= usize::MAX,
            h > 0,
    ;
    let mut bitflipped: Vec<u8> = Vec::new();
    let mut y: usize = 0;
    while y < h
        invariant
            len == buffer@.len(),
            stride == len / h,
            gstride == stride,
            capture_fits(len as nat, w as nat, h as nat),
            4 * w <= usize::MAX,
            y <= h,
            bitflipped@ == flipped(buffer@, gstride, w as nat, y as nat),
        decreases h - y,
    {
        let ghost before = bitflipped@;
        let ghost row = flipped_row(buffer@, gstride, w as nat, y as nat);
        let mut x: usize = 0;
        while x < w
            invariant
                len == buffer@.len(),
                stride == len / h,
                gstride == stride,
                capture_fits(len as nat, w as nat, h as nat),
                4 * w <= usize::MAX,
                y < h,
                x <= w,
                row == flipped_row(buffer@, gstride, w as nat, y as nat),
                bitflipped@ == before + row.take(4 * x as int),
            decreases w - x,
        {
            assert(stride * y + 4 * x + 2 < len) by (nonlinear_arith)
                requires
                    y < h,
                    x < w,
                    stride * (h - 1) + 4 * (w - 1) + 2 < len,
            ;
            let i = stride * y + 4 * x;
            bitflipped.push(buffer[i + 2]);
            bitflipped.push(buffer[i + 1]);
            bitflipped.push(buffer[i]);
            bitflipped.push(255u8);
            proof {
                assert forall|k: int| 0 <= k < 4 implies #[trigger] row[4 * x + k] == (if k
                    == 3 {
                    255u8
                } else {
                    buffer@[i + 2 - k]
                }) by {
                    assert((4 * x + k) % 4 == k);
                    assert((4 * x + k) / 4 == x);
                }
                assert(row.take(4 * (x + 1) as int) =~= row.take(4 * x as int) + seq![
                    buffer@[i + 2],
                    buffer@[i + 1],
                    buffer@[i as int],
                    255u8,
                ]) by {
                    assert(row[4 * x + 0] == buffer@[i + 2]);
                    assert(row[4 * x + 1] == buffer@[i + 1]);
                    assert(row[4 * x + 2] == buffer@[i + 0]);
                    assert(row[4 * x + 3] == 255u8);
                }
            }
            x = x + 1;
            assert(bitflipped@ =~= before + row.take(4 * x as int));
        }
        assert(row.take(4 * w as int) =~= row);
        y = y + 1;
    }
    proof {
        lemma_flipped_len(buffer@, gstride, w as nat, h as nat);
        assert((w as u32) as usize <= w) by (bit_vector);
        assert((h as u32) as usize <= h) by (bit_vector);
        assert(4 * (w as u32 as int) * (h as u32 as int) <= 4 * w * h) by (nonlinear_arith)
            requires
                (w as u32) as int <= w,
                (h as u32) as int <= h,
        ;
    }
    match RgbaFrame::from_raw(w as u32, h as u32, bitflipped) {
        Some(img) => img,
        None => {
            proof {
                assert(false);
            }
            RgbaFrame { width: 0, height: 0, pixels: Vec::new() }
        },
    }
}

/// The region that `crop_imm` keeps: the corner is moved inside the image
/// and the size cut to what lies inside it.
pub open spec fn crop_dims(iw: u32, ih: u32, x: u32, y: u32, w: u32, h: u32) -> (u32, u32, u32, u32) {
    let x2 = if x < iw { x } else { iw };
    let y2 = if y < ih { y } else { ih };
    let h2 = if h < ih - y2 { h } else { (ih - y2) as u32 };
    let w2 = if w < iw - x2 { w } else { (iw - x2) as u32 };
    (x2, y2, w2, h2)
}

/// The first `rows` rows of the `cw` by `rows` region at column `x`, row
/// `y` of an RGBA image `iw` pixels wide.
pub open spec fn crop_rows(pix: Seq<u8>, iw: nat, x: nat, y: nat, cw: nat, rows: nat) -> Seq<u8>
    decreases rows,
{
    if rows == 0 {
        Seq::empty()
    } else {
        let start = 4 * ((y + rows - 1) * iw + x);
        crop_rows(pix, iw, x, y, cw, (rows - 1) as nat) + pix.subrange(start, start + 4 * cw)
    }
}

/// A cropped region has four bytes for every pixel.
pub proof fn lemma_crop_rows_len(pix: Seq<u8>, iw: nat, x: nat, y: nat, cw: nat, rows: nat)
    requires
        x + cw <= iw,
        4 * (y + rows) * iw <= pix.len(),
    ensures
        crop_rows(pix, iw, x, y, cw, rows).len() == 4 * cw * rows,
    decreases rows,
{
    if rows > 0 {
        let r1 = (rows - 1) as nat;
        assert(4 * (y + r1) * iw <= 4 * (y + rows) * iw) by (nonlinear_arith)
            requires
                r1 + 1 == rows,
        ;
        lemma_crop_rows_len(pix, iw, x, y, cw, r1);
        let start = 4 * ((y + r1) * iw + x);
        assert(start + 4 * cw <= 4 * (y + rows) * iw) by (nonlinear_arith)
            requires
                start == 4 * ((y + r1) * iw + x),
                x + cw <= iw,
                r1 + 1 == rows,
        ;
        assert(4 * cw * r1 + 4 * cw == 4 * cw * rows) by (nonlinear_arith)
            requires
                r1 + 1 == rows,
        ;
    } else {
        assert(4 * cw * rows == 0) by (nonlinear_arith)
            requires
                rows == 0,
        ;
    }
}

/// Pixel `c`, `r` of a cropped region is pixel `x + c`, `y + r` of the image.
pub proof fn lemma_crop_pixel(
    pix: Seq<u8>,
    iw: nat,
    x: nat,
    y: nat,
    cw: nat,
    rows: nat,
    c: nat,
    r: nat,
    k: nat,
)
    requires
        x + cw <= iw,
        4 * (y + rows) * iw <= pix.len(),
        c < cw,
        r < rows,
        k < 4,
    ensures
        crop_rows(pix, iw, x, y, cw, rows)[(4 * (r * cw + c) + k) as int] == pix[(4 * ((y + r) * iw + x + c) + k) as int],
    decreases rows,
{
    let r1 = (rows - 1) as nat;
    assert(4 * (y + r1) * iw <= 4 * (y + rows) * iw) by (nonlinear_arith)
        requires
            r1 + 1 == rows,
    ;
    lemma_crop_rows_len(pix, iw, x, y, cw, r1);
    if r == r1 {
        assert(4 * (r * cw + c) + k == 4 * cw * r1 + (4 * c + k)) by (nonlinear_arith)
            requires
                r == r1,
        ;
        let start = 4 * ((y + r1) * iw + x);
        assert(start + 4 * cw <= 4 * (y + rows) * iw) by (nonlinear_arith)
            requires
                start == 4 * ((y + r1) * iw + x),
                x + cw <= iw,
                r1 + 1 == rows,
        ;
        assert(start + 4 * c + k == 4 * ((y + r) * iw + x + c) + k) by (nonlinear_arith)
            requires
                start == 4 * ((y + r1) * iw + x),
                r == r1,
        ;
    } else {
        assert(4 * (r * cw + c) + k < 4 * cw * r1) by (nonlinear_arith)
            requires
                r < r1,
                c < cw,
                k < 4,
        ;
        lemma_crop_pixel(pix, iw, x, y, cw, r1, c, r, k);
    }
}

/// Copies the `width` by `height` region whose top left corner is at `x`,
/// `y` into an image of its own, cut to the part inside the image; as
/// `imageops::crop_imm(..).to_image()` does.
pub fn crop_imm(frame: &RgbaFrame, x: u32, y: u32, width: u32, height: u32) -> (r: RgbaFrame)
    ensures
        ({
            let (x2, y2, w2, h2) = crop_dims(frame@.width, frame@.height, x, y, width, height);
            &&& r@.width == w2
            &&& r@.height == h2
            &&& r@.pixels == crop_rows(
                frame@.pixels,
                frame@.width as nat,
                x2 as nat,
                y2 as nat,
                w2 as nat,
                h2 as nat,
            )
        }),
{
    proof {
        use_type_invariant(frame);
    }
    let iw = frame.width;
    let ih = frame.height;
    let x2 = if x < iw { x } else { iw };
    let y2 = if y < ih { y } else { ih };
    let h2 = if height < ih - y2 { height } else { ih - y2 };
    let w2 = if width < iw - x2 { width } else { iw - x2 };
    let ghost pix = frame.pixels@;
    let len = frame.pixels.len();
    let mut out: Vec<u8> = Vec::new();
    let mut r: u32 = 0;
    while r < h2
        invariant
            pix == frame.pixels@,
            len == pix.len(),
            4 * (iw as int) * (ih as int) <= len,
            iw == frame@.width,
            x2 + w2 <= iw,
            y2 + h2 <= ih,
            r <= h2,
            out@ == crop_rows(pix, iw as nat, x2 as nat, y2 as nat, w2 as nat, r as nat),
        decreases h2 - r,
    {
        assert(4 * ((y2 + r) * iw + x2) + 4 * w2 <= 4 * iw * ih) by (nonlinear_arith)
            requires
                x2 + w2 <= iw,
                y2 + r < ih,
        ;
        let start: usize = 4 * ((y2 as usize + r as usize) * iw as usize + x2 as usize);
        let end: usize = start + 4 * w2 as usize;
        let ghost before = out@;
        let mut k: usize = start;
        while k < end
            invariant
                pix == frame.pixels@,
                len == pix.len(),
                start <= k <= end,
                end <= len,
                out@ == before + pix.subrange(start as int, k as int),
            decreases end - k,
        {
            out.push(frame.pixels[k]);
            k = k + 1;
            assert(out@ =~= before + pix.subrange(start as int, k as int));
        }
        r = r + 1;
    }
    proof {
        assert(4 * (y2 + h2) * iw <= len) by (nonlinear_arith)
            requires
                y2 + h2 <= ih,
                4 * (iw as int) * (ih as int) <= len,
        ;
        lemma_crop_rows_len(pix, iw as nat, x2 as nat, y2 as nat, w2 as nat, h2 as nat);
    }
    RgbaFrame { width: w2, height: h2, pixels: out }
}

/// The text sent for reading the fractal level: a PNG data URL.
pub open spec fn capture_data_url(png: Seq<u8>) -> Seq<char> {
    "data:image/png;base64,"@ + base64_standard(png)
}

/// The region read for the fractal level: the top right corner of the
/// screen, `SNAP_WIDTH` by `SNAP_HEIGHT` pixels.
pub open spec fn fractal_region(frame: RgbaFrameView) -> (u32, u32, u32, u32) {
    crop_dims(
        frame.width,
        frame.height,
        (frame.width - SNAP_WIDTH) as u32,
        0,
        SNAP_WIDTH,
        SNAP_HEIGHT,
    )
}

/// The pixels of the region read for the fractal level.
pub open spec fn fractal_region_pixels(frame: RgbaFrameView) -> Seq<u8> {
    let (x2, y2, w2, h2) = fractal_region(frame);
    crop_rows(frame.pixels, frame.width as nat, x2 as nat, y2 as nat, w2 as nat, h2 as nat)
}

/// The region read for the fractal level is the top right corner of the
/// screenshot: 500 pixels wide, its first 200 rows (all of them when there
/// are fewer), and its pixel at column `c`, row `r` is the screenshot's pixel
/// at column `width - 500 + c`, row `r`.
pub proof fn lemma_fractal_region_is_top_right(frame: RgbaFrameView)
    requires
        frame.width >= 500,
        4 * (frame.width as int) * (frame.height as int) <= frame.pixels.len(),
    ensures
        fractal_region(frame) == (
            (frame.width - 500) as u32,
            0u32,
            500u32,
            if frame.height < 200 { frame.height } else { 200u32 },
        ),
        fractal_region(frame).2 == 500,
        fractal_region(frame).3 == if frame.height < 200 { frame.height } else { 200 },
        fractal_region_pixels(frame).len() == 4 * 500 * (if frame.height < 200 {
            frame.height as int
        } else {
            200
        }),
        forall|c: int, r: int, k: int|
            0 <= c < 500 && 0 <= r < (if frame.height < 200 { frame.height as int } else { 200 })
                && 0 <= k < 4 ==> #[trigger] fractal_region_pixels(frame)[4 * (r * 500 + c) + k]
                == frame.pixels[4 * (r * frame.width + (frame.width - 500) + c) + k],
{
    let (x2, y2, w2, h2) = fractal_region(frame);
    let w = frame.width as nat;
    assert(x2 == frame.width - 500 && y2 == 0 && w2 == 500);
    assert(4 * (y2 + h2) * w <= frame.pixels.len()) by (nonlinear_arith)
        requires
            y2 + h2 <= frame.height,
            4 * (frame.width as int) * (frame.height as int) <= frame.pixels.len(),
            w == frame.width,
    ;
    lemma_crop_rows_len(frame.pixels, w, x2 as nat, y2 as nat, w2 as nat, h2 as nat);
    assert forall|c: int, r: int, k: int|
        0 <= c < 500 && 0 <= r < (if frame.height < 200 { frame.height as int } else { 200 })
            && 0 <= k < 4 implies #[trigger] fractal_region_pixels(frame)[4 * (r * 500 + c) + k]
        == frame.pixels[4 * (r * frame.width + (frame.width - 500) + c) + k] by {
        lemma_crop_pixel(frame.pixels, w, x2 as nat, y2 as nat, w2 as nat, h2 as nat, c as nat, r as nat, k as nat);
    }
}

/// Crops the top right corner of a screenshot, encodes it as PNG and
/// returns it as a base64 data URL. `None` when the screenshot has no rows
/// (the PNG encoder refuses an empty image), or when the PNG file is too long
/// for its base64 text to have a `usize` length.
pub fn encode_capture(frame: &RgbaFrame) -> (url: Option<String>)
    requires
        frame@.width >= SNAP_WIDTH,
    ensures
        url is Some <==> frame@.height > 0 && base64_len(
            png_rgba8(fractal_region(frame@).2, fractal_region(frame@).3, fractal_region_pixels(frame@)).len(),
        ) <= usize::MAX,
        url matches Some(u) ==> u@ == capture_data_url(
            png_rgba8(fractal_region(frame@).2, fractal_region(frame@).3, fractal_region_pixels(frame@)),
        ),
{
    proof {
        use_type_invariant(frame);
    }
    let cropped = crop_imm(frame, frame.width - SNAP_WIDTH, 0, SNAP_WIDTH, SNAP_HEIGHT);
    proof {
        use_type_invariant(&cropped);
    }
    assert(cropped.pixels@.len() == 4 * (cropped.width as int) * (cropped.height as int)) by {
        let (x2, y2, w2, h2) = fractal_region(frame@);
        assert(4 * (y2 + h2) * frame.width <= 4 * (frame.width as int) * (frame.height as int)) by (nonlinear_arith)
            requires
                y2 + h2 <= frame.height,
        ;
        lemma_crop_rows_len(frame.pixels@, frame.width as nat, x2 as nat, y2 as nat, w2 as nat, h2 as nat);
    }
    let png = png_encode_rgba8(cropped.width, cropped.height, cropped.pixels.as_slice());
    png_data_url(png)
}

/// The data URL of an encoded PNG file; `None` when there is no file or when
/// its base64 text would be too long for its length to fit a `usize`.
pub fn png_data_url(png: Option<Vec<u8>>) -> (url: Option<String>)
    ensures
        url is Some <==> (png matches Some(b) && base64_len(b@.len()) <= usize::MAX),
        url matches Some(u) ==> png matches Some(b) && u@ == capture_data_url(b@),
{
    match png {
        None => None,
        Some(bytes) => {
            let n = bytes.len();
            let full = n / 3;
            let extra: usize = if n % 3 == 0 { 0 } else { 4 };
            if full > (usize::MAX - extra) / 4 {
                return None;
            }
            let encoded = base64_encode(bytes.as_slice());
            let mut url = String::from_str("data:image/png;base64,");
            url.append(encoded.as_str());
            Some(url)
        },
    }
}

/// The meta data read off a fractal screenshot.
pub struct OcrResponseMeta {
    pub fractal_level: u8,
    pub personal_fractal_level: u8,
}

/// The answer of the text recognition service for a fractal screenshot.
pub struct OcrResponse {
    pub raw: String,
    pub lines: Vec<String>,
    pub meta: OcrResponseMeta,
}

impl OcrResponse {
    /// The answer used when the service cannot be reached or its reply cannot
    /// be read: no text, no lines and both levels 0.
    pub fn empty() -> (r: OcrResponse)
        ensures
            r.raw@ == Seq::<char>::empty(),
            r.lines@ == Seq::<String>::empty(),
            r.meta.fractal_level == 0,
            r.meta.personal_fractal_level == 0,
    {
        OcrResponse {
            raw: String::new(),
            lines: Vec::new(),
            meta: OcrResponseMeta { fractal_level: 0, personal_fractal_level: 0 },
        }
    }
}

/// The reply of the text recognition service if it came and could be read,
/// else the empty answer.
pub fn ocr_or_empty(reply: Option<OcrResponse>) -> (r: OcrResponse)
    ensures
        reply matches Some(x) ==> r == x,
        reply is None ==> r.raw@ == Seq::<char>::empty() && r.lines@ == Seq::<String>::empty()
            && r.meta.fractal_level == 0 && r.meta.personal_fractal_level == 0,
{
    match reply {
        Some(x) => x,
        None => OcrResponse::empty(),
    }
}

} // verus!
