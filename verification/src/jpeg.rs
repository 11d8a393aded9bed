//! JPEG images: what a decoder can be given.
//!
//! The headers are walked as a decoder walks them: from marker to marker, over what each segment
//! holds, up to the first scan. Two rules are held against them. A decoder that buffers an image
//! sizes its rows after the first component, and reckons with three components where an Adobe
//! segment announces four. And it scales the first coefficient of each block, a sum of differences
//! that go on from block to block, in 32 bits. Behind the first scan a decoder looks for markers in
//! its own way; there, every byte that could begin one counts.
use vstd::arithmetic::power2;
use vstd::prelude::*;

use crate::single::power;

verus! {

/// Every marker begins with this byte.
pub const MARKER: u8 = 0xff;

/// An image begins with this marker.
pub const IMAGE: u8 = 0xd8;

/// A baseline frame; extended and progressive frames follow it.
pub const FRAME: u8 = 0xc0;

/// A progressive frame.
pub const PROGRESSIVE: u8 = 0xc2;

/// Tables of Huffman codes.
pub const CODES: u8 = 0xc4;

/// A scan.
pub const SCAN: u8 = 0xda;

/// Tables of the scales of coefficients.
pub const SCALES: u8 = 0xdb;

/// The interval of restarts.
pub const RESTART: u8 = 0xdd;

/// The application segment in which an image is marked as one of a film.
pub const FILM: u8 = 0xe0;

/// The application segment in which Adobe names the colours.
pub const ADOBE: u8 = 0xee;

/// A comment.
pub const COMMENT: u8 = 0xfe;

/// The colours of four components that an Adobe segment may name: luma, two chromas and black.
pub const YCCK: u8 = 2;

/// How many bits a difference has at most, by the codes that an image of a film may leave out.
pub const FILM_CATEGORY: u8 = 11;

/// How many bits a difference has at most, by any codes.
pub const CATEGORY: u8 = 15;

/// How many blocks at most are decoded from bits that were read ahead of a marker.
pub const READ_AHEAD: u16 = 64;

/// What is added to a scaled coefficient that stands alone in its block.
pub const MIDDLE: u16 = 1028;

/// What the headers of an image say, as far as it matters here.
#[derive(Debug, Clone, Copy)]
pub struct Headers {
    /// Where the frame header stands.
    pub frame: Option<usize>,
    /// Four colours are announced.
    pub four: bool,
    /// The scale of the first coefficient, by each of the four tables.
    pub scales: (u16, u16, u16, u16),
    /// How many bits a difference of first coefficients has at most.
    pub category: u8,
    /// The code of nothing but zeros means no difference.
    pub zero_first: bool,
    /// After how many units the sums begin again; zero for never.
    pub restart: u16,
    /// Where the first scan header stands.
    pub scan: usize,
}

/// The number that two bytes are.
pub open spec fn word(bytes: Seq<u8>, p: int) -> int {
    bytes[p] * 256 + bytes[p + 1]
}

/// A marker stands at `p`. Zeros and further bytes of the same kind after the first one are not
/// part of any.
pub open spec fn marker_at(bytes: Seq<u8>, p: int) -> bool {
    &&& 0 <= p && p + 1 < bytes.len()
    &&& bytes[p] == MARKER
    &&& bytes[p + 1] != 0
    &&& bytes[p + 1] != MARKER
}

/// Where the first marker from `p` on stands; past the last byte if there is none.
pub open spec fn next_marker(bytes: Seq<u8>, p: int) -> int
    decreases bytes.len() - p,
{
    if p < 0 || p + 1 >= bytes.len() {
        bytes.len() as int
    } else if marker_at(bytes, p) {
        p
    } else {
        next_marker(bytes, p + 1)
    }
}

proof fn lemma_next_marker(bytes: Seq<u8>, p: int)
    requires
        0 <= p <= bytes.len(),
    ensures
        p <= next_marker(bytes, p) <= bytes.len(),
        next_marker(bytes, p) < bytes.len() ==> marker_at(bytes, next_marker(bytes, p)),
    decreases bytes.len() - p,
{
    if p + 1 < bytes.len() && !marker_at(bytes, p) {
        lemma_next_marker(bytes, p + 1);
    }
}

/// Where the segment of the marker at `p` ends: as its length says. Of the segment that may hold the
/// word of a film, five bytes are read even where it has four.
pub open spec fn segment_end(bytes: Seq<u8>, p: int) -> int {
    let length = word(bytes, p + 2);
    if bytes[p + 1] == FILM && length == 6 {
        p + 9
    } else {
        p + 2 + length
    }
}

/// How many components the frame header at `p` lists.
pub open spec fn components(bytes: Seq<u8>, p: int) -> int {
    bytes[p + 9] as int
}

/// How finely the component at `i` is sampled across, by the frame header at `p`.
pub open spec fn across(bytes: Seq<u8>, p: int, i: int) -> int {
    bytes[p + 11 + 3 * i] as int / 16
}

/// How finely the component at `i` is sampled down, by the frame header at `p`.
pub open spec fn down(bytes: Seq<u8>, p: int, i: int) -> int {
    bytes[p + 11 + 3 * i] as int % 16
}

/// A frame header stands at `p`: eight bits, one to four components, all within the bytes.
pub open spec fn frame_at(bytes: Seq<u8>, p: int) -> bool {
    &&& 0 <= p && p + 10 <= bytes.len()
    &&& bytes[p] == MARKER
    &&& FRAME <= bytes[p + 1] <= PROGRESSIVE
    &&& bytes[p + 4] == 8
    &&& 1 <= components(bytes, p) <= 4
    &&& bytes[p + 2] == 0
    &&& bytes[p + 3] == 8 + 3 * components(bytes, p)
    &&& p + 10 + 3 * components(bytes, p) <= bytes.len()
}

/// The word by which an Adobe segment is known.
pub open spec fn adobe_word(bytes: Seq<u8>, q: int) -> bool {
    &&& bytes[q + 4] == 0x41
    &&& bytes[q + 5] == 0x64
    &&& bytes[q + 6] == 0x6f
    &&& bytes[q + 7] == 0x62
    &&& bytes[q + 8] == 0x65
}

/// The word by which an image of a film is known.
pub open spec fn film_word(bytes: Seq<u8>, q: int) -> bool {
    &&& bytes[q + 4] == 0x41
    &&& bytes[q + 5] == 0x56
    &&& bytes[q + 6] == 0x49
    &&& bytes[q + 7] == 0x31
    &&& bytes[q + 8] == 0
}

/// An Adobe segment that announces four components stands at `q`.
pub open spec fn four_colours_at(bytes: Seq<u8>, q: int) -> bool {
    &&& 0 <= q && q + 16 <= bytes.len()
    &&& bytes[q] == MARKER
    &&& bytes[q + 1] == ADOBE
    &&& adobe_word(bytes, q)
    &&& bytes[q + 15] == YCCK
}

/// The scale that one of the four tables gives; zero for a table that cannot be.
pub open spec fn scale(scales: (u16, u16, u16, u16), i: int) -> u16 {
    if i == 0 {
        scales.0
    } else if i == 1 {
        scales.1
    } else if i == 2 {
        scales.2
    } else if i == 3 {
        scales.3
    } else {
        0
    }
}

/// The scales with that of one table set.
pub open spec fn rescaled(scales: (u16, u16, u16, u16), i: int, to: u16) -> (u16, u16, u16, u16) {
    (
        if i == 0 {
            to
        } else {
            scales.0
        },
        if i == 1 {
            to
        } else {
            scales.1
        },
        if i == 2 {
            to
        } else {
            scales.2
        },
        if i == 3 {
            to
        } else {
            scales.3
        },
    )
}

/// The scales after the tables between `p` and `end`: each of 64 numbers of one byte or of two, as
/// the byte before them says.
pub open spec fn scales_from(
    bytes: Seq<u8>,
    p: int,
    end: int,
    scales: (u16, u16, u16, u16),
) -> (u16, u16, u16, u16)
    decreases end - p,
{
    let wide = bytes[p] / 16;
    let size = 65 + 64 * wide;
    if p >= end || wide > 1 || p + size > end {
        scales
    } else {
        let first = if wide == 0 {
            bytes[p + 1] as u16
        } else {
            word(bytes, p + 1) as u16
        };
        scales_from(bytes, p + size, end, rescaled(scales, bytes[p] as int % 16, first))
    }
}

/// The sum of `n` bytes.
pub open spec fn summed(bytes: Seq<u8>, p: int, n: int) -> int
    decreases n,
{
    if n <= 0 {
        0
    } else {
        summed(bytes, p, n - 1) + bytes[p + n - 1]
    }
}

/// The largest of some bytes, and of `least`.
pub open spec fn largest(bytes: Seq<u8>, p: int, end: int, least: u8) -> u8
    decreases end - p,
{
    if p >= end {
        least
    } else {
        largest(
            bytes,
            p + 1,
            end,
            if bytes[p] > least {
                bytes[p]
            } else {
                least
            },
        )
    }
}

/// What is known after the codes between `p` and `end`: each table a byte for what it is, sixteen
/// for how many codes there are of each length, and what the codes mean, the code of zeros first.
pub open spec fn codes_from(bytes: Seq<u8>, p: int, end: int, h: Headers) -> Headers
    decreases end - p,
{
    let n = summed(bytes, p + 1, 16);
    if end - p <= 16 || n < 0 || p + 17 + n > end {
        h
    } else {
        codes_from(
            bytes,
            p + 17 + n,
            end,
            if bytes[p] / 16 == 0 {
                Headers {
                    category: largest(bytes, p + 17, p + 17 + n, h.category),
                    zero_first: h.zero_first && (n == 0 || bytes[p + 17] == 0),
                    ..h
                }
            } else {
                h
            },
        )
    }
}

/// What is known after the segment of the marker at `p`. A frame of one component overrides what
/// was announced before it.
pub open spec fn after_segment(bytes: Seq<u8>, p: int, h: Headers) -> Headers {
    let code = bytes[p + 1];
    let end = segment_end(bytes, p);
    if frame_at(bytes, p) {
        Headers { frame: Some(p as usize), four: h.four && components(bytes, p) != 1, ..h }
    } else if code == ADOBE && p + 16 <= bytes.len() && adobe_word(bytes, p) {
        Headers { four: bytes[p + 15] == YCCK, ..h }
    } else if code == SCALES {
        Headers { scales: scales_from(bytes, p + 4, end, h.scales), ..h }
    } else if code == CODES {
        codes_from(bytes, p + 4, end, h)
    } else if code == RESTART && p + 6 <= bytes.len() {
        Headers { restart: word(bytes, p + 4) as u16, ..h }
    } else if code == FILM && p + 9 <= bytes.len() && film_word(bytes, p) && h.category
        < FILM_CATEGORY {
        Headers { category: FILM_CATEGORY, ..h }
    } else {
        h
    }
}

/// What is known at the first scan, with `h` known at `p`; nothing where a decoder gives up before
/// it comes there.
pub open spec fn headers_from(bytes: Seq<u8>, p: int, h: Headers) -> Option<Headers>
    decreases bytes.len() - p,
{
    let m = next_marker(bytes, p);
    if m < p || m + 4 > bytes.len() || word(bytes, m + 2) < 2 {
        None
    } else if bytes[m + 1] == SCAN {
        Some(Headers { scan: m as usize, ..h })
    } else if segment_end(bytes, m) >= bytes.len() {
        None
    } else {
        headers_from(bytes, segment_end(bytes, m), after_segment(bytes, m, h))
    }
}

/// Nothing is known.
pub open spec fn blank() -> Headers {
    Headers {
        frame: None,
        four: false,
        scales: (0, 0, 0, 0),
        category: 0,
        zero_first: true,
        restart: 0,
        scan: 0,
    }
}

/// What the headers of an image say; nothing where a decoder gives up before the first scan.
pub open spec fn headers(bytes: Seq<u8>) -> Option<Headers> {
    if bytes.len() >= 2 && bytes[0] == MARKER && bytes[1] == IMAGE {
        headers_from(bytes, 2, blank())
    } else {
        None
    }
}

/// From `s` on every scan header lists `count` components.
pub open spec fn only_scans_of(bytes: Seq<u8>, s: int, count: int) -> bool {
    forall|q: int|
        s <= q && q + 5 <= bytes.len() && #[trigger] bytes[q] == MARKER && bytes[q + 1] == SCAN
            ==> bytes[q + 4] == count
}

/// No component is sampled more finely across than the first one.
pub open spec fn finest_first(bytes: Seq<u8>, p: int) -> bool {
    forall|i: int|
        0 <= i < components(bytes, p) ==> #[trigger] across(bytes, p, i) <= across(bytes, p, 0)
}

/// Rows that are sized after the first component are long enough for the others: it is the finest
/// one, or nothing is buffered, because every scan of a frame that is not progressive holds all
/// components.
pub open spec fn rows_suffice(bytes: Seq<u8>, p: int, s: int) -> bool {
    finest_first(bytes, p) || (bytes[p + 1] != PROGRESSIVE && only_scans_of(
        bytes,
        s,
        components(bytes, p),
    ))
}

/// Three components are not reckoned with where fewer are there: four colours are not announced for
/// a progressive frame of one or two components, neither by the headers nor behind them.
pub open spec fn colours_suffice(bytes: Seq<u8>, p: int, h: Headers) -> bool {
    bytes[p + 1] == PROGRESSIVE && components(bytes, p) < 3 ==> !h.four && forall|q: int|
        h.scan <= q ==> !#[trigger] four_colours_at(bytes, q)
}

/// The image is laid out in a way that the decoder can be given.
pub open spec fn layout_handled(bytes: Seq<u8>) -> bool {
    match headers(bytes) {
        Some(h) => match h.frame {
            Some(p) => rows_suffice(bytes, p as int, h.scan as int) && colours_suffice(
                bytes,
                p as int,
                h,
            ),
            None => true,
        },
        None => true,
    }
}

/// How often a marker of this kind may stand in the bytes from `p` on.
pub open spec fn marked(bytes: Seq<u8>, p: int, code: u8) -> nat
    decreases bytes.len() - p,
{
    if p < 0 || p + 1 >= bytes.len() {
        0
    } else if bytes[p] == MARKER && bytes[p + 1] == code {
        1 + marked(bytes, p + 1, code)
    } else {
        marked(bytes, p + 1, code)
    }
}

/// The largest sampling factors of the first `n` components, across and down; one at least.
pub open spec fn finest(bytes: Seq<u8>, p: int, n: int) -> (int, int)
    decreases n,
{
    if n <= 0 {
        (1, 1)
    } else {
        let (x, y) = finest(bytes, p, n - 1);
        let (a, b) = (across(bytes, p, n - 1), down(bytes, p, n - 1));
        (
            if a > x {
                a
            } else {
                x
            },
            if b > y {
                b
            } else {
                y
            },
        )
    }
}

/// How many units of so many blocks a length of pixels has.
pub open spec fn units(length: int, factor: int) -> int {
    (length + 8 * factor - 1) / (8 * factor)
}

/// How many blocks of the component at `i` a unit holds.
pub open spec fn unit_blocks(bytes: Seq<u8>, p: int, i: int) -> int {
    across(bytes, p, i) * down(bytes, p, i)
}

/// How many blocks of the component at `i` the frame holds.
pub open spec fn frame_blocks(bytes: Seq<u8>, p: int, i: int) -> int {
    let (x, y) = finest(bytes, p, components(bytes, p));
    units(word(bytes, p + 7), x) * units(word(bytes, p + 5), y) * unit_blocks(bytes, p, i)
}

/// The codes of first coefficients are those of the headers.
pub open spec fn codes_kept(bytes: Seq<u8>, h: Headers) -> bool {
    marked(bytes, h.scan as int, CODES) == 0
}

/// The sums begin again after every restart interval, or nothing is added to them from there on:
/// where a restart is missing, only bits that were read ahead and zeros are left to decode.
pub open spec fn restarts_kept(bytes: Seq<u8>, h: Headers) -> bool {
    &&& h.restart > 0
    &&& h.zero_first
    &&& codes_kept(bytes, h)
    &&& marked(bytes, h.scan as int, RESTART) == 0
}

/// Over how many blocks of the component at `i` a scan adds up differences at most.
pub open spec fn run_blocks(bytes: Seq<u8>, p: int, h: Headers, i: int) -> int {
    let all = frame_blocks(bytes, p, i);
    let some = h.restart * unit_blocks(bytes, p, i) + READ_AHEAD;
    if restarts_kept(bytes, h) && some < all {
        some
    } else {
        all
    }
}

/// How many bits a difference of first coefficients has at most.
pub open spec fn category(bytes: Seq<u8>, h: Headers) -> nat {
    if codes_kept(bytes, h) && h.category < CATEGORY {
        h.category as nat
    } else {
        CATEGORY as nat
    }
}

/// The first coefficients of the component at `i` stay within 32 bits in being scaled: the largest
/// difference, added up over all blocks of each scan, times the scale.
pub open spec fn component_fits(bytes: Seq<u8>, p: int, h: Headers, i: int) -> bool {
    marked(bytes, h.scan as int, SCAN) * (run_blocks(bytes, p, h, i) * (power2::pow2(
        category(bytes, h),
    ) - 1) * scale(h.scales, bytes[p + 12 + 3 * i] as int)) + MIDDLE <= i32::MAX
}

/// The first coefficients of every component stay within 32 bits in being scaled. Those of a
/// progressive image are kept in 16 bits before.
pub open spec fn frame_fits(bytes: Seq<u8>, p: int, h: Headers) -> bool {
    bytes[p + 1] != PROGRESSIVE ==> forall|i: int|
        0 <= i < components(bytes, p) ==> #[trigger] component_fits(bytes, p, h, i)
}

/// The image has no scales by which a decoder could be led beyond 32 bits.
pub open spec fn scales_fit(bytes: Seq<u8>) -> bool {
    match headers(bytes) {
        Some(h) => match h.frame {
            Some(p) => frame_fits(bytes, p as int, h),
            None => true,
        },
        None => true,
    }
}

fn read_word(bytes: &[u8], p: usize) -> (r: usize)
    requires
        p + 1 < bytes.len(),
    ensures
        r == word(bytes@, p as int),
        r < 0x1_0000,
{
    bytes[p] as usize * 256 + bytes[p + 1] as usize
}

fn find_marker(bytes: &[u8], p: usize) -> (r: usize)
    requires
        p <= bytes.len(),
    ensures
        r == next_marker(bytes@, p as int),
        p <= r <= bytes.len(),
        r < bytes.len() ==> marker_at(bytes@, r as int),
{
    let len: usize = bytes.len();
    let mut q: usize = p;
    while q < len && len - q > 1
        invariant
            len == bytes.len(),
            p <= q <= len,
            next_marker(bytes@, q as int) == next_marker(bytes@, p as int),
        decreases len - q,
    {
        if bytes[q] == MARKER && bytes[q + 1] != 0 && bytes[q + 1] != MARKER {
            return q;
        }
        q = q + 1;
    }
    len
}

fn is_frame(bytes: &[u8], p: usize) -> (r: bool)
    requires
        p < bytes.len(),
    ensures
        r == frame_at(bytes@, p as int),
{
    if bytes.len() - p < 10 {
        return false;
    }
    let n: usize = bytes[p + 9] as usize;
    bytes[p] == MARKER && FRAME <= bytes[p + 1] && bytes[p + 1] <= PROGRESSIVE && bytes[p + 4] == 8
        && 1 <= n && n <= 4 && bytes[p + 2] == 0 && bytes[p + 3] as usize == 8 + 3 * n
        && bytes.len() - p >= 10 + 3 * n
}

fn rescale(scales: (u16, u16, u16, u16), i: u8, to: u16) -> (r: (u16, u16, u16, u16))
    ensures
        r == rescaled(scales, i as int, to),
{
    let mut r = scales;
    if i == 0 {
        r.0 = to;
    } else if i == 1 {
        r.1 = to;
    } else if i == 2 {
        r.2 = to;
    } else if i == 3 {
        r.3 = to;
    }
    r
}

fn read_scales(bytes: &[u8], p: usize, end: usize, scales: (u16, u16, u16, u16)) -> (r: (
    u16,
    u16,
    u16,
    u16,
))
    requires
        p <= end < bytes.len(),
    ensures
        r == scales_from(bytes@, p as int, end as int, scales),
{
    let len: usize = bytes.len();
    let mut q: usize = p;
    let mut r = scales;
    while q < end
        invariant
            len == bytes.len(),
            q <= end < len,
            scales_from(bytes@, q as int, end as int, r) == scales_from(
                bytes@,
                p as int,
                end as int,
                scales,
            ),
        decreases end - q,
    {
        let wide: u8 = bytes[q] / 16;
        let size: usize = 65 + 64 * (wide as usize);
        if wide > 1 || size > end - q {
            return r;
        }
        let first: u16 = if wide == 0 {
            bytes[q + 1] as u16
        } else {
            read_word(bytes, q + 1) as u16
        };
        r = rescale(r, bytes[q] % 16, first);
        q = q + size;
    }
    r
}

fn sum(bytes: &[u8], p: usize, n: usize) -> (r: usize)
    requires
        p + n <= bytes.len(),
        n <= 16,
    ensures
        r == summed(bytes@, p as int, n as int),
        r <= 255 * n,
{
    let mut i: usize = 0;
    let mut r: usize = 0;
    while i < n
        invariant
            i <= n <= 16,
            p + n <= bytes.len(),
            r == summed(bytes@, p as int, i as int),
            r <= 255 * i,
        decreases n - i,
    {
        r = r + bytes[p + i] as usize;
        i = i + 1;
    }
    r
}

fn find_largest(bytes: &[u8], p: usize, end: usize, least: u8) -> (r: u8)
    requires
        p <= end <= bytes.len(),
    ensures
        r == largest(bytes@, p as int, end as int, least),
{
    let mut q: usize = p;
    let mut r: u8 = least;
    while q < end
        invariant
            p <= q <= end <= bytes.len(),
            largest(bytes@, q as int, end as int, r) == largest(
                bytes@,
                p as int,
                end as int,
                least,
            ),
        decreases end - q,
    {
        if bytes[q] > r {
            r = bytes[q];
        }
        q = q + 1;
    }
    r
}

fn read_codes(bytes: &[u8], p: usize, end: usize, known: Headers) -> (r: Headers)
    requires
        p <= end < bytes.len(),
    ensures
        r == codes_from(bytes@, p as int, end as int, known),
{
    let len: usize = bytes.len();
    let mut q: usize = p;
    let mut h = known;
    while end - q > 16
        invariant
            len == bytes.len(),
            q <= end < len,
            codes_from(bytes@, q as int, end as int, h) == codes_from(
                bytes@,
                p as int,
                end as int,
                known,
            ),
        decreases end - q,
    {
        let n: usize = sum(bytes, q + 1, 16);
        if end - q < 17 + n {
            return h;
        }
        if bytes[q] / 16 == 0 {
            h.category = find_largest(bytes, q + 17, q + 17 + n, h.category);
            h.zero_first = h.zero_first && (n == 0 || bytes[q + 17] == 0);
        }
        q = q + 17 + n;
    }
    h
}

fn is_adobe(bytes: &[u8], q: usize) -> (r: bool)
    requires
        q + 9 <= bytes.len(),
    ensures
        r == adobe_word(bytes@, q as int),
{
    bytes[q + 4] == 0x41 && bytes[q + 5] == 0x64 && bytes[q + 6] == 0x6f && bytes[q + 7] == 0x62
        && bytes[q + 8] == 0x65
}

fn is_film(bytes: &[u8], q: usize) -> (r: bool)
    requires
        q + 9 <= bytes.len(),
    ensures
        r == film_word(bytes@, q as int),
{
    bytes[q + 4] == 0x41 && bytes[q + 5] == 0x56 && bytes[q + 6] == 0x49 && bytes[q + 7] == 0x31
        && bytes[q + 8] == 0
}

fn read_segment(bytes: &[u8], p: usize, end: usize, known: Headers) -> (r: Headers)
    requires
        marker_at(bytes@, p as int),
        end == segment_end(bytes@, p as int),
        p + 4 <= end < bytes.len(),
    ensures
        r == after_segment(bytes@, p as int, known),
{
    let len: usize = bytes.len();
    let code: u8 = bytes[p + 1];
    let mut h = known;
    if is_frame(bytes, p) {
        h.frame = Some(p);
        h.four = h.four && bytes[p + 9] != 1;
    } else if code == ADOBE && len - p >= 16 && is_adobe(bytes, p) {
        h.four = bytes[p + 15] == YCCK;
    } else if code == SCALES {
        h.scales = read_scales(bytes, p + 4, end, h.scales);
    } else if code == CODES {
        h = read_codes(bytes, p + 4, end, h);
    } else if code == RESTART && len - p >= 6 {
        h.restart = read_word(bytes, p + 4) as u16;
    } else if code == FILM && len - p >= 9 && is_film(bytes, p) && h.category < FILM_CATEGORY {
        h.category = FILM_CATEGORY;
    }
    h
}

/// Walks the headers of an image up to its first scan; nothing where a decoder gives up before.
pub fn read_headers(bytes: &[u8]) -> (r: Option<Headers>)
    ensures
        r == headers(bytes@),
{
    let len: usize = bytes.len();
    if len < 2 || bytes[0] != MARKER || bytes[1] != IMAGE {
        return None;
    }
    let mut h = Headers {
        frame: None,
        four: false,
        scales: (0, 0, 0, 0),
        category: 0,
        zero_first: true,
        restart: 0,
        scan: 0,
    };
    let mut p: usize = 2;
    loop
        invariant
            len == bytes.len(),
            2 <= p <= len,
            headers_from(bytes@, p as int, h) == headers(bytes@),
        decreases len - p,
    {
        let m: usize = find_marker(bytes, p);
        if len - m < 4 {
            return None;
        }
        let length: usize = read_word(bytes, m + 2);
        if length < 2 {
            return None;
        }
        if bytes[m + 1] == SCAN {
            h.scan = m;
            return Some(h);
        }
        let over: usize = if bytes[m + 1] == FILM && length == 6 {
            9
        } else {
            2 + length
        };
        if over >= len - m {
            return None;
        }
        h = read_segment(bytes, m, m + over, h);
        p = m + over;
    }
}

fn first_is_finest(bytes: &[u8], p: usize) -> (r: bool)
    requires
        frame_at(bytes@, p as int),
    ensures
        r == finest_first(bytes@, p as int),
{
    let len: usize = bytes.len();
    let n: usize = bytes[p + 9] as usize;
    let first: u8 = bytes[p + 11] / 16;
    let mut i: usize = 0;
    while i < n
        invariant
            i <= n,
            len == bytes.len(),
            n == components(bytes@, p as int),
            frame_at(bytes@, p as int),
            first == across(bytes@, p as int, 0),
            forall|k: int|
                0 <= k < i ==> #[trigger] across(bytes@, p as int, k) <= across(
                    bytes@,
                    p as int,
                    0,
                ),
        decreases n - i,
    {
        if bytes[p + 11 + 3 * i] / 16 > first {
            assert(across(bytes@, p as int, i as int) > first);
            return false;
        }
        i = i + 1;
    }
    true
}

fn scans_hold(bytes: &[u8], s: usize, count: u8) -> (r: bool)
    requires
        s <= bytes.len(),
    ensures
        r == only_scans_of(bytes@, s as int, count as int),
{
    let mut q: usize = s;
    while q < bytes.len() && bytes.len() - q >= 5
        invariant
            s <= q <= bytes.len(),
            forall|k: int|
                s <= k < q && k + 5 <= bytes.len() && #[trigger] bytes@[k] == MARKER && bytes@[k
                    + 1] == SCAN ==> bytes@[k + 4] == count,
        decreases bytes.len() - q,
    {
        if bytes[q] == MARKER && bytes[q + 1] == SCAN && bytes[q + 4] != count {
            assert(bytes@[q as int] == MARKER);
            return false;
        }
        q = q + 1;
    }
    true
}

fn announces_four(bytes: &[u8], q: usize) -> (r: bool)
    requires
        q < bytes.len(),
    ensures
        r == four_colours_at(bytes@, q as int),
{
    bytes.len() - q >= 16 && bytes[q] == MARKER && bytes[q + 1] == ADOBE && is_adobe(bytes, q)
        && bytes[q + 15] == YCCK
}

fn colours_hold(bytes: &[u8], p: usize, h: &Headers) -> (r: bool)
    requires
        frame_at(bytes@, p as int),
        h.scan <= bytes.len(),
    ensures
        r == colours_suffice(bytes@, p as int, *h),
{
    let len: usize = bytes.len();
    if bytes[p + 1] != PROGRESSIVE || bytes[p + 9] >= 3 {
        return true;
    }
    if h.four {
        return false;
    }
    let mut q: usize = h.scan;
    while q < len
        invariant
            len == bytes.len(),
            p + 9 < len,
            h.scan <= q <= len,
            bytes@[p + 1] == PROGRESSIVE,
            components(bytes@, p as int) < 3,
            forall|k: int| h.scan <= k < q ==> !#[trigger] four_colours_at(bytes@, k),
        decreases len - q,
    {
        if announces_four(bytes, q) {
            assert(four_colours_at(bytes@, q as int));
            return false;
        }
        q = q + 1;
    }
    true
}

proof fn lemma_places(bytes: Seq<u8>, p: int, h: Headers)
    requires
        0 <= p <= bytes.len() <= usize::MAX,
        h.frame matches Some(f) ==> frame_at(bytes, f as int),
    ensures
        headers_from(bytes, p, h) matches Some(r) ==> {
            &&& r.scan + 4 <= bytes.len()
            &&& bytes[r.scan as int] == MARKER && bytes[r.scan + 1] == SCAN
            &&& r.frame matches Some(f) ==> frame_at(bytes, f as int)
        },
    decreases bytes.len() - p,
{
    lemma_next_marker(bytes, p);
    let m = next_marker(bytes, p);
    if !(m + 4 > bytes.len() || word(bytes, m + 2) < 2 || bytes[m + 1] == SCAN || segment_end(
        bytes,
        m,
    ) >= bytes.len()) {
        lemma_codes_keep(bytes, m + 4, segment_end(bytes, m), h);
        lemma_places(bytes, segment_end(bytes, m), after_segment(bytes, m, h));
    }
}

proof fn lemma_codes_keep(bytes: Seq<u8>, p: int, end: int, h: Headers)
    ensures
        codes_from(bytes, p, end, h).frame == h.frame,
    decreases end - p,
{
    let n = summed(bytes, p + 1, 16);
    if !(end - p <= 16 || n < 0 || p + 17 + n > end) {
        lemma_codes_keep(
            bytes,
            p + 17 + n,
            end,
            if bytes[p] / 16 == 0 {
                Headers {
                    category: largest(bytes, p + 17, p + 17 + n, h.category),
                    zero_first: h.zero_first && (n == 0 || bytes[p + 17] == 0),
                    ..h
                }
            } else {
                h
            },
        );
    }
}

/// Whether the image is laid out in a way that a decoder can be given.
pub fn check_layout(bytes: &[u8]) -> (r: bool)
    ensures
        r == layout_handled(bytes@),
{
    let len: usize = bytes.len();
    proof {
        if len >= 2 {
            lemma_places(bytes@, 2, blank());
        }
    }
    match read_headers(bytes) {
        Some(h) => match h.frame {
            Some(p) => (first_is_finest(bytes, p) || (bytes[p + 1] != PROGRESSIVE && scans_hold(
                bytes,
                h.scan,
                bytes[p + 9],
            ))) && colours_hold(bytes, p, &h),
            None => true,
        },
        None => true,
    }
}

fn count(bytes: &[u8], p: usize, code: u8) -> (r: usize)
    requires
        p <= bytes.len(),
    ensures
        r == marked(bytes@, p as int, code),
{
    let len: usize = bytes.len();
    let mut q: usize = p;
    let mut r: usize = 0;
    while q < len && len - q > 1
        invariant
            len == bytes.len(),
            p <= q <= len,
            r <= q - p,
            r + marked(bytes@, q as int, code) == marked(bytes@, p as int, code),
        decreases len - q,
    {
        if bytes[q] == MARKER && bytes[q + 1] == code {
            r = r + 1;
        }
        q = q + 1;
    }
    r
}

fn find_finest(bytes: &[u8], p: usize) -> (r: (u64, u64))
    requires
        frame_at(bytes@, p as int),
    ensures
        (r.0 as int, r.1 as int) == finest(bytes@, p as int, components(bytes@, p as int)),
        1 <= r.0 <= 15,
        1 <= r.1 <= 15,
{
    let len: usize = bytes.len();
    let n: usize = bytes[p + 9] as usize;
    let mut x: u64 = 1;
    let mut y: u64 = 1;
    let mut i: usize = 0;
    while i < n
        invariant
            i <= n,
            len == bytes.len(),
            n == components(bytes@, p as int),
            frame_at(bytes@, p as int),
            (x as int, y as int) == finest(bytes@, p as int, i as int),
            1 <= x <= 15,
            1 <= y <= 15,
        decreases n - i,
    {
        let factors: u8 = bytes[p + 11 + 3 * i];
        if (factors / 16) as u64 > x {
            x = (factors / 16) as u64;
        }
        if (factors % 16) as u64 > y {
            y = (factors % 16) as u64;
        }
        i = i + 1;
    }
    (x, y)
}

fn count_units(length: usize, factor: u64) -> (r: u64)
    requires
        length < 0x1_0000,
        1 <= factor <= 15,
    ensures
        r == units(length as int, factor as int),
        r <= 0x1_0000,
{
    let r: u64 = (length as u64 + 8 * factor - 1) / (8 * factor);
    proof {
        let (n, d) = (length + 8 * factor - 1, 8 * factor as int);
        assert(n / d <= 0x1_0000) by (nonlinear_arith)
            requires
                0 <= n < 0x1_0000 + d,
                d >= 8,
        ;
    }
    r
}

fn take_scale(scales: &(u16, u16, u16, u16), i: u8) -> (r: u16)
    ensures
        r == scale(*scales, i as int),
{
    if i == 0 {
        scales.0
    } else if i == 1 {
        scales.1
    } else if i == 2 {
        scales.2
    } else if i == 3 {
        scales.3
    } else {
        0
    }
}

/// The blocks over which a scan adds up differences of the component at `i`, at most.
fn count_blocks(bytes: &[u8], p: usize, h: &Headers, i: usize, restarts: bool) -> (r: u64)
    requires
        frame_at(bytes@, p as int),
        i < components(bytes@, p as int),
        restarts == restarts_kept(bytes@, *h),
    ensures
        r == run_blocks(bytes@, p as int, *h, i as int),
        r <= 0x100_0000_0000,
{
    let len: usize = bytes.len();
    let (x, y) = find_finest(bytes, p);
    let wide: u64 = count_units(read_word(bytes, p + 7), x);
    let high: u64 = count_units(read_word(bytes, p + 5), y);
    let factors: u8 = bytes[p + 11 + 3 * i];
    let (a, b): (u64, u64) = ((factors / 16) as u64, (factors % 16) as u64);
    proof {
        assert(0 <= a * b <= 225) by (nonlinear_arith)
            requires
                0 <= a <= 15,
                0 <= b <= 15,
        ;
        assert(0 <= wide * high <= 0x1_0000_0000) by (nonlinear_arith)
            requires
                0 <= wide <= 0x1_0000,
                0 <= high <= 0x1_0000,
        ;
        let (u, w) = (a * b, wide * high);
        assert(0 <= w * u <= 0x1_0000_0000 * 225) by (nonlinear_arith)
            requires
                0 <= u <= 225,
                0 <= w <= 0x1_0000_0000,
        ;
        let r = h.restart as int;
        assert(0 <= r * u <= 0x1_0000 * 225) by (nonlinear_arith)
            requires
                0 <= u <= 225,
                0 <= r <= 0x1_0000,
        ;
    }
    let unit: u64 = a * b;
    let all: u64 = wide * high * unit;
    let some: u64 = h.restart as u64 * unit + READ_AHEAD as u64;
    if restarts && some < all {
        some
    } else {
        all
    }
}

/// Whether the first coefficients of every component stay within 32 bits in being scaled.
pub fn check_scales(bytes: &[u8]) -> (r: bool)
    ensures
        r == scales_fit(bytes@),
{
    let len: usize = bytes.len();
    proof {
        if len >= 2 {
            lemma_places(bytes@, 2, blank());
        }
    }
    let h = match read_headers(bytes) {
        Some(h) => h,
        None => return true,
    };
    let p: usize = match h.frame {
        Some(p) => p,
        None => return true,
    };
    if bytes[p + 1] == PROGRESSIVE {
        return true;
    }
    let scans: usize = count(bytes, h.scan, SCAN);
    let kept = count(bytes, h.scan, CODES) == 0;
    let restarts = h.restart > 0 && h.zero_first && kept && count(bytes, h.scan, RESTART) == 0;
    let bits: u8 = if kept && h.category < CATEGORY {
        h.category
    } else {
        CATEGORY
    };
    let reach: u128 = power(bits as u32) - 1;
    proof {
        power2::lemma2_to64();
        if bits < 15 {
            power2::lemma_pow2_strictly_increases(bits as nat, 15);
        }
    }
    let n: usize = bytes[p + 9] as usize;
    let mut i: usize = 0;
    while i < n
        invariant
            i <= n,
            len == bytes.len(),
            n == components(bytes@, p as int),
            frame_at(bytes@, p as int),
            scans == marked(bytes@, h.scan as int, SCAN),
            scans >= 1,
            restarts == restarts_kept(bytes@, h),
            bits == category(bytes@, h),
            reach == power2::pow2(bits as nat) - 1,
            reach < 0x8000,
            bytes@[p + 1] != PROGRESSIVE,
            headers(bytes@) == Some(h),
            h.frame == Some(p),
            forall|k: int| 0 <= k < i ==> #[trigger] component_fits(bytes@, p as int, h, k),
        decreases n - i,
    {
        let blocks: u128 = count_blocks(bytes, p, &h, i, restarts) as u128;
        let step: u128 = take_scale(&h.scales, bytes[p + 12 + 3 * i]) as u128;
        proof {
            assert(0 <= blocks * reach <= 0x100_0000_0000 * 0x8000) by (nonlinear_arith)
                requires
                    0 <= blocks <= 0x100_0000_0000,
                    0 <= reach <= 0x8000,
            ;
            let x = blocks * reach;
            assert(0 <= x * step <= 0x100_0000_0000 * 0x8000 * 0x1_0000) by (nonlinear_arith)
                requires
                    0 <= x <= 0x100_0000_0000 * 0x8000,
                    0 <= step <= 0x1_0000,
            ;
        }
        let one: u128 = blocks * reach * step;
        let most: u128 = i32::MAX as u128 - MIDDLE as u128;
        proof {
            let (a, b, m) = (scans as int, one as int, most as int);
            if b > m {
                assert(a * b > m) by (nonlinear_arith)
                    requires
                        a >= 1,
                        b > m,
                        m >= 0,
                ;
            }
            if b <= m {
                assert(0 <= a * b <= 0x1_0000_0000_0000_0000 * 0x8000_0000) by (nonlinear_arith)
                    requires
                        0 <= a <= 0x1_0000_0000_0000_0000,
                        0 <= b <= m,
                        m <= 0x8000_0000,
                ;
            }
            assert(component_fits(bytes@, p as int, h, i as int) == (a * b <= m));
        }
        if one > most || scans as u128 * one > most {
            proof {
                assert(!component_fits(bytes@, p as int, h, i as int));
                assert(!frame_fits(bytes@, p as int, h));
            }
            return false;
        }
        i = i + 1;
    }
    true
}

/// The usual layouts can be decoded: luma that is at least as fine as the chromas, with no Adobe
/// segment that announces four colours.
pub proof fn usual_layouts_are_handled(bytes: Seq<u8>, h: Headers, p: usize)
    requires
        headers(bytes) == Some(h),
        h.frame == Some(p),
        finest_first(bytes, p as int),
        !h.four,
        forall|q: int| h.scan <= q ==> !#[trigger] four_colours_at(bytes, q),
    ensures
        layout_handled(bytes),
{
}

/// Two images are the same from `p` on.
pub open spec fn same_from(a: Seq<u8>, b: Seq<u8>, p: int) -> bool {
    a.len() == b.len() && forall|i: int| p <= i < a.len() ==> #[trigger] a[i] == b[i]
}

proof fn lemma_same_marker(a: Seq<u8>, b: Seq<u8>, p: int)
    requires
        same_from(a, b, p),
    ensures
        next_marker(a, p) == next_marker(b, p),
    decreases a.len() - p,
{
    if 0 <= p && p + 1 < a.len() && !marker_at(a, p) {
        lemma_same_marker(a, b, p + 1);
    }
}

proof fn lemma_same_scales(
    a: Seq<u8>,
    b: Seq<u8>,
    p: int,
    end: int,
    scales: (u16, u16, u16, u16),
)
    requires
        0 <= p,
        end < a.len(),
        same_from(a, b, p),
    ensures
        scales_from(a, p, end, scales) == scales_from(b, p, end, scales),
    decreases end - p,
{
    if p < end {
        let wide = a[p] / 16;
        let size = 65 + 64 * wide;
        if wide <= 1 && p + size <= end {
            let first = if wide == 0 {
                a[p + 1] as u16
            } else {
                word(a, p + 1) as u16
            };
            lemma_same_scales(a, b, p + size, end, rescaled(scales, a[p] as int % 16, first));
        }
    }
}

proof fn lemma_same_sum(a: Seq<u8>, b: Seq<u8>, p: int, n: int)
    requires
        p + n <= a.len(),
        same_from(a, b, p),
    ensures
        summed(a, p, n) == summed(b, p, n),
    decreases n,
{
    if n > 0 {
        lemma_same_sum(a, b, p, n - 1);
    }
}

proof fn lemma_same_largest(a: Seq<u8>, b: Seq<u8>, p: int, end: int, least: u8)
    requires
        end <= a.len(),
        same_from(a, b, p),
    ensures
        largest(a, p, end, least) == largest(b, p, end, least),
    decreases end - p,
{
    if p < end {
        lemma_same_largest(
            a,
            b,
            p + 1,
            end,
            if a[p] > least {
                a[p]
            } else {
                least
            },
        );
    }
}

proof fn lemma_same_codes(a: Seq<u8>, b: Seq<u8>, p: int, end: int, h: Headers)
    requires
        0 <= p,
        end < a.len(),
        same_from(a, b, p),
    ensures
        codes_from(a, p, end, h) == codes_from(b, p, end, h),
    decreases end - p,
{
    if end - p > 16 {
        let n = summed(a, p + 1, 16);
        lemma_same_sum(a, b, p + 1, 16);
        if n >= 0 && p + 17 + n <= end {
            lemma_same_largest(a, b, p + 17, p + 17 + n, h.category);
            lemma_same_codes(
                a,
                b,
                p + 17 + n,
                end,
                if a[p] / 16 == 0 {
                    Headers {
                        category: largest(a, p + 17, p + 17 + n, h.category),
                        zero_first: h.zero_first && (n == 0 || a[p + 17] == 0),
                        ..h
                    }
                } else {
                    h
                },
            );
        }
    }
}

proof fn lemma_same_headers(a: Seq<u8>, b: Seq<u8>, p: int, h: Headers)
    requires
        0 <= p <= a.len(),
        same_from(a, b, p),
    ensures
        headers_from(a, p, h) == headers_from(b, p, h),
    decreases a.len() - p,
{
    let m = next_marker(a, p);
    lemma_same_marker(a, b, p);
    lemma_next_marker(a, p);
    if m + 4 <= a.len() && word(a, m + 2) >= 2 && a[m + 1] != SCAN && segment_end(a, m) < a.len() {
        let end = segment_end(a, m);
        lemma_same_scales(a, b, m + 4, end, h.scales);
        lemma_same_codes(a, b, m + 4, end, h);
        assert(after_segment(a, m, h) == after_segment(b, m, h));
        lemma_same_headers(a, b, end, after_segment(a, m, h));
    }
}

/// What stands in a comment does not matter: from any point of the walk, the headers of two images
/// that differ in nothing but the next comment say the same, whatever its bytes look like.
pub proof fn comments_do_not_matter(a: Seq<u8>, b: Seq<u8>, p: int, m: int, h: Headers)
    requires
        0 <= p <= a.len(),
        m == next_marker(a, p),
        m + 4 <= a.len(),
        a[m + 1] == COMMENT,
        word(a, m + 2) >= 2,
        a.len() == b.len(),
        forall|i: int|
            0 <= i < a.len() && !(m + 4 <= i < segment_end(a, m)) ==> #[trigger] a[i] == b[i],
    ensures
        headers_from(a, p, h) == headers_from(b, p, h),
{
    lemma_next_marker(a, p);
    lemma_first_marker(a, b, p, m);
    if segment_end(a, m) < a.len() {
        assert(after_segment(a, m, h) == h && after_segment(b, m, h) == h);
        lemma_same_headers(a, b, segment_end(a, m), h);
    }
}

proof fn lemma_first_marker(a: Seq<u8>, b: Seq<u8>, p: int, m: int)
    requires
        0 <= p <= m,
        m + 1 < a.len(),
        m == next_marker(a, p),
        marker_at(a, m),
        a.len() == b.len(),
        forall|i: int| p <= i <= m + 1 ==> #[trigger] a[i] == b[i],
    ensures
        next_marker(b, p) == m,
    decreases m - p,
{
    if p < m {
        lemma_next_marker(a, p + 1);
        lemma_first_marker(a, b, p + 1, m);
    }
}

/// The marker that is found is the first: a byte of ones, and one behind it that is neither that nor
/// zero; before it there is none.
pub proof fn the_first_marker_is_found(bytes: Seq<u8>, p: int, q: int)
    requires
        0 <= p <= q,
        q + 1 < bytes.len(),
    ensures
        q < next_marker(bytes, p) ==> !(bytes[q] == 0xff && bytes[q + 1] != 0 && bytes[q + 1]
            != 0xff),
        bytes[q] == 0xff && bytes[q + 1] != 0 && bytes[q + 1] != 0xff ==> p <= next_marker(bytes, p)
            <= q,
        q == next_marker(bytes, p) ==> bytes[q] == 0xff && bytes[q + 1] != 0 && bytes[q + 1]
            != 0xff,
    decreases q - p,
{
    lemma_next_marker(bytes, p);
    if p < q && !marker_at(bytes, p) {
        the_first_marker_is_found(bytes, p + 1, q);
    }
}

/// A table sets the scale of its number, to the first of its 64 numbers, and no other; numbers of
/// two bytes have the higher one first.
pub proof fn a_table_sets_its_scale(
    bytes: Seq<u8>,
    p: int,
    scales: (u16, u16, u16, u16),
    i: int,
)
    requires
        0 <= i < 4,
    ensures
        bytes[p] < 4 ==> scale(scales_from(bytes, p, p + 65, scales), i) == if i == bytes[p] {
            bytes[p + 1] as u16
        } else {
            scale(scales, i)
        },
        16 <= bytes[p] < 20 ==> scale(scales_from(bytes, p, p + 129, scales), i) == if i + 16
            == bytes[p] {
            (bytes[p + 1] * 256 + bytes[p + 2]) as u16
        } else {
            scale(scales, i)
        },
{
    reveal_with_fuel(scales_from, 2);
}

/// The finest sampling is that of some component, or one, and none is finer.
pub proof fn no_component_is_finer_than_the_finest(bytes: Seq<u8>, p: int, n: int, i: int)
    requires
        0 <= i < n,
    ensures
        ({
            let (x, y) = finest(bytes, p, n);
            &&& x >= 1 && y >= 1
            &&& x >= bytes[p + 11 + 3 * i] as int / 16
            &&& y >= bytes[p + 11 + 3 * i] as int % 16
            &&& x == 1 || exists|j: int| 0 <= j < n && x == #[trigger] across(bytes, p, j)
            &&& y == 1 || exists|j: int| 0 <= j < n && y == #[trigger] down(bytes, p, j)
        }),
    decreases n,
{
    reveal_with_fuel(finest, 2);
    assert(across(bytes, p, n - 1) == across(bytes, p, n - 1) && down(bytes, p, n - 1) == down(
        bytes,
        p,
        n - 1,
    ));
    if i < n - 1 {
        no_component_is_finer_than_the_finest(bytes, p, n - 1, i);
    } else if n > 1 {
        no_component_is_finer_than_the_finest(bytes, p, n - 1, 0);
    }
}

/// Nothing is refused that has no frame header before its first scan, or comes to none: the decoder
/// refuses it itself. Nor is a progressive image for its scales, nor one of one component for its
/// rows.
pub proof fn what_is_left_to_the_decoder(bytes: Seq<u8>, h: Headers, p: usize)
    ensures
        headers(bytes) is None ==> layout_handled(bytes) && scales_fit(bytes),
        headers(bytes) == Some(h) && h.frame is None ==> layout_handled(bytes) && scales_fit(bytes),
        headers(bytes) == Some(h) && h.frame == Some(p) && bytes[p + 1] == 0xc2 ==> scales_fit(bytes),
        headers(bytes) == Some(h) && h.frame == Some(p) && bytes[p + 9] == 1 ==> rows_suffice(
            bytes,
            p as int,
            h.scan as int,
        ),
        bytes.len() < 2 ==> headers(bytes) is None,
        bytes.len() >= 2 && (bytes[0] != 0xff || bytes[1] != 0xd8) ==> headers(bytes) is None,
{
}

/// Images without restarts whose first coefficients differ by so many bits at most are refused for
/// their scales if and only if the sum of the largest differences over all blocks, scan after scan,
/// could go beyond 32 bits in being scaled.
pub proof fn what_32_bits_hold_is_not_refused(bytes: Seq<u8>, h: Headers, p: usize)
    requires
        headers(bytes) == Some(h),
        h.frame == Some(p),
        bytes[p + 1] != 0xc2,
        h.restart == 0,
        h.category <= 15,
        marked(bytes, h.scan as int, 0xc4) == 0,
    ensures
        scales_fit(bytes) <==> forall|i: int|
            #![trigger bytes[p + 11 + 3 * i]]
            0 <= i < bytes[p + 9] ==> {
                let s = bytes[p + 11 + 3 * i] as int;
                let (x, y) = finest(bytes, p as int, bytes[p + 9] as int);
                let width = bytes[p + 7] * 256 + bytes[p + 8];
                let height = bytes[p + 5] * 256 + bytes[p + 6];
                let blocks = (width + 8 * x - 1) / (8 * x) * ((height + 8 * y - 1) / (8 * y)) * (s
                    / 16 * (s % 16));
                marked(bytes, h.scan as int, 0xda) * (blocks * (power2::pow2(h.category as nat) - 1)
                    * scale(h.scales, bytes[p + 12 + 3 * i] as int)) + 1028 <= 0x7fff_ffff
            },
{
    let q = p as int;
    assert forall|i: int|
        #![trigger bytes[p + 11 + 3 * i]]
        0 <= i < components(bytes, q) && scales_fit(bytes) implies component_fits(
        bytes,
        q,
        h,
        i,
    ) by {
    }
    assert forall|i: int| #[trigger] component_fits(bytes, q, h, i) implies bytes[p + 11 + 3 * i]
        == bytes[p + 11 + 3 * i] by {
    }
    if !scales_fit(bytes) {
        let i = choose|i: int|
            0 <= i < components(bytes, q) && !#[trigger] component_fits(bytes, q, h, i);
        assert(bytes[p + 11 + 3 * i] == bytes[p + 11 + 3 * i]);
    }
}

/// A layout is refused for two reasons alone. A component is sampled more finely across than the
/// first one, and the frame is progressive or some scan does not hold all components. Or the frame
/// is progressive, has one or two components, and four colours are announced for it.
pub proof fn why_a_layout_is_refused(bytes: Seq<u8>, h: Headers, p: usize)
    requires
        headers(bytes) == Some(h),
        h.frame == Some(p),
    ensures
        layout_handled(bytes) <==> {
            &&& (forall|i: int|
                #![trigger bytes[p + 11 + 3 * i]]
                0 <= i < bytes[p + 9] ==> bytes[p + 11 + 3 * i] as int / 16 <= bytes[p + 11] as int
                    / 16) || (bytes[p + 1] != 0xc2 && forall|q: int|
                h.scan <= q && q + 5 <= bytes.len() && #[trigger] bytes[q] == 0xff && bytes[q + 1]
                    == 0xda ==> bytes[q + 4] == bytes[p + 9])
            &&& bytes[p + 1] == 0xc2 && bytes[p + 9] < 3 ==> !h.four && forall|q: int|
                h.scan <= q ==> !#[trigger] four_colours_at(bytes, q)
        },
{
    let q = p as int;
    assert(across(bytes, q, 0) == bytes[p + 11] as int / 16);
    assert(finest_first(bytes, q) <==> forall|i: int|
        #![trigger bytes[p + 11 + 3 * i]]
        0 <= i < bytes[p + 9] ==> bytes[p + 11 + 3 * i] as int / 16 <= bytes[p + 11] as int
            / 16) by {
        if finest_first(bytes, q) {
            assert forall|i: int| #![trigger bytes[p + 11 + 3 * i]] 0 <= i < bytes[p
                + 9] implies bytes[p + 11 + 3 * i] as int / 16 <= bytes[p + 11] as int / 16 by {
                assert(across(bytes, q, i) <= across(bytes, q, 0));
            }
        } else {
            let i = choose|i: int|
                0 <= i < components(bytes, q) && !(#[trigger] across(bytes, q, i) <= across(
                    bytes,
                    q,
                    0,
                ));
            assert(bytes[p + 11 + 3 * i] as int / 16 > bytes[p + 11] as int / 16);
        }
    }
}

/// A segment is as long as its two bytes of length say, themselves counted, the higher one first.
pub proof fn a_segment_is_as_long_as_it_says(bytes: Seq<u8>, p: int)
    ensures
        bytes[p + 1] != 0xe0 ==> segment_end(bytes, p) == p + 2 + bytes[p + 2] * 256 + bytes[p + 3],
        bytes[p + 2] * 256 + bytes[p + 3] != 6 ==> segment_end(bytes, p) == p + 2 + bytes[p + 2] * 256
            + bytes[p + 3],
{
}

/// A frame header is known by its marker, by its length, and by eight bits to the sample; it lists
/// one to four components. What it says of four colours overrides nothing, unless it lists one.
pub proof fn a_frame_header_is_known(bytes: Seq<u8>, p: int, n: int, h: Headers)
    requires
        1 <= n <= 4,
        0 <= p <= usize::MAX,
        p + 10 + 3 * n <= bytes.len(),
        bytes[p] == 0xff,
        bytes[p + 1] == 0xc0 || bytes[p + 1] == 0xc1 || bytes[p + 1] == 0xc2,
        bytes[p + 2] == 0,
        bytes[p + 3] == 8 + 3 * n,
        bytes[p + 4] == 8,
        bytes[p + 9] == n,
    ensures
        after_segment(bytes, p, h).frame == Some(p as usize),
        after_segment(bytes, p, h).four == (h.four && n > 1),
        after_segment(bytes, p, h).scales == h.scales,
        after_segment(bytes, p, h).category == h.category,
        after_segment(bytes, p, h).restart == h.restart,
{
}

/// Restarts shorten the sums only where they are kept: where the code of zeros means no difference,
/// and neither codes nor the interval change behind the headers.
pub proof fn only_kept_restarts_count(bytes: Seq<u8>, p: int, h: Headers, i: int)
    ensures
        h.restart == 0 || !h.zero_first || marked(bytes, h.scan as int, 0xc4) > 0 || marked(
            bytes,
            h.scan as int,
            0xdd,
        ) > 0 ==> run_blocks(bytes, p, h, i) == frame_blocks(bytes, p, i),
        run_blocks(bytes, p, h, i) <= frame_blocks(bytes, p, i),
        h.restart > 0 && h.zero_first && marked(bytes, h.scan as int, 0xc4) == 0 && marked(
            bytes,
            h.scan as int,
            0xdd,
        ) == 0 ==> run_blocks(bytes, p, h, i) <= h.restart * (bytes[p + 11 + 3 * i] as int / 16 * (
        bytes[p + 11 + 3 * i] as int % 16)) + 64,
        marked(bytes, h.scan as int, 0xc4) > 0 ==> category(bytes, h) == 15,
        marked(bytes, h.scan as int, 0xc4) == 0 && h.category <= 15 ==> category(bytes, h)
            == h.category,
        category(bytes, h) <= 15,
{
}

} // verus!
