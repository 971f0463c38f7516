//! Screenshots: what counts as an image, how large it is, and what is handed
//! on of it.
use vstd::prelude::*;

use crate::text::Text;

pub mod unix;
pub mod windows;

verus! {

/// The largest image that is handed on, in bytes.
pub const MAX_IMAGE_BYTES: u64 = 8_388_608;

/// A captured desktop: the image, how large it is and how large the desktop was.
#[derive(Debug)]
pub struct Screenshot {
    pub data: Vec<u8>,
    pub mime_type: &'static str,
    pub backend: &'static str,
    pub width: u32,
    pub height: u32,
    pub source_width: u32,
    pub source_height: u32,
}

// ---------------------------------------------------------------------------
// Bytes
// ---------------------------------------------------------------------------
/// Whether bytes start with others.
pub open spec fn starts(data: Seq<u8>, head: Seq<u8>) -> bool {
    head.len() <= data.len() && data.take(head.len() as int) == head
}

/// Whether bytes end with others.
pub open spec fn ends(data: Seq<u8>, tail: Seq<u8>) -> bool {
    tail.len() <= data.len() && data.skip(data.len() - tail.len()) == tail
}

/// The first bytes of every PNG image.
pub open spec fn png_head() -> Seq<u8> {
    seq![0x89u8, 0x50, 0x4e, 0x47, 0x0d, 0x0a, 0x1a, 0x0a]
}

/// The number that two bytes spell, the high one first.
pub open spec fn be16(d: Seq<u8>, i: int) -> int {
    d[i] * 256 + d[i + 1]
}

/// The number that four bytes spell, the highest first.
pub open spec fn be32(d: Seq<u8>, i: int) -> int {
    be16(d, i) * 65_536 + be16(d, i + 2)
}

fn starts_png(data: &[u8]) -> (r: bool)
    ensures
        r == starts(data@, png_head()),
{
    if data.len() < 8 {
        return false;
    }
    let r = data[0] == 0x89 && data[1] == 0x50 && data[2] == 0x4e && data[3] == 0x47 && data[4]
        == 0x0d && data[5] == 0x0a && data[6] == 0x1a && data[7] == 0x0a;
    proof {
        let head = data@.take(8);
        if r {
            assert(head =~= png_head());
        } else {
            assert(head[0] == data@[0] && head[1] == data@[1] && head[2] == data@[2] && head[3]
                == data@[3] && head[4] == data@[4] && head[5] == data@[5] && head[6] == data@[6]
                && head[7] == data@[7]);
        }
    }
    r
}

fn read16(data: &[u8], i: usize) -> (r: u32)
    requires
        i + 2 <= data@.len(),
    ensures
        r == be16(data@, i as int),
        r <= 0xffff,
{
    data[i] as u32 * 256 + data[i + 1] as u32
}

fn read32(data: &[u8], i: usize) -> (r: u32)
    requires
        i + 4 <= data@.len(),
    ensures
        r == be32(data@, i as int),
{
    let count: usize = data.len();
    assert(i + 4 <= count);
    read16(data, i) * 65_536 + read16(data, i + 2)
}

// ---------------------------------------------------------------------------
// Dimensions
// ---------------------------------------------------------------------------
/// The size in the header of a PNG image.
pub open spec fn png_size(d: Seq<u8>) -> Option<(int, int)> {
    if d.len() >= 24 && d.subrange(12, 16) == seq![0x49u8, 0x48, 0x44, 0x52] {
        Some((be32(d, 16), be32(d, 20)))
    } else {
        None
    }
}

/// The first index from `i` on at which no fill byte stands.
pub open spec fn after_fill(d: Seq<u8>, i: int) -> int
    decreases d.len() - i,
{
    if 0 <= i < d.len() && d[i] == 0xff {
        after_fill(d, i + 1)
    } else {
        i
    }
}

/// Fill bytes end within the data or at its end.
pub proof fn lemma_after_fill(d: Seq<u8>, i: int)
    requires
        0 <= i <= d.len(),
    ensures
        i <= after_fill(d, i) <= d.len(),
        i < d.len() && d[i] == 0xff ==> i < after_fill(d, i),
    decreases d.len() - i,
{
    if i < d.len() && d[i] == 0xff {
        lemma_after_fill(d, i + 1);
    }
}

/// Whether a marker of a JPEG image starts the frame header.
pub open spec fn is_frame_marker(m: u8) -> bool {
    0xc0 <= m <= 0xc3 || 0xc5 <= m <= 0xc7 || 0xc9 <= m <= 0xcb || 0xcd <= m <= 0xcf
}

/// The size in the frame header of a JPEG image, looked for from a marker on.
pub open spec fn jpeg_size(d: Seq<u8>, i: int) -> Option<(int, int)>
    decreases d.len() - i,
{
    if i < 0 || i >= d.len() || d[i] != 0xff {
        None
    } else {
        proof {
            lemma_after_fill(d, i);
        }
        let m = after_fill(d, i);
        let at = m + 1;
        if m >= d.len() {
            None
        } else if d[m] == 0xd9 || d[m] == 0xda {
            None
        } else if d[m] == 0x01 || 0xd0 <= d[m] <= 0xd8 {
            jpeg_size(d, at)
        } else if at + 2 > d.len() || be16(d, at) < 2 || at + be16(d, at) > d.len() {
            None
        } else if is_frame_marker(d[m]) {
            if be16(d, at) < 7 {
                None
            } else {
                Some((be16(d, at + 5), be16(d, at + 3)))
            }
        } else {
            jpeg_size(d, at + be16(d, at))
        }
    }
}

/// The size that an image claims.
pub open spec fn claimed_size(d: Seq<u8>) -> Option<(int, int)> {
    if starts(d, png_head()) {
        png_size(d)
    } else if starts(d, seq![0xffu8, 0xd8]) {
        jpeg_size(d, 2)
    } else {
        None
    }
}

/// The size of an image, where it claims one that a desktop can have.
pub open spec fn size_of_image(d: Seq<u8>) -> Option<(int, int)> {
    match claimed_size(d) {
        Some((w, h)) => if 0 < w <= i32::MAX && 0 < h <= i32::MAX {
            Some((w, h))
        } else {
            None
        },
        None => None,
    }
}

pub open spec fn size_view(size: Option<(u32, u32)>) -> Option<(int, int)> {
    match size {
        Some((w, h)) => Some((w as int, h as int)),
        None => None,
    }
}

proof fn lemma_fill_kept(d: Seq<u8>, more: Seq<u8>, i: int)
    requires
        0 <= i,
        after_fill(d, i) < d.len(),
    ensures
        after_fill(d + more, i) == after_fill(d, i),
    decreases d.len() - i,
{
    if i < d.len() && d[i] == 0xff {
        lemma_fill_kept(d, more, i + 1);
    }
}

proof fn lemma_jpeg_size_kept(d: Seq<u8>, more: Seq<u8>, i: int)
    requires
        jpeg_size(d, i) is Some,
    ensures
        jpeg_size(d + more, i) == jpeg_size(d, i),
    decreases d.len() - i,
{
    lemma_after_fill(d, i);
    lemma_fill_kept(d, more, i);
    let m = after_fill(d, i);
    let at = m + 1;
    if d[m] == 0x01 || 0xd0 <= d[m] <= 0xd8 {
        lemma_jpeg_size_kept(d, more, at);
    } else if !is_frame_marker(d[m]) {
        lemma_jpeg_size_kept(d, more, at + be16(d, at));
    }
}

/// The size of an image stands at its start: bytes behind those that tell it
/// do not change it.
pub proof fn later_bytes_do_not_change_the_size(d: Seq<u8>, more: Seq<u8>)
    requires
        size_of_image(d) is Some,
    ensures
        size_of_image(d + more) == size_of_image(d),
{
    let all = d + more;
    if starts(d, png_head()) {
        assert(all.take(8) =~= d.take(8));
        assert(all.subrange(12, 16) =~= d.subrange(12, 16));
    } else {
        assert(all.take(2) =~= d.take(2));
        assert(!starts(all, png_head())) by {
            if starts(all, png_head()) {
                assert(all.take(8)[0] == all[0]);
                assert(d.take(2)[0] == d[0]);
            }
        }
        lemma_jpeg_size_kept(d, more, 2);
    }
}

fn jpeg_dimensions(data: &[u8]) -> (r: Option<(u32, u32)>)
    requires
        data@.len() >= 2,
    ensures
        size_view(r) == jpeg_size(data@, 2),
{
    let count: usize = data.len();
    let ghost whole = jpeg_size(data@, 2);
    let mut offset: usize = 2;
    loop
        invariant
            count == data@.len(),
            2 <= offset <= count,
            whole == jpeg_size(data@, 2),
            whole == jpeg_size(data@, offset as int),
        decreases count - offset,
    {
        if offset >= count || data[offset] != 0xff {
            return None;
        }
        let ghost start = offset;
        while offset < count && data[offset] == 0xff
            invariant
                count == data@.len(),
                start <= offset <= count,
                after_fill(data@, start as int) == after_fill(data@, offset as int),
            decreases count - offset,
        {
            offset = offset + 1;
        }
        proof {
            lemma_after_fill(data@, start as int);
        }
        if offset >= count {
            return None;
        }
        let marker = data[offset];
        offset = offset + 1;
        if marker == 0xd9 || marker == 0xda {
            return None;
        }
        if marker == 0x01 || (0xd0 <= marker && marker <= 0xd8) {
            continue;
        }
        if count - offset < 2 {
            return None;
        }
        let length: usize = read16(data, offset) as usize;
        if length < 2 || length > count - offset {
            return None;
        }
        let frame = (0xc0 <= marker && marker <= 0xc3) || (0xc5 <= marker && marker <= 0xc7) || (
        0xc9 <= marker && marker <= 0xcb) || (0xcd <= marker && marker <= 0xcf);
        if frame {
            if length < 7 {
                return None;
            }
            return Some((read16(data, offset + 5), read16(data, offset + 3)));
        }
        offset = offset + length;
    }
}

fn png_dimensions(data: &[u8]) -> (r: Option<(u32, u32)>)
    ensures
        size_view(r) == png_size(data@),
{
    if data.len() < 24 {
        return None;
    }
    let header = data[12] == 0x49 && data[13] == 0x48 && data[14] == 0x44 && data[15] == 0x52;
    proof {
        let part = data@.subrange(12, 16);
        if header {
            assert(part =~= seq![0x49u8, 0x48, 0x44, 0x52]);
        } else {
            assert(part[0] == data@[12] && part[1] == data@[13] && part[2] == data@[14] && part[3]
                == data@[15]);
        }
    }
    if header {
        Some((read32(data, 16), read32(data, 20)))
    } else {
        None
    }
}

/// The size of a PNG or JPEG image, read from its header.
pub fn dimensions(data: &[u8]) -> (r: Option<(u32, u32)>)
    ensures
        size_view(r) == size_of_image(data@),
{
    let size = if starts_png(data) {
        png_dimensions(data)
    } else if data.len() >= 2 && data[0] == 0xff && data[1] == 0xd8 {
        assert(data@.take(2) =~= seq![0xffu8, 0xd8]);
        jpeg_dimensions(data)
    } else {
        assert(starts(data@, seq![0xffu8, 0xd8]) ==> data@.take(2)[0] == 0xff && data@.take(2)[1]
            == 0xd8);
        None
    };
    match size {
        Some((w, h)) => {
            if w > 0 && h > 0 && w <= 0x7fff_ffff && h <= 0x7fff_ffff {
                Some((w, h))
            } else {
                None
            }
        },
        None => None,
    }
}

// ---------------------------------------------------------------------------
// Kinds of images
// ---------------------------------------------------------------------------
/// The kind of image that the first bytes announce.
pub open spec fn announced(d: Seq<u8>) -> Option<Text> {
    if starts(d, png_head()) {
        Some("image/png"@)
    } else if starts(d, seq![0xffu8, 0xd8, 0xff]) {
        Some("image/jpeg"@)
    } else {
        None
    }
}

/// Whether a PNG image is complete: its last chunk ends it.
pub open spec fn png_complete(d: Seq<u8>) -> bool {
    d.len() >= 20 && d.subrange(d.len() - 8, d.len() - 4) == seq![0x49u8, 0x45, 0x4e, 0x44]
}

/// Whether a JPEG image is complete: its last marker ends it.
pub open spec fn jpeg_complete(d: Seq<u8>) -> bool {
    ends(d, seq![0xffu8, 0xd9])
}

/// The kind of a complete image.
pub open spec fn kind_of(d: Seq<u8>) -> Option<Text> {
    if starts(d, png_head()) {
        if png_complete(d) {
            Some("image/png"@)
        } else {
            None
        }
    } else if starts(d, seq![0xffu8, 0xd8, 0xff]) {
        if jpeg_complete(d) {
            Some("image/jpeg"@)
        } else {
            None
        }
    } else {
        None
    }
}

pub open spec fn str_view(s: Option<&'static str>) -> Option<Text> {
    match s {
        Some(t) => Some(t@),
        None => None,
    }
}

fn starts_jpeg(data: &[u8]) -> (r: bool)
    ensures
        r == starts(data@, seq![0xffu8, 0xd8, 0xff]),
{
    if data.len() < 3 {
        return false;
    }
    let r = data[0] == 0xff && data[1] == 0xd8 && data[2] == 0xff;
    proof {
        let head = data@.take(3);
        if r {
            assert(head =~= seq![0xffu8, 0xd8, 0xff]);
        } else {
            assert(head[0] == data@[0] && head[1] == data@[1] && head[2] == data@[2]);
        }
    }
    r
}

fn ends_jpeg(data: &[u8]) -> (r: bool)
    ensures
        r == jpeg_complete(data@),
{
    let n: usize = data.len();
    if n < 2 {
        return false;
    }
    let r = data[n - 2] == 0xff && data[n - 1] == 0xd9;
    proof {
        let tail = data@.skip(n - 2);
        if r {
            assert(tail =~= seq![0xffu8, 0xd9]);
        } else {
            assert(tail[0] == data@[n - 2] && tail[1] == data@[n - 1]);
        }
    }
    r
}

/// The kind of image that the first bytes announce.
pub fn image_header_mime_type(data: &[u8]) -> (r: Option<&'static str>)
    ensures
        str_view(r) == announced(data@),
{
    if starts_png(data) {
        Some("image/png")
    } else if starts_jpeg(data) {
        Some("image/jpeg")
    } else {
        None
    }
}

/// The kind of a complete image.
pub fn image_mime_type(data: &[u8]) -> (r: Option<&'static str>)
    ensures
        str_view(r) == kind_of(data@),
{
    let n: usize = data.len();
    if starts_png(data) {
        if n < 20 {
            return None;
        }
        let end = data[n - 8] == 0x49 && data[n - 7] == 0x45 && data[n - 6] == 0x4e && data[n - 5]
            == 0x44;
        proof {
            let part = data@.subrange(n - 8, n - 4);
            if end {
                assert(part =~= seq![0x49u8, 0x45, 0x4e, 0x44]);
            } else {
                assert(part[0] == data@[n - 8] && part[1] == data@[n - 7] && part[2] == data@[n - 6]
                    && part[3] == data@[n - 5]);
            }
        }
        if end {
            Some("image/png")
        } else {
            None
        }
    } else if starts_jpeg(data) && ends_jpeg(data) {
        Some("image/jpeg")
    } else {
        None
    }
}

impl Screenshot {
    /// A captured image with its size; the desktop counts as large as the image
    /// unless its size is told.
    pub fn new(
        data: Vec<u8>,
        mime_type: &'static str,
        backend: &'static str,
        source: Option<(u32, u32)>,
    ) -> (r: Result<Screenshot, String>)
        ensures
            match r {
                Ok(s) => size_of_image(data@) == Some((s.width as int, s.height as int)) && s.data@
                    == data@ && s.mime_type@ == mime_type@ && s.backend@ == backend@ && (
                s.source_width, s.source_height) == (match source {
                    Some(size) => size,
                    None => (s.width, s.height),
                }),
                Err(e) => size_of_image(data@) is None && e@
                    == "screenshot has invalid image dimensions"@,
            },
    {
        match dimensions(data.as_slice()) {
            None => Err("screenshot has invalid image dimensions".to_string()),
            Some((width, height)) => {
                let (source_width, source_height) = match source {
                    Some((w, h)) => (w, h),
                    None => (width, height),
                };
                Ok(
                    Screenshot {
                        data,
                        mime_type,
                        backend,
                        width,
                        height,
                        source_width,
                        source_height,
                    },
                )
            },
        }
    }
}

// ---------------------------------------------------------------------------
// Laws
// ---------------------------------------------------------------------------
/// A number as four bytes, the highest first.
pub open spec fn spelled32(n: int) -> Seq<u8> {
    seq![
        (n / 16_777_216) as u8,
        (n / 65_536 % 256) as u8,
        (n / 256 % 256) as u8,
        (n % 256) as u8,
    ]
}

/// A number as two bytes, the high one first.
pub open spec fn spelled16(n: int) -> Seq<u8> {
    seq![(n / 256) as u8, (n % 256) as u8]
}

/// A PNG image is as large as its header chunk says, in width and then height.
pub proof fn png_images_tell_their_size(width: u32, height: u32, length: Seq<u8>, rest: Seq<u8>)
    requires
        0 < width <= i32::MAX,
        0 < height <= i32::MAX,
        length.len() == 4,
    ensures
        size_of_image(
            seq![0x89u8, 0x50, 0x4e, 0x47, 0x0d, 0x0a, 0x1a, 0x0a] + length + seq![
                0x49u8,
                0x48,
                0x44,
                0x52,
            ] + spelled32(width as int) + spelled32(height as int) + rest,
        ) == Some((width as int, height as int)),
{
    let d = seq![0x89u8, 0x50, 0x4e, 0x47, 0x0d, 0x0a, 0x1a, 0x0a] + length + seq![
        0x49u8,
        0x48,
        0x44,
        0x52,
    ] + spelled32(width as int) + spelled32(height as int) + rest;
    assert(d.take(8) =~= png_head());
    assert(d.subrange(12, 16) =~= seq![0x49u8, 0x48, 0x44, 0x52]);
    assert(d.subrange(16, 20) =~= spelled32(width as int));
    assert(d.subrange(20, 24) =~= spelled32(height as int));
    lemma_spelled32(d, 16, width as int);
    lemma_spelled32(d, 20, height as int);
}

proof fn lemma_spelled32(d: Seq<u8>, i: int, n: int)
    requires
        0 <= i,
        i + 4 <= d.len(),
        d.subrange(i, i + 4) == spelled32(n),
        0 <= n <= u32::MAX,
    ensures
        be32(d, i) == n,
{
    let s = spelled32(n);
    let part = d.subrange(i, i + 4);
    assert(part[0] == d[i] && part[1] == d[i + 1] && part[2] == d[i + 2] && part[3] == d[i + 3]);
}

/// Whether bytes are a segment of a JPEG image that tells nothing of its size: a
/// marker that is none of a frame, a scan, the end or a restart, a length, and
/// as many bytes as the length says.
pub open spec fn is_other_segment(s: Seq<u8>) -> bool {
    &&& s.len() >= 4
    &&& s[0] == 0xff
    &&& 0x02 <= s[1] <= 0xbf || s[1] == 0xc4 || s[1] == 0xc8 || s[1] == 0xcc || 0xdb <= s[1] <= 0xfe
    &&& s.len() == 2 + s[2] * 256 + s[3]
}

/// Segments one after the other.
pub open spec fn segments(list: Seq<Seq<u8>>) -> Seq<u8>
    decreases list.len(),
{
    if list.len() == 0 {
        Seq::empty()
    } else {
        list[0] + segments(list.skip(1))
    }
}

/// A JPEG image is as large as its frame header says, in height and then width,
/// whatever segments stand before it.
pub proof fn jpeg_images_tell_their_size(
    others: Seq<Seq<u8>>,
    marker: u8,
    length: u16,
    depth: u8,
    width: u16,
    height: u16,
    rest: Seq<u8>,
)
    requires
        forall|i: int| 0 <= i < others.len() ==> is_other_segment(#[trigger] others[i]),
        0xc0 <= marker <= 0xcf && marker != 0xc4 && marker != 0xc8 && marker != 0xcc,
        7 <= length <= 7 + rest.len(),
        width > 0,
        height > 0,
    ensures
        size_of_image(
            seq![0xffu8, 0xd8] + segments(others) + (seq![0xffu8, marker] + spelled16(length as int)
                + seq![depth] + spelled16(height as int) + spelled16(width as int) + rest),
        ) == Some((width as int, height as int)),
{
    let tail = seq![0xffu8, marker] + spelled16(length as int) + seq![depth] + spelled16(
        height as int,
    ) + spelled16(width as int) + rest;
    let d = seq![0xffu8, 0xd8] + segments(others) + tail;
    lemma_segments(seq![0xffu8, 0xd8], others, tail);
    let at = 2 + segments(others).len() as int;
    lemma_frame(d, at, marker, length, depth, width, height, rest);
    assert(d.take(2) =~= seq![0xffu8, 0xd8]);
    assert(!starts(d, png_head())) by {
        assert(d[0] == 0xff);
        if starts(d, png_head()) {
            assert(d.take(8)[0] == d[0]);
        }
    }
}

proof fn lemma_frame(
    d: Seq<u8>,
    at: int,
    marker: u8,
    length: u16,
    depth: u8,
    width: u16,
    height: u16,
    rest: Seq<u8>,
)
    requires
        0 <= at <= d.len(),
        d.skip(at) == seq![0xffu8, marker] + spelled16(length as int) + seq![depth] + spelled16(
            height as int,
        ) + spelled16(width as int) + rest,
        0xc0 <= marker <= 0xcf && marker != 0xc4 && marker != 0xc8 && marker != 0xcc,
        7 <= length <= 7 + rest.len(),
    ensures
        jpeg_size(d, at) == Some((width as int, height as int)),
{
    let t = d.skip(at);
    assert(t.len() == 9 + rest.len());
    assert(d.len() == at + t.len());
    assert(d[at] == t[0]);
    assert(d[at + 1] == t[1]);
    assert(d[at + 2] == t[2] && d[at + 3] == t[3]);
    assert(d[at + 5] == t[5] && d[at + 6] == t[6]);
    assert(d[at + 7] == t[7] && d[at + 8] == t[8]);
    assert(after_fill(d, at + 1) == at + 1);
    assert(after_fill(d, at) == at + 1);
    assert(be16(d, at + 2) == length);
    assert(be16(d, at + 5) == height);
    assert(be16(d, at + 7) == width);
}

proof fn lemma_segments(before: Seq<u8>, list: Seq<Seq<u8>>, tail: Seq<u8>)
    requires
        forall|i: int| 0 <= i < list.len() ==> is_other_segment(#[trigger] list[i]),
        tail.len() > 0,
    ensures
        jpeg_size(before + segments(list) + tail, before.len() as int) == jpeg_size(
            before + segments(list) + tail,
            (before.len() + segments(list).len()) as int,
        ),
        (before + segments(list) + tail).skip((before.len() + segments(list).len()) as int)
            == tail,
    decreases list.len(),
{
    let d = before + segments(list) + tail;
    assert(d.skip((before.len() + segments(list).len()) as int) =~= tail);
    if list.len() > 0 {
        let s = list[0];
        let more = list.skip(1);
        assert forall|i: int| 0 <= i < more.len() implies is_other_segment(#[trigger] more[i]) by {
            assert(more[i] == list[i + 1]);
        }
        lemma_segments(before + s, more, tail);
        assert(d =~= before + s + segments(more) + tail);
        let at = before.len() as int;
        assert(is_other_segment(s));
        assert(d[at] == s[0]);
        assert(d[at + 1] == s[1]);
        assert(d[at + 2] == s[2] && d[at + 3] == s[3]);
        assert(after_fill(d, at + 1) == at + 1);
        assert(after_fill(d, at) == at + 1);
        assert(be16(d, at + 2) == s.len() - 2);
    }
}

/// No image is larger than a desktop can be, and none is empty.
pub proof fn sizes_are_those_of_a_desktop(d: Seq<u8>)
    ensures
        size_of_image(d) matches Some((w, h)) ==> 1 <= w <= 2_147_483_647 && 1 <= h
            <= 2_147_483_647,
{
}

/// An image is a PNG one when it begins with its eight first bytes, has at least
/// twenty, and its last chunk is the one that ends it; it is a JPEG one when it
/// begins with the start marker and another one, and ends with the end marker.
/// Nothing else is an image.
pub proof fn images_are_told_by_their_ends(d: Seq<u8>)
    ensures
        ({
            let n = d.len() as int;
            let png = n >= 20 && d[0] == 0x89 && d[1] == 0x50 && d[2] == 0x4e && d[3] == 0x47 && d[4]
                == 0x0d && d[5] == 0x0a && d[6] == 0x1a && d[7] == 0x0a && d[n - 8] == 0x49 && d[n
                - 7] == 0x45 && d[n - 6] == 0x4e && d[n - 5] == 0x44;
            let jpeg = n >= 3 && d[0] == 0xff && d[1] == 0xd8 && d[2] == 0xff && d[n - 2] == 0xff
                && d[n - 1] == 0xd9;
            &&& kind_of(d) is Some <==> png || jpeg
            &&& png ==> kind_of(d) == Some("image/png"@)
            &&& jpeg ==> kind_of(d) == Some("image/jpeg"@)
            &&& kind_of(d) is Some ==> announced(d) == kind_of(d)
        }),
{
    let n = d.len() as int;
    if n >= 8 {
        let head = d.take(8);
        assert(head[0] == d[0] && head[1] == d[1] && head[2] == d[2] && head[3] == d[3] && head[4]
            == d[4] && head[5] == d[5] && head[6] == d[6] && head[7] == d[7]);
        if d[0] == 0x89 && d[1] == 0x50 && d[2] == 0x4e && d[3] == 0x47 && d[4] == 0x0d && d[5]
            == 0x0a && d[6] == 0x1a && d[7] == 0x0a {
            assert(head =~= png_head());
        }
    }
    if n >= 20 {
        let end = d.subrange(n - 8, n - 4);
        assert(end[0] == d[n - 8] && end[1] == d[n - 7] && end[2] == d[n - 6] && end[3] == d[n
            - 5]);
        if d[n - 8] == 0x49 && d[n - 7] == 0x45 && d[n - 6] == 0x4e && d[n - 5] == 0x44 {
            assert(end =~= seq![0x49u8, 0x45, 0x4e, 0x44]);
        }
    }
    if n >= 3 {
        let head = d.take(3);
        assert(head[0] == d[0] && head[1] == d[1] && head[2] == d[2]);
        if d[0] == 0xff && d[1] == 0xd8 && d[2] == 0xff {
            assert(head =~= seq![0xffu8, 0xd8, 0xff]);
        }
        let tail = d.skip(n - 2);
        assert(tail[0] == d[n - 2] && tail[1] == d[n - 1]);
        if d[n - 2] == 0xff && d[n - 1] == 0xd9 {
            assert(tail =~= seq![0xffu8, 0xd9]);
        }
    }
}

} // verus!
