use vstd::prelude::*;

verus! {

/// The six bytes that open an EXIF payload inside a JPEG APP1 segment: `Exif\0\0`.
pub open spec fn exif_header() -> Seq<u8> {
    seq![0x45u8, 0x78u8, 0x69u8, 0x66u8, 0x00u8, 0x00u8]
}

/// A big-endian 16-bit length field.
pub open spec fn be16(hi: u8, lo: u8) -> nat {
    hi as nat * 256 + lo as nat
}

/// What a scan of a JPEG's marker segments finds.
pub enum SpecExifScan {
    /// The payload of the first APP1 segment that carries an EXIF header.
    Payload(Seq<u8>),
    /// The segment chain ended (or the data is no JPEG) without such a segment.
    Absent,
    /// An APP1 segment declares a length below the two bytes of its own length field.
    Malformed,
}

/// Walks the JPEG marker segments starting at offset `i`.
///
/// Each segment is `0xFF`, a marker byte and a big-endian length that counts itself but
/// not the two marker bytes. The walk stops at the first byte that is not `0xFF` or when
/// fewer than four bytes remain after `i`.
pub open spec fn scan_segments(data: Seq<u8>, i: int) -> SpecExifScan
    decreases data.len() - i,
{
    if i < 0 || !(i + 3 < data.len()) || data[i] != 0xFFu8 {
        SpecExifScan::Absent
    } else {
        let marker = data[i + 1];
        let len = be16(data[i + 2], data[i + 3]) as int;
        let end = i + 2 + len;
        if marker == 0xE1u8 && end <= data.len() && len < 2 {
            SpecExifScan::Malformed
        } else if marker == 0xE1u8 && end <= data.len() && len >= 8
            && data.subrange(i + 4, i + 10) == exif_header() {
            SpecExifScan::Payload(data.subrange(i + 10, end))
        } else if end + 3 < data.len() {
            scan_segments(data, end)
        } else {
            SpecExifScan::Absent
        }
    }
}

/// The EXIF payload of a JPEG file: data that starts with the SOI marker `FF D8` and is at
/// least four bytes long is scanned segment by segment from offset 2.
pub open spec fn jpeg_exif(data: Seq<u8>) -> SpecExifScan {
    if data.len() < 4 || data[0] != 0xFFu8 || data[1] != 0xD8u8 {
        SpecExifScan::Absent
    } else {
        scan_segments(data, 2)
    }
}

/// The outcome of scanning a JPEG for its EXIF payload.
pub enum ExifScan {
    Payload(Vec<u8>),
    Absent,
    Malformed,
}

impl View for ExifScan {
    type V = SpecExifScan;

    open spec fn view(&self) -> SpecExifScan {
        match self {
            ExifScan::Payload(v) => SpecExifScan::Payload(v@),
            ExifScan::Absent => SpecExifScan::Absent,
            ExifScan::Malformed => SpecExifScan::Malformed,
        }
    }
}

/// Copies `data[from..to]` into a new vector.
fn copy_range(data: &[u8], from: usize, to: usize) -> (r: Vec<u8>)
    requires
        from <= to <= data@.len(),
    ensures
        r@ == data@.subrange(from as int, to as int),
{
    let mut r: Vec<u8> = Vec::new();
    let mut k = from;
    while k < to
        invariant
            from <= k <= to <= data@.len(),
            r@ == data@.subrange(from as int, k as int),
        decreases to - k,
    {
        r.push(data[k]);
        assert(data@.subrange(from as int, k + 1) == data@.subrange(from as int, k as int).push(data@[k as int]));
        k = k + 1;
    }
    r
}

/// Whether `data[at..at + 6]` is the EXIF header.
fn has_exif_header(data: &[u8], at: usize) -> (r: bool)
    requires
        at + 6 <= data@.len(),
    ensures
        r == (data@.subrange(at as int, at + 6) == exif_header()),
{
    let r = data[at] == 0x45u8 && data[at + 1] == 0x78u8 && data[at + 2] == 0x69u8
        && data[at + 3] == 0x66u8 && data[at + 4] == 0x00u8 && data[at + 5] == 0x00u8;
    proof {
        let s = data@.subrange(at as int, at + 6);
        if r {
            assert(s =~= exif_header());
        } else {
            if s == exif_header() {
                assert(s[0] == exif_header()[0]);
                assert(s[1] == exif_header()[1]);
                assert(s[2] == exif_header()[2]);
                assert(s[3] == exif_header()[3]);
                assert(s[4] == exif_header()[4]);
                assert(s[5] == exif_header()[5]);
            }
        }
    }
    r
}

/// Scans a JPEG's marker segments for the first APP1 segment carrying EXIF data.
pub fn scan_jpeg_exif(data: &[u8]) -> (r: ExifScan)
    ensures
        r@ == jpeg_exif(data@),
{
    let n = data.len();
    if n < 4 || data[0] != 0xFFu8 || data[1] != 0xD8u8 {
        return ExifScan::Absent;
    }
    let mut i: usize = 2;
    loop
        invariant
            n == data@.len(),
            2 <= i <= n,
            jpeg_exif(data@) == scan_segments(data@, i as int),
        decreases n - i,
    {
        if n - i <= 3 || data[i] != 0xFFu8 {
            return ExifScan::Absent;
        }
        let marker = data[i + 1];
        let len = (data[i + 2] as usize) * 256 + (data[i + 3] as usize);
        let remaining = n - i;
        if marker == 0xE1u8 && len + 2 <= remaining {
            if len < 2 {
                return ExifScan::Malformed;
            }
            if len >= 8 && has_exif_header(data, i + 4) {
                return ExifScan::Payload(copy_range(data, i + 10, i + 2 + len));
            }
        }
        if len + 5 >= remaining {
            return ExifScan::Absent;
        }
        i = i + 2 + len;
    }
}

/// Extracts the raw EXIF payload from a JPEG APP1 segment.
///
/// Returns the bytes that follow the `Exif\0\0` header of the first APP1 segment in the
/// marker chain, or `None` when the data is no JPEG or carries no such segment. Data with an
/// APP1 segment whose length field is below two is left out: that segment has no valid extent.
pub fn find_jpeg_exif_bytes(data: &[u8]) -> (r: Option<Vec<u8>>)
    requires
        !(jpeg_exif(data@) is Malformed),
    ensures
        match jpeg_exif(data@) {
            SpecExifScan::Payload(p) => r is Some && r->0@ == p,
            _ => r is None,
        },
{
    match scan_jpeg_exif(data) {
        ExifScan::Payload(p) => Some(p),
        _ => None,
    }
}

proof fn lemma_scan_payload_slice(data: Seq<u8>, i: int, p: Seq<u8>)
    requires
        i >= 0,
        scan_segments(data, i) == SpecExifScan::Payload(p),
    ensures
        exists|k: int|
            i + 10 <= k && k + p.len() <= data.len() && data.subrange(k - 6, k) == exif_header()
                && #[trigger] data.subrange(k, k + p.len()) == p,
    decreases data.len() - i,
{
    let len = be16(data[i + 2], data[i + 3]) as int;
    let end = i + 2 + len;
    if data[i + 1] == 0xE1u8 && end <= data.len() && len >= 8 && data.subrange(i + 4, i + 10)
        == exif_header() {
        let k = i + 10;
        assert(data.subrange(k - 6, k) == data.subrange(i + 4, i + 10));
        assert(data.subrange(k, k + p.len()) == p);
    } else {
        lemma_scan_payload_slice(data, end, p);
    }
}

/// A found payload is a verbatim slice of the data: it follows an `Exif\0\0` header that
/// starts at offset 6 or later of data opening with the SOI marker.
pub proof fn lemma_exif_payload_is_verbatim(data: Seq<u8>, p: Seq<u8>)
    requires
        jpeg_exif(data) == SpecExifScan::Payload(p),
    ensures
        data.len() >= 4,
        data[0] == 0xFFu8 && data[1] == 0xD8u8,
        exists|k: int|
            12 <= k && k + p.len() <= data.len() && data.subrange(k - 6, k) == exif_header()
                && #[trigger] data.subrange(k, k + p.len()) == p,
{
    lemma_scan_payload_slice(data, 2, p);
}

/// A minimal JPEG prefix: the SOI marker followed by one APP1 segment that carries
/// `payload` behind the EXIF header.
pub open spec fn jpeg_with_exif(payload: Seq<u8>) -> Seq<u8> {
    let len = payload.len() + 8;
    seq![0xFFu8, 0xD8u8, 0xFFu8, 0xE1u8, (len / 256) as u8, (len % 256) as u8] + exif_header()
        + payload
}

/// A JPEG whose first segment is an APP1 EXIF segment gives back exactly the payload
/// that segment carries, whatever bytes follow it.
pub proof fn lemma_exif_segment_roundtrip(payload: Seq<u8>, rest: Seq<u8>)
    requires
        payload.len() + 8 <= 0xFFFF,
    ensures
        jpeg_exif(jpeg_with_exif(payload) + rest) == SpecExifScan::Payload(payload),
{
    let len = payload.len() + 8;
    let data = jpeg_with_exif(payload) + rest;
    let hi = (len / 256) as u8;
    let lo = (len % 256) as u8;
    assert(be16(hi, lo) == len);
    assert(data[2] == 0xFFu8);
    assert(data[3] == 0xE1u8);
    assert(data[4] == hi);
    assert(data[5] == lo);
    assert(data.subrange(6, 12) =~= exif_header());
    assert(data.subrange(12, 4 + len as int) =~= payload);
}

/// Bytes that do not open with the JPEG SOI marker carry no EXIF payload.
pub proof fn lemma_non_jpeg_has_no_exif(data: Seq<u8>)
    requires
        data.len() < 2 || data[0] != 0xFFu8 || data[1] != 0xD8u8,
    ensures
        jpeg_exif(data) == SpecExifScan::Absent,
{
}

} // verus!
