use vstd::prelude::*;
use vstd::string::StringExecFns;

verus! {

/// The four-byte tag `RIFF` that opens a RIFF container.
pub open spec fn riff_tag() -> Seq<u8> {
    seq![0x52u8, 0x49u8, 0x46u8, 0x46u8]
}

/// The form type `WEBP` at offset 8 of a WebP file.
pub open spec fn webp_tag() -> Seq<u8> {
    seq![0x57u8, 0x45u8, 0x42u8, 0x50u8]
}

/// The chunk id `EXIF`.
pub open spec fn exif_tag() -> Seq<u8> {
    seq![0x45u8, 0x58u8, 0x49u8, 0x46u8]
}

/// `v` as four little-endian bytes.
pub open spec fn le32(v: u32) -> Seq<u8> {
    seq![(v & 0xff) as u8, ((v >> 8) & 0xff) as u8, ((v >> 16) & 0xff) as u8, ((v >> 24) & 0xff) as u8]
}

/// The value of four little-endian bytes.
pub open spec fn le32_value(b: Seq<u8>) -> u32
    recommends
        b.len() == 4,
{
    (b[0] as u32) | (b[1] as u32) << 8 | (b[2] as u32) << 16 | (b[3] as u32) << 24
}

/// A length as stored in a 32-bit RIFF size field (the low 32 bits).
pub open spec fn size_field(n: nat) -> u32 {
    (n % 0x1_0000_0000) as u32
}

/// Whether `w` opens like a WebP file: `RIFF`, a size field, then `WEBP`.
pub open spec fn is_webp_container(w: Seq<u8>) -> bool {
    &&& w.len() >= 12
    &&& w.subrange(0, 4) == riff_tag()
    &&& w.subrange(8, 12) == webp_tag()
}

/// The padding byte that keeps a RIFF chunk of `n` data bytes word-aligned.
pub open spec fn chunk_padding(n: nat) -> Seq<u8> {
    if n % 2 == 1 {
        seq![0u8]
    } else {
        Seq::<u8>::empty()
    }
}

/// An `EXIF` RIFF chunk carrying `exif`: id, 32-bit size, data, padding.
pub open spec fn exif_chunk(exif: Seq<u8>) -> Seq<u8> {
    exif_tag() + le32(size_field(exif.len())) + exif + chunk_padding(exif.len())
}

/// The WebP file `webp` with an `EXIF` chunk carrying `exif` appended after its existing
/// chunks, and the RIFF size field rewritten to the new length minus the 8-byte header.
pub open spec fn with_exif_chunk(webp: Seq<u8>, exif: Seq<u8>) -> Seq<u8> {
    let body = webp.subrange(8, webp.len() as int) + exif_chunk(exif);
    riff_tag() + le32(size_field(body.len())) + body
}

/// The input given to [`inject_exif_into_webp`] is not a WebP file.
pub struct NotWebp;

/// The text of a [`NotWebp`] error.
pub open spec fn not_webp_message() -> Seq<char> {
    "not a valid WebP file"@
}

impl NotWebp {
    /// The error's text: `not a valid WebP file`.
    pub fn message(&self) -> (r: String)
        ensures
            r@ == not_webp_message(),
    {
        String::from_str("not a valid WebP file")
    }
}

proof fn lemma_le32_roundtrip(v: u32)
    ensures
        le32_value(le32(v)) == v,
        le32(v).len() == 4,
{
    let b0 = (v & 0xff) as u8;
    let b1 = ((v >> 8) & 0xff) as u8;
    let b2 = ((v >> 16) & 0xff) as u8;
    let b3 = ((v >> 24) & 0xff) as u8;
    assert((b0 as u32) | (b1 as u32) << 8 | (b2 as u32) << 16 | (b3 as u32) << 24 == v)
        by (bit_vector)
        requires
            b0 == (v & 0xff) as u8,
            b1 == ((v >> 8) & 0xff) as u8,
            b2 == ((v >> 16) & 0xff) as u8,
            b3 == ((v >> 24) & 0xff) as u8,
    ;
}

/// Appends the four little-endian bytes of `v`.
fn push_le32(out: &mut Vec<u8>, v: u32)
    ensures
        final(out)@ == old(out)@ + le32(v),
{
    out.push((v & 0xff) as u8);
    out.push(((v >> 8) & 0xff) as u8);
    out.push(((v >> 16) & 0xff) as u8);
    out.push(((v >> 24) & 0xff) as u8);
    assert(final(out)@ =~= old(out)@ + le32(v));
}

/// Appends `src[from..]`.
fn extend_from(out: &mut Vec<u8>, src: &[u8], from: usize)
    requires
        from <= src@.len(),
    ensures
        final(out)@ == old(out)@ + src@.subrange(from as int, src@.len() as int),
{
    let mut k = from;
    while k < src.len()
        invariant
            from <= k <= src@.len(),
            out@ == old(out)@ + src@.subrange(from as int, k as int),
        decreases src@.len() - k,
    {
        out.push(src[k]);
        assert(src@.subrange(from as int, k + 1) == src@.subrange(from as int, k as int).push(src@[k as int]));
        k = k + 1;
    }
}

/// The low 32 bits of a length.
fn size_field_of(n: u128) -> (r: u32)
    ensures
        r == size_field(n as nat),
{
    (n % 0x1_0000_0000u128) as u32
}

/// Whether `w` opens with `RIFF` and carries `WEBP` at offset 8.
fn check_webp_container(w: &[u8]) -> (r: bool)
    ensures
        r == is_webp_container(w@),
{
    if w.len() < 12 {
        return false;
    }
    let r = w[0] == 0x52u8 && w[1] == 0x49u8 && w[2] == 0x46u8 && w[3] == 0x46u8
        && w[8] == 0x57u8 && w[9] == 0x45u8 && w[10] == 0x42u8 && w[11] == 0x50u8;
    proof {
        let a = w@.subrange(0, 4);
        let b = w@.subrange(8, 12);
        if r {
            assert(a =~= riff_tag());
            assert(b =~= webp_tag());
        } else {
            if a == riff_tag() && b == webp_tag() {
                assert(a[0] == riff_tag()[0] && a[1] == riff_tag()[1] && a[2] == riff_tag()[2]
                    && a[3] == riff_tag()[3]);
                assert(b[0] == webp_tag()[0] && b[1] == webp_tag()[1] && b[2] == webp_tag()[2]
                    && b[3] == webp_tag()[3]);
            }
        }
    }
    r
}

/// Inserts raw EXIF bytes into a WebP RIFF container as an `EXIF` chunk.
///
/// Fails exactly when `webp` is shorter than 12 bytes or does not carry `RIFF` at offset 0
/// and `WEBP` at offset 8.
pub fn inject_exif_into_webp(webp: &[u8], exif: &[u8]) -> (r: Result<Vec<u8>, NotWebp>)
    ensures
        r is Ok <==> is_webp_container(webp@),
        r matches Ok(out) ==> out@ == with_exif_chunk(webp@, exif@),
{
    if !check_webp_container(webp) {
        return Err(NotWebp);
    }
    let chunk_size = exif.len();
    let odd = chunk_size % 2 == 1;
    let body_len: u128 = (webp.len() as u128 - 8) + 8 + (chunk_size as u128)
        + if odd { 1u128 } else { 0u128 };
    let mut out: Vec<u8> = Vec::new();
    out.push(webp[0]);
    out.push(webp[1]);
    out.push(webp[2]);
    out.push(webp[3]);
    proof {
        assert(out@ =~= webp@.subrange(0, 4));
    }
    push_le32(&mut out, size_field_of(body_len));
    extend_from(&mut out, webp, 8);
    out.push(0x45u8);
    out.push(0x58u8);
    out.push(0x49u8);
    out.push(0x46u8);
    push_le32(&mut out, size_field_of(chunk_size as u128));
    extend_from(&mut out, exif, 0);
    if odd {
        out.push(0u8);
    }
    proof {
        let body = webp@.subrange(8, webp@.len() as int) + exif_chunk(exif@);
        lemma_le32_roundtrip(size_field(exif@.len()));
        assert(exif@.subrange(0, exif@.len() as int) =~= exif@);
        assert(body.len() == body_len);
        assert(out@ =~= with_exif_chunk(webp@, exif@));
    }
    Ok(out)
}

/// The layout of a WebP file after an `EXIF` chunk is appended: the `RIFF` and `WEBP` tags
/// stay in place, the existing chunks are kept byte for byte, the RIFF size field equals the
/// file length minus 8 (in 32 bits), the appended chunk is word-aligned, and reading the chunk
/// back gives its declared size and exactly the EXIF bytes.
pub proof fn lemma_exif_chunk_layout(webp: Seq<u8>, exif: Seq<u8>)
    requires
        is_webp_container(webp),
    ensures
        ({
            let out = with_exif_chunk(webp, exif);
            let n = webp.len() as int;
            &&& out.len() == webp.len() + 8 + exif.len() + exif.len() % 2
            &&& out.subrange(0, 4) == riff_tag()
            &&& out.subrange(8, 12) == webp_tag()
            &&& le32_value(out.subrange(4, 8)) == size_field((out.len() - 8) as nat)
            &&& out.subrange(8, n) == webp.subrange(8, n)
            &&& out.subrange(n, n + 4) == exif_tag()
            &&& le32_value(out.subrange(n + 4, n + 8)) == size_field(exif.len())
            &&& out.subrange(n + 8, n + 8 + exif.len()) == exif
            &&& (out.len() - n) % 2 == 0
        }),
{
    let out = with_exif_chunk(webp, exif);
    let n = webp.len() as int;
    let body = webp.subrange(8, n) + exif_chunk(exif);
    lemma_le32_roundtrip(size_field(body.len()));
    lemma_le32_roundtrip(size_field(exif.len()));
    assert(out.subrange(0, 4) =~= riff_tag());
    assert(out.subrange(4, 8) =~= le32(size_field(body.len())));
    assert(out.subrange(8, 12) =~= webp.subrange(8, 12));
    assert(out.subrange(8, n) =~= webp.subrange(8, n));
    assert(out.subrange(n, n + 4) =~= exif_tag());
    assert(out.subrange(n + 4, n + 8) =~= le32(size_field(exif.len())));
    assert(out.subrange(n + 8, n + 8 + exif.len()) =~= exif);
}

} // verus!
