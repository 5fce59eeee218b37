//! Packing a script into an executable: the script's bytes, masked with a
//! key, are appended to a copy of the interpreter together with their
//! length (4 bytes, little-endian) and the marker `SIDE`. Reading and
//! writing the files is the host's part; this module computes the bytes.

use vstd::prelude::*;
use vstd::utf8::{valid_utf8, decode_utf8, encode_utf8};

verus! {

/// The key that every byte of a packed script is masked with.
pub const KEY: u8 = 0x5A;

/// The marker at the very end of a packed executable: `SIDE`.
pub open spec fn magic() -> Seq<u8> {
    seq![0x53u8, 0x49u8, 0x44u8, 0x45u8]
}

/// Each byte masked with the key.
pub open spec fn masked(data: Seq<u8>) -> Seq<u8> {
    data.map_values(|b: u8| b ^ KEY)
}

/// The little-endian bytes of a 32-bit number.
pub open spec fn le_bytes(n: u32) -> Seq<u8> {
    seq![
        (n & 0xff) as u8,
        ((n >> 8u32) & 0xff) as u8,
        ((n >> 16u32) & 0xff) as u8,
        ((n >> 24u32) & 0xff) as u8,
    ]
}

/// The number whose little-endian bytes are `b0 b1 b2 b3`.
pub open spec fn le_value(b0: u8, b1: u8, b2: u8, b3: u8) -> u32 {
    (b0 as u32) | ((b1 as u32) << 8u32) | ((b2 as u32) << 16u32) | ((b3 as u32) << 24u32)
}

/// What `build` appends to the interpreter: the masked script, its length
/// (taken `as u32`) and the marker.
pub open spec fn trailer_bytes(source: Seq<u8>) -> Seq<u8> {
    masked(source) + le_bytes(source.len() as u32) + magic()
}

/// Whether an executable image ends with the marker (and is at least 8 bytes long).
pub open spec fn is_packed(image: Seq<u8>) -> bool {
    image.len() >= 8 && image.subrange(image.len() - 4, image.len() as int) == magic()
}

/// The script bytes packed into an image, unmasked: `None` where the image
/// carries no marker or its length field reaches before the image's start.
pub open spec fn embedded_bytes(image: Seq<u8>) -> Option<Seq<u8>> {
    if !is_packed(image) {
        None
    } else {
        let n = image.len();
        let len = le_value(image[n - 8], image[n - 7], image[n - 6], image[n - 5]) as int;
        if 8 + len > n {
            None
        } else {
            Some(masked(image.subrange(n - 8 - len, n - 8)))
        }
    }
}

/// `encrypt`: each byte masked with the key.
pub fn encrypt(data: &[u8]) -> (res: Vec<u8>)
    ensures
        res@ == masked(data@),
{
    let mut out: Vec<u8> = Vec::new();
    let mut i: usize = 0;
    while i < data.len()
        invariant
            0 <= i <= data.len(),
            out@ == masked(data@.take(i as int)),
        decreases data.len() - i,
    {
        out.push(data[i] ^ KEY);
        assert(out@ =~= masked(data@.take(i + 1)));
        i += 1;
    }
    assert(data@.take(data.len() as int) =~= data@);
    out
}

/// `decrypt`: the same masking, which undoes itself.
pub fn decrypt(data: &[u8]) -> (res: Vec<u8>)
    ensures
        res@ == masked(data@),
{
    encrypt(data)
}

/// Masking twice gives the data back: `decrypt` undoes `encrypt`.
pub proof fn lemma_mask_involution(data: Seq<u8>)
    ensures
        masked(masked(data)) == data,
{
    assert forall|i: int| 0 <= i < data.len() implies #[trigger] masked(masked(data))[i]
        == data[i] by {
        let b = data[i];
        assert((b ^ KEY) ^ KEY == b) by (bit_vector);
    }
    assert(masked(masked(data)) =~= data);
}

/// The bytes that `build` writes after the copy of the interpreter.
pub fn trailer(source: &[u8]) -> (res: Vec<u8>)
    ensures
        res@ == trailer_bytes(source@),
{
    let mut out = encrypt(source);
    let n = source.len() as u32;
    out.push((n & 0xff) as u8);
    out.push(((n >> 8u32) & 0xff) as u8);
    out.push(((n >> 16u32) & 0xff) as u8);
    out.push(((n >> 24u32) & 0xff) as u8);
    out.push(0x53u8);
    out.push(0x49u8);
    out.push(0x44u8);
    out.push(0x45u8);
    assert(out@ =~= trailer_bytes(source@));
    out
}

fn ends_with_magic(image: &[u8]) -> (res: bool)
    ensures
        res == is_packed(image@),
{
    let n = image.len();
    if n < 8 {
        return false;
    }
    let r = image[n - 4] == 0x53u8 && image[n - 3] == 0x49u8 && image[n - 2] == 0x44u8 && image[n
        - 1] == 0x45u8;
    proof {
        let t = image@.subrange(n - 4, n as int);
        if r {
            assert(t =~= magic());
        } else {
            if t == magic() {
                assert(t[0] == image@[n - 4]);
                assert(t[1] == image@[n - 3]);
                assert(t[2] == image@[n - 2]);
                assert(t[3] == image@[n - 1]);
            }
        }
    }
    r
}

/// `has_embedded`: whether the executable image carries a packed script.
pub fn has_embedded(image: &[u8]) -> (res: bool)
    ensures
        res == is_packed(image@),
{
    ends_with_magic(image)
}

/// `String::from_utf8(bytes).ok()`: the text that the bytes encode, where
/// they are valid UTF-8, else nothing.
#[verifier::external_body]
fn text_from_utf8(bytes: Vec<u8>) -> (res: Option<String>)
    ensures
        match res {
            Some(t) => valid_utf8(bytes@) && t@ == decode_utf8(bytes@),
            None => !valid_utf8(bytes@),
        },
{
    String::from_utf8(bytes).ok()
}

/// The packed script's bytes, unmasked.
pub fn embedded_source_bytes(image: &[u8]) -> (res: Option<Vec<u8>>)
    ensures
        match embedded_bytes(image@) {
            Some(b) => res matches Some(v) && v@ == b,
            None => res is None,
        },
{
    if !ends_with_magic(image) {
        return None;
    }
    let n = image.len();
    let len = (image[n - 8] as u32) | ((image[n - 7] as u32) << 8u32) | ((image[n - 6] as u32)
        << 16u32) | ((image[n - 5] as u32) << 24u32);
    let len = len as usize;
    if len > n - 8 {
        return None;
    }
    let start = n - 8 - len;
    let mut data: Vec<u8> = Vec::new();
    let mut i: usize = start;
    while i < n - 8
        invariant
            start <= i <= n - 8,
            n == image.len(),
            data@ == image@.subrange(start as int, i as int),
        decreases n - 8 - i,
    {
        data.push(image[i]);
        assert(data@ =~= image@.subrange(start as int, i + 1));
        i += 1;
    }
    Some(decrypt(data.as_slice()))
}

/// `extract_embedded`: the packed script as text, where the image carries
/// one and it is valid UTF-8.
pub fn extract_embedded(image: &[u8]) -> (res: Option<String>)
    ensures
        match embedded_bytes(image@) {
            Some(b) => match res {
                Some(t) => valid_utf8(b) && t@ == decode_utf8(b),
                None => !valid_utf8(b),
            },
            None => res is None,
        },
{
    match embedded_source_bytes(image) {
        Some(b) => text_from_utf8(b),
        None => None,
    }
}

proof fn lemma_le_roundtrip(n: u32)
    ensures
        le_value(le_bytes(n)[0], le_bytes(n)[1], le_bytes(n)[2], le_bytes(n)[3]) == n,
{
    let b0 = (n & 0xff) as u8;
    let b1 = ((n >> 8u32) & 0xff) as u8;
    let b2 = ((n >> 16u32) & 0xff) as u8;
    let b3 = ((n >> 24u32) & 0xff) as u8;
    assert(((b0 as u32) | ((b1 as u32) << 8u32) | ((b2 as u32) << 16u32) | ((b3 as u32) << 24u32))
        == n) by (bit_vector)
        requires
            b0 == (n & 0xff) as u8,
            b1 == ((n >> 8u32) & 0xff) as u8,
            b2 == ((n >> 16u32) & 0xff) as u8,
            b3 == ((n >> 24u32) & 0xff) as u8,
    ;
}

/// A packed executable gives back the script it was packed with: after any
/// interpreter image, the trailer of a script shorter than 4 GiB marks the
/// image as packed and unpacks to exactly the script's bytes.
pub proof fn lemma_pack_roundtrip(image: Seq<u8>, source: Seq<u8>)
    requires
        source.len() < 0x1_0000_0000,
    ensures
        is_packed(image + trailer_bytes(source)),
        embedded_bytes(image + trailer_bytes(source)) == Some(source),
{
    let all = image + trailer_bytes(source);
    let n = all.len();
    let m = source.len();
    assert(n == image.len() + m + 8);
    assert(all.subrange(n - 4, n as int) =~= magic());
    let lb = le_bytes(m as u32);
    assert(all[n - 8] == lb[0]);
    assert(all[n - 7] == lb[1]);
    assert(all[n - 6] == lb[2]);
    assert(all[n - 5] == lb[3]);
    lemma_le_roundtrip(m as u32);
    assert(all.subrange(n - 8 - m, n - 8) =~= masked(source));
    lemma_mask_involution(source);
}

/// A script packed as its UTF-8 text is extracted as that text.
pub proof fn lemma_pack_text_roundtrip(image: Seq<u8>, text: Seq<char>)
    requires
        encode_utf8(text).len() < 0x1_0000_0000,
    ensures
        embedded_bytes(image + trailer_bytes(encode_utf8(text))) == Some(encode_utf8(text)),
        valid_utf8(encode_utf8(text)),
        decode_utf8(encode_utf8(text)) == text,
{
    lemma_pack_roundtrip(image, encode_utf8(text));
    vstd::utf8::encode_utf8_valid_utf8(text);
    vstd::utf8::encode_utf8_decode_utf8(text);
}

/// The layout of what is appended to a packed executable: each byte of the
/// script XOR `0x5A`, then the script's length in four bytes, least
/// significant first, then the bytes of `SIDE`.
pub proof fn lemma_trailer_layout(source: Seq<u8>)
    requires
        source.len() <= u32::MAX,
    ensures
        trailer_bytes(source).len() == source.len() + 8,
        forall|i: int| 0 <= i < source.len() ==> #[trigger] trailer_bytes(source)[i] == source[i] ^ 0x5Au8,
        ({
            let t = trailer_bytes(source);
            let n = source.len() as int;
            t[n] + 256 * t[n + 1] + 65536 * t[n + 2] + 16777216 * t[n + 3] == n
        }),
        trailer_bytes(source).subrange(source.len() as int + 4, source.len() as int + 8) == seq![
            'S' as u8,
            'I' as u8,
            'D' as u8,
            'E' as u8,
        ],
{
    let n = source.len() as u32;
    let t = trailer_bytes(source);
    assert(((n & 0xff) as u8) as int + 256 * (((n >> 8u32) & 0xff) as u8) as int + 65536 * (((n
        >> 16u32) & 0xff) as u8) as int + 16777216 * (((n >> 24u32) & 0xff) as u8) as int == n)
        by (bit_vector);
    assert(t.subrange(source.len() as int + 4, source.len() as int + 8) =~= magic());
}

} // verus!
