//! The container format: a magic tag, a version byte, a little-endian
//! payload length, and the source bytes masked with a fixed repeating key.
//! This is obfuscation, not encryption: the key is public.
use vstd::prelude::*;
use vstd::utf8::{decode_utf8, encode_utf8, encode_utf8_decode_utf8, encode_utf8_valid_utf8, valid_utf8};

verus! {

/// Why bytes are not a container.
#[derive(Debug, Clone, Copy, PartialEq, Eq, Structural)]
pub enum ContainerError {
    /// The first four bytes are not the magic tag.
    BadMagic,
    /// A version newer than this reader supports.
    UnsupportedVersion(u8),
    /// Fewer bytes than the header or the stated payload length need.
    Truncated,
    /// The unmasked payload is not UTF-8 text.
    InvalidUtf8,
    /// A source too long for the 32-bit length field.
    TooLarge,
}

/// The highest format version this reader supports.
pub const FORMAT_VERSION: u8 = 1;

/// Bytes of the header: tag, version, length.
pub const HEADER_LEN: usize = 9;

/// The magic tag `LEON`.
pub open spec fn magic() -> Seq<u8> {
    seq![76u8, 69u8, 79u8, 78u8]
}

/// The masking key `LEON_BASIC_ENCRYPT`.
pub open spec fn key() -> Seq<u8> {
    seq![76u8, 69u8, 79u8, 78u8, 95u8, 66u8, 65u8, 83u8, 73u8, 67u8, 95u8, 69u8, 78u8, 67u8, 82u8, 89u8, 80u8, 84u8]
}

/// Each byte XOR-ed with the key byte at its position (the key repeats).
pub open spec fn mask(d: Seq<u8>) -> Seq<u8> {
    Seq::new(d.len(), |i: int| d[i] ^ key()[i % 18])
}

/// `n` as four little-endian bytes.
pub open spec fn le32(n: u32) -> Seq<u8> {
    seq![(n % 256) as u8, ((n / 256) % 256) as u8, ((n / 65536) % 256) as u8, (n / 16777216) as u8]
}

/// The number that four little-endian bytes spell.
pub open spec fn read_le32(b: Seq<u8>) -> int {
    b[0] + 256 * b[1] + 65536 * b[2] + 16777216 * b[3]
}

/// The container holding source bytes `s`.
pub open spec fn container(s: Seq<u8>) -> Seq<u8> {
    magic() + seq![1u8] + le32(s.len() as u32) + mask(s)
}

/// The payload length a header states, or why the header is rejected. Only
/// the first nine bytes are looked at; the tag is checked first.
pub open spec fn header_of(b: Seq<u8>) -> Result<int, ContainerError> {
    if b.len() < 4 {
        Err(ContainerError::Truncated)
    } else if b.subrange(0, 4) != magic() {
        Err(ContainerError::BadMagic)
    } else if b.len() < 9 {
        Err(ContainerError::Truncated)
    } else if b[4] > 1 {
        Err(ContainerError::UnsupportedVersion(b[4]))
    } else {
        Ok(read_le32(b.subrange(5, 9)))
    }
}

/// The source text a container holds, or why it holds none. Bytes after the
/// stated payload are ignored.
pub open spec fn decode_of(b: Seq<u8>) -> Result<Seq<char>, ContainerError> {
    match header_of(b) {
        Err(e) => Err(e),
        Ok(n) => if b.len() < 9 + n {
            Err(ContainerError::Truncated)
        } else if valid_utf8(mask(b.subrange(9, 9 + n))) {
            Ok(decode_utf8(mask(b.subrange(9, 9 + n))))
        } else {
            Err(ContainerError::InvalidUtf8)
        },
    }
}

/// Masks (or, the same thing, unmasks) bytes.
pub fn mask_bytes(d: &[u8]) -> (r: Vec<u8>)
    ensures
        r@ == mask(d@),
{
    let k: [u8; 18] = [76, 69, 79, 78, 95, 66, 65, 83, 73, 67, 95, 69, 78, 67, 82, 89, 80, 84];
    assert(k@ == key());
    let mut out: Vec<u8> = Vec::new();
    let mut i: usize = 0;
    while i < d.len()
        invariant
            i <= d@.len(),
            k@ == key(),
            out@ == mask(d@).subrange(0, i as int),
        decreases d@.len() - i,
    {
        out.push(d[i] ^ k[i % 18]);
        i = i + 1;
        assert(out@ =~= mask(d@).subrange(0, i as int));
    }
    assert(mask(d@).subrange(0, d@.len() as int) =~= mask(d@));
    out
}

/// Relies on String::from_utf8: succeeds exactly on valid UTF-8, with the
/// characters that the bytes encode.
#[verifier::external_body]
fn utf8_text(b: Vec<u8>) -> (r: Option<String>)
    ensures
        r is Some <==> valid_utf8(b@),
        r is Some ==> r->0@ == decode_utf8(b@),
{
    String::from_utf8(b).ok()
}

/// Encodes source text as a container.
pub fn encode(source: &str) -> (r: Result<Vec<u8>, ContainerError>)
    ensures
        encode_utf8(source@).len() > u32::MAX ==> r == Err::<Vec<u8>, ContainerError>(ContainerError::TooLarge),
        encode_utf8(source@).len() <= u32::MAX ==> r is Ok && r->Ok_0@ == container(encode_utf8(source@)),
{
    let bytes = source.as_bytes();
    if bytes.len() > 0xffff_ffffusize {
        return Err(ContainerError::TooLarge);
    }
    let n = bytes.len() as u32;
    let mut out: Vec<u8> = Vec::new();
    out.push(76);
    out.push(69);
    out.push(79);
    out.push(78);
    out.push(FORMAT_VERSION);
    out.push((n % 256) as u8);
    out.push(((n / 256) % 256) as u8);
    out.push(((n / 65536) % 256) as u8);
    out.push((n / 16777216) as u8);
    let masked = mask_bytes(bytes);
    let mut i: usize = 0;
    let ghost head = out@;
    while i < masked.len()
        invariant
            i <= masked@.len(),
            out@ == head + masked@.subrange(0, i as int),
        decreases masked@.len() - i,
    {
        out.push(masked[i]);
        i = i + 1;
        assert(out@ =~= head + masked@.subrange(0, i as int));
    }
    assert(masked@.subrange(0, masked@.len() as int) =~= masked@);
    assert(head =~= magic() + seq![1u8] + le32(n));
    Ok(out)
}

/// Reads a container header (its first nine bytes) and returns the payload
/// length it states. The magic tag is checked before anything else.
pub fn decode_header(b: &[u8]) -> (r: Result<u32, ContainerError>)
    ensures
        match (r, header_of(b@)) {
            (Ok(n), Ok(m)) => n as int == m,
            (Err(e), Err(f)) => e == f,
            _ => false,
        },
{
    if b.len() < 4 {
        return Err(ContainerError::Truncated);
    }
    if !(b[0] == 76 && b[1] == 69 && b[2] == 79 && b[3] == 78) {
        assert(b@.subrange(0, 4) != magic()) by {
            if b@.subrange(0, 4) == magic() {
                assert(b@.subrange(0, 4)[0] == b@[0]);
                assert(b@.subrange(0, 4)[1] == b@[1]);
                assert(b@.subrange(0, 4)[2] == b@[2]);
                assert(b@.subrange(0, 4)[3] == b@[3]);
            }
        }
        return Err(ContainerError::BadMagic);
    }
    assert(b@.subrange(0, 4) =~= magic());
    if b.len() < 9 {
        return Err(ContainerError::Truncated);
    }
    if b[4] > FORMAT_VERSION {
        return Err(ContainerError::UnsupportedVersion(b[4]));
    }
    let n: u32 = b[5] as u32 + 256 * (b[6] as u32) + 65536 * (b[7] as u32) + 16777216 * (b[8] as u32);
    Ok(n)
}

/// Decodes a container into the source text it holds.
pub fn decode(b: &[u8]) -> (r: Result<String, ContainerError>)
    ensures
        match (r, decode_of(b@)) {
            (Ok(s), Ok(t)) => s@ == t,
            (Err(e), Err(f)) => e == f,
            _ => false,
        },
{
    let n = match decode_header(b) {
        Ok(n) => n as usize,
        Err(e) => {
            return Err(e);
        },
    };
    let total = b.len();
    if total - 9 < n {
        return Err(ContainerError::Truncated);
    }
    let mut payload: Vec<u8> = Vec::new();
    let mut i: usize = 0;
    while i < n
        invariant
            i <= n,
            total == b@.len(),
            9 + n <= total,
            payload@ == b@.subrange(9, 9 + i),
        decreases n - i,
    {
        payload.push(b[9 + i]);
        i = i + 1;
        assert(payload@ =~= b@.subrange(9, 9 + i));
    }
    let plain = mask_bytes(payload.as_slice());
    match utf8_text(plain) {
        Some(s) => Ok(s),
        None => Err(ContainerError::InvalidUtf8),
    }
}

proof fn lemma_unmask(d: Seq<u8>)
    ensures
        mask(mask(d)) == d,
{
    assert forall|i: int| 0 <= i < d.len() implies #[trigger] mask(mask(d))[i] == d[i] by {
        let k = key()[i % 18];
        let x = d[i];
        assert((x ^ k) ^ k == x) by (bit_vector);
    }
    assert(mask(mask(d)) =~= d);
}

/// Decoding a container that `encode` made from a text gives the text back.
pub proof fn lemma_round_trip(s: Seq<char>)
    requires
        encode_utf8(s).len() <= u32::MAX,
    ensures
        decode_of(container(encode_utf8(s))) == Ok::<Seq<char>, ContainerError>(s),
{
    let p = encode_utf8(s);
    let c = container(p);
    let n = p.len() as u32;
    assert(c.subrange(0, 4) =~= magic());
    assert(c[4] == 1u8);
    assert(c.subrange(5, 9) =~= le32(n));
    assert(read_le32(le32(n)) == n as int);
    assert(c.subrange(9, 9 + p.len() as int) =~= mask(p));
    lemma_unmask(p);
    encode_utf8_valid_utf8(s);
    encode_utf8_decode_utf8(s);
}

} // verus!

verus! {

/// A header whose first four bytes are not the tag is rejected as such,
/// whatever follows them: nothing past the tag is looked at.
pub proof fn lemma_magic_checked_first(tag: Seq<u8>, rest: Seq<u8>)
    requires
        tag.len() == 4,
        tag != magic(),
    ensures
        header_of(tag + rest) == Err::<int, ContainerError>(ContainerError::BadMagic),
        decode_of(tag + rest) == Err::<Seq<char>, ContainerError>(ContainerError::BadMagic),
{
    assert((tag + rest).subrange(0, 4) =~= tag);
}

} // verus!
