//! Content digests: every text is framed by its byte length so that no two
//! catalogs share an input, and the framed bytes are hashed with SHA-256.
use vstd::prelude::*;
use vstd::utf8::encode_utf8;
use sha2::Digest;

verus! {

/// The last `k` bytes of `n` in big-endian order.
pub open spec fn be_bytes(n: nat, k: nat) -> Seq<u8>
    decreases k,
{
    if k == 0 {
        seq![]
    } else {
        be_bytes(n / 256, (k - 1) as nat).push((n % 256) as u8)
    }
}

/// A length-prefixed frame: the byte length as 8 big-endian bytes, then
/// the bytes.
pub open spec fn frame(s: Seq<u8>) -> Seq<u8> {
    be_bytes(s.len(), 8) + s
}

/// Each (path, source) pair framed, path before source, in catalog order.
pub open spec fn catalog_bytes(entries: Seq<(String, String)>) -> Seq<u8>
    decreases entries.len(),
{
    if entries.len() == 0 {
        seq![]
    } else {
        let e = entries.last();
        catalog_bytes(entries.drop_last()) + frame(encode_utf8(e.0@)) + frame(encode_utf8(e.1@))
    }
}

/// What SHA-256 gives for `data`.
pub uninterp spec fn sha256(data: Seq<u8>) -> Seq<u8>;

/// The SHA-256 digest of `data` (sha2 `Sha256::digest`): 32 bytes.
#[verifier::external_body]
fn sha256_digest(data: &Vec<u8>) -> (r: Vec<u8>)
    ensures
        r@ == sha256(data@),
        r@.len() == 32,
{
    sha2::Sha256::digest(data.as_slice()).to_vec()
}

pub open spec fn hex_digit(d: nat) -> char {
    if d == 0 { '0' } else if d == 1 { '1' } else if d == 2 { '2' } else if d == 3 { '3' } else if d == 4 { '4' }
    else if d == 5 { '5' } else if d == 6 { '6' } else if d == 7 { '7' } else if d == 8 { '8' } else if d == 9 { '9' }
    else if d == 10 { 'a' } else if d == 11 { 'b' } else if d == 12 { 'c' } else if d == 13 { 'd' } else if d == 14 { 'e' }
    else { 'f' }
}

/// Lower-case hexadecimal, two digits per byte.
pub open spec fn hex(bytes: Seq<u8>) -> Seq<char>
    decreases bytes.len(),
{
    if bytes.len() == 0 {
        seq![]
    } else {
        hex(bytes.drop_last()) + seq![hex_digit(bytes.last() as nat / 16), hex_digit(bytes.last() as nat % 16)]
    }
}

fn hex_char(d: u8) -> (c: char)
    requires
        d < 16,
    ensures
        c == hex_digit(d as nat),
{
    if d == 0 { '0' } else if d == 1 { '1' } else if d == 2 { '2' } else if d == 3 { '3' } else if d == 4 { '4' }
    else if d == 5 { '5' } else if d == 6 { '6' } else if d == 7 { '7' } else if d == 8 { '8' } else if d == 9 { '9' }
    else if d == 10 { 'a' } else if d == 11 { 'b' } else if d == 12 { 'c' } else if d == 13 { 'd' } else if d == 14 { 'e' }
    else { 'f' }
}

fn be_bytes_exec(n: u64, k: usize) -> (r: Vec<u8>)
    ensures
        r@ == be_bytes(n as nat, k as nat),
    decreases k,
{
    if k == 0 {
        Vec::new()
    } else {
        let mut v = be_bytes_exec(n / 256, k - 1);
        v.push((n % 256) as u8);
        v
    }
}

fn push_all(out: &mut Vec<u8>, bytes: &[u8])
    ensures
        final(out)@ == old(out)@ + bytes@,
{
    let ghost o0 = out@;
    let mut i: usize = 0;
    while i < bytes.len()
        invariant
            i <= bytes@.len(),
            out@ == o0 + bytes@.take(i as int),
        decreases bytes.len() - i,
    {
        out.push(bytes[i]);
        assert(bytes@.take(i + 1) == bytes@.take(i as int).push(bytes@[i as int]));
        i += 1;
    }
    assert(bytes@.take(bytes@.len() as int) == bytes@);
}

/// Appends the frame of `s`'s UTF-8 bytes.
fn push_frame(out: &mut Vec<u8>, s: &str)
    ensures
        final(out)@ == old(out)@ + frame(encode_utf8(s@)),
{
    let b = s.as_bytes();
    let n = b.len() as u64;
    let len_bytes = be_bytes_exec(n, 8);
    push_all(out, len_bytes.as_slice());
    push_all(out, b);
    assert(final(out)@ =~= old(out)@ + frame(encode_utf8(s@)));
}

/// The framed bytes of a catalog of (path, source) entries.
pub fn catalog_input(entries: &Vec<(String, String)>) -> (r: Vec<u8>)
    ensures
        r@ == catalog_bytes(entries@),
{
    let mut out: Vec<u8> = Vec::new();
    let mut i: usize = 0;
    while i < entries.len()
        invariant
            i <= entries@.len(),
            out@ == catalog_bytes(entries@.take(i as int)),
        decreases entries.len() - i,
    {
        push_frame(&mut out, entries[i].0.as_str());
        push_frame(&mut out, entries[i].1.as_str());
        assert(entries@.take(i + 1).drop_last() == entries@.take(i as int));
        i += 1;
    }
    assert(entries@.take(entries@.len() as int) == entries@);
    out
}

/// Lower-case hexadecimal of `bytes`.
pub fn hex_string(bytes: &Vec<u8>) -> (r: String)
    ensures
        r@ == hex(bytes@),
{
    let mut s = String::new();
    let mut i: usize = 0;
    while i < bytes.len()
        invariant
            i <= bytes@.len(),
            s@ == hex(bytes@.take(i as int)),
        decreases bytes.len() - i,
    {
        let b = bytes[i];
        crate::chars::push_char(&mut s, hex_char(b / 16));
        crate::chars::push_char(&mut s, hex_char(b % 16));
        assert(bytes@.take(i + 1).drop_last() == bytes@.take(i as int));
        assert(s@ =~= hex(bytes@.take(i + 1)));
        i += 1;
    }
    assert(bytes@.take(bytes@.len() as int) == bytes@);
    s
}

/// The digest that identifies an interface catalog: `sha256:` and the
/// hexadecimal SHA-256 of the framed entries.
pub fn interface_catalog_digest(catalog: &Vec<(String, String)>) -> (r: String)
    ensures
        r@ == "sha256:"@ + hex(sha256(catalog_bytes(catalog@))),
{
    let input = catalog_input(catalog);
    let d = sha256_digest(&input);
    let h = hex_string(&d);
    let mut r = "sha256:".to_owned();
    crate::types::append(&mut r, h.as_str());
    r
}

/// The hash that identifies a validated program's inputs: `sha256:` and the
/// hexadecimal SHA-256 of the framed source files followed by the framed
/// interface files.
pub fn source_hash(sources: &Vec<(String, String)>, interfaces: &Vec<(String, String)>) -> (r: String)
    ensures
        r@ == "sha256:"@ + hex(sha256(catalog_bytes(sources@) + catalog_bytes(interfaces@))),
{
    let mut input = catalog_input(sources);
    let rest = catalog_input(interfaces);
    push_all(&mut input, rest.as_slice());
    let d = sha256_digest(&input);
    let h = hex_string(&d);
    let mut r = "sha256:".to_owned();
    crate::types::append(&mut r, h.as_str());
    r
}

} // verus!
