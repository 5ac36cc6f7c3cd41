//! The Valv v2 file header (and the legacy v1 header): key derivation,
//! the ChaCha20 keystream, and the byte layout of a header.
use vstd::prelude::*;
use vstd::slice::slice_to_vec;
use vstd::utf8::{encode_utf8, valid_utf8};
use vstd::string::{StringExecFns, StringSliceAdditionalSpecFns};

use crate::text::seq_starts_with;

use chacha20::cipher::{KeyIvInit, StreamCipher, StreamCipherSeek};
use chacha20::ChaCha20;
use pbkdf2::pbkdf2_hmac;
use sha2::Sha512;

verus! {

/// Format version written at the start of every v2 file.
pub const VALV_V2: u32 = 2;

/// PBKDF2 rounds used when none are given.
pub const DEFAULT_ITERATIONS: u32 = 50_000;

/// PBKDF2 rounds of the legacy v1 format.
pub const V1_ITERATIONS: u32 = 20_000;

/// Size of the chunks in which payloads are streamed.
pub const BUFFER_SIZE: usize = 64 * 1024;

pub const SALT_LEN: usize = 16;

pub const IV_LEN: usize = 12;

pub const CHECK_LEN: usize = 12;

/// Longest metadata line accepted in a v2 header.
pub const MAX_METADATA_LEN: usize = 4096;

/// Longest name line accepted in a v1 header.
pub const MAX_V1_NAME_LEN: usize = 1024;

/// Bytes of a v2 header before its encrypted part.
pub const V2_PLAIN_LEN: usize = 48;

/// Bytes of a v1 header before its encrypted part.
pub const V1_PLAIN_LEN: usize = 28;

/// Upper bound on the length of any header: the reader never needs more.
pub const MAX_HEADER_LEN: usize = 4158;

/// Number of keystream bytes ChaCha20 (32-bit block counter) can produce:
/// the last block of the counter range is never used.
pub const KEYSTREAM_LIMIT: u64 = 274877906880;

pub const NEWLINE: u8 = 10;

/// Why reading a file header failed.
#[derive(Debug)]
pub enum DecryptError {
    InvalidPassword,
    CorruptHeader(&'static str),
    Io(std::io::Error),
}

/// `text` is what is shown for `e`; for an I/O error, the prefix
/// `I/O error: ` and then the error's own description.
pub open spec fn describes(e: DecryptError, text: Seq<char>) -> bool {
    match e {
        DecryptError::InvalidPassword => text == "Invalid password"@,
        DecryptError::CorruptHeader(m) => text == "Corrupt file header: "@ + m@,
        DecryptError::Io(_) => seq_starts_with(text, "I/O error: "@),
    }
}

impl DecryptError {
    /// The text shown to the user for this error.
    pub fn message(&self) -> (text: String)
        ensures
            describes(*self, text@),
    {
        match self {
            DecryptError::InvalidPassword => "Invalid password".to_owned(),
            DecryptError::CorruptHeader(m) => {
                let mut text = "Corrupt file header: ".to_owned();
                text.append(m);
                text
            },
            DecryptError::Io(e) => {
                let mut text = "I/O error: ".to_owned();
                let detail = e.to_string();
                text.append(detail.as_str());
                assert(text@.subrange(0, "I/O error: "@.len() as int) =~= "I/O error: "@);
                text
            },
        }
    }
}

impl From<std::io::Error> for DecryptError {
    fn from(e: std::io::Error) -> (r: Self) {
        DecryptError::Io(e)
    }
}

impl vstd::std_specs::convert::FromSpecImpl<std::io::Error> for DecryptError {
    open spec fn obeys_from_spec() -> bool {
        true
    }

    open spec fn from_spec(e: std::io::Error) -> Self {
        DecryptError::Io(e)
    }
}

/// Byte `pos` of the ChaCha20 (IETF, 20 rounds) keystream for `key` and `nonce`.
pub uninterp spec fn chacha20_keystream(key: Seq<u8>, nonce: Seq<u8>, pos: int) -> u8;

/// PBKDF2-HMAC-SHA512 of `password` and `salt` with `rounds` rounds, 32 bytes long.
pub uninterp spec fn pbkdf2_hmac_sha512(password: Seq<u8>, salt: Seq<u8>, rounds: u32) -> Seq<u8>;

/// `data` XORed with the keystream starting at byte `pos`.
pub open spec fn keystream_xor(key: Seq<u8>, nonce: Seq<u8>, pos: int, data: Seq<u8>) -> Seq<u8> {
    Seq::new(data.len(), |i: int| data[i] ^ chacha20_keystream(key, nonce, pos + i))
}

/// Calls `ChaCha20::new(key, nonce)`, `seek(pos)` and `apply_keystream(data)`
/// of the chacha20 crate: `data` is XORed in place with the keystream bytes
/// `pos .. pos + data.len()`. The crate panics when that range reaches the last
/// block of the 32-bit counter; `requires` leaves those inputs out.
#[verifier::external_body]
fn chacha20_apply(key: &[u8; 32], nonce: &[u8; 12], pos: u64, data: &mut [u8])
    requires
        pos + old(data)@.len() <= KEYSTREAM_LIMIT,
    ensures
        final(data)@.len() == old(data)@.len(),
        forall|i: int|
            0 <= i < old(data)@.len() ==> #[trigger] final(data)@[i] == old(data)@[i]
                ^ chacha20_keystream(key@, nonce@, pos + i),
{
    let mut cipher = ChaCha20::new(&(*key).into(), &(*nonce).into());
    cipher.seek(pos);
    cipher.apply_keystream(data);
}

/// Derives the 32-byte file key: `pbkdf2_hmac::<Sha512>` of the pbkdf2 crate,
/// whose result is claimed to be `pbkdf2_hmac_sha512(password, salt, iterations)`.
/// The crate accepts every password length and every round count (0 included).
#[verifier::external_body]
pub fn derive_key(password: &[u8], salt: &[u8], iterations: u32) -> (key: [u8; 32])
    ensures
        key@ == pbkdf2_hmac_sha512(password@, salt@, iterations),
{
    let mut key = [0u8; 32];
    pbkdf2_hmac::<Sha512>(password, salt, iterations, &mut key);
    key
}

/// A ChaCha20 keystream position: key, nonce and the number of keystream
/// bytes already used.
pub struct CipherState {
    key: [u8; 32],
    nonce: [u8; 12],
    pos: u64,
}

impl View for CipherState {
    type V = (Seq<u8>, Seq<u8>, nat);

    closed spec fn view(&self) -> (Seq<u8>, Seq<u8>, nat) {
        (self.key@, self.nonce@, self.pos as nat)
    }
}

impl CipherState {
    #[verifier::type_invariant]
    closed spec fn within_keystream(&self) -> bool {
        self.pos <= KEYSTREAM_LIMIT
    }

    /// A cipher at the start of the keystream.
    pub fn new(key: [u8; 32], nonce: [u8; 12]) -> (c: Self)
        ensures
            c@ == (key@, nonce@, 0nat),
    {
        CipherState { key, nonce, pos: 0 }
    }

    /// Keystream bytes used so far.
    pub fn position(&self) -> (p: u64)
        ensures
            p == self@.2,
    {
        self.pos
    }

    /// Keystream bytes still available.
    pub fn remaining(&self) -> (r: u64)
        ensures
            r == KEYSTREAM_LIMIT - self@.2,
    {
        proof {
            use_type_invariant(self);
        }
        KEYSTREAM_LIMIT - self.pos
    }

    /// XORs `data` with the next `data.len()` keystream bytes and advances.
    pub fn apply_keystream(&mut self, data: &mut [u8])
        requires
            old(self)@.2 + old(data)@.len() <= KEYSTREAM_LIMIT,
        ensures
            final(data)@ == keystream_xor(old(self)@.0, old(self)@.1, old(self)@.2 as int, old(data)@),
            final(self)@ == (old(self)@.0, old(self)@.1, old(self)@.2 + old(data)@.len()),
    {
        chacha20_apply(&self.key, &self.nonce, self.pos, data);
        assert(data@ =~= keystream_xor(self.key@, self.nonce@, self.pos as int, old(data)@));
        let n = data.len() as u64;
        self.pos = self.pos + n;
    }
}

/// Applying the same keystream twice gives the data back.
pub proof fn lemma_keystream_involution(key: Seq<u8>, nonce: Seq<u8>, pos: int, data: Seq<u8>)
    ensures
        keystream_xor(key, nonce, pos, keystream_xor(key, nonce, pos, data)) == data,
{
    assert forall|i: int| 0 <= i < data.len() implies #[trigger] keystream_xor(key, nonce, pos, keystream_xor(key, nonce, pos, data))[i] == data[i] by {
        let k = chacha20_keystream(key, nonce, pos + i);
        let d = data[i];
        assert((d ^ k) ^ k == d) by (bit_vector);
    }
    assert(keystream_xor(key, nonce, pos, keystream_xor(key, nonce, pos, data)) =~= data);
}

/// Transforming `a ++ b` from `pos` is transforming `a` from `pos`, then `b`
/// from where `a` ended: a stream may be processed in chunks of any size.
pub proof fn lemma_keystream_chunks(key: Seq<u8>, nonce: Seq<u8>, pos: int, a: Seq<u8>, b: Seq<u8>)
    ensures
        keystream_xor(key, nonce, pos, a + b) == keystream_xor(key, nonce, pos, a) + keystream_xor(key, nonce, pos + a.len(), b),
{
    assert(keystream_xor(key, nonce, pos, a + b) =~= keystream_xor(key, nonce, pos, a) + keystream_xor(key, nonce, pos + a.len(), b));
}


/// The chunks of a stream laid end to end.
pub open spec fn concat_chunks(chunks: Seq<Seq<u8>>) -> Seq<u8>
    decreases chunks.len(),
{
    if chunks.len() == 0 {
        Seq::empty()
    } else {
        concat_chunks(chunks.drop_last()) + chunks.last()
    }
}

/// The chunks of a stream transformed one after another, as successive calls
/// of `CipherState::apply_keystream` do: each chunk is XORed with the
/// keystream from where the previous chunk ended.
pub open spec fn stream_xor(key: Seq<u8>, nonce: Seq<u8>, pos: int, chunks: Seq<Seq<u8>>) -> Seq<u8>
    decreases chunks.len(),
{
    if chunks.len() == 0 {
        Seq::empty()
    } else {
        let before = chunks.drop_last();
        stream_xor(key, nonce, pos, before) + keystream_xor(
            key,
            nonce,
            pos + concat_chunks(before).len(),
            chunks.last(),
        )
    }
}

/// Transforming a stream chunk by chunk, whatever the number and sizes of the
/// chunks, transforms the whole stream at once.
pub proof fn lemma_stream_chunks(key: Seq<u8>, nonce: Seq<u8>, pos: int, chunks: Seq<Seq<u8>>)
    ensures
        stream_xor(key, nonce, pos, chunks) == keystream_xor(key, nonce, pos, concat_chunks(chunks)),
    decreases chunks.len(),
{
    if chunks.len() == 0 {
        assert(keystream_xor(key, nonce, pos, concat_chunks(chunks)) =~= Seq::<u8>::empty());
    } else {
        let before = chunks.drop_last();
        lemma_stream_chunks(key, nonce, pos, before);
        lemma_keystream_chunks(key, nonce, pos, concat_chunks(before), chunks.last());
    }
}


/// Big-endian bytes of `v`.
pub open spec fn be_u32_bytes(v: u32) -> Seq<u8> {
    seq![(v / 0x1000000) as u8, ((v / 0x10000) % 0x100) as u8, ((v / 0x100) % 0x100) as u8, (v % 0x100) as u8]
}

/// The number whose big-endian bytes are `b[0..4]`.
pub open spec fn be_u32_value(b: Seq<u8>) -> int {
    b[0] * 0x1000000 + b[1] * 0x10000 + b[2] * 0x100 + b[3]
}

/// Reading back the big-endian bytes of a number gives the number.
pub proof fn lemma_be_u32_roundtrip(v: u32)
    ensures
        be_u32_value(be_u32_bytes(v)) == v,
{
    let b = be_u32_bytes(v);
    assert(b[0] == v / 0x1000000);
    assert(b[1] == (v / 0x10000) % 0x100);
    assert(b[2] == (v / 0x100) % 0x100);
    assert(b[3] == v % 0x100);
    assert((v / 0x1000000) * 0x1000000 + ((v / 0x10000) % 0x100) * 0x10000 + ((v / 0x100) % 0x100) * 0x100 + v % 0x100 == v) by (nonlinear_arith);
}

/// The complete v2 header for the given random values, password and metadata:
/// version, salt, nonce, rounds, check bytes in the clear, then the check
/// bytes and the line `\n metadata \n` under the keystream.
pub open spec fn v2_header(
    salt: Seq<u8>,
    nonce: Seq<u8>,
    check: Seq<u8>,
    iterations: u32,
    password: Seq<u8>,
    metadata: Seq<u8>,
) -> Seq<u8> {
    let key = pbkdf2_hmac_sha512(password, salt, iterations);
    be_u32_bytes(VALV_V2) + salt + nonce + be_u32_bytes(iterations) + check + keystream_xor(
        key,
        nonce,
        0,
        check,
    ) + keystream_xor(key, nonce, CHECK_LEN as int, seq![NEWLINE] + metadata + seq![NEWLINE])
}

/// Appends the bytes of `src` to `out`.
fn append_bytes(out: &mut Vec<u8>, src: &[u8])
    ensures
        final(out)@ == old(out)@ + src@,
{
    let mut i: usize = 0;
    while i < src.len()
        invariant
            i <= src@.len(),
            out@ == old(out)@ + src@.subrange(0, i as int),
        decreases src@.len() - i,
    {
        out.push(src[i]);
        i = i + 1;
        assert(out@ =~= old(out)@ + src@.subrange(0, i as int));
    }
    assert(src@.subrange(0, src@.len() as int) =~= src@);
}

/// Appends the big-endian bytes of `v` to `out`.
fn append_be_u32(out: &mut Vec<u8>, v: u32)
    ensures
        final(out)@ == old(out)@ + be_u32_bytes(v),
{
    assert(v / 0x1000000 < 0x100) by (nonlinear_arith);
    out.push((v / 0x1000000) as u8);
    out.push(((v / 0x10000) % 0x100) as u8);
    out.push(((v / 0x100) % 0x100) as u8);
    out.push((v % 0x100) as u8);
    assert(out@ =~= old(out)@ + be_u32_bytes(v));
}

/// Reads the big-endian number at `b[at..at + 4]`.
fn read_be_u32(b: &[u8], at: usize) -> (v: u32)
    requires
        at + 4 <= b@.len(),
    ensures
        v as int == be_u32_value(b@.subrange(at as int, at + 4)),
{
    let b0 = b[at] as u32;
    let b1 = b[at + 1] as u32;
    let b2 = b[at + 2] as u32;
    let b3 = b[at + 3] as u32;
    b0 * 0x1000000 + b1 * 0x10000 + b2 * 0x100 + b3
}

/// Builds the v2 header for the given salt, nonce and check bytes, and returns
/// it with the cipher positioned where the payload starts.
pub fn encode_header(
    salt: &[u8],
    nonce: &[u8; 12],
    check: &[u8],
    iterations: u32,
    password: &[u8],
    metadata: &str,
) -> (r: (Vec<u8>, CipherState))
    requires
        salt@.len() == SALT_LEN,
        check@.len() == CHECK_LEN,
        CHECK_LEN + metadata.spec_bytes().len() + 2 <= KEYSTREAM_LIMIT,
    ensures
        r.0@ == v2_header(salt@, nonce@, check@, iterations, password@, metadata.spec_bytes()),
        r.1@ == (
            pbkdf2_hmac_sha512(password@, salt@, iterations),
            nonce@,
            (CHECK_LEN + metadata.spec_bytes().len() + 2) as nat,
        ),
{
    let key = derive_key(password, salt, iterations);
    let mut cipher = CipherState::new(key, *nonce);
    let mut out: Vec<u8> = Vec::new();
    append_be_u32(&mut out, VALV_V2);
    append_bytes(&mut out, salt);
    append_bytes(&mut out, nonce);
    append_be_u32(&mut out, iterations);
    append_bytes(&mut out, check);
    let mut sealed_check = slice_to_vec(check);
    cipher.apply_keystream(sealed_check.as_mut_slice());
    append_bytes(&mut out, sealed_check.as_slice());
    let meta = metadata.as_bytes();
    let mut line: Vec<u8> = Vec::new();
    line.push(NEWLINE);
    append_bytes(&mut line, meta);
    line.push(NEWLINE);
    assert(line@ =~= seq![NEWLINE] + metadata.spec_bytes() + seq![NEWLINE]);
    cipher.apply_keystream(line.as_mut_slice());
    append_bytes(&mut out, line.as_slice());
    (out, cipher)
}

/// Fills `buf` with bytes from the thread-local generator of the rand crate
/// (`rand::fill`). Nothing is stated of the values.
#[verifier::external_body]
fn fill_random(buf: &mut [u8])
    ensures
        final(buf)@.len() == old(buf)@.len(),
{
    rand::fill(buf)
}

/// Builds a v2 header with a fresh random salt, nonce and check bytes.
pub fn new_header(password: &[u8], metadata: &str, iterations: u32) -> (r: (Vec<u8>, CipherState))
    requires
        CHECK_LEN + metadata.spec_bytes().len() + 2 <= KEYSTREAM_LIMIT,
    ensures
        exists|salt: Seq<u8>, nonce: Seq<u8>, check: Seq<u8>|
            {
                &&& salt.len() == SALT_LEN
                &&& nonce.len() == IV_LEN
                &&& check.len() == CHECK_LEN
                &&& r.0@ == v2_header(salt, nonce, check, iterations, password@, metadata.spec_bytes())
                &&& r.1@ == (
                    pbkdf2_hmac_sha512(password@, salt, iterations),
                    nonce,
                    (CHECK_LEN + metadata.spec_bytes().len() + 2) as nat,
                )
            },
{
    let mut salt: Vec<u8> = Vec::new();
    let mut check: Vec<u8> = Vec::new();
    let mut i: usize = 0;
    while i < 16
        invariant
            i <= 16,
            salt@.len() == i,
            i <= 12 ==> check@.len() == i,
            i > 12 ==> check@.len() == 12,
        decreases 16 - i,
    {
        salt.push(0);
        if i < 12 {
            check.push(0);
        }
        i = i + 1;
    }
    let mut nonce: [u8; 12] = [0, 0, 0, 0, 0, 0, 0, 0, 0, 0, 0, 0];
    fill_random(salt.as_mut_slice());
    fill_random(check.as_mut_slice());
    fill_random(&mut nonce);
    let r = encode_header(salt.as_slice(), &nonce, check.as_slice(), iterations, password, metadata);
    assert(nonce@.len() == IV_LEN);
    r
}


/// Which header layout a file was read with.
#[derive(Debug, Clone, Copy, PartialEq, Eq, Structural)]
pub enum HeaderFormat {
    V1,
    V2,
}

/// What the reading of a header found, before its text is interpreted:
/// the v1 original name or the v2 metadata (JSON text), the cipher positioned
/// at the payload, and the number of input bytes the header took.
pub struct HeaderPrefix {
    pub format: HeaderFormat,
    pub text: String,
    pub cipher: CipherState,
    pub header_len: usize,
}

/// A decrypted header: the original file name and the cipher for the payload.
pub struct DecryptedHeader {
    pub original_name: String,
    pub cipher: CipherState,
}

/// Why a header was refused.
pub enum HeaderFault {
    /// The input ended inside the header.
    Truncated,
    /// The password check failed.
    WrongPassword,
    /// The v2 metadata line does not start with a newline.
    MissingNewline,
    /// No newline ends the v2 metadata within its limit.
    MetadataTooLong,
    /// The v2 metadata is not UTF-8.
    InvalidUtf8,
}

/// What reading a header gives for an input.
pub enum HeaderOutcome {
    Fault(HeaderFault),
    Parsed { v1: bool, text: Seq<u8>, key: Seq<u8>, nonce: Seq<u8>, pos: int, len: int },
}

/// No newline in `d[0..k]`.
pub open spec fn newline_free(d: Seq<u8>, k: int) -> bool {
    forall|i: int| 0 <= i < k ==> d[i] != NEWLINE
}

/// `d[k]` is the first newline of `d`, and at most `limit` bytes precede it.
pub open spec fn line_ends_at(d: Seq<u8>, k: int, limit: int) -> bool {
    0 <= k <= limit && k < d.len() && d[k] == NEWLINE && newline_free(d, k)
}

/// Reading a newline-terminated line from the decrypted bytes `d` (at most
/// `limit + 1` of them are looked at), which started at keystream position
/// `pos` and input offset `at`.
pub open spec fn line_outcome(
    d: Seq<u8>,
    limit: int,
    v1: bool,
    key: Seq<u8>,
    nonce: Seq<u8>,
    pos: int,
    at: int,
    overlong: HeaderFault,
    not_text: HeaderFault,
) -> HeaderOutcome {
    if exists|k: int| line_ends_at(d, k, limit) {
        let k = choose|k: int| line_ends_at(d, k, limit);
        if valid_utf8(d.take(k)) {
            HeaderOutcome::Parsed { v1, text: d.take(k), key, nonce, pos: pos + k + 1, len: at + k + 1 }
        } else {
            HeaderOutcome::Fault(not_text)
        }
    } else if d.len() > limit {
        HeaderOutcome::Fault(overlong)
    } else {
        HeaderOutcome::Fault(HeaderFault::Truncated)
    }
}

/// The input bytes `from .. from + n`, cut off where the input ends.
pub open spec fn window(input: Seq<u8>, from: int, n: int) -> Seq<u8> {
    if input.len() < from + n {
        input.subrange(from, input.len() as int)
    } else {
        input.subrange(from, from + n)
    }
}

/// Reading a v2 header (the first four bytes were the version 2).
pub open spec fn v2_outcome(input: Seq<u8>, password: Seq<u8>) -> HeaderOutcome {
    if input.len() < V2_PLAIN_LEN {
        HeaderOutcome::Fault(HeaderFault::Truncated)
    } else {
        let salt = input.subrange(4, 20);
        let nonce = input.subrange(20, 32);
        let iterations = be_u32_value(input.subrange(32, 36)) as u32;
        let check = input.subrange(36, 48);
        let key = pbkdf2_hmac_sha512(password, salt, iterations);
        if input.len() < 60 {
            HeaderOutcome::Fault(HeaderFault::Truncated)
        } else if keystream_xor(key, nonce, 0, input.subrange(48, 60)) != check {
            HeaderOutcome::Fault(HeaderFault::WrongPassword)
        } else if input.len() < 61 {
            HeaderOutcome::Fault(HeaderFault::Truncated)
        } else if input[60] ^ chacha20_keystream(key, nonce, 12) != NEWLINE {
            HeaderOutcome::Fault(HeaderFault::MissingNewline)
        } else {
            line_outcome(
                keystream_xor(key, nonce, 13, window(input, 61, MAX_METADATA_LEN + 1)),
                MAX_METADATA_LEN as int,
                false,
                key,
                nonce,
                13,
                61,
                HeaderFault::MetadataTooLong,
                HeaderFault::InvalidUtf8,
            )
        }
    }
}

/// Reading a legacy v1 header: a 16-byte salt, a 12-byte nonce, then the
/// line `\n name \n` under the keystream of a key derived with 20000 rounds.
/// Every failure after the plain part reads as a wrong password.
pub open spec fn v1_outcome(input: Seq<u8>, password: Seq<u8>) -> HeaderOutcome {
    if input.len() < V1_PLAIN_LEN {
        HeaderOutcome::Fault(HeaderFault::Truncated)
    } else {
        let salt = input.subrange(0, 16);
        let nonce = input.subrange(16, 28);
        let key = pbkdf2_hmac_sha512(password, salt, V1_ITERATIONS);
        if input.len() < 29 {
            HeaderOutcome::Fault(HeaderFault::Truncated)
        } else if input[28] ^ chacha20_keystream(key, nonce, 0) != NEWLINE {
            HeaderOutcome::Fault(HeaderFault::WrongPassword)
        } else {
            line_outcome(
                keystream_xor(key, nonce, 1, window(input, 29, MAX_V1_NAME_LEN + 1)),
                MAX_V1_NAME_LEN as int,
                true,
                key,
                nonce,
                1,
                29,
                HeaderFault::WrongPassword,
                HeaderFault::WrongPassword,
            )
        }
    }
}

/// Reading the header at the start of `input` with `password`; a file whose
/// first four bytes are not the version 2, or that is hinted to be v1, is read
/// as v1.
pub open spec fn header_outcome(input: Seq<u8>, password: Seq<u8>, v1_hint: bool) -> HeaderOutcome {
    if input.len() < 4 {
        HeaderOutcome::Fault(HeaderFault::Truncated)
    } else if be_u32_value(input.subrange(0, 4)) == VALV_V2 && !v1_hint {
        v2_outcome(input, password)
    } else {
        v1_outcome(input, password)
    }
}

/// The error reported for a refused header.
pub open spec fn fault_error(f: HeaderFault, e: DecryptError) -> bool {
    match f {
        HeaderFault::Truncated => e is Io,
        HeaderFault::WrongPassword => e is InvalidPassword,
        HeaderFault::MissingNewline => e matches DecryptError::CorruptHeader(m) && m@ == "Missing initial newline"@,
        HeaderFault::MetadataTooLong => e matches DecryptError::CorruptHeader(m) && m@ == "Metadata exceeds 4KB"@,
        HeaderFault::InvalidUtf8 => e matches DecryptError::CorruptHeader(m) && m@ == "Invalid UTF-8 in metadata"@,
    }
}

/// `std::str::from_utf8`: the bytes as a string exactly when they are UTF-8.
#[verifier::external_body]
fn utf8_str(bytes: &[u8]) -> (r: Option<&str>)
    ensures
        r is Some <==> valid_utf8(bytes@),
        r matches Some(s) ==> s.spec_bytes() == bytes@,
{
    std::str::from_utf8(bytes).ok()
}

/// The error `read_exact` reports when the input ends early
/// (`std::io::Error::new` with kind `UnexpectedEof`).
#[verifier::external_body]
fn end_of_input() -> std::io::Error {
    std::io::Error::new(std::io::ErrorKind::UnexpectedEof, "failed to fill whole buffer")
}

/// Copies `input[from .. from + n]` (cut off at the end of the input).
fn copy_window(input: &[u8], from: usize, n: usize) -> (r: Vec<u8>)
    requires
        from <= input@.len(),
        from + n <= usize::MAX,
    ensures
        r@ == window(input@, from as int, n as int),
{
    let end = if input.len() < from + n {
        input.len()
    } else {
        from + n
    };
    let mut r: Vec<u8> = Vec::new();
    let mut i = from;
    while i < end
        invariant
            from <= i <= end,
            end <= input@.len(),
            r@ == input@.subrange(from as int, i as int),
        decreases end - i,
    {
        r.push(input[i]);
        i = i + 1;
        assert(r@ =~= input@.subrange(from as int, i as int));
    }
    r
}

/// Finds the first newline in `d`, looking at no more than `limit + 1` bytes.
fn find_line_end(d: &[u8], limit: usize) -> (r: Option<usize>)
    requires
        d@.len() <= limit + 1,
    ensures
        r matches Some(k) ==> line_ends_at(d@, k as int, limit as int),
        r is None ==> !exists|k: int| line_ends_at(d@, k, limit as int),
{
    let mut i: usize = 0;
    while i < d.len()
        invariant
            i <= d@.len(),
            d@.len() <= limit + 1,
            newline_free(d@, i as int),
        decreases d@.len() - i,
    {
        if d[i] == NEWLINE {
            return Some(i);
        }
        i = i + 1;
    }
    assert forall|k: int| !line_ends_at(d@, k, limit as int) by {
        if line_ends_at(d@, k, limit as int) {
            assert(d@[k] != NEWLINE);
        }
    }
    None
}

/// How reading the line that ends a header can fail.
enum LineError {
    Overlong,
    NotText,
    Truncated,
}

/// Reads the line that ends a header from the decrypted bytes `d`: its
/// length and its text.
fn read_line(d: &[u8], limit: usize) -> (r: Result<(usize, String), LineError>)
    requires
        d@.len() <= limit + 1,
    ensures
        match r {
            Ok((k, text)) => line_ends_at(d@, k as int, limit as int) && valid_utf8(d@.take(k as int))
                && encode_utf8(text@) == d@.take(k as int),
            Err(LineError::Overlong) => !(exists|k: int| line_ends_at(d@, k, limit as int)) && d@.len()
                > limit,
            Err(LineError::Truncated) => !(exists|k: int| line_ends_at(d@, k, limit as int)) && d@.len()
                <= limit,
            Err(LineError::NotText) => exists|k: int|
                line_ends_at(d@, k, limit as int) && !valid_utf8(d@.take(k)),
        },
{
    match find_line_end(d, limit) {
        Some(k) => {
            let line = vstd::slice::slice_subrange(d, 0, k);
            assert(line@ =~= d@.take(k as int));
            match utf8_str(line) {
                Some(s) => Ok((k, s.to_owned())),
                None => Err(LineError::NotText),
            }
        },
        None => {
            if d.len() > limit {
                Err(LineError::Overlong)
            } else {
                Err(LineError::Truncated)
            }
        },
    }
}


/// A line ends at most at one place.
proof fn lemma_line_end_unique(d: Seq<u8>, k1: int, k2: int, limit: int)
    requires
        line_ends_at(d, k1, limit),
        line_ends_at(d, k2, limit),
    ensures
        k1 == k2,
{
    if k1 < k2 {
        assert(d[k1] != NEWLINE);
    } else if k2 < k1 {
        assert(d[k2] != NEWLINE);
    }
}

/// Whether the two byte strings are equal, looking at every byte whatever
/// the earlier ones were.
fn same_bytes(a: &[u8], b: &[u8]) -> (r: bool)
    requires
        a@.len() == b@.len(),
    ensures
        r == (a@ == b@),
{
    let mut diff: u8 = 0;
    let mut i: usize = 0;
    while i < a.len()
        invariant
            i <= a@.len(),
            a@.len() == b@.len(),
            (diff == 0) == (forall|j: int| 0 <= j < i ==> a@[j] == b@[j]),
        decreases a@.len() - i,
    {
        let x = a[i];
        let y = b[i];
        let old_diff = diff;
        diff = diff | (x ^ y);
        assert((old_diff | (x ^ y)) == 0 <==> (old_diff == 0 && x == y)) by (bit_vector);
        i = i + 1;
    }
    if diff == 0 {
        assert(a@ =~= b@);
    }
    diff == 0
}

/// The header outcome found from a line read at keystream position `pos`.
proof fn lemma_line_outcome(
    d: Seq<u8>,
    limit: int,
    v1: bool,
    key: Seq<u8>,
    nonce: Seq<u8>,
    pos: int,
    at: int,
    overlong: HeaderFault,
    not_text: HeaderFault,
    k: int,
)
    requires
        line_ends_at(d, k, limit),
    ensures
        line_outcome(d, limit, v1, key, nonce, pos, at, overlong, not_text) == (if valid_utf8(d.take(k)) {
            HeaderOutcome::Parsed { v1, text: d.take(k), key, nonce, pos: pos + k + 1, len: at + k + 1 }
        } else {
            HeaderOutcome::Fault(not_text)
        }),
{
    let c = choose|j: int| line_ends_at(d, j, limit);
    lemma_line_end_unique(d, c, k, limit);
}

/// Reads a v2 header (after its version was found to be 2).
fn read_v2_header(input: &[u8], password: &[u8]) -> (r: Result<HeaderPrefix, DecryptError>)
    requires
        input@.len() >= 4,
    ensures
        match v2_outcome(input@, password@) {
            HeaderOutcome::Fault(f) => r matches Err(e) && fault_error(f, e),
            HeaderOutcome::Parsed { v1, text, key, nonce, pos, len } => r matches Ok(h) && {
                &&& h.format == (if v1 { HeaderFormat::V1 } else { HeaderFormat::V2 })
                &&& encode_utf8(h.text@) == text
                &&& h.cipher@ == (key, nonce, pos as nat)
                &&& h.header_len == len
            },
        },
{
    if input.len() < V2_PLAIN_LEN {
        return Err(DecryptError::Io(end_of_input()));
    }
    let salt = vstd::slice::slice_subrange(input, 4, 20);
    let nonce: [u8; 12] = [
        input[20],
        input[21],
        input[22],
        input[23],
        input[24],
        input[25],
        input[26],
        input[27],
        input[28],
        input[29],
        input[30],
        input[31],
    ];
    assert(nonce@ =~= input@.subrange(20, 32));
    let iterations = read_be_u32(input, 32);
    let key = derive_key(password, salt, iterations);
    let ghost k = pbkdf2_hmac_sha512(password@, input@.subrange(4, 20), iterations);
    if input.len() < 60 {
        return Err(DecryptError::Io(end_of_input()));
    }
    let mut cipher = CipherState::new(key, nonce);
    let mut probe = copy_window(input, 48, CHECK_LEN);
    assert(probe@ =~= input@.subrange(48, 60));
    cipher.apply_keystream(probe.as_mut_slice());
    let check = vstd::slice::slice_subrange(input, 36, 48);
    if !same_bytes(probe.as_slice(), check) {
        return Err(DecryptError::InvalidPassword);
    }
    if input.len() < 61 {
        return Err(DecryptError::Io(end_of_input()));
    }
    let mut first: Vec<u8> = Vec::new();
    first.push(input[60]);
    cipher.apply_keystream(first.as_mut_slice());
    if first[0] != NEWLINE {
        return Err(DecryptError::CorruptHeader("Missing initial newline"));
    }
    let mut d = copy_window(input, 61, MAX_METADATA_LEN + 1);
    cipher.apply_keystream(d.as_mut_slice());
    let ghost dd = keystream_xor(k, nonce@, 13, window(input@, 61, MAX_METADATA_LEN + 1));
    assert(d@ == dd);
    match read_line(d.as_slice(), MAX_METADATA_LEN) {
        Ok((n, text)) => {
            proof {
                lemma_line_outcome(
                    dd,
                    MAX_METADATA_LEN as int,
                    false,
                    k,
                    nonce@,
                    13,
                    61,
                    HeaderFault::MetadataTooLong,
                    HeaderFault::InvalidUtf8,
                    n as int,
                );
            }
            Ok(
                HeaderPrefix {
                    format: HeaderFormat::V2,
                    text,
                    cipher: CipherState { key, nonce, pos: (14 + n) as u64 },
                    header_len: 62 + n,
                },
            )
        },
        Err(LineError::Overlong) => Err(DecryptError::CorruptHeader("Metadata exceeds 4KB")),
        Err(LineError::NotText) => {
            proof {
                let j = choose|j: int| line_ends_at(dd, j, MAX_METADATA_LEN as int) && !valid_utf8(dd.take(j));
                lemma_line_outcome(
                    dd,
                    MAX_METADATA_LEN as int,
                    false,
                    k,
                    nonce@,
                    13,
                    61,
                    HeaderFault::MetadataTooLong,
                    HeaderFault::InvalidUtf8,
                    j,
                );
            }
            Err(DecryptError::CorruptHeader("Invalid UTF-8 in metadata"))
        },
        Err(LineError::Truncated) => Err(DecryptError::Io(end_of_input())),
    }
}


/// Reads a legacy v1 header.
fn read_v1_header(input: &[u8], password: &[u8]) -> (r: Result<HeaderPrefix, DecryptError>)
    ensures
        match v1_outcome(input@, password@) {
            HeaderOutcome::Fault(f) => r matches Err(e) && fault_error(f, e),
            HeaderOutcome::Parsed { v1, text, key, nonce, pos, len } => r matches Ok(h) && {
                &&& h.format == (if v1 { HeaderFormat::V1 } else { HeaderFormat::V2 })
                &&& encode_utf8(h.text@) == text
                &&& h.cipher@ == (key, nonce, pos as nat)
                &&& h.header_len == len
            },
        },
{
    if input.len() < V1_PLAIN_LEN {
        return Err(DecryptError::Io(end_of_input()));
    }
    let salt = vstd::slice::slice_subrange(input, 0, 16);
    let nonce: [u8; 12] = [
        input[16],
        input[17],
        input[18],
        input[19],
        input[20],
        input[21],
        input[22],
        input[23],
        input[24],
        input[25],
        input[26],
        input[27],
    ];
    assert(nonce@ =~= input@.subrange(16, 28));
    let key = derive_key(password, salt, V1_ITERATIONS);
    let ghost k = pbkdf2_hmac_sha512(password@, input@.subrange(0, 16), V1_ITERATIONS);
    if input.len() < 29 {
        return Err(DecryptError::Io(end_of_input()));
    }
    let mut cipher = CipherState::new(key, nonce);
    let mut first: Vec<u8> = Vec::new();
    first.push(input[28]);
    cipher.apply_keystream(first.as_mut_slice());
    if first[0] != NEWLINE {
        return Err(DecryptError::InvalidPassword);
    }
    let mut d = copy_window(input, 29, MAX_V1_NAME_LEN + 1);
    cipher.apply_keystream(d.as_mut_slice());
    let ghost dd = keystream_xor(k, nonce@, 1, window(input@, 29, MAX_V1_NAME_LEN + 1));
    assert(d@ == dd);
    match read_line(d.as_slice(), MAX_V1_NAME_LEN) {
        Ok((n, text)) => {
            proof {
                lemma_line_outcome(
                    dd,
                    MAX_V1_NAME_LEN as int,
                    true,
                    k,
                    nonce@,
                    1,
                    29,
                    HeaderFault::WrongPassword,
                    HeaderFault::WrongPassword,
                    n as int,
                );
            }
            Ok(
                HeaderPrefix {
                    format: HeaderFormat::V1,
                    text,
                    cipher: CipherState { key, nonce, pos: (2 + n) as u64 },
                    header_len: 30 + n,
                },
            )
        },
        Err(LineError::Overlong) => Err(DecryptError::InvalidPassword),
        Err(LineError::NotText) => {
            proof {
                let j = choose|j: int| line_ends_at(dd, j, MAX_V1_NAME_LEN as int) && !valid_utf8(dd.take(j));
                lemma_line_outcome(
                    dd,
                    MAX_V1_NAME_LEN as int,
                    true,
                    k,
                    nonce@,
                    1,
                    29,
                    HeaderFault::WrongPassword,
                    HeaderFault::WrongPassword,
                    j,
                );
            }
            Err(DecryptError::InvalidPassword)
        },
        Err(LineError::Truncated) => Err(DecryptError::Io(end_of_input())),
    }
}

/// Reads the header at the start of `input` with `password`. `v1_hint` says
/// the file's name marks it as a legacy v1 file. On success the result holds
/// the header's text, the cipher positioned at the payload and the header's
/// length; the payload starts at `input[header_len]`.
pub fn decrypt_header(input: &[u8], password: &[u8], v1_hint: bool) -> (r: Result<HeaderPrefix, DecryptError>)
    ensures
        match header_outcome(input@, password@, v1_hint) {
            HeaderOutcome::Fault(f) => r matches Err(e) && fault_error(f, e),
            HeaderOutcome::Parsed { v1, text, key, nonce, pos, len } => r matches Ok(h) && {
                &&& h.format == (if v1 { HeaderFormat::V1 } else { HeaderFormat::V2 })
                &&& encode_utf8(h.text@) == text
                &&& h.cipher@ == (key, nonce, pos as nat)
                &&& h.header_len == len
            },
        },
{
    if input.len() < 4 {
        return Err(DecryptError::Io(end_of_input()));
    }
    let version = read_be_u32(input, 0);
    if version == VALV_V2 && !v1_hint {
        read_v2_header(input, password)
    } else {
        read_v1_header(input, password)
    }
}


/// Writing a v2 header and reading it back with the same password gives the
/// metadata that was written, the same key and nonce, and the cipher at the
/// position where the payload was encrypted; whatever follows the header
/// does not matter. (Metadata holding a newline or longer than the limit does
/// not read back: the reader stops at the first newline and refuses long
/// lines.)
pub proof fn lemma_header_roundtrip(
    salt: Seq<u8>,
    nonce: Seq<u8>,
    check: Seq<u8>,
    iterations: u32,
    password: Seq<u8>,
    metadata: Seq<u8>,
    rest: Seq<u8>,
)
    requires
        salt.len() == SALT_LEN,
        nonce.len() == IV_LEN,
        check.len() == CHECK_LEN,
        metadata.len() <= MAX_METADATA_LEN,
        valid_utf8(metadata),
        !metadata.contains(NEWLINE),
    ensures
        v2_header(salt, nonce, check, iterations, password, metadata).len() == V2_PLAIN_LEN + CHECK_LEN
            + metadata.len() + 2,
        header_outcome(v2_header(salt, nonce, check, iterations, password, metadata) + rest, password, false)
            == (HeaderOutcome::Parsed {
            v1: false,
            text: metadata,
            key: pbkdf2_hmac_sha512(password, salt, iterations),
            nonce,
            pos: CHECK_LEN + metadata.len() + 2,
            len: V2_PLAIN_LEN + CHECK_LEN + metadata.len() + 2,
        }),
{
    let key = pbkdf2_hmac_sha512(password, salt, iterations);
    let line = seq![NEWLINE] + metadata + seq![NEWLINE];
    let sealed_check = keystream_xor(key, nonce, 0, check);
    let sealed_line = keystream_xor(key, nonce, CHECK_LEN as int, line);
    let h = v2_header(salt, nonce, check, iterations, password, metadata);
    let input = h + rest;
    let m = metadata.len() as int;
    assert(h == be_u32_bytes(VALV_V2) + salt + nonce + be_u32_bytes(iterations) + check + sealed_check
        + sealed_line);
    assert(h.len() == 62 + m);
    lemma_be_u32_roundtrip(VALV_V2);
    lemma_be_u32_roundtrip(iterations);
    assert(input.subrange(0, 4) =~= be_u32_bytes(VALV_V2));
    assert(input.subrange(4, 20) =~= salt);
    assert(input.subrange(20, 32) =~= nonce);
    assert(input.subrange(32, 36) =~= be_u32_bytes(iterations));
    assert(input.subrange(36, 48) =~= check);
    assert(input.subrange(48, 60) =~= sealed_check);
    lemma_keystream_involution(key, nonce, 0, check);
    assert(input[60] == sealed_line[0]);
    assert(sealed_line[0] == NEWLINE ^ chacha20_keystream(key, nonce, 12));
    let ks = chacha20_keystream(key, nonce, 12);
    assert((NEWLINE ^ ks) ^ ks == NEWLINE) by (bit_vector);
    let w = window(input, 61, MAX_METADATA_LEN + 1);
    let d = keystream_xor(key, nonce, 13, w);
    assert(w.len() >= m + 1);
    assert forall|j: int| 0 <= j <= m implies #[trigger] d[j] == line[j + 1] by {
        assert(w[j] == input[61 + j]);
        assert(input[61 + j] == sealed_line[j + 1]);
        let kj = chacha20_keystream(key, nonce, 13 + j);
        let lj = line[j + 1];
        assert((lj ^ kj) ^ kj == lj) by (bit_vector);
    }
    assert(d[m] == NEWLINE);
    assert forall|j: int| 0 <= j < m implies d[j] != NEWLINE by {
        assert(d[j] == metadata[j]);
        if metadata[j] == NEWLINE {
            assert(metadata.contains(NEWLINE));
        }
    }
    assert(line_ends_at(d, m, MAX_METADATA_LEN as int));
    assert(d.take(m) =~= metadata);
    lemma_line_outcome(
        d,
        MAX_METADATA_LEN as int,
        false,
        key,
        nonce,
        13,
        61,
        HeaderFault::MetadataTooLong,
        HeaderFault::InvalidUtf8,
        m,
    );
}


/// A header made by `new_header` reads back with the same password: the
/// reader finds the metadata that was written and continues with the very
/// keystream position the writer continued with, so the payload decrypts to
/// what was encrypted (by `lemma_keystream_involution` and
/// `lemma_keystream_chunks`).
pub proof fn lemma_written_header_reads_back(
    header: Seq<u8>,
    cipher: (Seq<u8>, Seq<u8>, nat),
    password: Seq<u8>,
    metadata: Seq<u8>,
    iterations: u32,
    rest: Seq<u8>,
)
    requires
        exists|salt: Seq<u8>, nonce: Seq<u8>, check: Seq<u8>|
            {
                &&& salt.len() == SALT_LEN
                &&& nonce.len() == IV_LEN
                &&& check.len() == CHECK_LEN
                &&& header == v2_header(salt, nonce, check, iterations, password, metadata)
                &&& cipher == (
                    pbkdf2_hmac_sha512(password, salt, iterations),
                    nonce,
                    (CHECK_LEN + metadata.len() + 2) as nat,
                )
            },
        metadata.len() <= MAX_METADATA_LEN,
        valid_utf8(metadata),
        !metadata.contains(NEWLINE),
    ensures
        header_outcome(header + rest, password, false) == (HeaderOutcome::Parsed {
            v1: false,
            text: metadata,
            key: cipher.0,
            nonce: cipher.1,
            pos: cipher.2 as int,
            len: header.len() as int,
        }),
{
    let (salt, nonce, check) = choose|salt: Seq<u8>, nonce: Seq<u8>, check: Seq<u8>|
        {
            &&& salt.len() == SALT_LEN
            &&& nonce.len() == IV_LEN
            &&& check.len() == CHECK_LEN
            &&& header == v2_header(salt, nonce, check, iterations, password, metadata)
            &&& cipher == (
                pbkdf2_hmac_sha512(password, salt, iterations),
                nonce,
                (CHECK_LEN + metadata.len() + 2) as nat,
            )
        };
    lemma_header_roundtrip(salt, nonce, check, iterations, password, metadata, rest);
    assert(header.len() == V2_PLAIN_LEN + CHECK_LEN + metadata.len() + 2);
}


/// A whole file written and read back: the header made by `new_header`,
/// followed by the payload encrypted chunk by chunk with the cipher it gave
/// (`plain`, in whatever chunks the writer used), reads back with the same
/// password to the metadata that was written, with the payload starting right
/// after the header (`V2_PLAIN_LEN + CHECK_LEN + metadata.len() + 2` bytes in),
/// and decrypting the payload chunk by chunk from the cipher the reader got,
/// in whatever chunks the reader uses (`read`), gives back the plain data.
pub proof fn lemma_file_roundtrip(
    header: Seq<u8>,
    cipher: (Seq<u8>, Seq<u8>, nat),
    password: Seq<u8>,
    metadata: Seq<u8>,
    iterations: u32,
    plain: Seq<Seq<u8>>,
    read: Seq<Seq<u8>>,
)
    requires
        exists|salt: Seq<u8>, nonce: Seq<u8>, check: Seq<u8>|
            {
                &&& salt.len() == SALT_LEN
                &&& nonce.len() == IV_LEN
                &&& check.len() == CHECK_LEN
                &&& header == v2_header(salt, nonce, check, iterations, password, metadata)
                &&& cipher == (
                    pbkdf2_hmac_sha512(password, salt, iterations),
                    nonce,
                    (CHECK_LEN + metadata.len() + 2) as nat,
                )
            },
        metadata.len() <= MAX_METADATA_LEN,
        valid_utf8(metadata),
        !metadata.contains(NEWLINE),
        concat_chunks(read) == stream_xor(cipher.0, cipher.1, cipher.2 as int, plain),
    ensures
        header.len() == V2_PLAIN_LEN + CHECK_LEN + metadata.len() + 2,
        header_outcome(header + concat_chunks(read), password, false) == (HeaderOutcome::Parsed {
            v1: false,
            text: metadata,
            key: cipher.0,
            nonce: cipher.1,
            pos: cipher.2 as int,
            len: header.len() as int,
        }),
        stream_xor(cipher.0, cipher.1, cipher.2 as int, read) == concat_chunks(plain),
{
    lemma_written_header_reads_back(header, cipher, password, metadata, iterations, concat_chunks(read));
    let (key, nonce, pos) = (cipher.0, cipher.1, cipher.2 as int);
    lemma_stream_chunks(key, nonce, pos, plain);
    lemma_stream_chunks(key, nonce, pos, read);
    lemma_keystream_involution(key, nonce, pos, concat_chunks(plain));
}


/// Reading a header never looks past its first `MAX_HEADER_LEN` bytes: a
/// reader that hands over only that much of a longer input gets the same
/// outcome.
pub proof fn lemma_header_prefix_suffices(input: Seq<u8>, password: Seq<u8>, v1_hint: bool)
    requires
        input.len() >= MAX_HEADER_LEN,
    ensures
        header_outcome(input.take(MAX_HEADER_LEN as int), password, v1_hint) == header_outcome(input, password, v1_hint),
{
    let p = input.take(MAX_HEADER_LEN as int);
    assert(p.subrange(0, 4) =~= input.subrange(0, 4));
    assert(p.subrange(4, 20) =~= input.subrange(4, 20));
    assert(p.subrange(20, 32) =~= input.subrange(20, 32));
    assert(p.subrange(32, 36) =~= input.subrange(32, 36));
    assert(p.subrange(36, 48) =~= input.subrange(36, 48));
    assert(p.subrange(48, 60) =~= input.subrange(48, 60));
    assert(p.subrange(0, 16) =~= input.subrange(0, 16));
    assert(p.subrange(16, 28) =~= input.subrange(16, 28));
    assert(p[60] == input[60]);
    assert(p[28] == input[28]);
    assert(window(p, 61, MAX_METADATA_LEN + 1) =~= window(input, 61, MAX_METADATA_LEN + 1));
    assert(window(p, 29, MAX_V1_NAME_LEN + 1) =~= window(input, 29, MAX_V1_NAME_LEN + 1));
}

} // verus!
