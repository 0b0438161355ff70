//! The encrypted form of a backup: chunks, each sealed on its own, between a header and an end
//! mark.

use crate::digest::{base64, base64_bytes, bytes_opt};
use crate::error::Failure;
use crate::text;
use aes_gcm::aead::{Aead, Payload};
use aes_gcm::{Aes256Gcm, KeyInit, Nonce};
use vstd::prelude::*;

verus! {

/// The largest chunk, in bytes.
pub const MAX_CHUNK: usize = 4_194_304;

/// What a cipher adds to a chunk, in bytes.
pub const TAG_BYTES: usize = 16;

/// The bytes that AES-256-GCM makes of a text under a key and a nonce, with associated data.
pub uninterp spec fn sealed(key: Seq<u8>, nonce: Seq<u8>, aad: Seq<u8>, plain: Seq<u8>) -> Option<
    Seq<u8>,
>;

/// The text that AES-256-GCM makes of bytes under a key and a nonce, with associated data; none
/// where they were not sealed so.
pub uninterp spec fn opened(key: Seq<u8>, nonce: Seq<u8>, aad: Seq<u8>, data: Seq<u8>) -> Option<
    Seq<u8>,
>;

/// `Aes256Gcm::encrypt`. It succeeds on texts of up to 2^36 bytes, adds a tag of 16 bytes, and
/// what it gives is opened to the text that was sealed, under the same key, nonce and associated
/// data.
#[verifier::external_body]
fn seal(key: &[u8], nonce: &[u8], aad: &[u8], plain: &[u8]) -> (r: Option<Vec<u8>>)
    requires
        key@.len() == 32,
        nonce@.len() == 12,
    ensures
        bytes_opt(r) == sealed(key@, nonce@, aad@, plain@),
        plain@.len() <= 0x10_0000_0000 && aad@.len() <= 0x10_0000_0000 ==> r is Some,
        r is Some ==> r->0@.len() == plain@.len() + TAG_BYTES,
        r is Some ==> opened(key@, nonce@, aad@, r->0@) == Some(plain@),
{
    let cipher = Aes256Gcm::new_from_slice(key).ok()?;
    cipher.encrypt(Nonce::from_slice(nonce), Payload { msg: plain, aad }).ok()
}

/// `Aes256Gcm::decrypt`. What it gives is named here and not spelled out. That it refuses what was
/// sealed under another key holds of almost all keys and not of every one, so nothing is claimed of
/// it.
#[verifier::external_body]
fn unseal(key: &[u8], nonce: &[u8], aad: &[u8], data: &[u8]) -> (r: Option<Vec<u8>>)
    requires
        key@.len() == 32,
        nonce@.len() == 12,
    ensures
        bytes_opt(r) == opened(key@, nonce@, aad@, data@),
{
    let cipher = Aes256Gcm::new_from_slice(key).ok()?;
    cipher.decrypt(Nonce::from_slice(nonce), Payload { msg: data, aad }).ok()
}

/// The key that a setting spells: 32 bytes in base64.
pub fn encryption_key(setting: &str) -> (r: Result<Vec<u8>, Failure>)
    ensures
        r is Ok <==> base64(setting@) is Ok && base64(setting@)->Ok_0.len() == 32,
        r is Ok ==> r->Ok_0@ == base64(setting@)->Ok_0,
        r is Err ==> r->Err_0.message@
            == "AGAPORNIS_BACKUP_ENCRYPTION_KEY must be a base64 encoded 32-byte key."@,
{
    match base64_bytes(setting) {
        Ok(bytes) => if bytes.len() == 32 {
            Ok(bytes)
        } else {
            Err(
                Failure::new(
                    "AGAPORNIS_BACKUP_ENCRYPTION_KEY must be a base64 encoded 32-byte key.",
                ),
            )
        },
        Err(_) => Err(
            Failure::new("AGAPORNIS_BACKUP_ENCRYPTION_KEY must be a base64 encoded 32-byte key."),
        ),
    }
}

/// The first bytes of an encrypted backup.
pub open spec fn magic() -> Seq<u8> {
    seq![65u8, 71u8, 80u8, 66u8, 75u8, 48u8, 49u8, 0u8]
}

/// A number as four bytes, the highest first.
pub open spec fn be32(n: u32) -> Seq<u8> {
    seq![
        (n / 16777216) as u8,
        (n / 65536 % 256) as u8,
        (n / 256 % 256) as u8,
        (n % 256) as u8,
    ]
}

/// The number that four bytes spell, the highest first.
pub open spec fn from_be32(b: Seq<u8>) -> int {
    b[0] * 16777216 + b[1] * 65536 + b[2] * 256 + b[3]
}

/// Four bytes read back as the number that they spell.
pub proof fn lemma_be32(n: u32)
    ensures
        be32(n).len() == 4,
        from_be32(be32(n)) == n,
{
    assert(n / 16777216 < 256);
    assert(n == (n / 16777216) * 16777216 + (n / 65536 % 256) * 65536 + (n / 256 % 256) * 256 + (n
        % 256)) by (nonlinear_arith);
}

fn push_be32(out: &mut Vec<u8>, n: u32)
    ensures
        final(out)@ == old(out)@ + be32(n),
{
    out.push((n / 16777216) as u8);
    out.push((n / 65536 % 256) as u8);
    out.push((n / 256 % 256) as u8);
    out.push((n % 256) as u8);
    assert(out@ =~= old(out)@ + be32(n));
}

fn bytes_be32(n: u32) -> (r: Vec<u8>)
    ensures
        r@ == be32(n),
{
    let mut out: Vec<u8> = Vec::new();
    push_be32(&mut out, n);
    assert(out@ =~= be32(n));
    out
}

fn read_be32(data: &[u8], at: usize) -> (r: u32)
    requires
        at + 4 <= data@.len(),
    ensures
        r == from_be32(data@.subrange(at as int, at + 4)),
{
    data[at] as u32 * 16777216 + data[at + 1] as u32 * 65536 + data[at + 2] as u32 * 256
        + data[at + 3] as u32
}

/// The nonce of a chunk: the backup's own prefix, and the chunk's number.
pub open spec fn nonce_of(prefix: Seq<u8>, counter: u32) -> Seq<u8> {
    prefix + be32(counter)
}

fn make_nonce(prefix: &[u8], counter: u32) -> (r: Vec<u8>)
    ensures
        r@ == nonce_of(prefix@, counter),
{
    let mut out: Vec<u8> = vstd::slice::slice_to_vec(prefix);
    push_be32(&mut out, counter);
    out
}

/// A chunk as it stands in a backup: its length, and its bytes sealed.
pub open spec fn frame(key: Seq<u8>, prefix: Seq<u8>, counter: u32, chunk: Seq<u8>) -> Seq<u8> {
    be32(chunk.len() as u32) + sealed(key, nonce_of(prefix, counter), be32(counter), chunk)->0
}

/// The chunks from the given one on as they stand in a backup.
pub open spec fn frames(key: Seq<u8>, prefix: Seq<u8>, chunks: Seq<Seq<u8>>, from: int) -> Seq<u8>
    decreases chunks.len() - from,
{
    if from < 0 || from >= chunks.len() {
        Seq::empty()
    } else {
        frame(key, prefix, from as u32, chunks[from]) + frames(key, prefix, chunks, from + 1)
    }
}

/// The first bytes of a backup: the magic, and its prefix.
pub open spec fn header(prefix: Seq<u8>) -> Seq<u8> {
    magic() + prefix
}

/// An encrypted backup: header, chunks, and a length of 0.
pub open spec fn encrypted(key: Seq<u8>, prefix: Seq<u8>, chunks: Seq<Seq<u8>>) -> Seq<u8> {
    header(prefix) + frames(key, prefix, chunks, 0) + be32(0)
}

/// What a chunk was sealed to is opened to the chunk.
pub open spec fn opens(key: Seq<u8>, prefix: Seq<u8>, counter: u32, chunk: Seq<u8>) -> bool {
    let s = sealed(key, nonce_of(prefix, counter), be32(counter), chunk);
    &&& s is Some
    &&& s->0.len() == chunk.len() + TAG_BYTES
    &&& opened(key, nonce_of(prefix, counter), be32(counter), s->0) == Some(chunk)
}

/// The chunks from the given one on, in a row.
pub open spec fn joined(chunks: Seq<Seq<u8>>, from: int) -> Seq<u8>
    decreases chunks.len() - from,
{
    if from < 0 || from >= chunks.len() {
        Seq::empty()
    } else {
        chunks[from] + joined(chunks, from + 1)
    }
}

/// What the chunks of a backup, from the one with the given number on, are opened to; or why they
/// are not. What follows the end mark does not matter.
pub open spec fn opened_frames(key: Seq<u8>, prefix: Seq<u8>, counter: u32, rest: Seq<u8>) -> Result<
    Seq<u8>,
    Seq<char>,
>
    decreases rest.len(),
{
    if rest.len() < 4 {
        Err("failed to fill whole buffer"@)
    } else {
        let n = from_be32(rest.take(4));
        if n == 0 {
            Ok(Seq::empty())
        } else if n > MAX_CHUNK {
            Err("Encrypted backup chunk is invalid."@)
        } else if rest.len() < 4 + n + TAG_BYTES {
            Err("failed to fill whole buffer"@)
        } else {
            let data = rest.subrange(4, 4 + n + TAG_BYTES);
            match opened(key, nonce_of(prefix, counter), be32(counter), data) {
                None => Err("encrypted backup authentication failed"@),
                Some(plain) => if counter == u32::MAX {
                    Err("encrypted backup exceeds the supported chunk count"@)
                } else {
                    match opened_frames(
                        key,
                        prefix,
                        (counter + 1) as u32,
                        rest.skip(4 + n + TAG_BYTES),
                    ) {
                        Ok(tail) => Ok(plain + tail),
                        Err(m) => Err(m),
                    }
                },
            }
        }
    }
}

/// What an encrypted backup is opened to; or why it is not.
pub open spec fn decrypted(key: Seq<u8>, data: Seq<u8>) -> Result<Seq<u8>, Seq<char>> {
    if data.len() < 8 {
        Err("failed to fill whole buffer"@)
    } else if data.take(8) != magic() {
        Err("Encrypted backup header is invalid."@)
    } else if data.len() < 16 {
        Err("failed to fill whole buffer"@)
    } else {
        opened_frames(key, data.subrange(8, 16), 0, data.skip(16))
    }
}

/// Encrypts a backup chunk by chunk.
pub struct Encryptor {
    pub key: Vec<u8>,
    pub prefix: Vec<u8>,
    pub counter: u32,
}

impl Encryptor {
    /// The key and the prefix have their lengths.
    pub open spec fn wf(&self) -> bool {
        self.key@.len() == 32 && self.prefix@.len() == 8
    }

    /// Begins a backup under the given key; `prefix` is to be different for each backup.
    pub fn new(key: Vec<u8>, prefix: Vec<u8>) -> (r: Encryptor)
        requires
            key@.len() == 32,
            prefix@.len() == 8,
        ensures
            r.wf(),
            r.key@ == key@,
            r.prefix@ == prefix@,
            r.counter == 0,
    {
        Encryptor { key, prefix, counter: 0 }
    }

    /// The first bytes of the backup.
    pub fn header(&self) -> (r: Vec<u8>)
        ensures
            r@ == header(self.prefix@),
    {
        let mut out: Vec<u8> = vec![65u8, 71u8, 80u8, 66u8, 75u8, 48u8, 49u8, 0u8];
        assert(out@ =~= magic());
        let mut prefix = vstd::slice::slice_to_vec(self.prefix.as_slice());
        out.append(&mut prefix);
        out
    }

    /// The next chunk as it stands in the backup. A backup of more chunks than can be numbered is
    /// refused.
    pub fn chunk(&mut self, plain: &[u8]) -> (r: Result<Vec<u8>, Failure>)
        requires
            old(self).wf(),
            1 <= plain@.len() <= MAX_CHUNK,
        ensures
            final(self).wf(),
            final(self).key@ == old(self).key@,
            final(self).prefix@ == old(self).prefix@,
            r is Ok <==> old(self).counter < u32::MAX,
            r is Ok ==> {
                &&& final(self).counter == old(self).counter + 1
                &&& r->Ok_0@ == frame(
                    old(self).key@,
                    old(self).prefix@,
                    old(self).counter,
                    plain@,
                )
                &&& opens(old(self).key@, old(self).prefix@, old(self).counter, plain@)
            },
            r is Err ==> final(self).counter == old(self).counter && r->Err_0.message@
                == "backup is too large for the encrypted chunk format"@,
    {
        let counter = self.counter;
        if counter == u32::MAX {
            return Err(Failure::new("backup is too large for the encrypted chunk format"));
        }
        let nonce = make_nonce(self.prefix.as_slice(), counter);
        let aad = bytes_be32(counter);
        match seal(self.key.as_slice(), nonce.as_slice(), aad.as_slice(), plain) {
            Some(data) => {
                let mut data = data;
                let length: u32 = plain.len() as u32;
                let mut out = bytes_be32(length);
                out.append(&mut data);
                self.counter = counter + 1;
                Ok(out)
            },
            None => Err(Failure::new("backup encryption failed")),
        }
    }

    /// The last bytes of the backup.
    pub fn finish(&self) -> (r: Vec<u8>)
        ensures
            r@ == be32(0),
    {
        bytes_be32(0)
    }
}

/// What follows the length of a chunk.
#[derive(Clone, Copy, Debug, PartialEq, Eq, Structural)]
pub enum FrameLength {
    /// The backup ends.
    End,
    /// A sealed chunk of so many bytes.
    Sealed(usize),
}

/// Opens a backup chunk by chunk.
pub struct Decryptor {
    pub key: Vec<u8>,
    pub prefix: Vec<u8>,
    pub counter: u32,
}

impl Decryptor {
    /// The key and the prefix have their lengths.
    pub open spec fn wf(&self) -> bool {
        self.key@.len() == 32 && self.prefix@.len() == 8
    }

    /// Begins to open a backup with the given first 16 bytes.
    pub fn new(key: Vec<u8>, first: &[u8]) -> (r: Result<Decryptor, Failure>)
        requires
            key@.len() == 32,
            first@.len() == 16,
        ensures
            r is Ok <==> first@.take(8) == magic(),
            r is Ok ==> r->Ok_0.wf() && r->Ok_0.key@ == key@ && r->Ok_0.prefix@ == first@.skip(8)
                && r->Ok_0.counter == 0,
            r is Err ==> r->Err_0.message@ == "Encrypted backup header is invalid."@,
    {
        let wanted: Vec<u8> = vec![65u8, 71u8, 80u8, 66u8, 75u8, 48u8, 49u8, 0u8];
        assert(wanted@ =~= magic());
        let start = vstd::slice::slice_subrange(first, 0, 8);
        assert(start@ =~= first@.take(8));
        if !text::same_bytes(start, wanted.as_slice()) {
            return Err(Failure::new("Encrypted backup header is invalid."));
        }
        let prefix = vstd::slice::slice_to_vec(vstd::slice::slice_subrange(first, 8, 16));
        assert(prefix@ =~= first@.skip(8));
        Ok(Decryptor { key, prefix, counter: 0 })
    }

    /// Reads the length of the next chunk.
    pub fn length(&self, bytes: &[u8]) -> (r: Result<FrameLength, Failure>)
        requires
            bytes@.len() == 4,
        ensures
            ({
                let n = from_be32(bytes@);
                &&& r is Ok <==> n <= MAX_CHUNK
                &&& r is Ok ==> r->Ok_0 == if n == 0 {
                    FrameLength::End
                } else {
                    FrameLength::Sealed((n + TAG_BYTES) as usize)
                }
                &&& r is Err ==> r->Err_0.message@ == "Encrypted backup chunk is invalid."@
            }),
    {
        let n = read_be32(bytes, 0);
        assert(bytes@.subrange(0, 4) =~= bytes@);
        if n == 0 {
            Ok(FrameLength::End)
        } else if n as usize > MAX_CHUNK {
            Err(Failure::new("Encrypted backup chunk is invalid."))
        } else {
            Ok(FrameLength::Sealed(n as usize + TAG_BYTES))
        }
    }

    /// Opens the next chunk.
    pub fn chunk(&mut self, data: &[u8]) -> (r: Result<Vec<u8>, Failure>)
        requires
            old(self).wf(),
        ensures
            final(self).wf(),
            final(self).key@ == old(self).key@,
            final(self).prefix@ == old(self).prefix@,
            ({
                let plain = opened(
                    old(self).key@,
                    nonce_of(old(self).prefix@, old(self).counter),
                    be32(old(self).counter),
                    data@,
                );
                &&& r is Ok <==> plain is Some && old(self).counter < u32::MAX
                &&& r is Ok ==> Some(r->Ok_0@) == plain && final(self).counter == old(
                    self,
                ).counter + 1
                &&& r is Err ==> final(self).counter == old(self).counter
                &&& plain is None ==> r->Err_0.message@
                    == "encrypted backup authentication failed"@
                &&& plain is Some && old(self).counter == u32::MAX ==> r->Err_0.message@
                    == "encrypted backup exceeds the supported chunk count"@
            }),
    {
        let counter = self.counter;
        let nonce = make_nonce(self.prefix.as_slice(), counter);
        let aad = bytes_be32(counter);
        match unseal(self.key.as_slice(), nonce.as_slice(), aad.as_slice(), data) {
            Some(plain) => {
                if counter == u32::MAX {
                    return Err(
                        Failure::new("encrypted backup exceeds the supported chunk count"),
                    );
                }
                self.counter = counter + 1;
                Ok(plain)
            },
            None => Err(Failure::new("encrypted backup authentication failed")),
        }
    }
}

/// Chunks by their contents.
pub open spec fn chunks_view(chunks: Seq<Vec<u8>>) -> Seq<Seq<u8>> {
    chunks.map_values(|c: Vec<u8>| c@)
}

/// The encrypted form of a backup that comes in chunks; `prefix` is to be different for each
/// backup. It is opened, under the same key, to the chunks in a row.
pub fn encrypt_backup(key: &[u8], prefix: &[u8], chunks: &Vec<Vec<u8>>) -> (r: Result<
    Vec<u8>,
    Failure,
>)
    requires
        key@.len() == 32,
        prefix@.len() == 8,
        forall|i: int| 0 <= i < chunks@.len() ==> 1 <= (#[trigger] chunks@[i])@.len() <= MAX_CHUNK,
    ensures
        r is Ok <==> chunks@.len() <= u32::MAX,
        r is Ok ==> r->Ok_0@ == encrypted(key@, prefix@, chunks_view(chunks@)),
        r is Ok ==> decrypted(key@, r->Ok_0@) == Ok::<Seq<u8>, Seq<char>>(
            joined(chunks_view(chunks@), 0),
        ),
        r is Err ==> r->Err_0.message@ == "backup is too large for the encrypted chunk format"@,
{
    let ghost all = chunks_view(chunks@);
    let mut encryptor = Encryptor::new(
        vstd::slice::slice_to_vec(key),
        vstd::slice::slice_to_vec(prefix),
    );
    let mut out = encryptor.header();
    let mut i: usize = 0;
    assert(out@ + frames(key@, prefix@, all, 0) =~= header(prefix@) + frames(
        key@,
        prefix@,
        all,
        0,
    ));
    while i < chunks.len()
        invariant
            all == chunks_view(chunks@),
            prefix@.len() == 8,
            forall|k: int|
                0 <= k < chunks@.len() ==> 1 <= (#[trigger] chunks@[k])@.len() <= MAX_CHUNK,
            encryptor.wf(),
            encryptor.key@ == key@,
            encryptor.prefix@ == prefix@,
            encryptor.counter == i,
            0 <= i <= chunks@.len(),
            i <= u32::MAX,
            out@ + frames(key@, prefix@, all, i as int) == header(prefix@) + frames(
                key@,
                prefix@,
                all,
                0,
            ),
            forall|k: int| 0 <= k < i ==> opens(key@, prefix@, k as u32, #[trigger] all[k]),
        decreases chunks.len() - i,
    {
        let ghost before = out@;
        assert(all[i as int] == chunks@[i as int]@);
        assert(1 <= chunks@[i as int]@.len() <= MAX_CHUNK);
        match encryptor.chunk(chunks[i].as_slice()) {
            Ok(sealed_chunk) => {
                let mut sealed_chunk = sealed_chunk;
                let ghost piece = sealed_chunk@;
                out.append(&mut sealed_chunk);
                assert(out@ + frames(key@, prefix@, all, i + 1) =~= before + (piece + frames(
                    key@,
                    prefix@,
                    all,
                    i + 1,
                )));
            },
            Err(e) => {
                return Err(e);
            },
        }
        i += 1;
    }
    let mut end = encryptor.finish();
    let ghost before = out@;
    assert(before + Seq::<u8>::empty() =~= before);
    out.append(&mut end);
    proof {
        assert(out@ == encrypted(key@, prefix@, all));
        assert forall|k: int| 0 <= k < all.len() implies 1 <= (#[trigger] all[k]).len()
            <= MAX_CHUNK by {
            assert(1 <= chunks@[k]@.len() <= MAX_CHUNK);
        }
        law_backup_round_trip(key@, prefix@, all);
    }
    Ok(out)
}

/// What an encrypted backup is opened to.
pub fn decrypt_backup(key: &[u8], data: &[u8]) -> (r: Result<Vec<u8>, Failure>)
    requires
        key@.len() == 32,
    ensures
        match decrypted(key@, data@) {
            Ok(plain) => r is Ok && r->Ok_0@ == plain,
            Err(m) => r is Err && r->Err_0.message@ == m,
        },
{
    let n: usize = data.len();
    if n < 8 {
        return Err(Failure::new("failed to fill whole buffer"));
    }
    let wanted: Vec<u8> = vec![65u8, 71u8, 80u8, 66u8, 75u8, 48u8, 49u8, 0u8];
    assert(wanted@ =~= magic());
    let start = vstd::slice::slice_subrange(data, 0, 8);
    assert(start@ =~= data@.take(8));
    if !text::same_bytes(start, wanted.as_slice()) {
        return Err(Failure::new("Encrypted backup header is invalid."));
    }
    if n < 16 {
        return Err(Failure::new("failed to fill whole buffer"));
    }
    let first = vstd::slice::slice_subrange(data, 0, 16);
    assert(first@.take(8) =~= data@.take(8));
    assert(first@.skip(8) =~= data@.subrange(8, 16));
    let mut decryptor = match Decryptor::new(vstd::slice::slice_to_vec(key), first) {
        Ok(d) => d,
        Err(e) => {
            return Err(e);
        },
    };
    let ghost prefix = data@.subrange(8, 16);
    let ghost goal = decrypted(key@, data@);
    let mut out: Vec<u8> = Vec::new();
    let mut at: usize = 16;
    loop
        invariant
            n == data@.len(),
            16 <= at <= n,
            decryptor.wf(),
            decryptor.key@ == key@,
            decryptor.prefix@ == prefix,
            goal == decrypted(key@, data@),
            goal == match opened_frames(key@, prefix, decryptor.counter, data@.skip(at as int)) {
                Ok(tail) => Ok::<Seq<u8>, Seq<char>>(out@ + tail),
                Err(m) => Err(m),
            },
        decreases n - at,
    {
        let ghost rest = data@.skip(at as int);
        if n - at < 4 {
            return Err(Failure::new("failed to fill whole buffer"));
        }
        let length = vstd::slice::slice_subrange(data, at, at + 4);
        assert(length@ =~= rest.take(4));
        let size: usize = match decryptor.length(length) {
            Ok(FrameLength::End) => {
                assert(out@ + Seq::<u8>::empty() =~= out@);
                return Ok(out);
            },
            Ok(FrameLength::Sealed(size)) => size,
            Err(e) => {
                return Err(e);
            },
        };
        if n - at - 4 < size {
            return Err(Failure::new("failed to fill whole buffer"));
        }
        let sealed_chunk = vstd::slice::slice_subrange(data, at + 4, at + 4 + size);
        assert(sealed_chunk@ =~= rest.subrange(4, 4 + size));
        let ghost before = out@;
        match decryptor.chunk(sealed_chunk) {
            Ok(plain) => {
                let mut plain = plain;
                let ghost piece = plain@;
                out.append(&mut plain);
                proof {
                    assert(rest.skip(4 + size) =~= data@.skip(at + 4 + size));
                    match opened_frames(
                        key@,
                        prefix,
                        decryptor.counter,
                        data@.skip(at + 4 + size),
                    ) {
                        Ok(tail) => {
                            assert(before + (piece + tail) =~= out@ + tail);
                        },
                        Err(_) => {},
                    }
                }
            },
            Err(e) => {
                return Err(e);
            },
        }
        at = at + 4 + size;
    }
}

// ---------------------------------------------------------------------------------------------
// Laws.

proof fn lemma_frames_open(key: Seq<u8>, prefix: Seq<u8>, chunks: Seq<Seq<u8>>, from: int)
    requires
        0 <= from <= chunks.len(),
        chunks.len() <= u32::MAX,
        forall|i: int| 0 <= i < chunks.len() ==> 1 <= (#[trigger] chunks[i]).len() <= MAX_CHUNK,
        forall|i: int|
            0 <= i < chunks.len() ==> opens(key, prefix, i as u32, #[trigger] chunks[i]),
    ensures
        opened_frames(key, prefix, from as u32, frames(key, prefix, chunks, from) + be32(0))
            == Ok::<Seq<u8>, Seq<char>>(joined(chunks, from)),
    decreases chunks.len() - from,
{
    let rest = frames(key, prefix, chunks, from) + be32(0);
    lemma_be32(0);
    if from == chunks.len() {
        assert(rest =~= be32(0));
        assert(rest.take(4) =~= be32(0));
    } else {
        let chunk = chunks[from];
        assert(1 <= chunk.len() <= MAX_CHUNK);
        assert(opens(key, prefix, from as u32, chunk));
        let n = chunk.len();
        let s = sealed(key, nonce_of(prefix, from as u32), be32(from as u32), chunk)->0;
        let tail = frames(key, prefix, chunks, from + 1) + be32(0);
        lemma_be32(n as u32);
        assert(rest =~= be32(n as u32) + s + tail);
        assert(rest.take(4) =~= be32(n as u32));
        assert(rest.subrange(4, 4 + n + TAG_BYTES) =~= s);
        assert(rest.skip(4 + n + TAG_BYTES) =~= tail);
        lemma_frames_open(key, prefix, chunks, from + 1);
    }
}

/// A backup that was encrypted is opened, under the same key, to exactly what was encrypted: for
/// chunks of any number and any length that the format has, once each was sealed.
pub proof fn law_backup_round_trip(key: Seq<u8>, prefix: Seq<u8>, chunks: Seq<Seq<u8>>)
    requires
        prefix.len() == 8,
        chunks.len() <= u32::MAX,
        forall|i: int| 0 <= i < chunks.len() ==> 1 <= (#[trigger] chunks[i]).len() <= MAX_CHUNK,
        forall|i: int|
            0 <= i < chunks.len() ==> opens(key, prefix, i as u32, #[trigger] chunks[i]),
    ensures
        decrypted(key, encrypted(key, prefix, chunks)) == Ok::<Seq<u8>, Seq<char>>(
            joined(chunks, 0),
        ),
{
    let data = encrypted(key, prefix, chunks);
    lemma_frames_open(key, prefix, chunks, 0);
    lemma_be32(0);
    assert(data.take(8) =~= magic());
    assert(data.subrange(8, 16) =~= prefix);
    assert(data.skip(16) =~= frames(key, prefix, chunks, 0) + be32(0));
}

/// A backup that was cut off, anywhere, is not opened.
pub proof fn law_truncated_backup_is_refused(
    key: Seq<u8>,
    prefix: Seq<u8>,
    chunks: Seq<Seq<u8>>,
    kept: int,
)
    requires
        prefix.len() == 8,
        chunks.len() <= u32::MAX,
        forall|i: int| 0 <= i < chunks.len() ==> 1 <= (#[trigger] chunks[i]).len() <= MAX_CHUNK,
        forall|i: int|
            0 <= i < chunks.len() ==> opens(key, prefix, i as u32, #[trigger] chunks[i]),
        0 <= kept < encrypted(key, prefix, chunks).len(),
    ensures
        decrypted(key, encrypted(key, prefix, chunks).take(kept)) == Err::<Seq<u8>, Seq<char>>(
            "failed to fill whole buffer"@,
        ),
{
    let data = encrypted(key, prefix, chunks).take(kept);
    if kept >= 8 {
        assert(data.take(8) =~= magic());
    }
    if kept >= 16 {
        let all = frames(key, prefix, chunks, 0) + be32(0);
        lemma_frames_cut(key, prefix, chunks, 0, kept - 16);
        assert(data.subrange(8, 16) =~= prefix);
        assert(data.skip(16) =~= all.take(kept - 16));
    }
}

proof fn lemma_frames_cut(
    key: Seq<u8>,
    prefix: Seq<u8>,
    chunks: Seq<Seq<u8>>,
    from: int,
    kept: int,
)
    requires
        0 <= from <= chunks.len(),
        chunks.len() <= u32::MAX,
        forall|i: int| 0 <= i < chunks.len() ==> 1 <= (#[trigger] chunks[i]).len() <= MAX_CHUNK,
        forall|i: int|
            0 <= i < chunks.len() ==> opens(key, prefix, i as u32, #[trigger] chunks[i]),
        0 <= kept < frames(key, prefix, chunks, from).len() + 4,
    ensures
        opened_frames(
            key,
            prefix,
            from as u32,
            (frames(key, prefix, chunks, from) + be32(0)).take(kept),
        ) == Err::<Seq<u8>, Seq<char>>("failed to fill whole buffer"@),
    decreases chunks.len() - from,
{
    if from < chunks.len() && kept >= 4 {
        let all = frames(key, prefix, chunks, from) + be32(0);
        let rest = all.take(kept);
        let chunk = chunks[from];
        assert(1 <= chunk.len() <= MAX_CHUNK);
        assert(opens(key, prefix, from as u32, chunk));
        let n = chunk.len();
        let s = sealed(key, nonce_of(prefix, from as u32), be32(from as u32), chunk)->0;
        let tail = frames(key, prefix, chunks, from + 1) + be32(0);
        lemma_be32(n as u32);
        assert(all =~= be32(n as u32) + s + tail);
        assert(rest.take(4) =~= be32(n as u32));
        if kept >= 4 + n + TAG_BYTES {
            assert(rest.subrange(4, 4 + n + TAG_BYTES) =~= s);
            assert(rest.skip(4 + n + TAG_BYTES) =~= tail.take(kept - 4 - n - TAG_BYTES));
            lemma_frames_cut(key, prefix, chunks, from + 1, kept - 4 - n - TAG_BYTES);
        }
    }
}

/// A key opens the chunk with a number of a backup that was encrypted under another one.
pub open spec fn opens_sealed(
    other: Seq<u8>,
    key: Seq<u8>,
    prefix: Seq<u8>,
    chunks: Seq<Seq<u8>>,
    i: int,
) -> bool {
    opened(
        other,
        nonce_of(prefix, i as u32),
        be32(i as u32),
        sealed(key, nonce_of(prefix, i as u32), be32(i as u32), chunks[i])->0,
    ) is Some
}

proof fn lemma_frames_under_another_key(
    other: Seq<u8>,
    key: Seq<u8>,
    prefix: Seq<u8>,
    chunks: Seq<Seq<u8>>,
    from: int,
    refused: int,
)
    requires
        0 <= from <= refused < chunks.len(),
        chunks.len() <= u32::MAX,
        forall|i: int| 0 <= i < chunks.len() ==> 1 <= (#[trigger] chunks[i]).len() <= MAX_CHUNK,
        forall|i: int|
            0 <= i < chunks.len() ==> opens(key, prefix, i as u32, #[trigger] chunks[i]),
        !opens_sealed(other, key, prefix, chunks, refused),
    ensures
        opened_frames(other, prefix, from as u32, frames(key, prefix, chunks, from) + be32(0))
            == Err::<Seq<u8>, Seq<char>>("encrypted backup authentication failed"@),
    decreases refused - from,
{
    let rest = frames(key, prefix, chunks, from) + be32(0);
    let chunk = chunks[from];
    assert(1 <= chunk.len() <= MAX_CHUNK);
    assert(opens(key, prefix, from as u32, chunk));
    let n = chunk.len();
    let s = sealed(key, nonce_of(prefix, from as u32), be32(from as u32), chunk)->0;
    let tail = frames(key, prefix, chunks, from + 1) + be32(0);
    lemma_be32(n as u32);
    assert(rest =~= be32(n as u32) + s + tail);
    assert(rest.take(4) =~= be32(n as u32));
    assert(rest.subrange(4, 4 + n + TAG_BYTES) =~= s);
    assert(rest.skip(4 + n + TAG_BYTES) =~= tail);
    if from < refused && opens_sealed(other, key, prefix, chunks, from) {
        lemma_frames_under_another_key(other, key, prefix, chunks, from + 1, refused);
    }
}

/// A backup is opened under another key only where the cipher opens every one of its chunks under
/// that key: as soon as it refuses one, whichever, the backup is refused.
pub proof fn law_another_key_is_refused_with_a_chunk(
    other: Seq<u8>,
    key: Seq<u8>,
    prefix: Seq<u8>,
    chunks: Seq<Seq<u8>>,
    refused: int,
)
    requires
        prefix.len() == 8,
        chunks.len() <= u32::MAX,
        forall|i: int| 0 <= i < chunks.len() ==> 1 <= (#[trigger] chunks[i]).len() <= MAX_CHUNK,
        forall|i: int|
            0 <= i < chunks.len() ==> opens(key, prefix, i as u32, #[trigger] chunks[i]),
        0 <= refused < chunks.len(),
        !opens_sealed(other, key, prefix, chunks, refused),
    ensures
        decrypted(other, encrypted(key, prefix, chunks)) == Err::<Seq<u8>, Seq<char>>(
            "encrypted backup authentication failed"@,
        ),
{
    let data = encrypted(key, prefix, chunks);
    lemma_frames_under_another_key(other, key, prefix, chunks, 0, refused);
    assert(data.take(8) =~= magic());
    assert(data.subrange(8, 16) =~= prefix);
    assert(data.skip(16) =~= frames(key, prefix, chunks, 0) + be32(0));
}

/// A backup begins with its mark and its prefix and ends with a length of zero.
pub proof fn law_backups_are_marked(key: Seq<u8>, prefix: Seq<u8>, chunks: Seq<Seq<u8>>)
    requires
        prefix.len() == 8,
    ensures
        encrypted(key, prefix, chunks).len() >= 20,
        encrypted(key, prefix, chunks).take(8) == seq![
            65u8,
            71u8,
            80u8,
            66u8,
            75u8,
            48u8,
            49u8,
            0u8,
        ],
        encrypted(key, prefix, chunks).subrange(8, 16) == prefix,
        encrypted(key, prefix, chunks).skip(encrypted(key, prefix, chunks).len() - 4) == seq![
            0u8,
            0u8,
            0u8,
            0u8,
        ],
{
    let data = encrypted(key, prefix, chunks);
    lemma_be32(0);
    assert(data.take(8) =~= magic());
    assert(data.subrange(8, 16) =~= prefix);
    assert(data.skip(data.len() - 4) =~= be32(0));
    assert(be32(0) =~= seq![0u8, 0u8, 0u8, 0u8]);
}

/// One more chunk stands behind the others: its length, and its bytes sealed with its own number,
/// both in the nonce and beside it.
pub proof fn law_chunks_are_sealed_by_their_number(
    key: Seq<u8>,
    prefix: Seq<u8>,
    chunks: Seq<Seq<u8>>,
    chunk: Seq<u8>,
    from: int,
)
    requires
        0 <= from <= chunks.len() < u32::MAX,
    ensures
        frames(key, prefix, chunks.push(chunk), from) == frames(key, prefix, chunks, from) + (be32(
            chunk.len() as u32,
        ) + sealed(
            key,
            prefix + be32(chunks.len() as u32),
            be32(chunks.len() as u32),
            chunk,
        )->0),
    decreases chunks.len() - from,
{
    let all = chunks.push(chunk);
    if from < chunks.len() {
        law_chunks_are_sealed_by_their_number(key, prefix, chunks, chunk, from + 1);
        assert(all[from] == chunks[from]);
        assert(frames(key, prefix, all, from) =~= frames(key, prefix, chunks, from) + (be32(
            chunk.len() as u32,
        ) + sealed(
            key,
            prefix + be32(chunks.len() as u32),
            be32(chunks.len() as u32),
            chunk,
        )->0));
    } else {
        assert(frames(key, prefix, all, from + 1) =~= Seq::empty());
        assert(frames(key, prefix, chunks, from) =~= Seq::empty());
        assert(frames(key, prefix, all, from) =~= frames(key, prefix, chunks, from) + (be32(
            chunk.len() as u32,
        ) + sealed(
            key,
            prefix + be32(chunks.len() as u32),
            be32(chunks.len() as u32),
            chunk,
        )->0));
    }
}

/// No two chunks of a backup are sealed with one nonce, and numbers are written so that they read
/// back.
pub proof fn law_nonces_differ(prefix: Seq<u8>, a: u32, b: u32)
    requires
        prefix.len() == 8,
    ensures
        a != b ==> nonce_of(prefix, a) != nonce_of(prefix, b),
        nonce_of(prefix, a).len() == 12,
        nonce_of(prefix, a).take(8) == prefix,
        from_be32(be32(a)) == a,
        be32(a).len() == 4,
        a < 256 ==> be32(a) == seq![0u8, 0u8, 0u8, a as u8],
{
    lemma_be32(a);
    lemma_be32(b);
    assert(nonce_of(prefix, a).take(8) =~= prefix);
    assert(nonce_of(prefix, a).skip(8) =~= be32(a));
    assert(nonce_of(prefix, b).skip(8) =~= be32(b));
    if a < 256 {
        assert(be32(a) =~= seq![0u8, 0u8, 0u8, a as u8]);
    }
}

/// Data without the mark of a backup is not opened, under any key.
pub proof fn law_unmarked_data_is_refused(key: Seq<u8>, data: Seq<u8>, i: int)
    requires
        0 <= i < 8,
        i < data.len() ==> data[i] != seq![65u8, 71u8, 80u8, 66u8, 75u8, 48u8, 49u8, 0u8][i],
    ensures
        decrypted(key, data) is Err,
{
    if data.len() >= 8 {
        assert(data.take(8)[i] == data[i]);
    }
}

/// A chunk that was changed is not let through: where its bytes are not opened, nothing is given
/// back, though all other chunks are in order.
pub proof fn law_changed_chunks_are_refused(
    key: Seq<u8>,
    prefix: Seq<u8>,
    counter: u32,
    rest: Seq<u8>,
)
    requires
        rest.len() >= 4,
        from_be32(rest.take(4)) != 0,
    ensures
        from_be32(rest.take(4)) > MAX_CHUNK ==> opened_frames(key, prefix, counter, rest) is Err,
        rest.len() >= 4 + from_be32(rest.take(4)) + TAG_BYTES && opened(
            key,
            prefix + be32(counter),
            be32(counter),
            rest.subrange(4, 4 + from_be32(rest.take(4)) + TAG_BYTES),
        ) is None ==> opened_frames(key, prefix, counter, rest) is Err,
        rest.len() < 4 + from_be32(rest.take(4)) + TAG_BYTES ==> opened_frames(
            key,
            prefix,
            counter,
            rest,
        ) is Err,
{
}

/// Chunks that stand behind each other are put together in their order.
pub proof fn law_chunks_are_put_together(chunks: Seq<Seq<u8>>, chunk: Seq<u8>, from: int)
    requires
        0 <= from <= chunks.len(),
    ensures
        joined(chunks.push(chunk), from) == joined(chunks, from) + chunk,
        joined(Seq::empty(), 0) == Seq::<u8>::empty(),
    decreases chunks.len() - from,
{
    let all = chunks.push(chunk);
    if from < chunks.len() {
        law_chunks_are_put_together(chunks, chunk, from + 1);
        assert(all[from] == chunks[from]);
        assert(joined(all, from) =~= joined(chunks, from) + chunk);
    } else {
        assert(joined(all, from + 1) =~= Seq::empty());
        assert(joined(chunks, from) =~= Seq::empty());
        assert(joined(all, from) =~= joined(chunks, from) + chunk);
    }
}

} // verus!
