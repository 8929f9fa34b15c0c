//! The digest capability: one incremental hasher interface over five backend
//! algorithms, consumed by the content pass of the pipeline.

use vstd::prelude::*;

verus! {

use sha1::Digest;

/// The supported digest algorithms.
#[derive(Clone, Copy, PartialEq, Eq, Structural, Debug)]
pub enum ChecksumType {
    SHA1,
    SHA256,
    SHA512,
    MD5,
    XXH128,
}

#[verifier::external_type_specification]
#[verifier::external_body]
pub struct ExSha1(sha1::Sha1);

#[verifier::external_type_specification]
#[verifier::external_body]
pub struct ExSha256(sha2::Sha256);

#[verifier::external_type_specification]
#[verifier::external_body]
pub struct ExSha512(sha2::Sha512);

#[verifier::external_type_specification]
#[verifier::external_body]
pub struct ExMd5Context(md5::Context);

#[verifier::external_type_specification]
#[verifier::external_body]
pub struct ExXxh3(xxhash_rust::xxh3::Xxh3);

/// The bytes a SHA-1 hasher state has absorbed so far.
pub uninterp spec fn sha1_fed(h: sha1::Sha1) -> Seq<u8>;

/// The bytes a SHA-256 hasher state has absorbed so far.
pub uninterp spec fn sha256_fed(h: sha2::Sha256) -> Seq<u8>;

/// The bytes a SHA-512 hasher state has absorbed so far.
pub uninterp spec fn sha512_fed(h: sha2::Sha512) -> Seq<u8>;

/// The bytes an MD5 context has absorbed so far.
pub uninterp spec fn md5_fed(h: md5::Context) -> Seq<u8>;

/// The bytes an XXH3 hasher state has absorbed so far.
pub uninterp spec fn xxh3_fed(h: xxhash_rust::xxh3::Xxh3) -> Seq<u8>;

/// The SHA-1 digest of a byte sequence, as the sha1 crate computes it.
pub uninterp spec fn sha1_digest_of(data: Seq<u8>) -> Seq<u8>;

/// The SHA-256 digest of a byte sequence, as the sha2 crate computes it.
pub uninterp spec fn sha256_digest_of(data: Seq<u8>) -> Seq<u8>;

/// The SHA-512 digest of a byte sequence, as the sha2 crate computes it.
pub uninterp spec fn sha512_digest_of(data: Seq<u8>) -> Seq<u8>;

/// The MD5 digest of a byte sequence, as the md5 crate computes it.
pub uninterp spec fn md5_digest_of(data: Seq<u8>) -> Seq<u8>;

/// The 128-bit XXH3 digest of a byte sequence, in little-endian byte order,
/// as the xxhash-rust crate computes it.
pub uninterp spec fn xxh128_digest_of(data: Seq<u8>) -> Seq<u8>;

/// Relies on `sha1::Sha1` via `Digest::new`: a fresh hasher has absorbed
/// nothing.
#[verifier::external_body]
fn sha1_new() -> (h: sha1::Sha1)
    ensures
        sha1_fed(h) == Seq::<u8>::empty(),
{
    sha1::Sha1::new()
}

/// Relies on `Digest::update` of `sha1::Sha1`: the input is appended to what
/// the hasher has absorbed.
#[verifier::external_body]
fn sha1_update(h: &mut sha1::Sha1, buffer: &[u8])
    ensures
        sha1_fed(*final(h)) == sha1_fed(*old(h)) + buffer@,
{
    h.update(buffer)
}

/// Relies on `Digest::finalize` of `sha1::Sha1`: the 20-byte digest of
/// everything the hasher absorbed, a function of those bytes alone.
#[verifier::external_body]
fn sha1_finalize(h: sha1::Sha1) -> (r: Vec<u8>)
    ensures
        r@ == sha1_digest_of(sha1_fed(h)),
        r@.len() == 20,
{
    h.finalize().to_vec()
}

/// Relies on `sha2::Sha256` via `Digest::new`: a fresh hasher has absorbed
/// nothing.
#[verifier::external_body]
fn sha256_new() -> (h: sha2::Sha256)
    ensures
        sha256_fed(h) == Seq::<u8>::empty(),
{
    sha2::Sha256::new()
}

/// Relies on `Digest::update` of `sha2::Sha256`: the input is appended to
/// what the hasher has absorbed.
#[verifier::external_body]
fn sha256_update(h: &mut sha2::Sha256, buffer: &[u8])
    ensures
        sha256_fed(*final(h)) == sha256_fed(*old(h)) + buffer@,
{
    h.update(buffer)
}

/// Relies on `Digest::finalize` of `sha2::Sha256`: the 32-byte digest of
/// everything the hasher absorbed, a function of those bytes alone.
#[verifier::external_body]
fn sha256_finalize(h: sha2::Sha256) -> (r: Vec<u8>)
    ensures
        r@ == sha256_digest_of(sha256_fed(h)),
        r@.len() == 32,
{
    h.finalize().to_vec()
}

/// Relies on `sha2::Sha512` via `Digest::new`: a fresh hasher has absorbed
/// nothing.
#[verifier::external_body]
fn sha512_new() -> (h: sha2::Sha512)
    ensures
        sha512_fed(h) == Seq::<u8>::empty(),
{
    sha2::Sha512::new()
}

/// Relies on `Digest::update` of `sha2::Sha512`: the input is appended to
/// what the hasher has absorbed.
#[verifier::external_body]
fn sha512_update(h: &mut sha2::Sha512, buffer: &[u8])
    ensures
        sha512_fed(*final(h)) == sha512_fed(*old(h)) + buffer@,
{
    h.update(buffer)
}

/// Relies on `Digest::finalize` of `sha2::Sha512`: the 64-byte digest of
/// everything the hasher absorbed, a function of those bytes alone.
#[verifier::external_body]
fn sha512_finalize(h: sha2::Sha512) -> (r: Vec<u8>)
    ensures
        r@ == sha512_digest_of(sha512_fed(h)),
        r@.len() == 64,
{
    h.finalize().to_vec()
}

/// Relies on `md5::Context::new`: a fresh context has absorbed nothing.
#[verifier::external_body]
fn md5_new() -> (h: md5::Context)
    ensures
        md5_fed(h) == Seq::<u8>::empty(),
{
    md5::Context::new()
}

/// Relies on `md5::Context::consume`: the input is appended to what the
/// context has absorbed.
#[verifier::external_body]
fn md5_update(h: &mut md5::Context, buffer: &[u8])
    ensures
        md5_fed(*final(h)) == md5_fed(*old(h)) + buffer@,
{
    h.consume(buffer)
}

/// Relies on `md5::Context::finalize`: the 16-byte digest of everything the
/// context absorbed, a function of those bytes alone.
#[verifier::external_body]
fn md5_finalize(h: md5::Context) -> (r: Vec<u8>)
    ensures
        r@ == md5_digest_of(md5_fed(h)),
        r@.len() == 16,
{
    h.finalize().to_vec()
}

/// Relies on `xxhash_rust::xxh3::Xxh3::new`: a fresh hasher has absorbed
/// nothing.
#[verifier::external_body]
fn xxh3_new() -> (h: xxhash_rust::xxh3::Xxh3)
    ensures
        xxh3_fed(h) == Seq::<u8>::empty(),
{
    xxhash_rust::xxh3::Xxh3::new()
}

/// Relies on `Xxh3::update`: the input is appended to what the hasher has
/// absorbed.
#[verifier::external_body]
fn xxh3_update(h: &mut xxhash_rust::xxh3::Xxh3, buffer: &[u8])
    ensures
        xxh3_fed(*final(h)) == xxh3_fed(*old(h)) + buffer@,
{
    h.update(buffer)
}

/// Relies on `Xxh3::digest128`: the 128-bit digest of everything the hasher
/// absorbed, a function of those bytes alone, taken in little-endian order.
#[verifier::external_body]
fn xxh3_finalize(h: xxhash_rust::xxh3::Xxh3) -> (r: Vec<u8>)
    ensures
        r@ == xxh128_digest_of(xxh3_fed(h)),
        r@.len() == 16,
{
    h.digest128().to_le_bytes().to_vec()
}

/// The running state of one backend hasher.
pub enum ChecksumState {
    SHA1(sha1::Sha1),
    SHA256(sha2::Sha256),
    SHA512(sha2::Sha512),
    MD5(md5::Context),
    XXH128(xxhash_rust::xxh3::Xxh3),
}

/// The digest length, in bytes, of each algorithm.
pub open spec fn digest_len_of(t: ChecksumType) -> nat {
    match t {
        ChecksumType::SHA1 => 20,
        ChecksumType::SHA256 => 32,
        ChecksumType::SHA512 => 64,
        ChecksumType::MD5 => 16,
        ChecksumType::XXH128 => 16,
    }
}

/// The digest each algorithm computes over a byte sequence.
pub open spec fn digest_of(t: ChecksumType, data: Seq<u8>) -> Seq<u8> {
    match t {
        ChecksumType::SHA1 => sha1_digest_of(data),
        ChecksumType::SHA256 => sha256_digest_of(data),
        ChecksumType::SHA512 => sha512_digest_of(data),
        ChecksumType::MD5 => md5_digest_of(data),
        ChecksumType::XXH128 => xxh128_digest_of(data),
    }
}

/// An incremental hasher of a chosen algorithm: create, feed bytes in any
/// number of calls, and take the digest of everything fed.
pub struct Checksum {
    pub checksum_type: ChecksumType,
    pub state: ChecksumState,
}

impl Checksum {
    /// The backend state matches the chosen algorithm.
    pub open spec fn wf(self) -> bool {
        match self.state {
            ChecksumState::SHA1(_) => self.checksum_type == ChecksumType::SHA1,
            ChecksumState::SHA256(_) => self.checksum_type == ChecksumType::SHA256,
            ChecksumState::SHA512(_) => self.checksum_type == ChecksumType::SHA512,
            ChecksumState::MD5(_) => self.checksum_type == ChecksumType::MD5,
            ChecksumState::XXH128(_) => self.checksum_type == ChecksumType::XXH128,
        }
    }

    /// The bytes fed so far.
    pub open spec fn bytes_fed(self) -> Seq<u8> {
        match self.state {
            ChecksumState::SHA1(h) => sha1_fed(h),
            ChecksumState::SHA256(h) => sha256_fed(h),
            ChecksumState::SHA512(h) => sha512_fed(h),
            ChecksumState::MD5(h) => md5_fed(h),
            ChecksumState::XXH128(h) => xxh3_fed(h),
        }
    }

    /// A fresh hasher of the chosen algorithm, with nothing fed yet.
    pub fn new(checksum_type: ChecksumType) -> (r: Checksum)
        ensures
            r.wf(),
            r.checksum_type == checksum_type,
            r.bytes_fed() == Seq::<u8>::empty(),
    {
        let state = match checksum_type {
            ChecksumType::SHA1 => ChecksumState::SHA1(sha1_new()),
            ChecksumType::SHA256 => ChecksumState::SHA256(sha256_new()),
            ChecksumType::SHA512 => ChecksumState::SHA512(sha512_new()),
            ChecksumType::MD5 => ChecksumState::MD5(md5_new()),
            ChecksumType::XXH128 => ChecksumState::XXH128(xxh3_new()),
        };
        Checksum { checksum_type, state }
    }

    /// Feeds a buffer: the hasher has then absorbed the old bytes followed
    /// by the buffer. Feeding never fails.
    pub fn update(&mut self, buffer: &[u8]) -> (r: Result<(), ()>)
        requires
            old(self).wf(),
        ensures
            final(self).wf(),
            final(self).checksum_type == old(self).checksum_type,
            final(self).bytes_fed() == old(self).bytes_fed() + buffer@,
            r == Ok::<(), ()>(()),
    {
        match &mut self.state {
            ChecksumState::SHA1(h) => sha1_update(h, buffer),
            ChecksumState::SHA256(h) => sha256_update(h, buffer),
            ChecksumState::SHA512(h) => sha512_update(h, buffer),
            ChecksumState::MD5(h) => md5_update(h, buffer),
            ChecksumState::XXH128(h) => xxh3_update(h, buffer),
        }
        Ok(())
    }

    /// The digest length of this hasher's algorithm, in bytes.
    pub fn get_digest_length(&self) -> (r: usize)
        ensures
            r == digest_len_of(self.checksum_type),
    {
        match self.checksum_type {
            ChecksumType::SHA1 => 20,
            ChecksumType::SHA256 => 32,
            ChecksumType::SHA512 => 64,
            ChecksumType::MD5 => 16,
            ChecksumType::XXH128 => 16,
        }
    }

    /// Consumes the hasher and returns the digest of everything fed, of the
    /// algorithm's fixed length.
    pub fn finalize_to_vec(self) -> (r: Vec<u8>)
        requires
            self.wf(),
        ensures
            r@ == digest_of(self.checksum_type, self.bytes_fed()),
            r@.len() == digest_len_of(self.checksum_type),
    {
        match self.state {
            ChecksumState::SHA1(h) => sha1_finalize(h),
            ChecksumState::SHA256(h) => sha256_finalize(h),
            ChecksumState::SHA512(h) => sha512_finalize(h),
            ChecksumState::MD5(h) => md5_finalize(h),
            ChecksumState::XXH128(h) => xxh3_finalize(h),
        }
    }
}

} // verus!
