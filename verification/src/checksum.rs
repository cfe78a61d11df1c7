//! Streaming SHA-1 checksum computation over a regular file's bytes,
//! resilient to transient read interruption. The hashing itself is done by
//! the `sha1` crate; this module verifies the chunking, retry and sentinel
//! policy around it for every possible sequence of read outcomes.

use vstd::prelude::*;
use vstd::slice::slice_subrange;

verus! {

#[verifier::external_type_specification]
#[verifier::external_body]
pub struct ExSha1(sha1::Sha1);

/// The stream of input bytes a hash state has absorbed so far.
pub uninterp spec fn sha1_absorbed(h: sha1::Sha1) -> Seq<u8>;

/// The lowercase hex digest of a byte sequence, as the `sha1` crate renders
/// it: a function of the bytes alone, the same in every run and on every
/// machine.
pub uninterp spec fn sha1_hex_of(bytes: Seq<u8>) -> Seq<char>;

/// A lowercase hexadecimal digit.
pub open spec fn is_lower_hex_char(c: char) -> bool {
    ('0' <= c && c <= '9') || ('a' <= c && c <= 'f')
}

/// Relies on sha1::Sha1::new: a fresh hash state that has absorbed nothing.
#[verifier::external_body]
fn sha1_new() -> (h: sha1::Sha1)
    ensures
        sha1_absorbed(h) == Seq::<u8>::empty(),
{
    sha1::Sha1::new()
}

/// Relies on sha1::Sha1::update: appends `data` to the absorbed stream.
#[verifier::external_body]
fn sha1_update(h: &mut sha1::Sha1, data: &[u8])
    ensures
        sha1_absorbed(*final(h)) == sha1_absorbed(*old(h)) + data@,
{
    h.update(data);
}

/// Relies on sha1::Sha1::digest and the hex rendering of sha1::Digest: the
/// digest of the absorbed bytes, written as exactly 40 lowercase hex
/// digits (five 32-bit words, eight digits each).
#[verifier::external_body]
fn sha1_hex_digest(h: &sha1::Sha1) -> (s: String)
    ensures
        s@ == sha1_hex_of(sha1_absorbed(*h)),
        s@.len() == 40,
        forall|i: int| 0 <= i < s@.len() ==> is_lower_hex_char(#[trigger] s@[i]),
{
    h.digest().to_string()
}

/// The literal sentinel recorded when a file's checksum could not be
/// computed.
pub open spec fn err_sentinel() -> Seq<char> {
    seq!['E', 'R', 'R']
}

/// The checksum sentinel `"ERR"` as a value.
fn checksum_error() -> (s: String)
    ensures
        s@ == err_sentinel(),
{
    let s = "ERR";
    proof {
        reveal_strlit("ERR");
        assert(s@ =~= err_sentinel());
    }
    s.to_owned()
}

/// How many consecutive interrupted reads are retried before giving up.
pub const RETRY_LIMIT: u64 = 10;

/// The fixed size of the scratch read buffer a driver should reuse across
/// files: one mebibyte.
pub const READ_BUF_SZ: usize = 1024 * 1024;

/// One in-progress checksum computation over a single file, fed by the
/// driver one read outcome at a time.
pub struct ChecksumEngine {
    hasher: sha1::Sha1,
    retries: u64,
}

impl ChecksumEngine {
    /// The bytes fed into the hash so far.
    pub closed spec fn absorbed(self) -> Seq<u8> {
        sha1_absorbed(self.hasher)
    }

    /// How many interrupted reads have been absorbed so far.
    pub closed spec fn retries(self) -> u64 {
        self.retries
    }

    /// A fresh computation: nothing hashed, no retries spent.
    pub fn start() -> (e: ChecksumEngine)
        ensures
            e.absorbed() == Seq::<u8>::empty(),
            e.retries() == 0,
    {
        ChecksumEngine { hasher: sha1_new(), retries: 0 }
    }

    /// A successful read of `n` bytes, sitting at the front of `buf`.
    /// Feeds those bytes into the hash; a zero-length read signals end of
    /// file and yields the final 40-digit hex digest of everything absorbed.
    /// A successful read ends any run of interruptions, so it resets the
    /// retry budget: only consecutive interruptions can exhaust it.
    pub fn on_read(&mut self, buf: &[u8], n: usize) -> (r: Option<String>)
        requires
            n <= buf@.len(),
        ensures
            n > 0 ==> {
                &&& final(self).absorbed() == old(self).absorbed() + buf@.subrange(0, n as int)
                &&& final(self).retries() == 0
                &&& r is None
            },
            n == 0 ==> {
                &&& final(self).absorbed() == old(self).absorbed()
                &&& final(self).retries() == old(self).retries()
                &&& r matches Some(s) && s@ == sha1_hex_of(old(self).absorbed()) && s@.len() == 40
                    && forall|i: int| 0 <= i < s@.len() ==> is_lower_hex_char(#[trigger] s@[i])
            },
    {
        if n == 0 {
            Option::Some(sha1_hex_digest(&self.hasher))
        } else {
            let chunk = slice_subrange(buf, 0, n);
            sha1_update(&mut self.hasher, chunk);
            self.retries = 0;
            Option::None
        }
    }

    /// A read that failed with a transient interruption. Up to `RETRY_LIMIT`
    /// consecutive interruptions the driver is told to back off and retry
    /// (`None`); once the budget is spent the computation gives up with the
    /// `"ERR"` sentinel, and no further retry is requested.
    pub fn on_interrupted(&mut self) -> (r: Option<String>)
        ensures
            final(self).absorbed() == old(self).absorbed(),
            old(self).retries() < RETRY_LIMIT ==> {
                &&& final(self).retries() == old(self).retries() + 1
                &&& r is None
            },
            old(self).retries() >= RETRY_LIMIT ==> {
                &&& final(self).retries() == old(self).retries()
                &&& r matches Some(s) && s@ == err_sentinel()
            },
    {
        if self.retries < RETRY_LIMIT {
            self.retries = self.retries + 1;
            Option::None
        } else {
            Option::Some(checksum_error())
        }
    }

    /// A read that failed for any other reason: the computation gives up at
    /// once with the `"ERR"` sentinel.
    pub fn on_read_error(&self) -> (r: String)
        ensures
            r@ == err_sentinel(),
    {
        checksum_error()
    }
}

/// The concatenation of a sequence of chunks.
pub open spec fn concat_chunks(chunks: Seq<Seq<u8>>) -> Seq<u8>
    decreases chunks.len(),
{
    if chunks.len() == 0 {
        Seq::<u8>::empty()
    } else {
        concat_chunks(chunks.drop_last()) + chunks.last()
    }
}

/// The digest of a file read in the given chunks. The result is stated over
/// the concatenated bytes alone, so it cannot depend on where the chunk
/// boundaries fall.
pub fn checksum_of_chunks(chunks: &Vec<Vec<u8>>) -> (s: String)
    ensures
        s@ == sha1_hex_of(concat_chunks(chunks@.map_values(|c: Vec<u8>| c@))),
        s@.len() == 40,
        forall|i: int| 0 <= i < s@.len() ==> is_lower_hex_char(#[trigger] s@[i]),
{
    let ghost all = chunks@.map_values(|c: Vec<u8>| c@);
    let mut engine = ChecksumEngine::start();
    let mut i: usize = 0;
    proof {
        assert(all.take(0) =~= Seq::<Seq<u8>>::empty());
    }
    while i < chunks.len()
        invariant
            0 <= i <= chunks.len(),
            all == chunks@.map_values(|c: Vec<u8>| c@),
            all.len() == chunks@.len(),
            engine.absorbed() == concat_chunks(all.take(i as int)),
        decreases chunks.len() - i,
    {
        let chunk = &chunks[i];
        let _eof = engine.on_read(chunk.as_slice(), chunk.len());
        proof {
            assert(chunk@.subrange(0, chunk@.len() as int) =~= chunk@);
            if chunk@.len() == 0 {
                assert(concat_chunks(all.take(i as int)) + all[i as int] =~= concat_chunks(
                    all.take(i as int),
                ));
            }
            assert(all.take(i + 1).drop_last() =~= all.take(i as int));
            assert(all.take(i + 1).last() == all[i as int]);
        }
        i = i + 1;
    }
    proof {
        assert(all.take(all.len() as int) =~= all);
    }
    let empty: Vec<u8> = Vec::new();
    let r = engine.on_read(empty.as_slice(), 0);
    match r {
        Option::Some(s) => s,
        Option::None => vstd::pervasive::unreached(),
    }
}

/// Law: the checksum is determined by content alone. Two reads of the same
/// byte content, however differently chunked, and whenever run, yield the
/// same digest.
pub proof fn lemma_checksum_chunk_independent(c1: Seq<Seq<u8>>, c2: Seq<Seq<u8>>)
    requires
        concat_chunks(c1) == concat_chunks(c2),
    ensures
        sha1_hex_of(concat_chunks(c1)) == sha1_hex_of(concat_chunks(c2)),
{
}

} // verus!
