//! Streaming 64-bit content hash, rendered as sixteen lowercase hex digits.
use vstd::prelude::*;
use vstd::string::*;
use crate::errors::NativeError;
use crate::mime::BytesRead;
use crate::text::push_char;
use xxhash_rust::xxh64::Xxh64;

verus! {

/// Size of the chunks in which a file is fed to the hasher.
pub const HASH_CHUNK_SIZE: usize = 65536;

/// The streaming hasher state of the `xxhash-rust` crate.
#[verifier::external_type_specification]
#[verifier::external_body]
pub struct ExXxh64(Xxh64);

/// The bytes a hasher has taken in so far, in order.
pub uninterp spec fn absorbed(h: Xxh64) -> Seq<u8>;

/// The xxHash64 digest, with seed 0, of a byte sequence.
pub uninterp spec fn xxh64_of(data: Seq<u8>) -> u64;

/// Trusted: wraps `Xxh64::new` with seed 0; a fresh state has taken in nothing.
#[verifier::external_body]
fn xxh64_start() -> (h: Xxh64)
    ensures
        absorbed(h) == Seq::<u8>::empty(),
{
    Xxh64::new(0)
}

/// Trusted: wraps `Xxh64::update`, which adds the chunk to what was taken in.
#[verifier::external_body]
fn xxh64_update(h: &mut Xxh64, chunk: &[u8])
    ensures
        absorbed(*final(h)) == absorbed(*old(h)) + chunk@,
{
    h.update(chunk)
}

/// Trusted: wraps `Xxh64::digest`; the streaming digest is the xxHash64 of
/// all the bytes taken in, whatever the chunking.
#[verifier::external_body]
fn xxh64_digest(h: &Xxh64) -> (d: u64)
    ensures
        d == xxh64_of(absorbed(*h)),
{
    h.digest()
}

/// The lowercase hex digit of a value below sixteen.
pub open spec fn hex_digit(v: int) -> char {
    if v < 10 {
        (48 + v) as char
    } else {
        (87 + v) as char
    }
}

/// The digit of `value` at position `i`, counted from the most significant
/// of sixteen.
pub open spec fn hex_nibble(value: u64, i: int) -> int {
    ((value as int) / pow16(15 - i)) % 16
}

/// Sixteen to the power `e`.
pub open spec fn pow16(e: int) -> int
    decreases e,
{
    if e <= 0 {
        1
    } else {
        16 * pow16(e - 1)
    }
}

/// A 64-bit value as sixteen lowercase hex digits, zero padded.
pub open spec fn hex16(value: u64) -> Seq<char> {
    Seq::new(16, |i: int| hex_digit(hex_nibble(value, i)))
}

/// Whether a character is a lowercase hex digit.
pub open spec fn is_lower_hex(c: char) -> bool {
    ('0' <= c && c <= '9') || ('a' <= c && c <= 'f')
}

fn digit_char(v: u64) -> (c: char)
    requires
        v < 16,
    ensures
        c == hex_digit(v as int),
        is_lower_hex(c),
{
    let b: u8 = if v < 10 {
        (48 + v) as u8
    } else {
        (87 + v) as u8
    };
    b as char
}

/// Renders a 64-bit value as sixteen lowercase hex digits.
pub fn format_hex16(value: u64) -> (s: String)
    ensures
        s@ == hex16(value),
{
    let mut s = String::new();
    let mut rest: u64 = value;
    let mut digits: Vec<char> = Vec::new();
    let mut i: usize = 0;
    // Least significant digit first.
    while i < 16
        invariant
            i <= 16,
            digits.len() == i,
            rest as int == (value as int) / pow16(i as int),
            forall|k: int| 0 <= k < i ==> digits@[k] == hex_digit(hex_nibble(value, 15 - k)),
        decreases 16 - i,
    {
        let d: u64 = rest % 16;
        proof {
            lemma_pow16_step(value as int, i as int);
        }
        digits.push(digit_char(d));
        rest = rest / 16;
        i = i + 1;
    }
    let mut j: usize = 16;
    while j > 0
        invariant
            j <= 16,
            digits.len() == 16,
            s@.len() == 16 - j,
            forall|k: int| 0 <= k < 16 - j ==> s@[k] == hex_digit(hex_nibble(value, k)),
            forall|k: int| 0 <= k < 16 ==> digits@[k] == hex_digit(hex_nibble(value, 15 - k)),
        decreases j,
    {
        j = j - 1;
        push_char(&mut s, digits[j]);
    }
    assert(s@ =~= hex16(value));
    s
}

proof fn lemma_pow16_step(v: int, i: int)
    requires
        0 <= v,
        0 <= i,
    ensures
        pow16(i) > 0,
        (v / pow16(i)) / 16 == v / pow16(i + 1),
{
    lemma_pow16_pos(i);
    assert(pow16(i + 1) == 16 * pow16(i));
    vstd::arithmetic::div_mod::lemma_div_denominator(v, pow16(i), 16);
    assert(pow16(i) * 16 == 16 * pow16(i));
}

proof fn lemma_pow16_pos(i: int)
    ensures
        pow16(i) > 0,
    decreases i,
{
    if i > 0 {
        lemma_pow16_pos(i - 1);
    }
}

/// A hasher that is fed a file chunk by chunk.
pub struct ContentHasher {
    state: Xxh64,
}

impl View for ContentHasher {
    type V = Seq<u8>;

    /// Everything fed so far.
    closed spec fn view(&self) -> Seq<u8> {
        absorbed(self.state)
    }
}

impl ContentHasher {
    /// A hasher that has seen nothing.
    pub fn new() -> (h: Self)
        ensures
            h@ == Seq::<u8>::empty(),
    {
        ContentHasher { state: xxh64_start() }
    }

    /// Feeds the next chunk.
    pub fn update(&mut self, chunk: &[u8])
        ensures
            final(self)@ == old(self)@ + chunk@,
    {
        xxh64_update(&mut self.state, chunk);
    }

    /// The digest of everything fed so far, as sixteen hex digits.
    pub fn finish(&self) -> (s: String)
        ensures
            s@ == content_hash(self@),
    {
        format_hex16(xxh64_digest(&self.state))
    }
}

/// The fingerprint of a byte sequence on the wire.
pub open spec fn content_hash(data: Seq<u8>) -> Seq<char> {
    hex16(xxh64_of(data))
}

/// Fingerprints a whole buffer.
pub fn hash_bytes(data: &[u8]) -> (s: String)
    ensures
        s@ == content_hash(data@),
{
    let mut h = ContentHasher::new();
    h.update(data);
    assert(Seq::<u8>::empty() + data@ =~= data@);
    h.finish()
}

/// What reading a file for hashing gave.
pub enum FileRead {
    /// The file was absent when it was opened.
    Missing,
    /// Opening or reading failed otherwise, with the system's message.
    Failed(String),
    /// The content, in the chunks in which it was read.
    Content(Vec<Vec<u8>>),
}

/// All chunks joined in order.
pub open spec fn joined(chunks: Seq<Vec<u8>>) -> Seq<u8>
    decreases chunks.len(),
{
    if chunks.len() == 0 {
        Seq::empty()
    } else {
        joined(chunks.drop_last()) + chunks.last()@
    }
}

/// The outcome that hashing owes for a read.
pub open spec fn file_hash_spec(read: FileRead) -> Result<Option<Seq<char>>, NativeError> {
    match read {
        FileRead::Missing => Ok(None),
        FileRead::Failed(m) => Err(NativeError::Hashing(m)),
        FileRead::Content(chunks) => Ok(Some(content_hash(joined(chunks@)))),
    }
}

/// The hash of a file from what reading it gave: nothing for an absent file,
/// a hashing error for any other failure to open or read it, the
/// sixteen-digit fingerprint otherwise.
pub fn compute_file_hash(read: &FileRead) -> (r: Result<Option<String>, NativeError>)
    ensures
        match file_hash_spec(*read) {
            Ok(None) => r matches Ok(None),
            Ok(Some(h)) => r matches Ok(Some(s)) && s@ == h,
            Err(e) => r matches Err(NativeError::Hashing(m)) && e == NativeError::Hashing(m),
        },
{
    match read {
        FileRead::Missing => Ok(None),
        FileRead::Failed(m) => Err(NativeError::Hashing(m.clone())),
        FileRead::Content(chunks) => {
            let mut h = ContentHasher::new();
            let mut i: usize = 0;
            while i < chunks.len()
                invariant
                    i <= chunks.len(),
                    h@ == joined(chunks@.take(i as int)),
                decreases chunks.len() - i,
            {
                h.update(chunks[i].as_slice());
                proof {
                    assert(chunks@.take(i + 1).drop_last() == chunks@.take(i as int));
                }
                i = i + 1;
            }
            proof {
                assert(chunks@.take(chunks.len() as int) == chunks@);
            }
            Ok(Some(h.finish()))
        },
    }
}

/// What opening a file for hashing gave.
pub enum OpenOutcome {
    /// The file is open.
    Opened,
    /// The file was absent.
    Missing,
    /// Opening failed otherwise, with the system's message.
    Failed(String),
}

/// Where the hashing of a file stands.
pub enum HashStep {
    /// More is to be read; the hasher holds what was read so far.
    Reading(ContentHasher),
    /// Hashing is over, with its outcome.
    Done(Result<Option<String>, NativeError>),
}

/// Begins the hashing of a file: an absent file has no hash, any other
/// failure to open it is a hashing error, an open file is read.
pub fn begin_hash(open: OpenOutcome) -> (step: HashStep)
    ensures
        match open {
            OpenOutcome::Opened => step matches HashStep::Reading(h) && h@ == Seq::<u8>::empty(),
            OpenOutcome::Missing => step matches HashStep::Done(Ok(None)),
            OpenOutcome::Failed(m) => step matches HashStep::Done(Err(NativeError::Hashing(x)))
                && x == m,
        },
{
    match open {
        OpenOutcome::Opened => HashStep::Reading(ContentHasher::new()),
        OpenOutcome::Missing => HashStep::Done(Ok(None)),
        OpenOutcome::Failed(m) => HashStep::Done(Err(NativeError::Hashing(m))),
    }
}

/// Takes in what the next read of a file gave: bytes are fed to the hasher;
/// a read of no bytes is the end of the file and gives the fingerprint of
/// all that was fed; a failed read is a hashing error and gives no
/// fingerprint.
pub fn feed_hash(hasher: ContentHasher, read: &BytesRead) -> (step: HashStep)
    ensures
        match *read {
            BytesRead::Bytes(b) => if b@.len() == 0 {
                step matches HashStep::Done(Ok(Some(s))) && s@ == content_hash(hasher@)
            } else {
                step matches HashStep::Reading(h) && h@ == hasher@ + b@
            },
            BytesRead::Failed(m) => step matches HashStep::Done(Err(NativeError::Hashing(x)))
                && x@ == m@,
        },
{
    match read {
        BytesRead::Bytes(b) => {
            if b.len() == 0 {
                HashStep::Done(Ok(Some(hasher.finish())))
            } else {
                let mut h = hasher;
                h.update(b.as_slice());
                HashStep::Reading(h)
            }
        },
        BytesRead::Failed(m) => HashStep::Done(Err(NativeError::Hashing(m.clone()))),
    }
}

/// Every fingerprint has sixteen characters, each a lowercase hex digit.
pub proof fn lemma_hash_is_sixteen_hex_digits(data: Seq<u8>)
    ensures
        content_hash(data).len() == 16,
        forall|i: int| 0 <= i < 16 ==> is_lower_hex(#[trigger] content_hash(data)[i]),
{
    let v = xxh64_of(data);
    assert forall|i: int| 0 <= i < 16 implies is_lower_hex(#[trigger] content_hash(data)[i]) by {
        lemma_pow16_pos(15 - i);
        let n = hex_nibble(v, i);
        assert(0 <= n < 16);
    }
}

/// Hashing is a function of the bytes alone: the chunking in which a content
/// is fed does not change its fingerprint.
pub proof fn lemma_hash_ignores_chunking(a: Seq<Vec<u8>>, b: Seq<Vec<u8>>)
    requires
        joined(a) == joined(b),
    ensures
        content_hash(joined(a)) == content_hash(joined(b)),
{
}

} // verus!
