//! Audio samples: 16-bit little-endian PCM as captured from the
//! microphone, the chunking of the captured stream for storage, and the
//! sample decoding that precedes writing a WAV file.

use vstd::prelude::*;
use byteorder::ByteOrder;

verus! {

/// Once the pending capture buffer holds more than this many bytes it is
/// handed out for storage.
pub const STORE_THRESHOLD: usize = 100000;

/// The sample rate, in Hz, of recorded audio.
pub const SAMPLE_RATE: u32 = 44100;

/// The signed 16-bit value whose little-endian bytes are `lo`, `hi`.
pub open spec fn le_i16(lo: u8, hi: u8) -> int {
    let u = lo as int + 256 * hi as int;
    if u >= 32768 {
        u - 65536
    } else {
        u
    }
}

/// The two's-complement bit pattern of `s`, as an unsigned 16-bit number.
pub open spec fn u16_pattern(s: i16) -> int {
    if s < 0 {
        s as int + 65536
    } else {
        s as int
    }
}

/// The little-endian bytes of each sample, in order.
pub open spec fn le_bytes(samples: Seq<i16>) -> Seq<u8> {
    Seq::new(
        2 * samples.len(),
        |j: int|
            if j % 2 == 0 {
                (u16_pattern(samples[j / 2]) % 256) as u8
            } else {
                (u16_pattern(samples[j / 2]) / 256) as u8
            },
    )
}

/// The samples read back from stored bytes for a WAV file: one sample for
/// every four bytes, each decoded from the next two bytes in order.
pub open spec fn pcm_samples(bytes: Seq<u8>) -> Seq<i16> {
    Seq::new(bytes.len() / 4, |k: int| le_i16(bytes[2 * k], bytes[2 * k + 1]) as i16)
}

/// Reads a little-endian `i16` from two bytes with byteorder's
/// `LittleEndian::read_i16`, which returns `u16::from_le_bytes` of them
/// reinterpreted as `i16`.
#[verifier::external_body]
fn read_i16_le(pair: [u8; 2]) -> (v: i16)
    ensures
        v as int == le_i16(pair@[0], pair@[1]),
{
    byteorder::LittleEndian::read_i16(&pair)
}

/// Decodes stored sample bytes for a WAV file: one sample is read for every
/// four bytes, from the start of the input, two bytes at a time.
pub fn wav_samples(input_bytes: &[u8]) -> (samples: Vec<i16>)
    ensures
        samples@ == pcm_samples(input_bytes@),
{
    let num_samples = input_bytes.len() / 4;
    let mut samples: Vec<i16> = Vec::new();
    let mut k: usize = 0;
    while k < num_samples
        invariant
            num_samples == input_bytes@.len() / 4,
            4 * num_samples <= input_bytes@.len() <= usize::MAX,
            0 <= k <= num_samples,
            samples@ =~= pcm_samples(input_bytes@).take(k as int),
        decreases num_samples - k,
    {
        let pair: [u8; 2] = [input_bytes[2 * k], input_bytes[2 * k + 1]];
        let v = read_i16_le(pair);
        samples.push(v);
        k = k + 1;
    }
    samples
}

/// The little-endian bytes of each sample, in order, as the microphone
/// stream sends and stores them.
pub fn i16_le_bytes(samples: &[i16]) -> (bytes: Vec<u8>)
    requires
        2 * samples@.len() <= usize::MAX,
    ensures
        bytes@ == le_bytes(samples@),
        bytes@.len() == 2 * samples@.len(),
        forall|k: int|
            0 <= k < samples@.len() ==> (#[trigger] bytes@[2 * k]) as int + 256 * (bytes@[2 * k
                + 1] as int) == if samples@[k] < 0 {
                samples@[k] + 65536
            } else {
                samples@[k] as int
            },
{
    proof {
        lemma_le_bytes_each_sample(samples@);
    }
    let mut bytes: Vec<u8> = Vec::new();
    let n = samples.len();
    let mut k: usize = 0;
    while k < n
        invariant
            n == samples@.len(),
            0 <= k <= n,
            2 * n <= usize::MAX,
            bytes@ =~= le_bytes(samples@).take(2 * k),
        decreases n - k,
    {
        let s = samples[k];
        let u: u16 = if s < 0 {
            (s as i32 + 65536) as u16
        } else {
            s as u16
        };
        assert(u as int == u16_pattern(samples@[k as int]));
        bytes.push((u % 256) as u8);
        bytes.push((u / 256) as u8);
        k = k + 1;
    }
    bytes
}

/// A sample survives a round trip through their little-endian bytes.
proof fn lemma_le_round_trip(s: i16)
    ensures
        le_i16((u16_pattern(s) % 256) as u8, (u16_pattern(s) / 256) as u8) == s,
{
    let u = u16_pattern(s);
    assert(0 <= u < 65536);
    assert(u == (u % 256) + 256 * (u / 256)) by (nonlinear_arith)
        requires
            0 <= u,
    ;
    assert(0 <= u % 256 < 256) by (nonlinear_arith)
        requires
            0 <= u,
    ;
    assert(0 <= u / 256 < 256) by (nonlinear_arith)
        requires
            0 <= u < 65536,
    ;
}

/// Every sample is written as its two little-endian bytes, low byte first:
/// the pair at `2k`, `2k+1` spells the 16-bit pattern of sample `k`, and
/// decoding it gives the sample back.
pub proof fn lemma_le_bytes_each_sample(samples: Seq<i16>)
    ensures
        le_bytes(samples).len() == 2 * samples.len(),
        forall|k: int|
            0 <= k < samples.len() ==> (#[trigger] le_bytes(samples)[2 * k]) as int + 256 * (le_bytes(
                samples,
            )[2 * k + 1] as int) == if samples[k] < 0 {
                samples[k] + 65536
            } else {
                samples[k] as int
            },
        forall|k: int|
            0 <= k < samples.len() ==> le_i16(#[trigger] le_bytes(samples)[2 * k], le_bytes(samples)[2 * k
                + 1]) == samples[k],
{
    assert forall|k: int| 0 <= k < samples.len() implies (#[trigger] le_bytes(samples)[2 * k]) as int
        + 256 * (le_bytes(samples)[2 * k + 1] as int) == (if samples[k] < 0 {
        samples[k] + 65536
    } else {
        samples[k] as int
    }) && le_i16(le_bytes(samples)[2 * k], le_bytes(samples)[2 * k + 1]) == samples[k] by {
        assert((2 * k) % 2 == 0 && (2 * k) / 2 == k);
        assert((2 * k + 1) % 2 == 1 && (2 * k + 1) / 2 == k);
        let u = u16_pattern(samples[k]);
        assert(u == (u % 256) + 256 * (u / 256)) by (nonlinear_arith)
            requires
                0 <= u,
        ;
        assert(0 <= u % 256 < 256) by (nonlinear_arith)
            requires
                0 <= u,
        ;
        assert(0 <= u / 256 < 256) by (nonlinear_arith)
            requires
                0 <= u < 65536,
        ;
        lemma_le_round_trip(samples[k]);
    }
}

/// Decoding reads one sample per four bytes of input, and sample `k` is
/// the little-endian 16-bit pattern of bytes `2k` and `2k+1`.
pub proof fn lemma_pcm_samples_read(bytes: Seq<u8>)
    ensures
        pcm_samples(bytes).len() == bytes.len() / 4,
        forall|k: int|
            0 <= k < bytes.len() / 4 ==> (if #[trigger] pcm_samples(bytes)[k] < 0 {
                pcm_samples(bytes)[k] + 65536
            } else {
                pcm_samples(bytes)[k] as int
            }) == bytes[2 * k] as int + 256 * (bytes[2 * k + 1] as int),
{
    assert forall|k: int| 0 <= k < bytes.len() / 4 implies (if #[trigger] pcm_samples(bytes)[k] < 0 {
        pcm_samples(bytes)[k] + 65536
    } else {
        pcm_samples(bytes)[k] as int
    }) == bytes[2 * k] as int + 256 * (bytes[2 * k + 1] as int) by {
        let lo = bytes[2 * k];
        let hi = bytes[2 * k + 1];
        assert(0 <= lo as int + 256 * hi as int <= 65535);
    }
}

/// Reading stored bytes back for a WAV file gives the first half of the
/// samples that were encoded into them: one sample is read per four bytes,
/// and the encoding takes two bytes per sample.
pub proof fn lemma_read_back_encoded(samples: Seq<i16>)
    ensures
        pcm_samples(le_bytes(samples)) == samples.take((samples.len() / 2) as int),
{
    let bytes = le_bytes(samples);
    assert(bytes.len() / 4 == samples.len() / 2);
    assert forall|k: int| 0 <= k < samples.len() / 2 implies #[trigger] pcm_samples(bytes)[k]
        == samples[k] by {
        assert((2 * k) % 2 == 0 && (2 * k) / 2 == k);
        assert((2 * k + 1) % 2 == 1 && (2 * k + 1) / 2 == k);
        lemma_le_round_trip(samples[k]);
    }
    assert(pcm_samples(bytes) =~= samples.take((samples.len() / 2) as int));
}

/// The layout of the WAV file written from recorded samples.
#[derive(Clone, Copy, Debug, PartialEq, Eq, Structural)]
pub struct WavFormat {
    pub channels: u16,
    pub sample_rate: u32,
    pub bits_per_sample: u16,
    /// Samples are integers (otherwise floating point).
    pub integer_samples: bool,
}

impl WavFormat {
    /// Mono, 16-bit integer samples at the recording sample rate.
    pub fn recording() -> (f: WavFormat)
        ensures
            f.channels == 1,
            f.sample_rate == SAMPLE_RATE,
            f.bits_per_sample == 16,
            f.integer_samples,
    {
        WavFormat { channels: 1, sample_rate: SAMPLE_RATE, bits_per_sample: 16, integer_samples: true }
    }
}

/// One step of capture buffering: the pending bytes followed by the new
/// data are handed out whole once they exceed the threshold, and are kept
/// pending otherwise. Gives the chunk handed out (if any) and what stays
/// pending.
pub open spec fn capture_step(pending: Seq<u8>, data: Seq<u8>) -> (Option<Seq<u8>>, Seq<u8>) {
    let joined = pending + data;
    if joined.len() > STORE_THRESHOLD {
        (Some(joined), Seq::empty())
    } else {
        (None, joined)
    }
}

/// Bytes of captured audio waiting to be stored.
pub struct CaptureBuffer {
    pending: Vec<u8>,
}

impl View for CaptureBuffer {
    type V = Seq<u8>;

    closed spec fn view(&self) -> Seq<u8> {
        self.pending@
    }
}

impl CaptureBuffer {
    /// The pending bytes never exceed the threshold between calls.
    #[verifier::type_invariant]
    spec fn within_threshold(self) -> bool {
        self.pending@.len() <= STORE_THRESHOLD
    }

    /// An empty buffer.
    pub fn new() -> (b: CaptureBuffer)
        ensures
            b@ == Seq::<u8>::empty(),
    {
        CaptureBuffer { pending: Vec::new() }
    }

    /// The bytes waiting to be stored.
    pub fn pending(&self) -> (p: &[u8])
        ensures
            p@ == self@,
    {
        self.pending.as_slice()
    }

    /// Appends captured bytes; once more than the threshold is pending, all
    /// of it is returned for storage and the buffer starts over empty.
    pub fn push(&mut self, data: &[u8]) -> (stored: Option<Vec<u8>>)
        requires
            data@.len() <= usize::MAX - STORE_THRESHOLD,
        ensures
            final(self)@.len() <= STORE_THRESHOLD,
            capture_step(old(self)@, data@) == (
            match stored {
                Some(chunk) => Some(chunk@),
                None => None::<Seq<u8>>,
            },
            final(self)@),
    {
        proof {
            use_type_invariant(&*self);
        }
        let mut joined: Vec<u8> = Vec::new();
        std::mem::swap(&mut joined, &mut self.pending);
        let ghost before = joined@;
        joined.extend_from_slice(data);
        assert(joined@ =~= before + data@);
        if joined.len() > STORE_THRESHOLD {
            Some(joined)
        } else {
            self.pending = joined;
            None
        }
    }
}

/// Buffers a series of captured chunks from an empty buffer: gives the
/// chunks handed out for storage, in order, and the bytes left pending.
pub open spec fn capture_run(chunks: Seq<Seq<u8>>) -> (Seq<Seq<u8>>, Seq<u8>)
    decreases chunks.len(),
{
    if chunks.len() == 0 {
        (Seq::empty(), Seq::empty())
    } else {
        let (stored, pending) = capture_run(chunks.drop_last());
        let (out, rest) = capture_step(pending, chunks.last());
        match out {
            Some(chunk) => (stored.push(chunk), rest),
            None => (stored, rest),
        }
    }
}

/// Buffering loses, duplicates and reorders nothing: the stored chunks
/// followed by the pending bytes are exactly the captured bytes; every
/// stored chunk exceeds the threshold and what is pending does not.
pub proof fn lemma_capture_conserves(chunks: Seq<Seq<u8>>)
    ensures
        capture_run(chunks).0.flatten() + capture_run(chunks).1 == chunks.flatten(),
        forall|i: int|
            0 <= i < capture_run(chunks).0.len() ==> #[trigger] capture_run(chunks).0[i].len()
                > STORE_THRESHOLD,
        capture_run(chunks).1.len() <= STORE_THRESHOLD,
    decreases chunks.len(),
{
    if chunks.len() > 0 {
        let prefix = chunks.drop_last();
        lemma_capture_conserves(prefix);
        let (stored, pending) = capture_run(prefix);
        let (out, rest) = capture_step(pending, chunks.last());
        assert(chunks.flatten() =~= prefix.flatten() + chunks.last()) by {
            assert(prefix.push(chunks.last()) =~= chunks);
            prefix.lemma_flatten_push(chunks.last());
        }
        match out {
            Some(chunk) => {
                assert(stored.push(chunk).flatten() =~= stored.flatten() + chunk) by {
                    stored.lemma_flatten_push(chunk);
                }
                assert(stored.flatten() + pending + chunks.last() =~= stored.flatten() + (pending
                    + chunks.last()));
                assert(forall|i: int|
                    0 <= i < stored.len() ==> stored.push(chunk)[i] == stored[i]);
            },
            None => {
                assert(stored.flatten() + pending + chunks.last() =~= stored.flatten() + (pending
                    + chunks.last()));
            },
        }
    }
}

} // verus!
