//! Audio: device and encoding errors, and the down-mix of interleaved
//! capture buffers to their first channel.
use vstd::prelude::*;

verus! {

/// Failures of the audio devices.
#[derive(Debug)]
pub enum AudioError {
    DeviceNotFound(String),
    StreamError(String),
}

/// Failures of the audio encoders.
#[derive(Debug)]
pub enum AudioUtilError {
    Wav(String),
}

/// The first channel of interleaved samples with `channels` channels: every
/// `channels`-th sample from the first on. One channel (or none given)
/// keeps every sample.
pub open spec fn first_channel(data: Seq<i16>, channels: nat) -> Seq<i16>
    decreases data.len(),
{
    if channels <= 1 || data.len() == 0 {
        data
    } else if data.len() <= channels {
        seq![data[0]]
    } else {
        seq![data[0]] + first_channel(data.skip(channels as int), channels)
    }
}

/// Appends the first channel of an interleaved capture buffer to `out`.
pub fn append_first_channel(out: &mut Vec<i16>, data: &[i16], channels: usize)
    ensures
        final(out)@ == old(out)@ + first_channel(data@, channels as nat),
{
    if channels > 1 {
        let mut i: usize = 0;
        proof {
            assert(data@.skip(0) =~= data@);
            if data@.len() == 0 {
                assert(old(out)@ + first_channel(data@, channels as nat) =~= old(out)@
                    + Seq::<i16>::empty());
            }
        }
        while i < data.len()
            invariant
                channels > 1,
                i <= data@.len(),
                old(out)@ + first_channel(data@, channels as nat) == out@ + (if i < data@.len() {
                    first_channel(data@.skip(i as int), channels as nat)
                } else {
                    Seq::<i16>::empty()
                }),
            decreases data.len() - i,
        {
            let ghost rest = data@.skip(i as int);
            let ghost before = out@;
            out.push(data[i]);
            proof {
                assert(rest[0] == data@[i as int]);
            }
            if data.len() - i <= channels {
                proof {
                    assert(first_channel(rest, channels as nat) == seq![rest[0]]);
                    assert(out@ =~= before + seq![rest[0]]);
                    assert(out@ + Seq::<i16>::empty() =~= out@);
                }
                i = data.len();
            } else {
                proof {
                    assert(rest.skip(channels as int) =~= data@.skip(i + channels));
                    assert(first_channel(rest, channels as nat) == seq![rest[0]] + first_channel(
                        data@.skip(i + channels),
                        channels as nat,
                    ));
                    assert(before + (seq![rest[0]] + first_channel(data@.skip(i + channels), channels as nat))
                        =~= out@ + first_channel(data@.skip(i + channels), channels as nat));
                }
                i = i + channels;
            }
        }
    } else {
        let mut i: usize = 0;
        while i < data.len()
            invariant
                channels <= 1,
                i <= data@.len(),
                out@ == old(out)@ + data@.take(i as int),
            decreases data.len() - i,
        {
            out.push(data[i]);
            assert(data@.take(i + 1) =~= data@.take(i as int).push(data@[i as int]));
            i = i + 1;
        }
        assert(data@.take(data@.len() as int) =~= data@);
    }
    proof {
        if channels > 1 && data@.len() == 0 {
            assert(first_channel(data@, channels as nat) =~= Seq::<i16>::empty());
        }
    }
}

/// The two bytes of `x` (below 2^16), least significant first.
#[verifier::opaque]
pub open spec fn le16(x: nat) -> Seq<u8> {
    seq![(x % 256) as u8, ((x / 256) % 256) as u8]
}

/// The four bytes of `x` (below 2^32), least significant first.
#[verifier::opaque]
pub open spec fn le32(x: nat) -> Seq<u8> {
    le16(x % 65536) + le16((x / 65536) % 65536)
}

/// A 16-bit sample in two's complement, least significant byte first.
pub open spec fn sample_bytes(s: i16) -> Seq<u8> {
    le16(if s < 0 {
        (s + 65536) as nat
    } else {
        s as nat
    })
}

/// The samples, each in two bytes, in order.
pub open spec fn samples_le(s: Seq<i16>) -> Seq<u8>
    decreases s.len(),
{
    if s.len() == 0 {
        Seq::empty()
    } else {
        samples_le(s.drop_last()) + sample_bytes(s.last())
    }
}

/// The WAV file of 16-bit mono PCM `samples` at `rate` samples per
/// second, as `hound` writes it: the `RIFF`/`WAVE` header with a 16-byte
/// `fmt ` chunk (PCM, one channel, `rate`, `2 * rate` bytes per second,
/// 2-byte blocks, 16 bits), then the `data` chunk.
pub open spec fn wav_bytes(samples: Seq<i16>, rate: u32) -> Seq<u8> {
    wav_header(2 * samples.len(), rate as nat) + samples_le(samples)
}

/// The 44-byte header of such a file with `data` bytes of samples.
#[verifier::opaque]
pub open spec fn wav_header(data: nat, rate: nat) -> Seq<u8> {
    seq![0x52u8, 0x49, 0x46, 0x46] + le32(36 + data) + seq![0x57u8, 0x41, 0x56, 0x45]
        + seq![0x66u8, 0x6d, 0x74, 0x20] + le32(16) + le16(1) + le16(1) + le32(rate)
        + le32(2 * rate) + le16(2) + le16(16) + seq![0x64u8, 0x61, 0x74, 0x61] + le32(data)
}

/// Appends `x` in two bytes, least significant first.
fn push_le16(out: &mut Vec<u8>, x: u32)
    requires
        x < 65536,
    ensures
        final(out)@ == old(out)@ + le16(x as nat),
{
    reveal(le16);
    out.push((x % 256) as u8);
    out.push(((x / 256) % 256) as u8);
    assert(final(out)@ =~= old(out)@ + le16(x as nat));
}

/// Appends `x` in four bytes, least significant first.
fn push_le32(out: &mut Vec<u8>, x: u32)
    ensures
        final(out)@ == old(out)@ + le32(x as nat),
{
    reveal(le32);
    push_le16(out, x % 65536);
    push_le16(out, (x / 65536) % 65536);
    assert(final(out)@ =~= old(out)@ + le32(x as nat));
}

/// Appends a sequence of four bytes.
fn push4(out: &mut Vec<u8>, a: u8, b: u8, c: u8, d: u8)
    ensures
        final(out)@ == old(out)@ + seq![a, b, c, d],
{
    out.push(a);
    out.push(b);
    out.push(c);
    out.push(d);
    assert(final(out)@ =~= old(out)@ + seq![a, b, c, d]);
}

/// Encodes 16-bit mono PCM samples as a WAV file.
pub fn pcm_i16_to_wav(samples: &[i16], sample_rate: u32) -> (r: Result<Vec<u8>, AudioUtilError>)
    requires
        sample_rate > 0,
        2 * sample_rate <= u32::MAX,
        36 + 2 * samples@.len() <= u32::MAX,
    ensures
        r matches Ok(b) && b@ == wav_bytes(samples@, sample_rate),
{
    let n = samples.len();
    let data: u32 = (2 * n) as u32;
    let mut out: Vec<u8> = Vec::new();
    push4(&mut out, 0x52, 0x49, 0x46, 0x46);
    push_le32(&mut out, 36 + data);
    push4(&mut out, 0x57, 0x41, 0x56, 0x45);
    push4(&mut out, 0x66, 0x6d, 0x74, 0x20);
    push_le32(&mut out, 16);
    push_le16(&mut out, 1);
    push_le16(&mut out, 1);
    push_le32(&mut out, sample_rate);
    push_le32(&mut out, 2 * sample_rate);
    push_le16(&mut out, 2);
    push_le16(&mut out, 16);
    push4(&mut out, 0x64, 0x61, 0x74, 0x61);
    push_le32(&mut out, data);
    let ghost header = out@;
    let mut i: usize = 0;
    while i < n
        invariant
            n == samples@.len(),
            i <= n,
            out@ == header + samples_le(samples@.take(i as int)),
        decreases n - i,
    {
        let x = samples[i];
        let u: u32 = if x < 0 {
            (x as i32 + 65536) as u32
        } else {
            x as u32
        };
        push_le16(&mut out, u);
        proof {
            let t = samples@.take(i + 1);
            assert(t.drop_last() =~= samples@.take(i as int));
            assert(t.last() == x);
        }
        i = i + 1;
    }
    proof {
        reveal(wav_header);
        assert(samples@.take(n as int) =~= samples@);
        assert(out@ =~= wav_bytes(samples@, sample_rate));
    }
    Ok(out)
}

/// The number stored in the two bytes of `b` at `at`, least significant
/// first.
pub open spec fn read_le16(b: Seq<u8>, at: int) -> nat {
    (b[at] as nat) + 256 * (b[at + 1] as nat)
}

/// The number stored in the four bytes of `b` at `at`, least significant
/// first.
pub open spec fn read_le32(b: Seq<u8>, at: int) -> nat {
    read_le16(b, at) + 65536 * read_le16(b, at + 2)
}

/// The 16-bit two's-complement sample stored in the two bytes of `b` at
/// `at`.
pub open spec fn read_sample(b: Seq<u8>, at: int) -> int {
    if read_le16(b, at) >= 32768 {
        read_le16(b, at) - 65536
    } else {
        read_le16(b, at) as int
    }
}

proof fn lemma_le16_read(b: Seq<u8>, at: int, x: nat)
    requires
        x < 65536,
        0 <= at,
        at + 2 <= b.len(),
        b[at] == le16(x)[0],
        b[at + 1] == le16(x)[1],
    ensures
        read_le16(b, at) == x,
{
    reveal(le16);
    assert((x % 256) + 256 * ((x / 256) % 256) == x) by (nonlinear_arith)
        requires
            x < 65536,
    {
        assert(x / 256 < 256);
        assert((x / 256) % 256 == x / 256);
    }
}

proof fn lemma_le32_read(b: Seq<u8>, at: int, x: nat)
    requires
        x < 0x1_0000_0000,
        0 <= at,
        at + 4 <= b.len(),
        b[at] == le32(x)[0],
        b[at + 1] == le32(x)[1],
        b[at + 2] == le32(x)[2],
        b[at + 3] == le32(x)[3],
    ensures
        read_le32(b, at) == x,
{
    reveal(le32);
    reveal(le16);
    let lo = le16(x % 65536);
    let hi = le16((x / 65536) % 65536);
    assert(le32(x) == lo + hi);
    assert(le32(x)[0] == lo[0] && le32(x)[1] == lo[1]);
    assert(le32(x)[2] == hi[0] && le32(x)[3] == hi[1]);
    lemma_le16_read(b, at, x % 65536);
    lemma_le16_read(b, at + 2, (x / 65536) % 65536);
    assert((x % 65536) + 65536 * ((x / 65536) % 65536) == x) by (nonlinear_arith)
        requires
            x < 0x1_0000_0000,
    {
        assert(x / 65536 < 65536);
        assert((x / 65536) % 65536 == x / 65536);
    }
}

proof fn lemma_samples_le_layout(s: Seq<i16>)
    ensures
        samples_le(s).len() == 2 * s.len(),
        forall|i: int|
            0 <= i < s.len() ==> #[trigger] samples_le(s).subrange(2 * i, 2 * i + 2)
                == sample_bytes(s[i]),
    decreases s.len(),
{
    reveal(le16);
    if s.len() > 0 {
        let t = s.drop_last();
        lemma_samples_le_layout(t);
        let a = samples_le(t);
        let all = samples_le(s);
        assert(all == a + sample_bytes(s.last()));
        assert forall|i: int| 0 <= i < s.len() implies #[trigger] all.subrange(2 * i, 2 * i + 2)
            == sample_bytes(s[i]) by {
            if i < t.len() {
                assert(all.subrange(2 * i, 2 * i + 2) =~= a.subrange(2 * i, 2 * i + 2));
                assert(t[i] == s[i]);
            } else {
                assert(all.subrange(2 * i, 2 * i + 2) =~= sample_bytes(s.last()));
            }
        }
    }
}

/// Whether the bytes `b` begin with the header of a PCM WAV file (format 1)
/// of one channel, 16 bits per sample, `rate` samples per second and a data
/// chunk of `data` bytes, read field by field.
pub open spec fn reads_as_wav_header(b: Seq<u8>, data: nat, rate: nat) -> bool {
    &&& b.len() >= 44
    &&& b.subrange(0, 4) == seq![0x52u8, 0x49, 0x46, 0x46]
    &&& read_le32(b, 4) == 36 + data
    &&& b.subrange(8, 12) == seq![0x57u8, 0x41, 0x56, 0x45]
    &&& b.subrange(12, 16) == seq![0x66u8, 0x6d, 0x74, 0x20]
    &&& read_le32(b, 16) == 16
    &&& read_le16(b, 20) == 1
    &&& read_le16(b, 22) == 1
    &&& read_le32(b, 24) == rate
    &&& read_le32(b, 28) == 2 * rate
    &&& read_le16(b, 32) == 2
    &&& read_le16(b, 34) == 16
    &&& b.subrange(36, 40) == seq![0x64u8, 0x61, 0x74, 0x61]
    &&& read_le32(b, 40) == data
}

proof fn lemma_wav_header_len(data: nat, rate: nat)
    ensures
        wav_header(data, rate).len() == 44,
{
    reveal(wav_header);
    reveal(le16);
    reveal(le32);
}

/// The fields of the header, read back.
#[verifier::spinoff_prover]
proof fn lemma_wav_header_fields(data: nat, rate: nat)
    requires
        36 + data < 0x1_0000_0000,
        2 * rate < 0x1_0000_0000,
    ensures
        reads_as_wav_header(wav_header(data, rate), data, rate),
{
    let h = wav_header(data, rate);
    lemma_wav_header_pieces(data, rate);
    let a = le32(36 + data);
    let r = le32(rate);
    let r2 = le32(2 * rate);
    let d = le32(data);
    let sixteen = le32(16);
    assert(h[4] == a[0] && h[5] == a[1] && h[6] == a[2] && h[7] == a[3]);
    lemma_le32_read(h, 4, 36 + data);
    assert(h[16] == sixteen[0] && h[17] == sixteen[1] && h[18] == sixteen[2] && h[19] == sixteen[3]);
    lemma_le32_read(h, 16, 16);
    assert(h[20] == le16(1)[0] && h[21] == le16(1)[1]);
    lemma_le16_read(h, 20, 1);
    assert(h[22] == le16(1)[0] && h[23] == le16(1)[1]);
    lemma_le16_read(h, 22, 1);
    assert(h[24] == r[0] && h[25] == r[1] && h[26] == r[2] && h[27] == r[3]);
    lemma_le32_read(h, 24, rate);
    assert(h[28] == r2[0] && h[29] == r2[1] && h[30] == r2[2] && h[31] == r2[3]);
    lemma_le32_read(h, 28, 2 * rate);
    assert(h[32] == le16(2)[0] && h[33] == le16(2)[1]);
    lemma_le16_read(h, 32, 2);
    assert(h[34] == le16(16)[0] && h[35] == le16(16)[1]);
    lemma_le16_read(h, 34, 16);
    assert(h[40] == d[0] && h[41] == d[1] && h[42] == d[2] && h[43] == d[3]);
    lemma_le32_read(h, 40, data);
    assert(h.subrange(0, 4) =~= seq![0x52u8, 0x49, 0x46, 0x46]);
    assert(h.subrange(8, 12) =~= seq![0x57u8, 0x41, 0x56, 0x45]);
    assert(h.subrange(12, 16) =~= seq![0x66u8, 0x6d, 0x74, 0x20]);
    assert(h.subrange(36, 40) =~= seq![0x64u8, 0x61, 0x74, 0x61]);
}

/// The header as one flat sequence of its fields' bytes.
proof fn lemma_wav_header_pieces(data: nat, rate: nat)
    ensures
        ({
            let h = wav_header(data, rate);
            let a = le32(36 + data);
            let s = le32(16);
            let r = le32(rate);
            let r2 = le32(2 * rate);
            let d = le32(data);
            h == seq![
                0x52u8, 0x49, 0x46, 0x46, a[0], a[1], a[2], a[3],
                0x57u8, 0x41, 0x56, 0x45, 0x66u8, 0x6d, 0x74, 0x20,
                s[0], s[1], s[2], s[3], le16(1)[0], le16(1)[1], le16(1)[0], le16(1)[1],
                r[0], r[1], r[2], r[3], r2[0], r2[1], r2[2], r2[3],
                le16(2)[0], le16(2)[1], le16(16)[0], le16(16)[1],
                0x64u8, 0x61, 0x74, 0x61, d[0], d[1], d[2], d[3]
            ]
        }),
{
    reveal(wav_header);
    reveal(le16);
    reveal(le32);
    let h = wav_header(data, rate);
    let a = le32(36 + data);
    let s = le32(16);
    let r = le32(rate);
    let r2 = le32(2 * rate);
    let d = le32(data);
    assert(h =~= seq![
        0x52u8, 0x49, 0x46, 0x46, a[0], a[1], a[2], a[3],
        0x57u8, 0x41, 0x56, 0x45, 0x66u8, 0x6d, 0x74, 0x20,
        s[0], s[1], s[2], s[3], le16(1)[0], le16(1)[1], le16(1)[0], le16(1)[1],
        r[0], r[1], r[2], r[3], r2[0], r2[1], r2[2], r2[3],
        le16(2)[0], le16(2)[1], le16(16)[0], le16(16)[1],
        0x64u8, 0x61, 0x74, 0x61, d[0], d[1], d[2], d[3]
    ]);
}

/// A header read from the first 44 bytes stays one whatever follows them.
proof fn lemma_header_prefix(h: Seq<u8>, rest: Seq<u8>, data: nat, rate: nat)
    requires
        h.len() == 44,
        reads_as_wav_header(h, data, rate),
    ensures
        reads_as_wav_header(h + rest, data, rate),
{
    let b = h + rest;
    assert forall|k: int| 0 <= k < 44 implies #[trigger] b[k] == h[k] by {}
    assert(b.subrange(0, 4) =~= h.subrange(0, 4));
    assert(b.subrange(8, 12) =~= h.subrange(8, 12));
    assert(b.subrange(12, 16) =~= h.subrange(12, 16));
    assert(b.subrange(36, 40) =~= h.subrange(36, 40));
}

/// The samples read back from the file.
#[verifier::spinoff_prover]
proof fn lemma_wav_samples(samples: Seq<i16>, rate: u32)
    ensures
        forall|i: int|
            0 <= i < samples.len() ==> #[trigger] read_sample(wav_bytes(samples, rate), 44 + 2 * i)
                == samples[i] as int,
{
    let n = samples.len();
    let body = samples_le(samples);
    let b = wav_bytes(samples, rate);
    lemma_samples_le_layout(samples);
    lemma_wav_header_len(2 * n, rate as nat);
    assert forall|i: int| 0 <= i < n implies #[trigger] read_sample(b, 44 + 2 * i)
        == samples[i] as int by {
        let x = samples[i];
        let u: nat = if x < 0 {
            (x + 65536) as nat
        } else {
            x as nat
        };
        assert(body.subrange(2 * i, 2 * i + 2) == sample_bytes(x));
        assert(b[44 + 2 * i] == body.subrange(2 * i, 2 * i + 2)[0]);
        assert(b[44 + 2 * i + 1] == body.subrange(2 * i, 2 * i + 2)[1]);
        lemma_le16_read(b, 44 + 2 * i, u);
    }
}

/// WAV law: reading back the file `pcm_i16_to_wav` writes gives the header
/// of a PCM file (format 1) of one channel, 16 bits per sample, at the given
/// rate, with a data chunk of two bytes per sample, and the data chunk
/// holds exactly the samples, in order.
pub proof fn lemma_wav_round_trip(samples: Seq<i16>, rate: u32)
    requires
        2 * rate <= u32::MAX,
        36 + 2 * samples.len() <= u32::MAX,
    ensures
        wav_bytes(samples, rate).len() == 44 + 2 * samples.len(),
        reads_as_wav_header(wav_bytes(samples, rate), 2 * samples.len(), rate as nat),
        forall|i: int|
            0 <= i < samples.len() ==> #[trigger] read_sample(wav_bytes(samples, rate), 44 + 2 * i)
                == samples[i] as int,
{
    let n = samples.len();
    lemma_wav_header_len(2 * n, rate as nat);
    lemma_wav_header_fields(2 * n, rate as nat);
    lemma_samples_le_layout(samples);
    lemma_header_prefix(wav_header(2 * n, rate as nat), samples_le(samples), 2 * n, rate as nat);
    lemma_wav_samples(samples, rate);
}

} // verus!
