//! Decoding the bundled sounds: a WAV file's 16-bit samples, read with `hound`.

use vstd::prelude::*;

use std::io::Cursor;

verus! {

/// What `hound` reads from `bytes` as a WAV file of 16-bit integer samples: `None` when
/// the header is not one it can read; otherwise one entry per sample of the data chunk,
/// `None` where that sample could not be read as an `i16`.
pub uninterp spec fn wav_samples_read(bytes: Seq<u8>) -> Option<Seq<Option<i16>>>;

/// `hound::WavReader::new` over the bytes, then every item of its `samples::<i16>()`
/// iterator, an unreadable sample kept as `None`. What it yields is named
/// (`wav_samples_read`), not stated: the RIFF/WAVE header rules behind it are hound's.
#[verifier::external_body]
fn read_wav_i16(bytes: &[u8]) -> (r: Option<Vec<Option<i16>>>)
    ensures
        match r {
            Some(v) => wav_samples_read(bytes@) == Some(v@),
            None => wav_samples_read(bytes@) is None,
        },
{
    let mut reader = hound::WavReader::new(Cursor::new(bytes)).ok()?;
    Some(reader.samples::<i16>().map(|s| s.ok()).collect())
}

/// The samples that could be read, in order.
pub open spec fn readable_samples(read: Seq<Option<i16>>) -> Seq<i16> {
    read.filter_map(|s: Option<i16>| s)
}

/// Keeps the samples that could be read, in order, and drops the rest.
pub fn samples_read(read: &Vec<Option<i16>>) -> (r: Vec<i16>)
    ensures
        r@ == readable_samples(read@),
{
    let mut out: Vec<i16> = Vec::new();
    let mut i: usize = 0;
    assert(read@.take(0) =~= Seq::<Option<i16>>::empty());
    while i < read.len()
        invariant
            i <= read.len(),
            out@ == readable_samples(read@.take(i as int)),
        decreases read.len() - i,
    {
        assert(read@.take(i + 1).drop_last() =~= read@.take(i as int));
        assert(read@.take(i + 1).last() == read@[i as int]);
        match read[i] {
            Some(s) => {
                out.push(s);
                assert(out@ =~= readable_samples(read@.take(i as int)) + seq![s]);
            },
            None => {},
        }
        i = i + 1;
    }
    assert(read@.take(read.len() as int) =~= read@);
    out
}

/// A WAV file's 16-bit samples (interleaved, if it has several channels), skipping any
/// sample that cannot be read; `None` when the file is not a WAV file hound can read.
pub fn decode_wav(bytes: &[u8]) -> (r: Option<Vec<i16>>)
    ensures
        match r {
            Some(v) => wav_samples_read(bytes@) matches Some(read) && v@ == readable_samples(read),
            None => wav_samples_read(bytes@) is None,
        },
{
    let read = read_wav_i16(bytes)?;
    Some(samples_read(&read))
}

} // verus!
