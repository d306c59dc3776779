//! The audio files of a recording.

use vstd::prelude::*;
use vstd::string::*;

use crate::text;

verus! {

/// The sample rate of every file: 16 kHz.
pub const TARGET_SAMPLE_RATE: u32 = 16000;

/// Every file is mono.
pub const CHANNELS: u16 = 1;

/// The size of a sample.
pub const BITS_PER_SAMPLE: u16 = 16;

// ── WAV format ─────────────────────────────────────────────────────────

/// A number in two bytes, the lower byte first.
pub open spec fn le16(n: int) -> Seq<u8> {
    seq![(n % 256) as u8, (n / 256 % 256) as u8]
}

/// A number in four bytes, the lowest byte first.
pub open spec fn le32(n: int) -> Seq<u8> {
    seq![
        (n % 256) as u8,
        (n / 256 % 256) as u8,
        (n / 65536 % 256) as u8,
        (n / 16777216 % 256) as u8,
    ]
}

/// The bytes of some samples, each in two bytes as a two's complement.
pub open spec fn sample_bytes(samples: Seq<i16>) -> Seq<u8>
    decreases samples.len(),
{
    if samples.len() == 0 {
        Seq::empty()
    } else {
        sample_bytes(samples.drop_last()) + le16(samples.last() as int)
    }
}

/// The WAV file of 16-bit mono samples: the RIFF header, a format chunk of 16 bytes that says PCM,
/// one channel and 16 bits, and the data chunk.
pub open spec fn wav_file(samples: Seq<i16>, sample_rate: int) -> Seq<u8> {
    let data_len = 2 * samples.len() as int;
    seq![0x52u8, 0x49u8, 0x46u8, 0x46u8] + le32(36 + data_len) + seq![
        0x57u8,
        0x41u8,
        0x56u8,
        0x45u8,
        0x66u8,
        0x6du8,
        0x74u8,
        0x20u8,
    ] + le32(16) + le16(1) + le16(1) + le32(sample_rate) + le32(2 * sample_rate) + le16(2) + le16(16)
        + seq![0x64u8, 0x61u8, 0x74u8, 0x61u8] + le32(data_len) + sample_bytes(samples)
}

/// Whether samples at a rate have a WAV file: the lengths in its header fit in 32 bits.
pub open spec fn has_wav_file(samples: Seq<i16>, sample_rate: int) -> bool {
    36 + 2 * samples.len() <= u32::MAX && 0 < 2 * sample_rate <= u32::MAX
}

/// The error of the WAV writer.
#[verifier::external_type_specification]
#[verifier::external_body]
pub struct ExHoundError(hound::Error);

/// `hound::WavWriter` into memory: `new` with one channel and 16-bit integers, `write_sample` for
/// each sample in order, and `finalize`. What results is the WAV file of the samples, as long as
/// the lengths in its header fit in 32 bits; nothing fails then.
#[verifier::external_body]
fn write_wav(samples: &[i16], channels: u16, sample_rate: u32, bits_per_sample: u16) -> (res: Result<
    Vec<u8>,
    hound::Error,
>)
    requires
        channels == 1,
        bits_per_sample == 16,
        has_wav_file(samples@, sample_rate as int),
    ensures
        res is Ok,
        res->Ok_0@ == wav_file(samples@, sample_rate as int),
{
    let sample_format = hound::SampleFormat::Int;
    let spec = hound::WavSpec { channels, sample_rate, bits_per_sample, sample_format };
    let mut cursor = std::io::Cursor::new(Vec::new());
    let mut writer = hound::WavWriter::new(&mut cursor, spec)?;
    for sample in samples {
        writer.write_sample(*sample)?;
    }
    writer.finalize()?;
    Ok(cursor.into_inner())
}

/// The WAV file of 16-bit mono samples at 16 kHz.
pub fn wav_bytes(samples: &[i16]) -> (res: Result<Vec<u8>, String>)
    requires
        has_wav_file(samples@, TARGET_SAMPLE_RATE as int),
    ensures
        res matches Ok(bytes) && bytes@ == wav_file(samples@, TARGET_SAMPLE_RATE as int),
{
    match write_wav(samples, CHANNELS, TARGET_SAMPLE_RATE, BITS_PER_SAMPLE) {
        Ok(bytes) => Ok(bytes),
        Err(_) => Err("Kunne ikke skrive WAV-data".to_owned()),
    }
}

/// What WAV data holds, as `hound::WavReader` reads it: the number of channels and, where the
/// samples are integers, each of them in turn, or nothing in the place of one that cannot be read. There
/// is nothing at all where the data is no WAV file.
pub uninterp spec fn wav_content(bytes: Seq<u8>) -> Option<(u16, Option<Seq<Option<i16>>>)>;

/// What was read of WAV data.
pub open spec fn read_content(
    res: Result<(u16, Option<Vec<Option<i16>>>), hound::Error>,
) -> Option<(u16, Option<Seq<Option<i16>>>)> {
    match res {
        Ok((channels, Some(samples))) => Some((channels, Some(samples@))),
        Ok((channels, None)) => Some((channels, None)),
        Err(_) => None,
    }
}

/// Samples all of which were read.
pub open spec fn all_read(samples: Seq<i16>) -> Seq<Option<i16>> {
    samples.map_values(|s: i16| Some(s))
}

/// `hound::WavReader` from memory: `new`, `spec` and `into_samples`. The WAV file of 16-bit mono samples
/// is read as those samples; of other data only the outcome is named.
#[verifier::external_body]
fn read_wav(bytes: &[u8]) -> (res: Result<(u16, Option<Vec<Option<i16>>>), hound::Error>)
    ensures
        read_content(res) == wav_content(bytes@),
        forall|samples: Seq<i16>, rate: int| #[trigger]
            wav_file(samples, rate) == bytes@ && has_wav_file(samples, rate) ==> read_content(res)
                == Some((1u16, Some(all_read(samples)))),
{
    let reader = hound::WavReader::new(bytes)?;
    let spec = reader.spec();
    match spec.sample_format {
        hound::SampleFormat::Int => {
            Ok((spec.channels, Some(reader.into_samples().map(|s| s.ok()).collect())))
        },
        hound::SampleFormat::Float => Ok((spec.channels, None)),
    }
}

/// The samples that could be read.
pub open spec fn readable(samples: Seq<Option<i16>>) -> Seq<i16>
    decreases samples.len(),
{
    if samples.len() == 0 {
        Seq::empty()
    } else {
        match samples.last() {
            Some(s) => readable(samples.drop_last()).push(s),
            None => readable(samples.drop_last()),
        }
    }
}

proof fn lemma_all_readable(samples: Seq<i16>)
    ensures
        readable(all_read(samples)) == samples,
    decreases samples.len(),
{
    if samples.len() > 0 {
        assert(all_read(samples).drop_last() =~= all_read(samples.drop_last()));
        lemma_all_readable(samples.drop_last());
        assert(samples.drop_last().push(samples.last()) =~= samples);
    } else {
        assert(readable(all_read(samples)) =~= samples);
    }
}

/// Leaves out the samples that could not be read.
pub fn readable_samples(samples: &[Option<i16>]) -> (res: Vec<i16>)
    ensures
        res@ == readable(samples@),
{
    let mut res: Vec<i16> = Vec::new();
    let mut i: usize = 0;
    while i < samples.len()
        invariant
            i <= samples@.len(),
            res@ == readable(samples@.take(i as int)),
        decreases samples@.len() - i,
    {
        assert(samples@.take(i as int + 1).drop_last() =~= samples@.take(i as int));
        if let Some(s) = samples[i] {
            res.push(s);
        }
        i += 1;
    }
    assert(samples@.take(i as int) =~= samples@);
    res
}

/// The audio in a WAV file.
pub enum WavAudio {
    /// Integer samples, those of the channels in turns.
    Int { channels: u16, samples: Vec<i16> },
    /// Floating-point samples.
    Float { channels: u16 },
}

/// Reads a WAV file, without the samples that cannot be read. What was written as 16-bit mono samples is
/// read back as it was.
pub fn load_wav(bytes: &[u8]) -> (res: Result<WavAudio, String>)
    ensures
        match wav_content(bytes@) {
            Some((n, Some(read))) => res matches Ok(WavAudio::Int { channels, samples }) && channels
                == n && samples@ == readable(read),
            Some((n, None)) => res matches Ok(WavAudio::Float { channels }) && channels == n,
            None => res matches Err(e) && e@ == "Kunne ikke åbne WAV-fil"@,
        },
        forall|written: Seq<i16>, rate: int| #[trigger]
            wav_file(written, rate) == bytes@ && has_wav_file(written, rate) ==> (
            res matches Ok(WavAudio::Int { channels, samples }) && channels == 1 && samples@
                == written),
{
    proof {
        assert forall|written: Seq<i16>| #[trigger] readable(all_read(written)) == written by {
            lemma_all_readable(written);
        }
    }
    match read_wav(bytes) {
        Ok((channels, Some(samples))) => {
            let samples = readable_samples(samples.as_slice());
            Ok(WavAudio::Int { channels, samples })
        },
        Ok((channels, None)) => Ok(WavAudio::Float { channels }),
        Err(_) => Err("Kunne ikke åbne WAV-fil".to_owned()),
    }
}

/// A WAV file has 44 bytes of header and two bytes for each sample.
pub proof fn law_wav_length(samples: Seq<i16>, sample_rate: int)
    ensures
        wav_file(samples, sample_rate).len() == 44 + 2 * samples.len(),
{
    lemma_sample_bytes(samples);
}

proof fn lemma_sample_bytes(samples: Seq<i16>)
    ensures
        sample_bytes(samples).len() == 2 * samples.len(),
    decreases samples.len(),
{
    if samples.len() > 0 {
        lemma_sample_bytes(samples.drop_last());
    }
}

// ── Files of a recording ───────────────────────────────────────────────

/// The file with both channels mixed.
pub open spec fn mixed_name(id: Seq<char>) -> Seq<char> {
    id + ".wav"@
}

/// The file with the microphone.
pub open spec fn mic_name(id: Seq<char>) -> Seq<char> {
    id + "_mic.wav"@
}

/// The file with the system audio.
pub open spec fn system_name(id: Seq<char>) -> Seq<char> {
    id + "_system.wav"@
}

/// The file with both channels mixed.
pub fn mixed_file(id: &str) -> (res: String)
    ensures
        res@ == mixed_name(id@),
{
    let mut name = id.to_owned();
    name.append(".wav");
    name
}

/// The file with the microphone.
pub fn mic_file(id: &str) -> (res: String)
    ensures
        res@ == mic_name(id@),
{
    let mut name = id.to_owned();
    name.append("_mic.wav");
    name
}

/// The file with the system audio.
pub fn system_file(id: &str) -> (res: String)
    ensures
        res@ == system_name(id@),
{
    let mut name = id.to_owned();
    name.append("_system.wav");
    name
}

/// What is saved of a recording.
pub struct SavePlan {
    /// The number of samples of the mixed file.
    pub mixed_len: usize,
    /// The file for the microphone, where it has samples.
    pub mic: Option<String>,
    /// The file for the system audio, where it has samples.
    pub system: Option<String>,
    pub mixed: String,
}

/// The file for a microphone channel of `len` samples.
pub open spec fn saved_mic(len: int, id: Seq<char>) -> Option<Seq<char>> {
    if len > 0 {
        Some(mic_name(id))
    } else {
        None
    }
}

/// The file for a system channel of `len` samples.
pub open spec fn saved_system(len: int, id: Seq<char>) -> Option<Seq<char>> {
    if len > 0 {
        Some(system_name(id))
    } else {
        None
    }
}

/// Plans what is saved of a recording, by the number of samples of each channel: a file for each
/// channel that has any, and a mixed one that is as long as the longer channel.
pub fn save_plan(mic_len: usize, system_len: usize, id: &str) -> (res: SavePlan)
    ensures
        res.mixed_len == (if mic_len >= system_len {
            mic_len
        } else {
            system_len
        }),
        text::opt(res.mic) == saved_mic(mic_len as int, id@),
        text::opt(res.system) == saved_system(system_len as int, id@),
        res.mixed@ == mixed_name(id@),
{
    SavePlan {
        mixed_len: if mic_len >= system_len {
            mic_len
        } else {
            system_len
        },
        mic: if mic_len > 0 {
            Some(mic_file(id))
        } else {
            None
        },
        system: if system_len > 0 {
            Some(system_file(id))
        } else {
            None
        },
        mixed: mixed_file(id),
    }
}

/// The files that a recording may have.
pub open spec fn file_names(id: Seq<char>) -> Seq<Seq<char>> {
    seq![mixed_name(id), mic_name(id), system_name(id)]
}

/// The files that are removed with a recording.
pub fn recording_files(id: &str) -> (res: Vec<String>)
    ensures
        text::texts(res@) == file_names(id@),
{
    let mut res: Vec<String> = Vec::new();
    res.push(mixed_file(id));
    res.push(mic_file(id));
    res.push(system_file(id));
    assert(text::texts(res@) =~= file_names(id@));
    res
}

/// The files of a recording do not overwrite one another.
pub proof fn law_files_are_distinct(id: Seq<char>)
    ensures
        mixed_name(id) != mic_name(id),
        mixed_name(id) != system_name(id),
        mic_name(id) != system_name(id),
{
    reveal_strlit(".wav");
    reveal_strlit("_mic.wav");
    reveal_strlit("_system.wav");
    assert(mixed_name(id).len() == id.len() + 4);
    assert(mic_name(id).len() == id.len() + 8);
    assert(system_name(id).len() == id.len() + 11);
}

/// Every file that is saved of a recording is among those that are removed with it.
pub proof fn law_all_saved_files_are_removed(mic_len: int, system_len: int, id: Seq<char>)
    ensures
        file_names(id).contains(mixed_name(id)),
        saved_mic(mic_len, id) matches Some(name) ==> file_names(id).contains(name),
        saved_system(system_len, id) matches Some(name) ==> file_names(id).contains(name),
{
    assert(file_names(id)[0] == mixed_name(id));
    assert(file_names(id)[1] == mic_name(id));
    assert(file_names(id)[2] == system_name(id));
}

// ── Laws ───────────────────────────────────────────────────────────────

/// Samples that are written to a WAV file are read back from it as they were.
pub proof fn law_wav_round_trip(
    samples: &[i16],
    written: Result<Vec<u8>, String>,
    bytes: &[u8],
    res: Result<WavAudio, String>,
)
    requires
        has_wav_file(samples@, TARGET_SAMPLE_RATE as int),
        call_ensures(wav_bytes, (samples,), written),
        bytes@ == written->Ok_0@,
        call_ensures(load_wav, (bytes,), res),
    ensures
        written is Ok,
        res matches Ok(WavAudio::Int { channels, samples: read }) && channels == 1 && read@
            == samples@,
{
    assert(wav_file(samples@, TARGET_SAMPLE_RATE as int) == bytes@);
}

/// A sample that could be read is kept, in its place among the others, and one that could not is left out.
pub proof fn law_readable(a: Seq<Option<i16>>, b: Seq<Option<i16>>)
    ensures
        readable(a + b) == readable(a) + readable(b),
        a.len() == 0 ==> readable(a).len() == 0,
        a.len() == 1 && a[0] is None ==> readable(a).len() == 0,
        a.len() == 1 && a[0] is Some ==> readable(a) == seq![a[0]->0],
    decreases b.len(),
{
    if a.len() == 1 {
        assert(a.drop_last() =~= Seq::empty());
        assert(readable(a.drop_last()) =~= Seq::empty());
        if a[0] is Some {
            assert(readable(a) =~= seq![a[0]->0]);
        }
    }
    if b.len() == 0 {
        assert(a + b =~= a);
        assert(readable(a) + readable(b) =~= readable(a));
    } else {
        law_readable(a, b.drop_last());
        assert((a + b).drop_last() =~= a + b.drop_last());
        assert(readable(a + b) =~= readable(a) + readable(b));
    }
}

/// A recording is saved whole: each channel that has samples gets a file of its own, one that has none gets
/// none, and the mixed file is as long as the longer channel.
pub proof fn law_save_plan(mic_len: usize, system_len: usize, id: &str, res: SavePlan)
    requires
        call_ensures(save_plan, (mic_len, system_len, id), res),
    ensures
        res.mic is Some <==> mic_len > 0,
        res.system is Some <==> system_len > 0,
        res.mixed_len >= mic_len && res.mixed_len >= system_len,
        res.mixed_len == mic_len || res.mixed_len == system_len,
        res.mixed@ == id@ + ".wav"@,
        res.mic matches Some(name) ==> name@ == id@ + "_mic.wav"@,
        res.system matches Some(name) ==> name@ == id@ + "_system.wav"@,
{
}

/// All that is saved of a recording is removed with it, and nothing of another recording.
pub proof fn law_removed_files(
    mic_len: usize,
    system_len: usize,
    id: &str,
    plan: SavePlan,
    removed: Vec<String>,
)
    requires
        call_ensures(save_plan, (mic_len, system_len, id), plan),
        call_ensures(recording_files, (id,), removed),
    ensures
        text::texts(removed@).contains(plan.mixed@),
        plan.mic matches Some(name) ==> text::texts(removed@).contains(name@),
        plan.system matches Some(name) ==> text::texts(removed@).contains(name@),
        forall|i: int|
            0 <= i < removed@.len() ==> text::occurs_at((#[trigger] removed@[i])@, id@, 0),
{
    law_all_saved_files_are_removed(mic_len as int, system_len as int, id@);
    let names = file_names(id@);
    assert forall|i: int| 0 <= i < removed@.len() implies text::occurs_at(
        (#[trigger] removed@[i])@,
        id@,
        0,
    ) by {
        assert(text::texts(removed@)[i] == removed@[i]@);
        let name = names[i];
        assert(name.subrange(0, id@.len() as int) =~= id@);
    }
}

} // verus!
