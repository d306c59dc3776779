use call_recorder::audio::mixer::{
    load_wav, mic_file, mixed_file, readable_samples, recording_files, save_plan, system_file, wav_bytes, WavAudio,
    TARGET_SAMPLE_RATE,
};

#[test]
fn wav_file_has_header_and_samples() {
    let bytes = wav_bytes(&[0, 1, -2, 32767, -32768]).unwrap();
    let expected: Vec<u8> = vec![
        0x52, 0x49, 0x46, 0x46, 46, 0, 0, 0, 0x57, 0x41, 0x56, 0x45, 0x66, 0x6d, 0x74, 0x20, 16, 0,
        0, 0, 1, 0, 1, 0, 0x80, 0x3e, 0, 0, 0x00, 0x7d, 0, 0, 2, 0, 16, 0, 0x64, 0x61, 0x74, 0x61,
        10, 0, 0, 0, 0, 0, 1, 0, 0xfe, 0xff, 0xff, 0x7f, 0x00, 0x80,
    ];
    assert_eq!(bytes, expected);
    assert_eq!(wav_bytes(&[]).unwrap().len(), 44);
    assert_eq!(TARGET_SAMPLE_RATE, 16000);
}

#[test]
fn wav_file_is_read_back() {
    let samples: Vec<i16> = vec![5, -6, 700, -800];
    match load_wav(&wav_bytes(&samples).unwrap()) {
        Ok(WavAudio::Int { channels, samples: read }) => {
            assert_eq!(channels, 1);
            assert_eq!(read, samples);
        }
        _ => panic!(),
    }
}

fn write_stereo(spec: hound::WavSpec) -> Vec<u8> {
    let mut cursor = std::io::Cursor::new(Vec::new());
    let mut writer = hound::WavWriter::new(&mut cursor, spec).unwrap();
    for i in 0..4 {
        match spec.sample_format {
            hound::SampleFormat::Int => writer.write_sample(i as i16).unwrap(),
            hound::SampleFormat::Float => writer.write_sample(i as f32).unwrap(),
        }
    }
    writer.finalize().unwrap();
    cursor.into_inner()
}

#[test]
fn other_wav_files_are_read() {
    let mut spec = hound::WavSpec {
        channels: 2,
        sample_rate: 44100,
        bits_per_sample: 16,
        sample_format: hound::SampleFormat::Int,
    };
    let bytes = write_stereo(spec);
    assert!(matches!(
        load_wav(&bytes),
        Ok(WavAudio::Int { channels: 2, samples }) if samples == vec![0, 1, 2, 3]
    ));
    // Samples that are missing at the end are left out.
    assert!(matches!(
        load_wav(&bytes[..bytes.len() - 3]),
        Ok(WavAudio::Int { channels: 2, samples }) if samples == vec![0, 1]
    ));
    spec.bits_per_sample = 32;
    spec.sample_format = hound::SampleFormat::Float;
    assert!(matches!(load_wav(&write_stereo(spec)), Ok(WavAudio::Float { channels: 2 })));
    assert_eq!(load_wav(b"RIFF").err().as_deref(), Some("Kunne ikke åbne WAV-fil"));
}

#[test]
fn samples_that_cannot_be_read_are_left_out() {
    assert_eq!(readable_samples(&[Some(1), None, Some(-2), None]), vec![1, -2]);
    assert!(readable_samples(&[]).is_empty());
}

#[test]
fn files_are_named_after_the_recording() {
    assert_eq!(mixed_file("x"), "x.wav");
    assert_eq!(mic_file("x"), "x_mic.wav");
    assert_eq!(system_file("x"), "x_system.wav");
    assert_eq!(recording_files("x"), vec!["x.wav", "x_mic.wav", "x_system.wav"]);
}

#[test]
fn only_channels_with_samples_are_saved() {
    let plan = save_plan(3, 5, "x");
    assert_eq!(plan.mixed_len, 5);
    assert_eq!(plan.mic.as_deref(), Some("x_mic.wav"));
    assert_eq!(plan.system.as_deref(), Some("x_system.wav"));
    assert_eq!(plan.mixed, "x.wav");
    let plan = save_plan(3, 0, "x");
    assert_eq!(plan.mixed_len, 3);
    assert_eq!(plan.system, None);
    let plan = save_plan(0, 0, "x");
    assert_eq!(plan.mixed_len, 0);
    assert_eq!(plan.mic, None);
}

#[test]
fn saved_files_are_all_removed() {
    let plan = save_plan(1, 1, "x");
    let removed = recording_files("x");
    assert!(removed.contains(&plan.mixed));
    assert!(removed.contains(&plan.mic.unwrap()));
    assert!(removed.contains(&plan.system.unwrap()));
}
