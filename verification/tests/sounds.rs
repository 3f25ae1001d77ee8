use std::cmp::Ordering;

use gmx::artifact::GeneratedFile;
use gmx::audio::{
    accept_conversion, converter_arguments, converter_failure, converter_for, culture_cmp,
    invalid_audio, normalize_ogg, ogg_crc, sound_media, unique_default_audio_name, valid_audio_data, AudioBlob,
    AudioData, AudioError, AudioFormat, Conversion,
};
use gmx::compile::decode_product_id;
use gmx::names::NameSet;
use gmx::resources::Sound;

#[test]
fn culture_order_puts_identifier_punctuation_before_digits() {
    assert!(culture_cmp("sprBlock_frame", "sprBlock2_frame").is_lt());
    assert!(culture_cmp("sndDeath", "sndDJump").is_lt());
}

#[test]
fn culture_order_is_total() {
    assert_eq!(culture_cmp("same", "same"), Ordering::Equal);
    assert_eq!(culture_cmp("a", "A"), Ordering::Less);
    assert_eq!(culture_cmp("A", "a"), Ordering::Greater);
    assert_eq!(culture_cmp("9", "a"), Ordering::Less);
    assert_eq!(culture_cmp("a", "ab"), Ordering::Less);
}

#[test]
fn duplicate_names_preserve_the_original_extension() {
    let mut used = NameSet::new();
    used.insert("sound.wav");
    assert_eq!(
        unique_default_audio_name("sound.wav".to_owned(), &used),
        "sound_0.wav"
    );
    used.insert("sound_0.wav");
    assert_eq!(
        unique_default_audio_name("sound.wav".to_owned(), &used),
        "sound_1.wav"
    );
    assert_eq!(
        unique_default_audio_name("other".to_owned(), &used),
        "other"
    );
}

#[test]
fn found_names_are_not_used() {
    let mut used = NameSet::new();
    for name in ["a.b_c", "a_0.b_c", "0_1.b_c", "plain", "plain_0"] {
        used.insert(name);
    }
    assert_eq!(
        unique_default_audio_name("a.b_c".to_owned(), &used),
        "1_2.b_c"
    );
    assert_eq!(
        unique_default_audio_name("plain".to_owned(), &used),
        "plain_1"
    );
}

#[test]
fn normalizes_ogg_serial_and_recomputes_checksum() {
    let mut page =
        Vec::from(&b"OggS\0\x02\0\0\0\0\0\0\0\0\x01\0\0\0\0\0\0\0\0\0\0\0\x01\x03abc"[..]);
    normalize_ogg(&mut page, 0x1234_5678).unwrap();
    assert_eq!(&page[14..18], &0x1234_5678_u32.to_le_bytes());
    let stored = u32::from_le_bytes(page[22..26].try_into().unwrap());
    page[22..26].fill(0);
    assert_eq!(stored, ogg_crc(&page));
}

#[test]
fn computes_the_checksum_of_ogg() {
    assert_eq!(ogg_crc(b""), 0);
    assert_eq!(ogg_crc(b"\x01"), 0x04c1_1db7);
    assert_eq!(ogg_crc(b"\x01\x00"), 0xd219_c1dc);
}

#[test]
fn reports_broken_ogg_pages() {
    let mut data = b"nothing of the kind".to_vec();
    assert_eq!(
        normalize_ogg(&mut data, 1).unwrap_err(),
        "invalid Ogg page at byte 0"
    );
    let mut page = Vec::from(&b"OggS\0\x02\0\0\0\0\0\0\0\0\x01\0\0\0\0\0\0\0\0\0\0\0\x02\x03"[..]);
    assert_eq!(
        normalize_ogg(&mut page, 1).unwrap_err(),
        "truncated Ogg segment table at byte 0"
    );
    page[26] = 1;
    assert_eq!(
        normalize_ogg(&mut page, 1).unwrap_err(),
        "truncated Ogg page at byte 0"
    );
}

fn blob(data: &[u8]) -> AudioBlob {
    AudioBlob { data: data.to_vec() }
}

fn u32_at(bytes: &[u8], offset: usize) -> u32 {
    u32::from_le_bytes(bytes[offset..offset + 4].try_into().unwrap())
}

fn blob_at(bytes: &[u8], offset: usize) -> &[u8] {
    let size = u32_at(bytes, offset) as usize;
    &bytes[offset + 4..offset + 4 + size]
}

#[test]
fn writes_enabled_audio_groups_as_standalone_wads() {
    let audio = AudioData {
        sounds: Vec::new(),
        groups: vec![
            vec![blob(b"default")],
            vec![blob(b"one"), blob(b"four")],
            vec![blob(b"disabled")],
        ],
        streamed: vec![GeneratedFile::new(
            "stream.ogg".to_owned(),
            Vec::from(&b"streamed"[..]),
        )],
        target_masks: vec![i64::MAX, 0b10, 0b01],
        target_mask: 0b10,
    };

    let files = audio.external_files().unwrap();
    assert_eq!(files.len(), 2);
    assert_eq!(files[0].path, "stream.ogg");
    assert_eq!(files[0].data, b"streamed");
    assert_eq!(files[1].path, "audiogroup1.dat");
    assert!(!files.iter().any(|file| file.path == "audiogroup2.dat"));

    let bytes = &files[1].data;
    assert_eq!(&bytes[0..4], b"FORM");
    assert_eq!(u32_at(bytes, 4) as usize, bytes.len() - 8);
    assert_eq!(&bytes[8..12], b"AUDO");
    assert_eq!(u32_at(bytes, 12) as usize, bytes.len() - 16);
    assert_eq!(u32_at(bytes, 16), 2);
    let first = u32_at(bytes, 20) as usize;
    let second = u32_at(bytes, 24) as usize;
    assert_eq!(first % 4, 0);
    assert_eq!(second % 4, 0);
    assert_eq!(blob_at(bytes, first), b"one");
    assert_eq!(blob_at(bytes, second), b"four");
}

fn sound(index: usize, name: &str, original: &str) -> Sound {
    Sound {
        index,
        name: name.to_owned(),
        source: String::new(),
        audio_source: format!("sound/audio/{original}"),
        original_name: format!("sound\\audio\\{original}"),
        extension: ".wav".to_owned(),
        effects: 0,
        volume: 0,
        pan: 0,
        preload: true,
        new_audio: true,
        streamed: false,
        compressed: false,
        uncompress_on_load: false,
        stereo: false,
        bit_rate: 192,
        sample_rate: 44100,
        bit_depth: 16,
        group_index: 0,
    }
}

#[test]
fn numbers_sounds_by_their_names() {
    let mut streamed = sound(1, "sndMusic", "music.wav");
    streamed.streamed = true;
    let sounds = vec![
        sound(0, "sndB", "same.wav"),
        streamed,
        sound(2, "sndA", "same.wav"),
    ];
    let media = sound_media(&sounds, 1).unwrap();
    assert_eq!(media[0].audio_id, 1);
    assert_eq!(media[0].filename, "same.wav");
    assert_eq!(media[0].kind, 101);
    assert_eq!(media[1].audio_id, -1);
    assert_eq!(media[1].filename, "music.ogg");
    assert_eq!(media[1].kind, 100);
    assert_eq!(media[2].audio_id, 0);
    assert_eq!(media[2].filename, "same_0.wav");
}

#[test]
fn chooses_the_arguments_of_the_converter() {
    let mut wav = sound(0, "snd", "a.wav");
    wav.bit_depth = 8;
    assert_eq!(
        converter_arguments(&wav, AudioFormat::of(&wav), "out.wav"),
        [
            "-y", "-i", "sound/audio/a.wav", "-ac", "1", "-ar", "44100", "-acodec", "pcm_u8",
            "out.wav",
        ]
    );
    let mut ogg = sound(0, "snd", "a.wav");
    ogg.compressed = true;
    ogg.stereo = true;
    ogg.bit_rate = 512;
    assert_eq!(AudioFormat::of(&ogg).extension(), "ogg");
    assert_eq!(
        converter_arguments(&ogg, AudioFormat::of(&ogg), "out.ogg"),
        [
            "-y", "-i", "sound/audio/a.wav", "-acodec", "libvorbis", "-ac", "2", "-ar", "44100",
            "-aq", "6", "-loglevel", "quiet", "out.ogg",
        ]
    );
    let mut mp3 = sound(0, "snd", "a.wav");
    mp3.compressed = true;
    mp3.new_audio = false;
    assert_eq!(
        converter_arguments(&mp3, AudioFormat::of(&mp3), "out.mp3"),
        [
            "-y", "-i", "sound/audio/a.wav", "-acodec", "libmp3lame", "-ac", "1", "-ar", "44100",
            "-ab", "192k", "out.mp3",
        ]
    );
}

#[test]
fn recognizes_audio_data() {
    assert!(valid_audio_data(b"RIFF\0\0\0\0WAVE", AudioFormat::Wav));
    assert!(!valid_audio_data(b"RIFF\0\0\0\0", AudioFormat::Wav));
    assert!(valid_audio_data(b"OggS", AudioFormat::Ogg));
    assert!(valid_audio_data(b"ID3", AudioFormat::Mp3));
    assert!(valid_audio_data(&[0xff, 0xe3], AudioFormat::Mp3));
    assert!(!valid_audio_data(&[0xff, 0x1f], AudioFormat::Mp3));
}

#[test]
fn explains_failed_conversions() {
    let wav = sound(0, "snd", "a.wav");
    let conversion = Conversion {
        format: AudioFormat::Wav,
        key: String::new(),
        serial: 0,
        cache_name: String::new(),
    };
    assert_eq!(
        accept_conversion(&wav, &conversion, Some(0), b"RIFF".to_vec()).unwrap(),
        b"RIFF"
    );
    let empty = accept_conversion(&wav, &conversion, Some(0), Vec::new()).unwrap_err();
    assert_eq!(
        empty.text(),
        "audio conversion failed for snd with status Some(0): converter produced an empty file"
    );
    let failure = converter_failure(&wav, None, b" no input \n");
    assert_eq!(
        failure.text(),
        "audio conversion failed for snd with status None: no input"
    );
    assert_eq!(
        format!("{:?}", invalid_audio(&AudioError::MissingConverter)),
        "InvalidVmData { message: \"audio data: ffmpeg was not found next to gmx or on PATH\" }"
    );
}

#[test]
fn product_ids_are_exactly_sixteen_hex_bytes() {
    assert_eq!(
        decode_product_id("000102030405060708090A0B0C0D0E0F"),
        Some([0, 1, 2, 3, 4, 5, 6, 7, 8, 9, 10, 11, 12, 13, 14, 15])
    );
    assert_eq!(decode_product_id("not-a-product-id"), None);
    assert_eq!(decode_product_id(&"+A".repeat(16)), None);
    assert_eq!(decode_product_id(&"fE".repeat(16)), Some([0xfe; 16]));
    assert_eq!(decode_product_id(&"00".repeat(17)), None);
    assert_eq!(decode_product_id(&"\u{e9}".repeat(16)), None);
}

#[test]
fn sounds_need_a_converter() {
    let sounds = vec![sound(0, "a", "a.wav")];
    assert_eq!(converter_for(&Vec::new(), None).unwrap(), None);
    assert_eq!(
        converter_for(&Vec::new(), Some("ffmpeg".to_owned())).unwrap(),
        None
    );
    assert!(matches!(
        converter_for(&sounds, None),
        Err(AudioError::MissingConverter)
    ));
    assert_eq!(
        converter_for(&sounds, Some("ffmpeg".to_owned())).unwrap(),
        Some("ffmpeg".to_owned())
    );
}

#[test]
fn sounds_are_numbered_by_their_index() {
    let sounds = vec![sound(1, "b", "b.wav"), sound(0, "a", "a.wav")];
    let media = sound_media(&sounds, 1).unwrap();
    assert_eq!(media[0].audio_id, 1);
    assert_eq!(media[1].audio_id, 0);
}
