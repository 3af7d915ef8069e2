use std::sync::Arc;

use keyclack::audio::{playable_frames, AudioError, VoiceBank, MAX_VOICES};
use keyclack::config::{config_path_in, ConfigError};
use keyclack::hotkey::HotkeyError;
use keyclack::input::{
    count_set_bits, modifier_event, InputError, KeyEvent, KeyListener, UnsupportedListener,
};
use keyclack::login_item::{
    launchctl_outcome, plist_contents, plist_path_in, LoginItemError, LAUNCH_AGENT_LABEL,
};
use keyclack::ui::toggle_outcome;
use keyclack::pack::{
    decode_pcm16, finish_loading, mono_to_interleaved_stereo, packs_dir, position_of_id, sort_by_name, Pack,
    PackError,
};
use keyclack::paths::{join_path, join_path_bytes};

#[test]
fn mono_to_stereo_duplicates() {
    let out = mono_to_interleaved_stereo(&[0.5f32, -0.5]);
    assert_eq!(out, vec![0.5, 0.5, -0.5, -0.5]);
}

#[test]
fn mono_to_stereo_empty() {
    let out: Vec<f32> = mono_to_interleaved_stereo(&[]);
    assert!(out.is_empty());
}

#[test]
fn mono_to_stereo_integers() {
    assert_eq!(mono_to_interleaved_stereo(&[1u8, 2, 3]), vec![1, 1, 2, 2, 3, 3]);
}

fn pack(id: &str, name: &str, tag: u32) -> Pack<u32> {
    Pack { id: id.to_string(), name: name.to_string(), samples: tag }
}

fn names_and_tags(packs: &[Pack<u32>]) -> Vec<(String, u32)> {
    packs.iter().map(|p| (p.name.clone(), p.samples)).collect()
}

#[test]
fn packs_are_sorted_by_name_stably() {
    let packs = vec![
        pack("c", "Cherry", 1),
        pack("a", "Alps", 2),
        pack("c2", "Cherry", 3),
        pack("b", "Box", 4),
        pack("a2", "Alps", 5),
    ];
    let sorted = sort_by_name(packs);
    assert_eq!(
        names_and_tags(&sorted),
        vec![
            ("Alps".to_string(), 2),
            ("Alps".to_string(), 5),
            ("Box".to_string(), 4),
            ("Cherry".to_string(), 1),
            ("Cherry".to_string(), 3),
        ]
    );
}

#[test]
fn names_sort_by_bytes() {
    let packs = vec![
        pack("1", "b", 1),
        pack("2", "B", 2),
        pack("3", "ab", 3),
        pack("4", "a", 4),
        pack("5", "é", 5),
        pack("6", "", 6),
    ];
    let sorted = sort_by_name(packs);
    let mut expected: Vec<&str> = vec!["b", "B", "ab", "a", "é", ""];
    expected.sort();
    let got: Vec<&str> = sorted.iter().map(|p| p.name.as_str()).collect();
    assert_eq!(got, expected);
    assert_eq!(got, vec!["", "B", "a", "ab", "b", "é"]);
}

#[test]
fn no_packs_is_an_error() {
    let empty: Vec<Pack<u32>> = Vec::new();
    assert_eq!(finish_loading(empty).err(), Some(PackError::NoPacksFound));
    let one = finish_loading(vec![pack("x", "X", 0)]).unwrap();
    assert_eq!(one.len(), 1);
}

#[test]
fn position_of_id_finds_the_first_match() {
    let packs = vec![pack("a", "A", 0), pack("b", "B", 1), pack("b", "B2", 2)];
    assert_eq!(position_of_id(&packs, &"b".to_string()), Some(1));
    assert_eq!(position_of_id(&packs, &"a".to_string()), Some(0));
    assert_eq!(position_of_id(&packs, &"z".to_string()), None);
}

#[test]
fn pack_error_messages() {
    assert_eq!(
        PackError::PacksDirMissing("/x/packs".to_string()).message(),
        "packs directory missing: /x/packs"
    );
    assert_eq!(
        PackError::BadManifest { dir: "/p".to_string(), reason: "eof".to_string() }.message(),
        "bad manifest in /p: eof"
    );
    assert_eq!(
        PackError::BadWav { path: "/p/a.wav".to_string(), reason: "bad".to_string() }.message(),
        "bad wav file /p/a.wav: bad"
    );
    assert_eq!(PackError::NoPacksFound.message(), "no sound packs found");
}

#[test]
fn other_error_messages() {
    assert_eq!(AudioError::NoOutputDevice.message(), "no default audio output device");
    assert_eq!(
        AudioError::NoOutputConfig("busy".to_string()).message(),
        "could not query output config: busy"
    );
    assert_eq!(
        AudioError::StreamFailed("gone".to_string()).message(),
        "failed to build/start audio stream: gone"
    );
    assert_eq!(
        HotkeyError::RegistrationFailed("taken".to_string()).message(),
        "hotkey registration failed: taken"
    );
    assert_eq!(InputError::PermissionDenied.message(), "accessibility permission not granted");
    assert_eq!(InputError::TapCreationFailed.message(), "failed to create event tap");
    assert_eq!(InputError::UnsupportedPlatform.message(), "this platform is not supported in v1");
}

#[test]
fn login_item_error_messages() {
    assert_eq!(LoginItemError::NoHomeDir.message(), "could not determine home directory");
    assert_eq!(
        LoginItemError::ExePathUnknown.message(),
        "could not determine current executable path"
    );
    let failed = LoginItemError::LaunchctlFailed { code: Some(-12), stderr: "nope".to_string() };
    assert_eq!(failed.message(), "launchctl failed (code Some(-12)): nope");
    let killed = LoginItemError::LaunchctlFailed { code: None, stderr: String::new() };
    assert_eq!(killed.message(), "launchctl failed (code None): ");
    let extreme = LoginItemError::LaunchctlFailed { code: Some(i32::MIN), stderr: "x".to_string() };
    assert_eq!(extreme.message(), format!("launchctl failed (code {:?}): x", Some(i32::MIN)));
    let zero = LoginItemError::LaunchctlFailed { code: Some(0), stderr: "x".to_string() };
    assert_eq!(zero.message(), "launchctl failed (code Some(0)): x");
    let io = LoginItemError::Io(std::io::Error::new(std::io::ErrorKind::Other, "disk full"));
    assert_eq!(io.message(), "login item I/O error: disk full");
}

#[test]
fn paths_are_joined_like_pathbuf() {
    for (base, rel) in [("/home/u", "a/b"), ("/home/u/", "a"), ("", "a"), ("/", "x"), ("é", "y")] {
        let expected = std::path::PathBuf::from(base).join(rel);
        assert_eq!(join_path(base, rel), expected.to_str().unwrap());
    }
    assert_eq!(packs_dir("/src/keyclack"), "/src/keyclack/assets/packs");
    for (base, rel) in [(&b"/home/u"[..], &b"a/b"[..]), (b"/home/u/", b"a"), (b"", b"a"), (b"/", b"x")] {
        let expected = std::path::Path::new(std::str::from_utf8(base).unwrap())
            .join(std::str::from_utf8(rel).unwrap());
        assert_eq!(join_path_bytes(base, rel), expected.to_str().unwrap().as_bytes().to_vec());
    }
}

#[test]
fn plist_path_and_contents() {
    assert_eq!(
        plist_path_in(b"/Users/me"),
        b"/Users/me/Library/LaunchAgents/com.keyclack.agent.plist".to_vec()
    );
    assert_eq!(
        plist_path_in(b"/Users/me/"),
        b"/Users/me/Library/LaunchAgents/com.keyclack.agent.plist".to_vec()
    );
    let odd_home: &[u8] = b"/home/\xff\xfeuser";
    let mut expected_odd = odd_home.to_vec();
    expected_odd.extend_from_slice(b"/Library/LaunchAgents/com.keyclack.agent.plist");
    assert_eq!(plist_path_in(odd_home), expected_odd);
    let text = plist_contents("/opt/keyclack");
    let expected = format!(
        r#"<?xml version="1.0" encoding="UTF-8"?>
<!DOCTYPE plist PUBLIC "-//Apple//DTD PLIST 1.0//EN" "http://www.apple.com/DTDs/PropertyList-1.0.dtd">
<plist version="1.0">
<dict>
    <key>Label</key>
    <string>{LAUNCH_AGENT_LABEL}</string>
    <key>ProgramArguments</key>
    <array>
        <string>{exe_path}</string>
    </array>
    <key>RunAtLoad</key>
    <true/>
    <key>KeepAlive</key>
    <false/>
</dict>
</plist>
"#,
        exe_path = "/opt/keyclack"
    );
    assert_eq!(text, expected);
}

#[test]
fn launchctl_and_toggle_outcomes() {
    assert!(launchctl_outcome(true, Some(0), String::new()).is_ok());
    match launchctl_outcome(false, Some(3), "err".to_string()) {
        Err(LoginItemError::LaunchctlFailed { code, stderr }) => {
            assert_eq!(code, Some(3));
            assert_eq!(stderr, "err");
        }
        _ => panic!("expected a launchctl failure"),
    }
    assert_eq!(toggle_outcome(false, true, Ok(())), (true, None));
    let (setting, status) = toggle_outcome(false, true, Err(LoginItemError::NoHomeDir));
    assert_eq!(setting, false);
    assert_eq!(status, Some("could not determine home directory".to_string()));
}

#[test]
fn playable_frames_counts_whole_frames() {
    assert_eq!(playable_frames(0, 2, 1), 1);
    assert_eq!(playable_frames(0, 2, 4), 1);
    assert_eq!(playable_frames(0, 3, 4), 1);
    assert_eq!(playable_frames(0, 8, 3), 3);
    assert_eq!(playable_frames(6, 8, 3), 1);
    assert_eq!(playable_frames(8, 8, 3), 0);
    assert_eq!(playable_frames(0, 0, 3), 0);
}

#[test]
fn voices_fill_free_slots_then_steal_the_oldest() {
    let samples = Arc::new(vec![0.25f32; 8]);
    let mut bank = VoiceBank::new(Arc::new(Vec::new()), 0);
    bank.play();
    assert!((0..MAX_VOICES).all(|i| bank.voice(i).is_none()));
    bank.set_pack(samples.clone(), samples.len());
    for _ in 0..MAX_VOICES {
        bank.play();
    }
    assert!((0..MAX_VOICES).all(|i| bank.voice(i).map(|v| v.pos) == Some(0)));
    for slot in 0..MAX_VOICES {
        assert_eq!(bank.advance_slot(slot, 1), 1);
    }
    assert_eq!(bank.voice(3).unwrap().pos, 2);
    bank.play();
    assert_eq!(bank.voice(0).unwrap().pos, 0);
    assert_eq!(bank.voice(1).unwrap().pos, 2);
    bank.play();
    assert_eq!(bank.voice(1).unwrap().pos, 0);
    assert_eq!(bank.voice(2).unwrap().pos, 2);
}

#[test]
fn finished_voice_frees_its_slot() {
    let mut bank = VoiceBank::new(Arc::new(vec![1.0f32, 1.0]), 2);
    bank.play();
    assert_eq!(bank.advance_slot(0, 4), 1);
    assert!(bank.voice(0).is_none());
    assert_eq!(bank.advance_slot(0, 4), 0);
    bank.play();
    assert_eq!(bank.advance_slot(0, 1), 1);
    assert_eq!(bank.voice(0).unwrap().pos, 2);
    assert_eq!(bank.advance_slot(0, 1), 0);
    assert!(bank.voice(0).is_none());
}

#[test]
fn new_pack_leaves_playing_voices_alone() {
    let first = Arc::new(vec![0.1f32; 4]);
    let second = Arc::new(vec![0.2f32; 6]);
    let mut bank = VoiceBank::new(first.clone(), first.len());
    bank.play();
    bank.set_pack(second.clone(), second.len());
    bank.play();
    assert!(Arc::ptr_eq(&bank.voice(0).unwrap().samples, &first));
    assert!(Arc::ptr_eq(&bank.voice(1).unwrap().samples, &second));
    assert_eq!(bank.voice(1).unwrap().len, 6);
}

#[test]
fn config_path_and_errors() {
    assert_eq!(
        config_path_in(b"/Users/me/Library/Application Support/keyclack"),
        b"/Users/me/Library/Application Support/keyclack/config.json".to_vec()
    );
    assert_eq!(config_path_in(b"/cfg/\xffk/"), b"/cfg/\xffk/config.json".to_vec());
    assert_eq!(ConfigError::NoConfigDir.message(), "could not determine OS config directory");
    let io = ConfigError::Io(std::io::Error::new(std::io::ErrorKind::Other, "denied"));
    assert_eq!(io.message(), "config file I/O error: denied");
    let parse_err = serde_json::from_str::<serde_json::Value>("{ not json }").unwrap_err();
    let expected = format!("config file parse error: {parse_err}");
    assert_eq!(ConfigError::Parse(parse_err).message(), expected);
}

#[test]
fn unsupported_listener_refuses_to_start() {
    let (tx, _rx) = crossbeam_channel::bounded(1);
    let mut listener = UnsupportedListener;
    assert_eq!(listener.start(tx), Err(InputError::UnsupportedPlatform));
}


#[test]
fn refilled_slot_is_not_stolen_before_older_voices() {
    let samples = Arc::new(vec![0.5f32; 8]);
    let mut bank = VoiceBank::new(samples.clone(), samples.len());
    for _ in 0..MAX_VOICES {
        bank.play();
    }
    assert_eq!(bank.advance_slot(0, 5), 4);
    assert!(bank.voice(0).is_none());
    bank.play();
    assert_eq!(bank.voice(0).unwrap().started, MAX_VOICES as u64);
    bank.play();
    assert_eq!(bank.voice(0).unwrap().started, MAX_VOICES as u64);
    assert_eq!(bank.voice(1).unwrap().started, MAX_VOICES as u64 + 1);
    assert_eq!(bank.voice(2).unwrap().started, 2);
    bank.play();
    assert_eq!(bank.voice(2).unwrap().started, MAX_VOICES as u64 + 2);
}

fn wav_bytes(spec: hound::WavSpec, samples: &[i32]) -> Vec<u8> {
    let mut cursor = std::io::Cursor::new(Vec::new());
    {
        let mut writer = hound::WavWriter::new(&mut cursor, spec).unwrap();
        for &s in samples {
            if spec.sample_format == hound::SampleFormat::Float {
                writer.write_sample(s as f32).unwrap();
            } else {
                writer.write_sample(s).unwrap();
            }
        }
        writer.finalize().unwrap();
    }
    cursor.into_inner()
}

#[test]
fn pcm16_files_decode_to_their_samples() {
    let spec = hound::WavSpec {
        channels: 2,
        sample_rate: 8000,
        bits_per_sample: 16,
        sample_format: hound::SampleFormat::Int,
    };
    let bytes = wav_bytes(spec, &[1, -2, 300, -32768]);
    let (samples, channels, rate) = decode_pcm16("/p/press.wav", &bytes).unwrap();
    assert_eq!(samples, vec![1i16, -2, 300, -32768]);
    assert_eq!(channels, 2);
    assert_eq!(rate, 8000);
}

#[test]
fn other_sample_formats_are_refused() {
    let eight_bit = hound::WavSpec {
        channels: 1,
        sample_rate: 44100,
        bits_per_sample: 8,
        sample_format: hound::SampleFormat::Int,
    };
    let float = hound::WavSpec {
        channels: 1,
        sample_rate: 44100,
        bits_per_sample: 32,
        sample_format: hound::SampleFormat::Float,
    };
    for spec in [eight_bit, float] {
        let bytes = wav_bytes(spec, &[1, 2]);
        assert_eq!(
            decode_pcm16("/p/a.wav", &bytes).err(),
            Some(PackError::BadWav {
                path: "/p/a.wav".to_string(),
                reason: "expected 16-bit integer PCM".to_string(),
            })
        );
    }
}

#[test]
fn unreadable_wav_reports_the_reader_error() {
    let garbage = b"RIFF this is not a wave file".to_vec();
    let expected = hound::WavReader::new(std::io::Cursor::new(&garbage[..]))
        .err()
        .unwrap()
        .to_string();
    assert_eq!(
        decode_pcm16("/p/b.wav", &garbage).err(),
        Some(PackError::BadWav { path: "/p/b.wav".to_string(), reason: expected })
    );
}

#[test]
fn modifier_changes_become_presses_and_releases() {
    assert_eq!(modifier_event(0, 0x40000, 59), KeyEvent::Down(59));
    assert_eq!(modifier_event(0x40000, 0, 59), KeyEvent::Up(59));
    assert_eq!(modifier_event(0x40000, 0x60000, 56), KeyEvent::Down(56));
    assert_eq!(modifier_event(0x60000, 0x40000, 56), KeyEvent::Up(56));
    assert_eq!(modifier_event(0x100, 0x200, 3), KeyEvent::Up(3));
    assert_eq!(count_set_bits(u64::MAX), 64);
    assert_eq!(count_set_bits(0b1011), 3);
}
