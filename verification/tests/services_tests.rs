use atulyaos::ai::IntentEngine;
use atulyaos::ai_model::AtulyaAiCore;
use atulyaos::bytes::{read_le16, read_le32};
use atulyaos::fs::path::{lex_less, norm_chars, normalize};
use atulyaos::math::{cosish, isqrt, sinish};
use atulyaos::pci::PciBus;
use atulyaos::wasm::runtime::WasmRuntime;
use atulyaos::viewer::{detect_format, sniff_and_decode, utf8_chars, DetectedFormat};

#[test]
fn intents_are_matched_by_keyword() {
    let mut ai = IntentEngine::new();
    let r = ai.parse_intent("  Scan the PCI bus ");
    assert_eq!(r.intent_name, "NETWORK_HARDWARE_SCAN");
    assert_eq!(r.confidence, 96);
    let r = ai.parse_intent("please backup my files");
    assert_eq!(r.intent_name, "VFS_DISK_PERSISTENCE");
    assert_eq!(r.confidence, 98);
    let r = ai.parse_intent("hello there");
    assert!(r.description.contains("hello there"));
    assert_eq!(ai.query_history.len(), 3);
}

#[test]
fn formulas_are_evaluated() {
    let core = AtulyaAiCore::new();
    assert_eq!(core.evaluate_formula("12 + 30").unwrap(), "Formula Result: 12 + 30 = 42");
    assert_eq!(core.evaluate_formula("7 - 10").unwrap(), "Formula Result: 7 - 10 = -3");
    assert_eq!(core.evaluate_formula("17 / 5").unwrap(), "Formula Result: 17 / 5 = 3 (rem 2)");
    assert_eq!(core.evaluate_formula("1 / 0").unwrap(), "Formula Error: Division by zero is undefined.");
    assert!(core.evaluate_formula("tell me a story").is_none());
}

#[test]
fn integer_math() {
    assert_eq!(isqrt(0), 0);
    assert_eq!(isqrt(15), 3);
    assert_eq!(isqrt(16), 4);
    assert_eq!(isqrt(1_000_000), 1000);
    assert_eq!(sinish(0), 0);
    assert_eq!(sinish(90), 1024);
    assert_eq!(sinish(270), -1024);
    assert_eq!(sinish(-90), -1024);
    assert_eq!(cosish(0), 1024);
    assert_eq!(cosish(180), -1024);
}

#[test]
fn little_endian_reads() {
    let d = [0x34u8, 0x12, 0x78, 0x56];
    assert_eq!(read_le16(&d, 0), 0x1234);
    assert_eq!(read_le32(&d, 0), 0x5678_1234);
}

#[test]
fn paths_are_normalised() {
    let p: String = normalize("  /home//guest/docs/ ").into_iter().collect();
    assert_eq!(p, "/home/guest/docs");
    let root: String = normalize("///").into_iter().collect();
    assert_eq!(root, "/");
    let rel: String = normalize("tmp/x").into_iter().collect();
    assert_eq!(rel, "/tmp/x");
    assert!(lex_less(&['a'], &['b']));
    assert!(!lex_less(&['b'], &['a']));
    assert!(lex_less(&['a'], &['a', 'a']));
}

#[test]
fn renormalising_changes_nothing() {
    for p in ["//a//b/", "/", "", "x", "/home/guest/docs"] {
        let chars: Vec<char> = p.chars().collect();
        let once = norm_chars(&chars);
        assert_eq!(norm_chars(&once), once);
    }
    let once = norm_chars(&"//a//b/".chars().collect::<Vec<char>>());
    assert_eq!(once.into_iter().collect::<String>(), "/a/b");
}

#[test]
fn text_helpers() {
    assert_eq!(utf8_chars("héllo".as_bytes()).unwrap(), vec!['h', 'é', 'l', 'l', 'o']);
    assert!(utf8_chars(&[0xff, 0xfe]).is_none());
}

#[test]
fn pci_config_address() {
    assert_eq!(PciBus::config_address(0, 3, 0, 0x10), 0x8000_1810);
    assert_eq!(PciBus::config_word(0x1234_5678, 0), 0x5678);
    assert_eq!(PciBus::config_word(0x1234_5678, 2), 0x1234);
}

#[test]
fn formats_are_sniffed() {
    assert!(matches!(detect_format("a.png", &[0x89, b'P', b'N', b'G', 0x0D, 0x0A, 0x1A, 0x0A]), DetectedFormat::Png));
    assert_eq!(detect_format("notes.txt", b"hello"), DetectedFormat::PlainText);
    assert_eq!(detect_format("x.bin", &[0, 1, 2, 3]), DetectedFormat::PlainText);
    assert_eq!(detect_format("x.bin", &[0xC3, 0x28, 0xFF]), DetectedFormat::Binary);
    let d = sniff_and_decode("notes.txt", b"hello");
    assert_eq!(d.format, DetectedFormat::PlainText);
    assert_eq!(d.size, 5);
    assert!(d.preview_lines.iter().any(|l| l.contains("hello")));
}

/// A module whose exported `main` (function 0) has the body `body` (locals included).
fn wasm_with_main(body: &[u8]) -> Vec<u8> {
    let mut m = vec![0, 0x61, 0x73, 0x6D, 1, 0, 0, 0];
    m.extend_from_slice(&[1, 5, 1, 0x60, 0, 1, 0x7F]);
    m.extend_from_slice(&[3, 2, 1, 0]);
    m.extend_from_slice(&[7, 8, 1, 4, b'm', b'a', b'i', b'n', 0, 0]);
    m.extend_from_slice(&[0x0A, (body.len() + 2) as u8, 1, body.len() as u8]);
    m.extend_from_slice(body);
    m
}

#[test]
fn wasm_modules_load_and_run() {
    let mut rt = WasmRuntime::new();
    assert_eq!(rt.load_module("tiny", &[0, 0x61, 0x73]), Err("Invalid WASM module: binary too small"));
    assert_eq!(rt.load_module("elf", b"\x7fELF\x02\x01\x01\x00"), Err("Invalid WASM module: invalid magic header"));
    assert_eq!(
        rt.load_module("v2", &[0, 0x61, 0x73, 0x6D, 2, 0, 0, 0]),
        Err("Unsupported WASM version: expected version 1")
    );
    assert!(rt.modules.is_empty());
    let seven = [0x00, 0x61, 0x73, 0x6D, 1, 0, 0, 0, 1, 5, 1, 0x60, 0, 1, 0x7F, 3, 2, 1, 0, 7, 8, 1, 4, 0x6D, 0x61, 0x69,
        0x6E, 0, 0, 0x0A, 6, 1, 4, 0, 0x41, 7, 0x0B];
    assert_eq!(wasm_with_main(&[0, 0x41, 7, 0x0B]), seven.to_vec());
    assert_eq!(rt.load_module("m", &seven), Ok(()));
    assert_eq!(rt.console_output.last().unwrap(), "[WASM] Module 'm' loaded successfully (37 bytes).");
    assert_eq!(rt.run_module("missing"), Err("WASM module not found"));
    assert_eq!(rt.run_module("m"), Ok(7));
    assert_eq!(rt.last_result, 7);
    assert_eq!(rt.console_output.last().unwrap(), "[WASM] Execution of 'm' complete. Return value: 7");
    let sum = wasm_with_main(&[0, 0x41, 0x05, 0x41, 0x07, 0x6A, 0x0B]);
    assert_eq!(rt.load_module("calc", &sum), Ok(()));
    assert_eq!(rt.run_module("calc"), Ok(12));
    let neg = wasm_with_main(&[0, 0x41, 0x7F, 0x41, 0x03, 0x6C, 0x0B]);
    assert_eq!(rt.load_module("neg", &neg), Ok(()));
    assert_eq!(rt.run_module("neg"), Ok(-3));
    let locals = wasm_with_main(&[1, 2, 0x7F, 0x41, 3, 0x21, 0, 0x20, 0, 0x41, 4, 0x6C, 0x0B]);
    assert_eq!(rt.load_module("locals", &locals), Ok(()));
    assert_eq!(rt.run_module("locals"), Ok(12));
    let empty_body = wasm_with_main(&[0, 0x0B]);
    assert_eq!(rt.load_module("empty", &empty_body), Ok(()));
    assert_eq!(rt.run_module("empty"), Ok(42));
    let header_only = [0, 0x61, 0x73, 0x6D, 1, 0, 0, 0];
    assert_eq!(rt.load_module("bare", &header_only), Ok(()));
    assert_eq!(rt.run_module("bare"), Err("WASM module has no exported main function"));
    assert_eq!(rt.last_result, 42);
    assert_eq!(rt.load_module("m", &sum), Ok(()));
    assert_eq!(rt.run_module("m"), Ok(7));
}

#[test]
fn tones_are_pure_sines() {
    let mut a = atulyaos::audio::AudioDriver::new();
    a.synthesize_tone(441, 1000);
    assert_eq!(a.pcm_buffer.len(), 44100);
    assert_eq!(a.playback_position, 0);
    assert_eq!(a.state, atulyaos::audio::AudioState::Playing);
    assert_eq!(a.pcm_buffer[0], 0);
    assert_eq!(a.pcm_buffer[36], 9775);
    assert!(a.pcm_buffer.iter().all(|s| (-10000..=10000).contains(s)));
}

#[test]
fn square_roots_of_every_size() {
    assert_eq!(isqrt(usize::MAX), (1usize << (usize::BITS / 2)) - 1);
    assert_eq!(isqrt(16), 4);
}

#[test]
fn speech_pulses_the_speaker() {
    let v = atulyaos::voice::VoiceSynthesizer::new();
    let p = v.synthesize("A t");
    assert_eq!(p.len(), 1764);
    assert_eq!(p[0], 0);
    assert!(p[882..1323].iter().all(|s| *s == 0));
    assert_eq!(v.speaker_pulses("A t"), vec![730, 0, 350, 0]);
    assert_eq!(v.speaker_pulses(""), vec![0]);
}
