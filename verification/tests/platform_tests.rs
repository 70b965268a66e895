use atulyaos::fs::ata::{drq_status, lba_registers, not_busy, sector_from_words, words_from_sector, AtaDisk, DrqWait};
use atulyaos::gpu_boot::GpuBoot;
use atulyaos::interrupts::tick_counter::TickCounter;
use atulyaos::interrupts::RingBuffer;
use atulyaos::posix::{PosixBridge, PosixCall};
use atulyaos::power::PowerManager;
use atulyaos::serial::{hex_text, line_bytes, transmit_ready};
use atulyaos::sound::{Note, Sound};
use atulyaos::syscall::{classify_syscall, syscall_return, SyscallAction, SYS_EXIT, SYS_GET_TICK, SYS_PRINT};
use atulyaos::timer::{delay_cycles, delay_elapsed, get_tsc_hz, now_ms, Calibration, FALLBACK_HZ};
use atulyaos::memory::{heap_frames, BootInfoFrameAllocator};
use atulyaos::memory::{largest_heap_region_after, MemoryRegion};

#[test]
fn ata_status_decisions() {
    assert!(!not_busy(0x80));
    assert!(not_busy(0x50));
    assert_eq!(drq_status(0x08), DrqWait::Ready);
    assert_eq!(drq_status(0x09), DrqWait::Failed);
    assert_eq!(drq_status(0x40), DrqWait::Pending);
    assert!(AtaDisk::drive_present(0x50));
    assert!(!AtaDisk::drive_present(0));
    assert!(!AtaDisk::drive_present(0xFF));
}

#[test]
fn ata_lba_registers() {
    assert_eq!(lba_registers(0x1234_5678), [0xE2, 0x78, 0x56, 0x34]);
    assert_eq!(lba_registers(0), [0xE0, 0, 0, 0]);
    assert_eq!(lba_registers(0xFFFF_FFFF), [0xEF, 0xFF, 0xFF, 0xFF]);
}

#[test]
fn ata_identify_capacity() {
    let mut d = AtaDisk::new();
    assert!(!d.is_available);
    let mut info = [0u16; 256];
    info[60] = 0x1000;
    info[61] = 0x0002;
    d.record_identify(&info);
    assert_eq!(d.total_sectors, 0x0002_1000);
    assert!(d.is_available);
}

#[test]
fn ata_sector_words_roundtrip() {
    let mut words = [0u16; 256];
    for (i, w) in words.iter_mut().enumerate() {
        *w = (i as u16).wrapping_mul(0x0101) ^ 0xA55A;
    }
    let bytes = sector_from_words(&words);
    assert_eq!(bytes.len(), 512);
    assert_eq!(bytes[0], 0x5A);
    assert_eq!(bytes[1], 0xA5);
    let mut arr = [0u8; 512];
    arr.copy_from_slice(&bytes);
    let back = words_from_sector(&arr);
    assert_eq!(back, words.to_vec());
}

#[test]
fn serial_framing_and_hex() {
    assert_eq!(line_bytes("hi"), vec![b'h', b'i', 13, 10]);
    assert_eq!(line_bytes(""), vec![13, 10]);
    assert!(transmit_ready(0x20));
    assert!(transmit_ready(0x60));
    assert!(!transmit_ready(0x1F));
    assert_eq!(hex_text(0), "0x0");
    assert_eq!(hex_text(255), "0xff");
    assert_eq!(hex_text(0x1234_abcd), "0x1234abcd");
    assert_eq!(hex_text(u64::MAX), "0xffffffffffffffff");
}

#[test]
fn speaker_control() {
    assert_eq!(Sound::tone_divisor(1000), 1193);
    assert_eq!(Sound::tone_divisor(10), 53782);
    assert_eq!(Sound::speaker_on(0x00), Some(0x03));
    assert_eq!(Sound::speaker_on(0x03), None);
    assert_eq!(Sound::speaker_on(0xFC), Some(0xFF));
    assert_eq!(Sound::speaker_off(0xFF), 0xFC);
    let boot = Sound::play_boot_chime();
    assert_eq!(boot.len(), 5);
    assert_eq!(boot[0], Note { freq: 523, duration: 6000, pause: 1000 });
    assert_eq!(boot[4].freq, 1318);
    let auth = Sound::play_auth_chime();
    assert_eq!(auth, vec![Note { freq: 880, duration: 20000, pause: 0 }, Note { freq: 1174, duration: 35000, pause: 0 }]);
    assert_eq!(Sound::beep(440, 7), Note { freq: 440, duration: 7, pause: 0 });
}

#[test]
fn timer_calibration() {
    let mut c = Calibration::new(5000);
    assert!(c.running());
    c.observe(4000);
    assert_eq!(c.reloads, 0);
    c.observe(11000);
    assert_eq!(c.reloads, 1);
    c.observe(3000);
    c.observe(11500);
    assert_eq!(c.reloads, 2);
    c.observe(2000);
    c.observe(6000);
    assert_eq!(c.reloads, 3);
    assert_eq!(c.last_count, 6000);
    assert!(!c.running());
    // 5000 + 2 * 11931 + (11931 - 6000) = 34793 PIT counts.
    assert_eq!(c.calibrated_hz(34_793_000), 1_193_182_000);
    let mut stuck = Calibration::new(0);
    stuck.safety = 0;
    assert_eq!(stuck.calibrated_hz(123), FALLBACK_HZ);
}

#[test]
fn timer_conversions() {
    assert_eq!(get_tsc_hz(5), 5);
    assert_eq!(get_tsc_hz(0), 1);
    assert_eq!(get_tsc_hz(3_000_000_000), 3_000_000_000);
    assert_eq!(now_ms(2_000_000_000, 0, 4_000_000_000), 2000);
    assert_eq!(now_ms(0, 10, 5), 0);
    assert_eq!(delay_cycles(1_000_000_000, 16), 16_000_000);
    assert_eq!(delay_cycles(0, 1000), 1);
    assert!(delay_elapsed(100, 300, 200));
    assert!(!delay_elapsed(100, 299, 200));
    assert!(!delay_elapsed(300, 100, 1));
}

#[test]
fn native_syscalls() {
    assert_eq!(classify_syscall(SYS_EXIT, 0, 0), SyscallAction::Exit);
    assert_eq!(classify_syscall(SYS_PRINT, 0x1000, 5), SyscallAction::Print(Some(5)));
    assert_eq!(classify_syscall(SYS_PRINT, 0, 5), SyscallAction::Print(None));
    assert_eq!(classify_syscall(SYS_PRINT, 0x1000, 4096), SyscallAction::Print(None));
    assert_eq!(classify_syscall(7, 0x1000, 511), SyscallAction::Intent(Some(511)));
    assert_eq!(classify_syscall(7, 0x1000, 512), SyscallAction::Intent(None));
    assert_eq!(classify_syscall(99, 0, 0), SyscallAction::Unknown);
    assert_eq!(syscall_return(SyscallAction::Unknown, 0, 0), u64::MAX);
    assert_eq!(syscall_return(SyscallAction::Print(None), 5, 0), 5);
    assert_eq!(syscall_return(classify_syscall(SYS_GET_TICK, 0, 0), 0, 77), 77);
}

#[test]
fn intent_syscall_reports_confidence() {
    let mut ai = atulyaos::ai::IntentEngine::new();
    let mut reference = atulyaos::ai::IntentEngine::new();
    let expected = reference.parse_intent("show pci devices");
    let (conf, text) = atulyaos::syscall::syscall_intent(&mut ai, "show pci devices");
    assert_eq!(conf, expected.confidence as u64);
    assert_eq!(text, expected.description);
}

#[test]
fn linux_syscalls() {
    assert_eq!(PosixBridge::dispatch(0, 0, 0x1000, 10), PosixCall::ReadStdin(10));
    assert_eq!(PosixBridge::dispatch(0, 3, 0x1000, 10), PosixCall::Done(-9));
    assert_eq!(PosixBridge::dispatch(0, 0, 0, 10), PosixCall::Done(0));
    assert_eq!(PosixBridge::dispatch(1, 1, 0x1000, 5000), PosixCall::WriteConsole { shown: 4096, ret: 5000 });
    assert_eq!(PosixBridge::dispatch(1, 2, 0x1000, 3), PosixCall::WriteConsole { shown: 3, ret: 3 });
    assert_eq!(PosixBridge::dispatch(1, 5, 0x1000, 3), PosixCall::Done(-9));
    assert_eq!(PosixBridge::dispatch(2, 0, 0, 0), PosixCall::Done(-14));
    assert_eq!(PosixBridge::dispatch(2, 0x2000, 0, 0), PosixCall::Done(3));
    assert_eq!(PosixBridge::dispatch(3, 0, 0, 0), PosixCall::Done(0));
    assert_eq!(PosixBridge::dispatch(39, 0, 0, 0), PosixCall::Done(1001));
    assert_eq!(PosixBridge::dispatch(12, 0, 0, 0), PosixCall::Done(0x4000_0000));
    assert_eq!(PosixBridge::dispatch(12, 0x5000_0000, 0, 0), PosixCall::Done(0x5000_0000));
    assert_eq!(PosixBridge::dispatch(9, 0, 100, 0), PosixCall::Mmap(4096));
    assert_eq!(PosixBridge::dispatch(9, 0, 10000, 0), PosixCall::Mmap(10000));
    assert_eq!(PosixBridge::dispatch(63, 0, 0, 0), PosixCall::Done(0));
    assert_eq!(PosixBridge::dispatch(63, 0x3000, 0, 0), PosixCall::Uname);
    assert_eq!(PosixBridge::dispatch(60, 0, 0, 0), PosixCall::Exit);
    assert_eq!(PosixBridge::dispatch(231, 0, 0, 0), PosixCall::Exit);
    assert_eq!(PosixBridge::dispatch(999, 0, 0, 0), PosixCall::Unimplemented);
}

#[test]
fn stdin_reads_take_queued_keys_in_order() {
    let mut q: RingBuffer<u8, 256> = RingBuffer::new();
    q.push(1);
    q.push(2);
    q.push(3);
    assert_eq!(PosixBridge::read_stdin(&mut q, 2), vec![1, 2]);
    assert_eq!(PosixBridge::read_stdin(&mut q, 5), vec![3]);
    assert_eq!(PosixBridge::read_stdin(&mut q, 5), Vec::<u8>::new());
}

#[test]
fn uname_record_fields() {
    let mut buf = vec![0xAAu8; 300];
    PosixBridge::write_uname(&mut buf);
    assert_eq!(&buf[0..18], b"AtulyaOS-LinuxABI\0");
    assert_eq!(buf[18], 0xAA);
    assert_eq!(&buf[65..78], b"axon-quantum\0");
    assert_eq!(&buf[130..143], b"6.8.0-atulya\0");
    assert_eq!(&buf[195..217], b"#1 SMP Sovereign Rust\0");
    assert_eq!(&buf[260..267], b"x86_64\0");
    assert_eq!(buf[299], 0xAA);
}

#[test]
fn ring_buffer_is_fifo_and_drops_oldest_when_full() {
    let mut q: RingBuffer<u8, 2> = RingBuffer::new();
    assert_eq!(q.pop(), None);
    q.push(1);
    q.push(2);
    q.push(3);
    assert_eq!(q.pop(), Some(2));
    assert_eq!(q.pop(), Some(3));
    assert_eq!(q.pop(), None);
    let mut big: RingBuffer<u8, 256> = RingBuffer::new();
    for b in 0..10u8 {
        big.push(b);
    }
    for b in 0..10u8 {
        assert_eq!(big.pop(), Some(b));
    }
}

#[test]
fn tick_counter_counts_and_wraps() {
    let mut t = TickCounter::new();
    t.increment();
    t.increment();
    assert_eq!(t.get(), 2);
    t.count = u64::MAX;
    t.increment();
    assert_eq!(t.get(), 0);
}

#[test]
fn power_port_writes() {
    assert_eq!(PowerManager::shutdown(), vec![(0x604, 0x2000), (0xB004, 0x2000), (0x4004, 0x3400)]);
    assert_eq!(PowerManager::reboot(), (0x64, 0xFE));
}

#[test]
fn gpu_boot_seed() {
    assert_eq!(GpuBoot::new(0).seed, 0x9E37_79B9);
    let tsc = 0x1_2345_6789_u64;
    assert_eq!(GpuBoot::new(tsc).seed, (tsc ^ (tsc >> 17) ^ 0x9E37_79B9) as u32);
}

#[test]
fn gpu_boot_hashes() {
    let zero = GpuBoot { seed: 0 };
    assert_eq!(zero.swarm_hash(0), 0);
    assert_eq!(zero.swarm_hash(1), 38946);
    assert_eq!(GpuBoot { seed: 12345 }.swarm_hash(7), 17579);
    assert_eq!(zero.grain(0, 0, 0), 0);
    let g = GpuBoot { seed: 42 };
    assert_eq!(g.grain(3, 5, 100), 240);
}

#[test]
fn heap_region_is_the_largest_usable_part() {
    let regions = [
        MemoryRegion { start: 0, end: 0x9_F000, usable: true },
        MemoryRegion { start: 0x10_0000, end: 0x400_0000, usable: true },
        MemoryRegion { start: 0x400_0000, end: 0x800_0000, usable: false },
        MemoryRegion { start: 0x800_0000, end: 0x900_0000, usable: true },
    ];
    assert_eq!(largest_heap_region_after(&regions, 0x210_0000), Some((0x210_0000, 0x1F0_0000)));
    assert_eq!(largest_heap_region_after(&regions[..1], 0x210_0000), None);
    let small = [MemoryRegion { start: 0x300_0000, end: 0x300_1000, usable: true }];
    assert_eq!(largest_heap_region_after(&small, 0), None);
}

#[test]
fn frames_are_handed_out_in_order() {
    let mut a = BootInfoFrameAllocator::init();
    assert_eq!(a.allocate_frame(), Some(0x1000));
    assert_eq!(a.allocate_frame(), Some(0x2000));
    let mut b = BootInfoFrameAllocator::with_start(0x5123);
    assert_eq!(b.allocate_frame(), Some(0x5000));
    assert_eq!(b.next_free, 0x6123);
    assert_eq!(heap_frames(0x1_0800, 0x2000), vec![0x1_0000, 0x1_1000, 0x1_2000]);
    assert_eq!(heap_frames(0x2000, 1), vec![0x2000]);
}

#[test]
fn spin_delay_returns() {
    atulyaos::math::delay(100);
}
