use atulyaos::desktop::{KeyboardState, MouseState, ShellAction, ShellEnv, Terminal, TERM_COLS};
use atulyaos::fs::ramdisk::RamFs;
use atulyaos::fs::vfs::{FileSystem, FsError, OpenFlags};
use atulyaos::game::GameState;
use atulyaos::login::{translate_scancode, LoginGate, LoginMouse};
use atulyaos::net::stack::calculate_internet_checksum;
use atulyaos::pkg::PackageManager;
use atulyaos::process::{Context, Process, ProcessState};
use atulyaos::scheduler::{add_process, check_and_schedule, current_ctx_mut, current_pid, init, kill_process, pick_next_and_switch, spawn_kernel_thread, tick};
use atulyaos::security::SecurityToolkit;
use atulyaos::vault::EncryptedVault;
use atulyaos::windows::{clock_text, WindowManager};

#[test]
fn close_button_closes_the_window() {
    let mut wm = WindowManager::new();
    // The terminal is 560 wide at (200, 120): its close button is at (742, 134).
    wm.handle_pointer(742, 134, 1, 1024, 768);
    assert!(!wm.windows[0].is_open);
    assert!(wm.windows[1].is_open);
    assert!(wm.drag.is_none());
    assert!(wm.mouse_was_pressed);
}

#[test]
fn title_bar_drag_moves_and_snaps() {
    let mut wm = WindowManager::new();
    wm.handle_pointer(300, 160, 1, 1024, 768);
    // The browser was grabbed by its title bar and raised to the top of the stack.
    assert_eq!(wm.windows[8].title, "Web Browser");
    assert_eq!(wm.drag, Some((8, 60, 10, 0)));
    assert_eq!(wm.focused, 8);
    assert!(wm.windows[8].active);
    assert!(!wm.windows[0].active);
    wm.handle_pointer(400, 300, 1, 1024, 768);
    assert_eq!((wm.windows[8].x, wm.windows[8].y), (340, 290));
    // Dropped at the left edge: it takes the left half of the work area.
    wm.handle_pointer(20, 300, 1, 1024, 768);
    wm.handle_pointer(20, 300, 0, 1024, 768);
    let w = wm.windows[8];
    assert_eq!((w.x, w.y, w.w, w.h), (190, 20, 297, 678));
    assert!(wm.drag.is_none());
}

#[test]
fn corner_drag_resizes_within_limits() {
    let mut wm = WindowManager::new();
    // Bottom-right corner of the browser: (240 + 500, 150 + 320).
    wm.handle_pointer(735, 465, 1, 1024, 768);
    assert_eq!(wm.drag, Some((8, 735, 465, 1)));
    wm.handle_pointer(300, 200, 1, 1024, 768);
    assert_eq!((wm.windows[8].w, wm.windows[8].h), (280, 180));
    wm.handle_pointer(2000, 2000, 1, 1024, 768);
    assert_eq!((wm.windows[8].w, wm.windows[8].h), (964, 688));
}

#[test]
fn dock_click_restores_a_window() {
    let mut wm = WindowManager::new();
    // Dock of nine icons centred on a 1024-wide screen starts at 230; icon 2 at 362.
    wm.handle_pointer(367, 720, 1, 1024, 768);
    assert!(wm.windows[2].is_open);
    assert_eq!(wm.windows[2].anim_scale, 32);
    assert!(wm.windows[2].active);
    assert_eq!(wm.focused, 2);
    // A press between two icons hits nothing.
    let mut other = WindowManager::new();
    other.handle_pointer(242 + 50, 720, 1, 1024, 768);
    assert_eq!(other.focused, 0);
}

#[test]
fn window_animations_stay_in_range() {
    let mut wm = WindowManager::new();
    wm.handle_pointer(367, 720, 1, 1024, 768);
    for _ in 0..20 {
        wm.animate_windows();
        for w in wm.windows.iter() {
            assert!(w.anim_scale <= 256);
        }
    }
    assert_eq!(wm.windows[2].anim_scale, 256);
}

#[test]
fn login_keys_build_the_passcode() {
    let mut gate = LoginGate::new();
    let mut shift = false;
    assert!(!gate.handle_key(0x1e, &mut shift));
    assert_eq!(gate.pass_len, 1);
    assert_eq!(gate.passcode[0], b'a');
    gate.handle_key(0x2a, &mut shift);
    assert!(shift);
    gate.handle_key(0x1e, &mut shift);
    assert_eq!(gate.passcode[1], b'A');
    gate.handle_key(0xaa, &mut shift);
    assert!(!shift);
    gate.handle_key(0x0e, &mut shift);
    assert_eq!(gate.pass_len, 1);
    assert!(gate.handle_key(0x1c, &mut shift));
    assert!(gate.auth_success);
    assert!(!gate.handle_key(0x1c, &mut shift));
    assert_eq!(translate_scancode(0x39, false), ' ');
    assert_eq!(translate_scancode(0x02, true), '\0');
    assert_eq!(translate_scancode(0x02, false), '1');
}

#[test]
fn login_frames_count_after_access() {
    let mut gate = LoginGate::new();
    gate.frame();
    assert_eq!((gate.pulse, gate.rotation, gate.unlock_timer), (12, 2, 0));
    gate.try_unlock();
    for _ in 0..30 {
        assert!(!gate.done());
        gate.frame();
    }
    assert!(gate.done());
}

#[test]
fn login_click_on_scanner_unlocks() {
    let mut gate = LoginGate::new();
    let mut m = LoginMouse::new(800, 600);
    assert_eq!((m.x, m.y), (400, 400));
    // Move up by 148 with the button held: the scanner is at (400, 252).
    assert!(!m.feed(0x09, &mut gate, 800, 600));
    assert!(!m.feed(0, &mut gate, 800, 600));
    assert!(m.feed(148, &mut gate, 800, 600));
    assert_eq!((m.x, m.y), (400, 252));
    assert!(gate.auth_success);
}

#[test]
fn game_physics_and_ship() {
    let mut g = GameState::new();
    g.init();
    g.init();
    assert_eq!(g.asteroids.len(), 3);
    g.asteroids[1].x = 0;
    g.step_asteroids(400, 300);
    assert_eq!((g.asteroids[0].x, g.asteroids[0].y), (81, 61));
    assert_eq!(g.asteroids[1].x, 380);
    g.spin_ship(3);
    assert_eq!(g.ship_angle, 6);
    g.spin_ship(0);
    let v = g.ship_vertices(0, 0);
    assert_eq!(v, [(258, 160), (186, 184), (186, 136)]);
}

fn proc(pid: u32) -> Process {
    Process::from_parts(pid, "task", 1, Context::new_idle(), 0, 0)
}

#[test]
fn round_robin_visits_every_ready_process() {
    let mut s = None;
    init(&mut s, proc(0));
    add_process(&mut s, proc(1));
    add_process(&mut s, proc(2));
    assert_eq!(pick_next_and_switch(&mut s), Some(1));
    assert_eq!(current_pid(&s), 1);
    assert_eq!(pick_next_and_switch(&mut s), Some(2));
    assert_eq!(pick_next_and_switch(&mut s), Some(0));
    let pid = spawn_kernel_thread(&mut s, 7, "worker", 0x10000, 0x1000);
    assert_eq!(pid, 7);
    let ctx = current_ctx_mut(&s).unwrap();
    assert_eq!(ctx.rflags, 0x200);
    let state = s.as_ref().map(|x| x.process_count());
    assert_eq!(state, Some(4));
    assert_eq!(proc(3).state(), ProcessState::Ready);
}

#[test]
fn write_then_read_gives_the_bytes_back() {
    let mut fs = RamFs::new();
    let h = fs.open("/tmp/note.txt", OpenFlags::Create).unwrap();
    assert_eq!(fs.write(h, b"hello"), Ok(5));
    fs.close(h).unwrap();
    let r = fs.open("/tmp/note.txt", OpenFlags::Read).unwrap();
    let mut buf = [0u8; 16];
    assert_eq!(fs.read(r, &mut buf), Ok(5));
    assert_eq!(&buf[..5], b"hello");
    assert_eq!(fs.write(r, b"x"), Err(FsError::PermissionDenied));
    // `/etc` itself is not an entry of the disk, so its files cannot be opened for writing.
    assert_eq!(fs.open("/etc/hostname", OpenFlags::Write), Err(FsError::NotFound));
    let c = fs.open("/tmp/host", OpenFlags::Create).unwrap();
    assert_eq!(fs.write(c, b"atulyaos"), Ok(8));
    let w = fs.open("/tmp/host", OpenFlags::Write).unwrap();
    assert_eq!(fs.write(w, b"ABC"), Ok(3));
    let r2 = fs.open("/tmp/host", OpenFlags::Read).unwrap();
    let mut b2 = [0u8; 8];
    assert_eq!(fs.read(r2, &mut b2), Ok(8));
    assert_eq!(&b2, b"ABClyaos");
    assert_eq!(fs.open("/nope/x", OpenFlags::Create), Err(FsError::NotFound));
    assert_eq!(fs.open("/tmp", OpenFlags::Read), Err(FsError::NotAFile));
}

#[test]
fn checksum_of_checksummed_data_is_zero() {
    let mut data = vec![0x45u8, 0x00, 0x00, 0x00, 0x12, 0x34, 0xab];
    let c = calculate_internet_checksum(&data);
    data[2] = (c >> 8) as u8;
    data[3] = (c & 0xff) as u8;
    assert_eq!(calculate_internet_checksum(&data), 0);
}

#[test]
fn vault_stream_cipher_is_its_own_inverse() {
    let v = EncryptedVault::new();
    let data = b"top secret vault contents".to_vec();
    let enc = v.crypt_stream(&data, 0xDEAD_BEEF);
    assert_ne!(enc, data);
    assert_eq!(v.crypt_stream(&enc, 0xDEAD_BEEF), data);
}

#[test]
fn stego_hides_bits_lowest_first() {
    let mut img = vec![0xFFu8; 16];
    let n = SecurityToolkit::stego_encode(&mut img, &[0b0000_0101, 0xFF]);
    assert_eq!(n, 1);
    let bits: Vec<u8> = img[..8].iter().map(|b| b & 1).collect();
    assert_eq!(bits, vec![1, 0, 1, 0, 0, 0, 0, 0]);
    assert!(img[8..].iter().all(|b| *b == 0xFF));
}

fn shell_env() -> ShellEnv {
    ShellEnv {
        ai: atulyaos::ai::IntentEngine::new(),
        llm: atulyaos::ai_model::AtulyaAiCore::new(),
        net: atulyaos::net::stack::NetworkStack::new(),
        audio: atulyaos::audio::AudioDriver::new(),
        voice: atulyaos::voice::VoiceSynthesizer::new(),
        vault: EncryptedVault::new(),
        gguf: atulyaos::gguf::GgufEngine::new(),
        scheduler: None,
        disk_available: false,
        pci_devices: Vec::new(),
        ping_cycles: [0; 3],
        tsc_hz: 1_000_000_000,
    }
}

fn row_text(t: &Terminal, row: usize) -> String {
    let mut s = String::new();
    for c in 0..TERM_COLS {
        s.push(t.cell(row, c) as char);
    }
    s.trim_end().to_string()
}

fn run(t: &mut Terminal, env: &mut ShellEnv, line: &str) -> ShellAction {
    t.write_str(line);
    let (mut theme, mut scan, mut matrix) = (0usize, 0usize, 0usize);
    t.execute_command(env, &mut theme, &mut scan, &mut matrix)
}

#[test]
fn shell_prints_the_working_directory() {
    let mut t = Terminal::new();
    let mut env = shell_env();
    assert_eq!(t.cursor(), (6, 18));
    assert_eq!(row_text(&t, 0), "AtulyaOS Shell Console v0.3");
    let act = run(&mut t, &mut env, "pwd");
    assert!(matches!(act, ShellAction::Nothing));
    assert_eq!(row_text(&t, 6), "guest@atulyaos:~$ pwd");
    assert_eq!(row_text(&t, 7), "/");
    assert_eq!(row_text(&t, 8), "guest@atulyaos:~$");
}

#[test]
fn shell_echo_and_cat() {
    let mut t = Terminal::new();
    let mut env = shell_env();
    run(&mut t, &mut env, "echo hello world");
    assert_eq!(row_text(&t, 7), "hello world");
    run(&mut t, &mut env, "cat /etc/hostname");
    let text: Vec<String> = (0..14).map(|r| row_text(&t, r)).collect();
    assert!(text.iter().any(|l| l.contains("atulyaos") && !l.contains('$')));
}

#[test]
fn keyboard_shift_state() {
    let mut k = KeyboardState { shift_pressed: false };
    assert_eq!(k.handle_scancode(0x2a), None);
    assert!(k.shift_pressed);
    assert_eq!(k.handle_scancode(0x1e), Some('A'));
    k.handle_scancode(0xaa);
    assert_eq!(k.handle_scancode(0x1e), Some('a'));
}

#[test]
fn packages_install_list_and_remove() {
    let mut fs = RamFs::new();
    assert_eq!(PackageManager::install("calc", &mut fs), Err("Failed to create package file on VFS"));
    assert!(PackageManager::list(&fs).is_empty());
    fs.mkdir("/apps").unwrap();
    assert_eq!(
        PackageManager::install("  calc.wasm ", &mut fs).unwrap(),
        "Package 'calc' successfully installed to /apps/calc.wasm (ATA Synced)"
    );
    assert_eq!(fs.stat("/apps/calc.wasm"), Ok(16));
    let listed = PackageManager::list(&fs);
    assert_eq!(listed.len(), 1);
    assert_eq!(listed[0].name, "calc.wasm");
    assert_eq!(listed[0].path, "/apps/calc.wasm");
    assert_eq!(listed[0].size_bytes, 16);
    assert_eq!(listed[0].category, "General Utility");
    assert_eq!(
        PackageManager::remove("calc", &mut fs).unwrap(),
        "Package 'calc' successfully removed and disk synced"
    );
    assert_eq!(fs.stat("/apps/calc.wasm"), Err(FsError::NotFound));
    assert!(PackageManager::list(&fs).is_empty());
    assert_eq!(PackageManager::remove("calc", &mut fs), Err("Package not found in /apps"));
}

#[test]
fn window_frames_scale_about_the_centre() {
    let wm = WindowManager::new();
    let mut w = wm.windows[0];
    assert_eq!(w.frame(), (200, 120, 560, 340));
    w.anim_scale = 128;
    assert_eq!(w.frame(), (340, 205, 280, 170));
    w.x = -400;
    w.anim_scale = 0;
    assert_eq!(w.frame(), (0, 290, 0, 0));
}

#[test]
fn taskbar_clock() {
    assert_eq!(&clock_text(0), b"00:00:00");
    assert_eq!(&clock_text(18 * 3661), b"01:01:01");
    assert_eq!(&clock_text(18 * (24 * 3600 + 59) + 17), b"00:00:59");
}

#[test]
fn command_ready_checks_the_typed_line() {
    let env = shell_env();
    let mut t = Terminal::new();
    t.write_str("pwd");
    assert!(t.command_ready(&env, 0));
    let mut t = Terminal::new();
    t.write_str("ask 2 + 3");
    assert!(t.command_ready(&env, 0));
    let mut t = Terminal::new();
    t.write_str("ask 9223372036854775807 + 1");
    assert!(!t.command_ready(&env, 0));
    let mut t = Terminal::new();
    t.write_str("theme");
    assert!(t.command_ready(&env, 3));
    assert!(!t.command_ready(&env, usize::MAX));
}

#[test]
fn mouse_checks_refuse_positions_past_isize() {
    let mut m = MouseState::new(1024, 768);
    m.bytes = [0x08, 5, 0];
    m.cycle = 2;
    assert!(m.move_ok(0, 1024, 768));
    m.x = isize::MAX;
    assert!(!m.move_ok(0, 1024, 768));
    let mut l = LoginMouse::new(800, 600);
    l.bytes = [0x18, 0xff, 0];
    l.cycle = 2;
    assert!(l.packet_ok(0, 800, 600));
    l.x = isize::MIN;
    assert!(!l.packet_ok(0, 800, 600));
    let wm = WindowManager::new();
    assert!(wm.pointer_ok(742, 134, 1, 1024, 768));
}

#[test]
fn desktop_layout_places_open_windows_and_dock() {
    let mut wm = WindowManager::new();
    let l = wm.layout(1024, 768);
    assert_eq!(l.windows.len(), 2);
    let t = &l.windows[0];
    assert_eq!((t.index, t.x, t.y, t.w, t.h, t.focused), (0, 200, 120, 560, 340, true));
    let b = &l.windows[1];
    assert_eq!((b.index, b.x, b.y, b.w, b.h, b.focused), (1, 240, 150, 500, 320, false));
    assert_eq!((l.dock_x, l.dock_w), (230, 564));
    assert_eq!((l.spotlight_x, l.spotlight_h, l.spotlight_alpha), (192, 120, 0));
    // A window running past the right edge is cut there.
    wm.windows[1].x = 900;
    wm.spotlight_anim = 128;
    wm.spotlight_query = vec!['w', 'e', 'b'];
    let l = wm.layout(1024, 768);
    assert_eq!((l.windows[1].x, l.windows[1].w), (900, 124));
    assert_eq!((l.spotlight_h, l.spotlight_alpha), (240, 122));
    // On the smallest screen the dock and the panel stay centred.
    let l = wm.layout(640, 400);
    assert_eq!((l.dock_x, l.spotlight_x), (38, 0));
}

#[test]
fn no_operation_raises_a_switch_request() {
    let mut s = None;
    init(&mut s, proc(0));
    add_process(&mut s, proc(1));
    for _ in 0..12 {
        tick(&mut s);
        assert!(!check_and_schedule(&mut s));
    }
    pick_next_and_switch(&mut s);
    kill_process(&mut s, 1);
    spawn_kernel_thread(&mut s, 9, "worker", 0x10000, 0x1000);
    assert_eq!(s.as_mut().map(|x| x.take_switch_pending()), Some(false));
}

#[test]
fn loopback_transmit_queue_stays_empty() {
    let mut lo = atulyaos::net::loopback::LoopbackInterface::new();
    lo.inject_packet(&[1, 2, 3]);
    lo.send_loopback(&[4, 5]);
    assert!(lo.transmitted_packets().is_none());
    assert_eq!(lo.ip_address(), [127, 0, 0, 1]);
}
