use atulyaos::boot::awakening::{Awakening, PARTICLES};
use atulyaos::boot::boot_state::BootStage;
use atulyaos::boot::scene_manager::{SceneDef, SceneManager};
use atulyaos::boot::timeline::{percent_text, progress, signed_add, BootTimeline};
use atulyaos::boot::transition::Transition;
use atulyaos::display::Rgb;

#[test]
fn progress_scales_to_256() {
    assert_eq!(progress(0, 0, 100), 0);
    assert_eq!(progress(50, 0, 100), 128);
    assert_eq!(progress(100, 0, 100), 256);
    assert_eq!(progress(150, 0, 100), 256);
    assert_eq!(progress(5, 10, 5), 0);
    assert_eq!(progress(3000, 2000, 4000), 128);
}

#[test]
fn percent_labels() {
    assert_eq!(percent_text(7), "7%");
    assert_eq!(percent_text(42), "42%");
    assert_eq!(percent_text(100), "100%");
    assert_eq!(percent_text(250), "100%");
    assert_eq!(percent_text(0), "0%");
}

#[test]
fn signed_add_saturates() {
    assert_eq!(signed_add(10, -3), 7);
    assert_eq!(signed_add(2, -5), 0);
    assert_eq!(signed_add(usize::MAX, 5), usize::MAX);
    assert_eq!(signed_add(0, isize::MIN), 0);
    assert_eq!(signed_add(1, 4), 5);
}

#[test]
fn timeline_ticks_and_stops_at_the_end() {
    let mut t = BootTimeline::new();
    assert!(!t.done());
    t.tick(16);
    assert_eq!(t.elapsed_ms, 16);
    assert_eq!(t.stage, BootStage::PowerOn);
    assert_eq!(t.orb.rotation, 8);
    assert_eq!(t.orb.pulse, 48);
    assert_eq!(t.orb.energy, 1);
    assert_eq!(t.orb.radius, 3);
    assert_eq!(t.orb.glow, 1);
    t.tick(1);
    assert_eq!(t.orb.rotation, 9);
    t.tick(5000);
    assert_eq!(t.elapsed_ms, 2000);
    assert_eq!(t.stage, BootStage::CoreFormation);
    assert_eq!(t.stage_for_time(), BootStage::CoreFormation);
    assert!(t.done());
    assert_eq!(t.orb.radius, 3);
    assert_eq!(t.orb.energy, 128);
}

#[test]
fn cinematic_transition() {
    let t = Transition::cinematic();
    assert_eq!(t.fade_ms, 300);
    assert_eq!(t.pulse_alpha, 96);
}

fn scene(name: &str, duration_ms: u32, fade_ms: u32) -> SceneDef {
    SceneDef { name: name.to_string(), duration_ms, fade_ms, frame: 0 }
}

#[test]
fn scenes_overlap_by_their_fades() {
    let mut m = SceneManager::new(vec![scene("a", 1000, 100), scene("b", 500, 50)]);
    assert_eq!(m.scene_start(0), 0);
    assert_eq!(m.scene_start(1), 950);
    assert_eq!(m.scene_alpha(0), 0);
    m.tick(50);
    assert_eq!(m.scene_alpha(0), 128);
    m.tick(450);
    assert_eq!(m.scene_alpha(0), 256);
    m.tick(450);
    assert_eq!(m.time_ms, 950);
    assert_eq!(m.scene_alpha(0), 128);
    assert_eq!(m.scene_alpha(1), 0);
    m.tick(499);
    assert!(!m.done);
    m.tick(1);
    assert!(m.done);
    m.tick(10);
    assert_eq!(m.time_ms, 1450);
}

#[test]
fn no_scenes_means_done() {
    let mut m = SceneManager::new(Vec::new());
    m.tick(5);
    assert!(m.done);
}

#[test]
fn particles_start_spread_out() {
    let a = Awakening::new();
    assert_eq!(a.particles.len(), PARTICLES);
    assert_eq!(a.particles[0].angle, 0);
    assert_eq!(a.particles[0].dist, 120);
    assert_eq!(a.particles[0].speed, 4);
    assert_eq!(a.particles[0].color, Rgb::new(0, 229, 255));
    assert_eq!(a.particles[1].angle, 7);
    assert_eq!(a.particles[1].dist, 127);
    assert_eq!(a.particles[1].speed, 5);
    assert_eq!(a.particles[1].color, Rgb::new(220, 60, 255));
    assert_eq!(a.particles[47].angle, 352);
}

#[test]
fn particles_converge_then_orbit() {
    assert!(Awakening::converging(399));
    assert!(!Awakening::converging(400));
    let mut a = Awakening::new();
    a.step(true);
    assert_eq!(a.particles[0].angle, 4);
    assert_eq!(a.particles[0].dist, 116);
    let mut b = Awakening::new();
    b.step(false);
    assert_eq!(b.particles[0].dist, 122);
    for _ in 0..40 {
        b.step(true);
    }
    assert_eq!(b.particles[0].dist, 30);
}

#[test]
fn timeline_status_line_and_percent() {
    let mut t = BootTimeline::new();
    assert_eq!(t.status_text(), "SYSTEM POWER ON");
    assert_eq!(t.percent(), 0);
    t.tick(500);
    assert_eq!(t.percent(), 25);
    t.tick(5000);
    assert_eq!(t.status_text(), "ENERGY INITIALIZING");
    assert_eq!(t.percent(), 100);
    t.elapsed_ms = 19_000;
    t.stage = t.stage_for_time();
    assert_eq!(t.status_text(), "PREPARING WORKSPACE");
    t.elapsed_ms = 19_400;
    assert_eq!(t.status_text(), "ATULYA IS READY");
    t.elapsed_ms = 15_000;
    t.stage = t.stage_for_time();
    assert_eq!(t.status_text(), "KNOWLEDGE GRAPH ACTIVATED");
}
