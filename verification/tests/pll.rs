use dsp::pll::PLLState;

#[test]
fn mini() {
    let mut p = PLLState::default();
    let (y, f) = p.update(0x10000, 10);
    assert_eq!(y, 0xc2);
    assert_eq!(f, y);
}

#[test]
fn default_state_is_at_rest() {
    let p = PLLState::default();
    assert_eq!((p.x(), p.f(), p.y()), (0, 0, 0));
}

#[test]
fn update_stores_input_and_integrators() {
    let mut p = PLLState::default();
    p.update(0x10000, 10);
    assert_eq!((p.x(), p.f(), p.y()), (65536, 64, 194));
    let (y, f) = p.update(0x20000, 10);
    assert_eq!((y, f), (579, 385));
    assert_eq!((p.x(), p.f(), p.y()), (131072, 128, 579));
}

#[test]
fn new_round_trips_through_getters() {
    let p = PLLState::new(-5, 7, i32::MIN);
    assert_eq!((p.x(), p.f(), p.y()), (-5, 7, i32::MIN));
}

#[test]
fn smallest_shift() {
    let mut p = PLLState::default();
    assert_eq!(p.update(0x10000, 1), (98306, 98306));
    assert_eq!((p.x(), p.f(), p.y()), (65536, 32768, 98306));
}

#[test]
fn largest_shift_has_negative_bias() {
    let mut p = PLLState::default();
    assert_eq!(p.update(0x10000, 31), (-3, -3));
    assert_eq!((p.x(), p.f(), p.y()), (65536, -1, -3));
}

#[test]
fn most_negative_phase_wraps() {
    let mut p = PLLState::default();
    assert_eq!(p.update(i32::MIN, 1), (1073741826, 1073741826));
    assert_eq!((p.x(), p.f(), p.y()), (i32::MIN, -1073741824, 1073741826));
}

#[test]
fn update_is_a_function_of_state_and_input() {
    let mut a = PLLState::new(17, -3, 99);
    let mut b = PLLState::new(17, -3, 99);
    assert_eq!(a.update(123456, 7), b.update(123456, 7));
    assert_eq!((a.x(), a.f(), a.y()), (b.x(), b.f(), b.y()));
}

#[test]
fn phase_may_wrap_any_number_of_times() {
    // A large increment takes the phase past the wrap point every few
    // samples; extreme states and inputs must not fault for any shift.
    for shift in 1u8..=31 {
        let mut p = PLLState::new(i32::MAX, i32::MIN, i32::MAX);
        let mut x: i32 = i32::MIN;
        for _ in 0..1000 {
            x = x.wrapping_add(0x7654_3210);
            p.update(x, shift);
        }
        p.update(i32::MAX, shift);
        p.update(i32::MIN, shift);
    }
}

fn settle(shift: u8, delta: i32, steps: usize) -> (PLLState, i32, i32) {
    let mut p = PLLState::default();
    let mut x: i32 = 0;
    let mut out = (0, 0);
    for _ in 0..steps {
        x = x.wrapping_add(delta);
        out = p.update(x, shift);
    }
    (p, x, out.1)
}

#[test]
fn locks_to_a_constant_frequency() {
    let delta = 0x12_3456;
    for shift in [1u8, 2, 4, 8, 10] {
        let steps = 40 * (1usize << shift) + 200;
        let (_, _, f) = settle(shift, delta, steps);
        assert_eq!(f, delta);
    }
}

#[test]
fn locked_loop_reports_the_exact_frequency_forever() {
    let delta = 0x12_3456;
    let (mut p, mut x, _) = settle(4, delta, 1000);
    let filtered = p.f();
    for _ in 0..10_000 {
        x = x.wrapping_add(delta);
        let y_before = p.y();
        let (y, f) = p.update(x, 4);
        assert_eq!(f, delta);
        assert_eq!(y, y_before.wrapping_add(delta));
        assert_eq!(p.f(), filtered);
    }
}

#[test]
fn frequency_error_decays_geometrically() {
    // One update from rest with a phase step of 4096 at shift 4: the
    // filtered frequency takes a sixteenth of the error, rounded half up.
    let mut p = PLLState::default();
    p.update(4096, 4);
    assert_eq!(p.f(), 256);
    // The error was 4096 and is now 4096 - 256: sixteen times the new
    // error is fifteen times the old one, up to half a rounding step.
    let before: i64 = 4096;
    let after: i64 = 4096 - 256;
    let slack = 16 * after - 15 * before;
    assert!(-8 <= slack && slack < 8);
}

#[test]
fn locks_to_a_negative_frequency() {
    let delta = -0x0765_4321;
    let (_, _, f) = settle(3, delta, 2000);
    assert_eq!(f, delta);
}

#[test]
fn turning_all_phases_turns_the_output() {
    // Two loops whose phases differ by a constant angle, several turns
    // over: same frequencies, output phases the same angle apart.
    let angle: i32 = 0x7343_1234;
    for shift in [1u8, 5, 16, 30, 31] {
        let mut a = PLLState::new(100, -2000, 30_000);
        let mut b = PLLState::new(
            100i32.wrapping_add(angle),
            -2000,
            30_000i32.wrapping_add(angle),
        );
        let mut x: i32 = 0;
        for _ in 0..500 {
            x = x.wrapping_add(0x2345_6789);
            let (ya, fa) = a.update(x, shift);
            let (yb, fb) = b.update(x.wrapping_add(angle), shift);
            assert_eq!(fa, fb);
            assert_eq!(yb, ya.wrapping_add(angle));
            assert_eq!(a.f(), b.f());
        }
    }
}

#[test]
fn settled_frequency_lets_the_phase_catch_up() {
    // The filtered frequency is exact; the output phase starts far off.
    // Each update takes an eighth of the offset out of the phase, and the
    // output frequency misses the increment by just that much.
    let delta = 1000;
    let mut p = PLLState::new(0, delta, 4000);
    // Offset: 16 + 0 - 4000 = -3984; an eighth, rounded down: -498.
    assert_eq!(p.update(delta, 4), (4000 + delta - 498, delta - 498));
    assert_eq!(p.f(), delta);
    let mut x = delta;
    for _ in 0..200 {
        x += delta;
        p.update(x, 4);
    }
    x += delta;
    assert_eq!(p.update(x, 4).1, delta);
}
