use fas_policy::cycles::{ConfigError, Cycles, DiffReader, FilterSpec};
use fas_policy::evolution::{
    apply_offsets, evaluate_fitness, mutate_params, Fitness, PidParams, KD_MAX, KD_MIN, KI_MAX, KI_MIN,
    KP_MAX, KP_MIN,
};
use fas_policy::parse::parse_list;
use fas_policy::store::{PidStore, StoreError};
use fas_policy::schedule::{build_table, Schedule, TouchStatus, WriteConfig, BURST_MAX};

const MHZ: i64 = 1_000_000;

fn plain_cfg() -> WriteConfig {
    WriteConfig { touch_boost: 0, slide_boost: 0, slide_timer_ms: 0, max_freq_per: 100 }
}

fn three_step_table() -> Schedule {
    Schedule::from_frequencies("2000000 1000000 1500000", 0).unwrap()
}

fn five_step_table() -> Schedule {
    Schedule::from_frequencies("500 100 300 200 400", 0).unwrap()
}

#[test]
fn table_is_strictly_ascending_whatever_the_order() {
    let t = build_table(&vec![300, 100, 200, 100, 300]);
    let hz: Vec<i64> = t.iter().map(|c| c.hz).collect();
    assert_eq!(hz, vec![100_000, 200_000, 300_000]);
    let s = three_step_table();
    let hz: Vec<i64> = s.table().iter().map(|c| c.hz).collect();
    assert_eq!(hz, vec![1000 * MHZ, 1500 * MHZ, 2000 * MHZ]);
    assert_eq!(s.pos(), 2);
    assert_eq!(s.burst(), 0);
    assert_eq!(s.cur_cycles().hz, 2000 * MHZ);
}

#[test]
fn frequencies_text_that_is_not_a_list_is_refused() {
    assert!(Schedule::from_frequencies("", 0).is_none());
    assert!(Schedule::from_frequencies("   \n", 0).is_none());
    assert!(Schedule::from_frequencies("100 abc", 0).is_none());
    assert!(Schedule::from_frequencies("99999999999999999999", 0).is_none());
}

#[test]
fn headroom_climbs_by_burst() {
    let mut s = three_step_table();
    let cfg = plain_cfg();
    // one step down so that there is room to climb
    s.run(Cycles::from_hz(1000 * MHZ), Cycles::from_hz(800 * MHZ), 0, None, cfg);
    assert_eq!(s.pos(), 1);
    assert_eq!(s.burst(), 0);
    let diff = Cycles::from_hz(1000 * MHZ);
    let target = Cycles::from_hz(1200 * MHZ);
    s.run(diff, target, 0, None, cfg);
    assert_eq!(s.pos(), 1);
    assert_eq!(s.burst(), 1);
    s.run(diff, target, 0, None, cfg);
    assert_eq!(s.pos(), 2);
    assert_eq!(s.burst(), 2);
}

#[test]
fn first_headroom_step_from_top_holds_position() {
    let mut s = three_step_table();
    let r = s.run(Cycles::from_hz(1000 * MHZ), Cycles::from_hz(1200 * MHZ), 0, None, plain_cfg());
    assert_eq!(r, Some(Cycles::from_hz(2000 * MHZ)));
    assert_eq!(s.pos(), 2);
    assert_eq!(s.burst(), 1);
}

#[test]
fn demand_over_target_steps_down_and_resets_burst() {
    let mut s = three_step_table();
    let cfg = plain_cfg();
    s.run(Cycles::from_hz(1000 * MHZ), Cycles::from_hz(1200 * MHZ), 0, None, cfg);
    assert_eq!(s.burst(), 1);
    s.run(Cycles::from_hz(1000 * MHZ), Cycles::from_hz(800 * MHZ), 0, None, cfg);
    assert_eq!(s.pos(), 1);
    assert_eq!(s.burst(), 0);
}

#[test]
fn equal_target_holds_and_resets_burst() {
    let mut s = three_step_table();
    let cfg = plain_cfg();
    s.run(Cycles::from_hz(1000 * MHZ), Cycles::from_hz(1200 * MHZ), 0, None, cfg);
    s.run(Cycles::from_hz(1000 * MHZ), Cycles::from_hz(1000 * MHZ), 0, None, cfg);
    assert_eq!(s.pos(), 2);
    assert_eq!(s.burst(), 0);
}

#[test]
fn negative_diff_changes_nothing() {
    let mut s = three_step_table();
    let r = s.run(Cycles::from_hz(-1), Cycles::from_hz(800 * MHZ), 0, None, plain_cfg());
    assert_eq!(r, None);
    assert_eq!(s.pos(), 2);
    assert_eq!(s.cur_cycles().hz, 2000 * MHZ);
}

#[test]
fn position_and_burst_stay_in_bounds() {
    let mut s = five_step_table();
    let cfg = plain_cfg();
    for i in 0..50 {
        let target = if i % 7 < 4 { 1 } else { 1_000_000_000 };
        s.run(Cycles::from_hz(1000), Cycles::from_hz(target), 0, None, cfg);
        assert!(s.pos() < 5);
        assert!(s.burst() <= BURST_MAX);
    }
    for _ in 0..10 {
        s.run(Cycles::from_hz(1000), Cycles::from_hz(1), 0, None, cfg);
    }
    assert_eq!(s.pos(), 0);
}

#[test]
fn half_ceiling_clamps_top_index_to_two() {
    let s = five_step_table();
    assert_eq!(s.pos_clamp(4, 50), 2);
    assert_eq!(s.pos_clamp(1, 50), 1);
    assert_eq!(s.pos_clamp(4, 0), 0);
    assert_eq!(s.pos_clamp(4, 100), 4);
    assert_eq!(s.pos_clamp(3, 100), 3);
    assert_eq!(s.pos_clamp(9, 100), 4);
    // round(0.63 * 4) = round(2.52) = 3
    assert_eq!(s.pos_clamp(4, 63), 3);
    // round(0.62 * 4) = round(2.48) = 2
    assert_eq!(s.pos_clamp(4, 62), 2);
}

#[test]
fn write_applies_ceiling_percentage() {
    let mut s = five_step_table();
    let cfg = WriteConfig { max_freq_per: 50, ..plain_cfg() };
    let f = s.write(0, None, cfg);
    assert_eq!(f.hz, 300_000);
    assert_eq!(s.cur_cycles().hz, 300_000);
}

#[test]
fn slide_and_touch_boosts() {
    let cfg = WriteConfig { touch_boost: 1, slide_boost: 2, slide_timer_ms: 100, max_freq_per: 100 };
    let mut s = five_step_table();
    for _ in 0..10 {
        s.run(Cycles::from_hz(1000), Cycles::from_hz(1), 10_000, None, cfg);
    }
    assert_eq!(s.cur_cycles().hz, 100_000);
    let tap = Some(TouchStatus { slide: false, touch: true });
    assert_eq!(s.write(10_000, tap, cfg).hz, 200_000);
    let slide = Some(TouchStatus { slide: true, touch: false });
    assert_eq!(s.write(20_000, slide, cfg).hz, 300_000);
    // within the slide timer the slide boost still applies
    let idle = Some(TouchStatus { slide: false, touch: false });
    assert_eq!(s.write(20_050, idle, cfg).hz, 300_000);
    // past it, nothing is added
    assert_eq!(s.write(30_000, idle, cfg).hz, 100_000);
    // without a touch device there is no boost
    assert_eq!(s.write(30_000, None, cfg).hz, 100_000);
}

#[test]
fn smoothing_averages_last_two_positions() {
    let mut s = five_step_table();
    let cfg = plain_cfg();
    // position 4 -> 3: window (4, 3), mean 3.5 rounds to 4
    s.run(Cycles::from_hz(1000), Cycles::from_hz(1), 0, None, cfg);
    assert_eq!(s.pos(), 3);
    assert_eq!(s.smoothed_pos(), 4);
    assert_eq!(s.cur_cycles().hz, 500_000);
    // 3 -> 2: window (3, 2), mean 2.5 rounds to 3
    s.run(Cycles::from_hz(1000), Cycles::from_hz(1), 0, None, cfg);
    assert_eq!(s.smoothed_pos(), 3);
    assert_eq!(s.cur_cycles().hz, 400_000);
}

#[test]
fn reset_returns_to_top() {
    let mut s = five_step_table();
    let cfg = plain_cfg();
    for _ in 0..5 {
        s.run(Cycles::from_hz(1000), Cycles::from_hz(1), 0, None, cfg);
    }
    let f = s.reset(0, None, cfg);
    assert_eq!(f.hz, 500_000);
    assert_eq!(s.pos(), 4);
    assert_eq!(s.burst(), 0);
}

#[test]
fn target_is_capped_by_current_ceiling() {
    let mut s = three_step_table();
    let cfg = plain_cfg();
    for _ in 0..4 {
        s.run(Cycles::from_hz(1000 * MHZ), Cycles::from_hz(1), 0, None, cfg);
    }
    assert_eq!(s.cur_cycles().hz, 1000 * MHZ);
    // the target is capped to 1000 MHz, equal to the diff: hold
    s.run(Cycles::from_hz(1000 * MHZ), Cycles::from_hz(5000 * MHZ), 0, None, cfg);
    assert_eq!(s.pos(), 0);
    assert_eq!(s.burst(), 0);
}

#[test]
fn diff_is_headroom_under_current_frequency() {
    let r = DiffReader::new(vec![0, 1], "None", 0).unwrap();
    // 50_000_000 cycles in 50 ms is 1 GHz; 2 GHz ceiling leaves 1 GHz
    let d = r.read_diff(&vec![0, 100], &vec![50_000_000, 100], 50_000_000, Cycles::from_hz(2000 * MHZ));
    assert_eq!(d.hz, 1000 * MHZ);
    // the busiest core counts
    let d = r.read_diff(&vec![0, 0], &vec![10_000_000, 50_000_000], 50_000_000, Cycles::from_hz(2000 * MHZ));
    assert_eq!(d.hz, 1000 * MHZ);
}

#[test]
fn diff_is_never_negative() {
    let r = DiffReader::new(vec![4], "SMA", 3).unwrap();
    let over = r.read_diff(&vec![0], &vec![200_000_000], 50_000_000, Cycles::from_hz(2000 * MHZ));
    assert_eq!(over.hz, 0);
    let no_time = r.read_diff(&vec![0], &vec![200], 0, Cycles::from_hz(2000 * MHZ));
    assert_eq!(no_time.hz, 0);
    let wrapped = r.read_diff(&vec![500], &vec![100], 50_000_000, Cycles::from_hz(2000 * MHZ));
    assert_eq!(wrapped.hz, 2000 * MHZ);
    let negative_ceiling = r.read_diff(&vec![0], &vec![0], 50_000_000, Cycles::from_hz(-5));
    assert_eq!(negative_ceiling.hz, 0);
}

#[test]
fn filter_configuration() {
    assert_eq!(FilterSpec::from_config("EMA", 10), Ok(FilterSpec::Ema(10)));
    assert_eq!(FilterSpec::from_config("DEMA", 255), Ok(FilterSpec::Dema(255)));
    assert_eq!(FilterSpec::from_config("SMA", 1), Ok(FilterSpec::Sma(1)));
    assert_eq!(FilterSpec::from_config("None", -3), Ok(FilterSpec::Identity));
    assert_eq!(FilterSpec::from_config("SMA", 0), Err(ConfigError::InvalidWindow));
    assert_eq!(FilterSpec::from_config("DEMA", 256), Err(ConfigError::InvalidWindow));
    assert_eq!(FilterSpec::from_config("EMA", -1), Err(ConfigError::InvalidWindow));
    assert_eq!(FilterSpec::from_config("ema", 5), Err(ConfigError::UnknownFilter));
    assert_eq!(FilterSpec::from_config("", 5), Err(ConfigError::UnknownFilter));
    assert!(matches!(DiffReader::new(vec![0], "WMA", 5), Err(ConfigError::UnknownFilter)));
    let r = DiffReader::new(vec![0, 1, 2], "EMA", 4).unwrap();
    assert_eq!(r.filter, FilterSpec::Ema(4));
    assert_eq!(r.affected_cpus, vec![0, 1, 2]);
}

#[test]
fn cycles_units() {
    assert_eq!(Cycles::from_khz(1_500_000).as_hz(), 1_500_000_000);
    assert_eq!(Cycles::from_hz(1_999_999).as_khz(), 1999);
}

#[test]
fn list_parsing() {
    assert_eq!(parse_list("0 1 2 3", 100), Some(vec![0, 1, 2, 3]));
    assert_eq!(parse_list("  300000\t1804800\n", u64::MAX), Some(vec![300_000, 1_804_800]));
    assert_eq!(parse_list("", 10), Some(vec![]));
    assert_eq!(parse_list("11", 10), None);
    assert_eq!(parse_list("1,2", 10), None);
    assert_eq!(parse_list("-1", 10), None);
    assert_eq!(parse_list("18446744073709551615", u64::MAX), Some(vec![u64::MAX]));
    assert_eq!(parse_list("18446744073709551616", u64::MAX), None);
}

#[test]
fn offsets_are_clamped_per_gain() {
    let p = PidParams { kp: 600_000, ki: 50_000, kd: 60_000 };
    assert_eq!(apply_offsets(p, 50_000, -5_000, 5_000), PidParams { kp: 650_000, ki: 45_000, kd: 65_000 });
    let hi = PidParams { kp: 790_000, ki: 79_000, kd: 79_000 };
    assert_eq!(apply_offsets(hi, 99_999, 9_999, 9_999), PidParams { kp: KP_MAX, ki: KI_MAX, kd: KD_MAX });
    let lo = PidParams { kp: i64::MIN, ki: 0, kd: -7 };
    assert_eq!(apply_offsets(lo, -100_000, -10_000, -10_000), PidParams { kp: KP_MIN, ki: KI_MIN, kd: KD_MIN });
}

#[test]
fn mutation_stays_bounded_and_moves() {
    let start = PidParams { kp: 600_000, ki: 50_000, kd: 65_000 };
    let mut p = PidParams { kp: i64::MAX, ki: i64::MIN, kd: 0 };
    let mut moved = false;
    for _ in 0..300 {
        p = mutate_params(p);
        assert!(KP_MIN <= p.kp && p.kp <= KP_MAX);
        assert!(KI_MIN <= p.ki && p.ki <= KI_MAX);
        assert!(KD_MIN <= p.kd && p.kd <= KD_MAX);
        let q = mutate_params(start);
        assert!((q.kp - start.kp).abs() <= 100_000);
        assert!((q.ki - start.ki).abs() <= 10_000);
        assert!((q.kd - start.kd).abs() <= 10_000);
        let q2 = mutate_params(start);
        if q != q2 {
            moved = true;
        }
    }
    assert!(moved);
}

#[test]
fn fitness_needs_enough_samples() {
    let ft = vec![16_666_667u64; 299];
    let ctl = vec![1i64; 30];
    assert_eq!(evaluate_fitness(&ft, Some(60), 0, &ctl), None);
    let ft = vec![16_666_667u64; 300];
    assert_eq!(evaluate_fitness(&ft, None, 0, &ctl), None);
    assert_eq!(evaluate_fitness(&ft, Some(60), 0, &vec![1i64; 29]), None);
    assert!(evaluate_fitness(&ft, Some(60), 0, &ctl).is_some());
}

#[test]
fn fitness_exact_value() {
    // 10 frames at 2 fps; scaled frame times 1.1 s and 0.9 s around a 1 s target
    let mut ft = vec![550_000_000u64; 5];
    ft.extend(vec![450_000_000u64; 5]);
    let ctl = vec![10i64; 30];
    let f = evaluate_fitness(&ft, Some(2), 0, &ctl).unwrap();
    assert_eq!(
        f,
        Fitness {
            frame_sq_sum: 10 * 10_000_000_000_000_000,
            frames: 10,
            control_sq_sum: 3000,
            controls: 30,
        }
    );
    // mean squared deviation 1e16, control mean 100: score -1e16 - 1
    assert_eq!(fraction(f), (-(100 * 30 * 100_000_000_000_000_000i128 + 10 * 3000), 100 * 10 * 30));
    // a 100 ms margin moves the target to 1.1 s
    let ft = vec![550_000_000u64; 10];
    let f = evaluate_fitness(&ft, Some(2), 100, &vec![0i64; 30]).unwrap();
    assert_eq!(f.frame_sq_sum, 0);
    assert_eq!(f.control_sq_sum, 0);
}

fn fraction(f: Fitness) -> (i128, i128) {
    let n = f.frames as i128;
    let m = f.controls as i128;
    (-(100 * m * f.frame_sq_sum as i128 + n * f.control_sq_sum as i128), 100 * n * m)
}

fn lower_than(a: Fitness, b: Fitness) -> bool {
    let (na, da) = fraction(a);
    let (nb, db) = fraction(b);
    na * db < nb * da
}

#[test]
fn fitness_is_lower_for_larger_deviation() {
    let ctl = vec![3i64; 40];
    let near = vec![510_000_000u64; 10];
    let far = vec![600_000_000u64; 10];
    let a = evaluate_fitness(&near, Some(2), 0, &ctl).unwrap();
    let b = evaluate_fitness(&far, Some(2), 0, &ctl).unwrap();
    assert!(lower_than(b, a));
}

#[test]
fn fitness_separates_small_deviations() {
    let ctl = vec![0i64; 30];
    let t = 1_000_000_000u64;
    // squared deviations 4 + 1 + 1 = 6 against 4 + 1 = 5 over five frames
    let six = vec![t + 2, t - 1, t + 1, t, t];
    let five = vec![t - 2, t + 1, t, t, t];
    let a = evaluate_fitness(&six, Some(1), 0, &ctl).unwrap();
    let b = evaluate_fitness(&five, Some(1), 0, &ctl).unwrap();
    assert_eq!(a.frame_sq_sum, 6);
    assert_eq!(b.frame_sq_sum, 5);
    assert!(lower_than(a, b));
    assert!(!lower_than(b, a));
}

#[test]
fn control_effort_lowers_the_score() {
    let ft = vec![1_000_000_000u64; 5];
    let idle = evaluate_fitness(&ft, Some(1), 0, &vec![0i64; 30]).unwrap();
    let busy = evaluate_fitness(&ft, Some(1), 0, &vec![1i64; 30]).unwrap();
    assert_eq!(fraction(idle).0, 0);
    // -0.01 exactly: -(5 * 30) / (100 * 5 * 30)
    assert_eq!(fraction(busy), (-150, 15_000));
    assert!(lower_than(busy, idle));
}

#[test]
fn store_round_trip_and_upsert() {
    let mut s = PidStore::new();
    assert_eq!(s.load_pid_params("com.example.game"), Err(StoreError::NotFound));
    let a = PidParams { kp: 600_000, ki: 40_000, kd: 60_000 };
    let b = PidParams { kp: 700_000, ki: 20_000, kd: 70_000 };
    s.save_pid_params("com.example.game", a);
    assert_eq!(s.load_pid_params("com.example.game"), Ok(a));
    assert_eq!(s.load_pid_params("com.example.gam"), Err(StoreError::NotFound));
    s.save_pid_params("com.example.other", b);
    s.save_pid_params("com.example.game", b);
    assert_eq!(s.load_pid_params("com.example.game"), Ok(b));
    assert_eq!(s.load_pid_params("com.example.other"), Ok(b));
    s.save_pid_params("", a);
    assert_eq!(s.load_pid_params(""), Ok(a));
}
