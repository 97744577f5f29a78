use aegis::control::{
    active_bans, global_config_for, panic_step, push_recent_alert, update_rates, validate_config,
    ConfigError, ConfigFile, ModeChange, PanicSwitch, RateTracker, COOLDOWN_SECS,
};
use aegis::types::GlobalStats;
use std::collections::VecDeque;

fn sample_config() -> ConfigFile {
    ConfigFile {
        checkers: vec!["10.10.0.1".to_string(), "10.10.0.0/24".to_string(), "fe80::/60".to_string()],
        global_alert_pps: 100000,
        panic_mode_limit: 200,
        normal_mode_limit: 2000,
        ban_duration_sec: 300,
        arp_mode_limit: 50,
        mac_mode_limit: 6000,
    }
}

#[test]
fn documented_config_is_accepted() {
    assert_eq!(validate_config(&sample_config()), Ok(()));
}

#[test]
fn zero_alert_threshold_is_refused() {
    let mut c = sample_config();
    c.global_alert_pps = 0;
    c.ban_duration_sec = 0;
    assert_eq!(validate_config(&c), Err(ConfigError::ZeroAlertThreshold));
}

#[test]
fn panic_limit_must_be_stricter() {
    let mut c = sample_config();
    c.panic_mode_limit = 2000;
    assert_eq!(
        validate_config(&c),
        Err(ConfigError::PanicLimitNotStricter { panic_mode_limit: 2000, normal_mode_limit: 2000 })
    );
}

#[test]
fn zero_ban_duration_is_refused() {
    let mut c = sample_config();
    c.ban_duration_sec = 0;
    assert_eq!(validate_config(&c), Err(ConfigError::ZeroBanDuration));
}

#[test]
fn config_record_carries_mode() {
    let g = global_config_for(&sample_config(), 1);
    assert_eq!(g.alert_mode, 1);
    assert_eq!(g.normal_mode_limit, 2000);
    assert_eq!(g.panic_mode_limit, 200);
    assert_eq!(g._padding, 0);
    assert_eq!(g.ban_duration_sec, 300);
    assert_eq!(g.arp_mode_limit, 50);
    assert_eq!(g.mac_mode_limit, 6000);
}

#[test]
fn rates_are_differences_of_totals() {
    let mut t = RateTracker { last_pkt_count: 0, last_drop_count: 0 };
    let cpus = [
        GlobalStats { pkt_count: 100, drop_count: 5 },
        GlobalStats { pkt_count: 250, drop_count: 7 },
    ];
    assert_eq!(update_rates(&mut t, &cpus), (350, 12));
    let cpus2 = [
        GlobalStats { pkt_count: 150, drop_count: 5 },
        GlobalStats { pkt_count: 300, drop_count: 9 },
    ];
    assert_eq!(update_rates(&mut t, &cpus2), (100, 2));
    assert_eq!(t, RateTracker { last_pkt_count: 450, last_drop_count: 14 });
    // a counter that went down gives 0, not a wrapped difference
    assert_eq!(update_rates(&mut t, &[GlobalStats { pkt_count: 10, drop_count: 1 }]), (0, 0));
}

#[test]
fn panic_mode_hysteresis() {
    let alert = 100000;
    let mut s = PanicSwitch { alert_active: false, cooldown_seconds: 0 };
    assert_eq!(panic_step(&mut s, 50000, alert), ModeChange::Unchanged);
    assert!(!s.alert_active);
    assert_eq!(panic_step(&mut s, 150000, alert), ModeChange::EnterPanic);
    assert_eq!(s, PanicSwitch { alert_active: true, cooldown_seconds: COOLDOWN_SECS });
    assert_eq!(panic_step(&mut s, 150000, alert), ModeChange::Unchanged);
    // between 80% and 100% of the threshold: the cool-down is restored
    assert_eq!(panic_step(&mut s, 10, alert), ModeChange::Unchanged);
    assert_eq!(s.cooldown_seconds, 9);
    assert_eq!(panic_step(&mut s, 90000, alert), ModeChange::Unchanged);
    assert_eq!(s.cooldown_seconds, 10);
    // ten calm ticks use up the cool-down, the eleventh leaves panic mode
    for _ in 0..10 {
        assert_eq!(panic_step(&mut s, 1000, alert), ModeChange::Unchanged);
        assert!(s.alert_active);
    }
    assert_eq!(s.cooldown_seconds, 0);
    assert_eq!(panic_step(&mut s, 1000, alert), ModeChange::LeavePanic);
    assert!(!s.alert_active);
}

#[test]
fn calm_threshold_is_eighty_percent() {
    let mut s = PanicSwitch { alert_active: true, cooldown_seconds: 0 };
    assert_eq!(panic_step(&mut s, 80, 100), ModeChange::Unchanged);
    assert_eq!(s.cooldown_seconds, 10);
    let mut s = PanicSwitch { alert_active: true, cooldown_seconds: 0 };
    assert_eq!(panic_step(&mut s, 79, 100), ModeChange::LeavePanic);
}

#[test]
fn only_running_bans_are_listed() {
    let now = 1_000_000_000_000u64;
    let entries = [
        (1u32, now + 285_500_000_000),
        (2u32, now),
        (3u32, now - 5),
        (4u32, now + 999_999_999),
    ];
    let r = active_bans(&entries, now);
    assert_eq!(r, vec![(1u32, 285u64), (4u32, 0u64)]);
}

#[test]
fn recent_alerts_keep_the_last_ten() {
    let mut q: VecDeque<String> = VecDeque::new();
    for i in 0..12 {
        push_recent_alert(&mut q, format!("alert {}", i));
    }
    assert_eq!(q.len(), 10);
    assert_eq!(q.front().unwrap(), "alert 2");
    assert_eq!(q.back().unwrap(), "alert 11");
}
