//! The user-space controller: configuration checks, traffic rates from the
//! per-CPU counters, the panic-mode switch with its cool-down, and the list
//! of bans still running.

use vstd::prelude::*;
use std::collections::VecDeque;
use vstd::wrapping::u64_specs;
use crate::types::{GlobalConfig, GlobalStats};
use crate::shield::NS_PER_SEC;

verus! {

/// Settings read from the configuration file.
#[derive(Clone, Debug)]
pub struct ConfigFile {
    pub checkers: Vec<String>,
    pub global_alert_pps: u64,
    pub panic_mode_limit: u32,
    pub normal_mode_limit: u32,
    pub ban_duration_sec: u64,
    pub arp_mode_limit: u32,
    pub mac_mode_limit: u32,
}

/// Why a configuration is refused.
#[derive(Clone, Copy, PartialEq, Eq, Structural, Debug)]
pub enum ConfigError {
    /// A global alert threshold of 0 would put the filter in panic mode at once.
    ZeroAlertThreshold,
    /// The panic limit must be strictly below the normal limit.
    PanicLimitNotStricter { panic_mode_limit: u32, normal_mode_limit: u32 },
    /// Bans must last at least one second.
    ZeroBanDuration,
}

/// The first rule, in this order, that `c` breaks.
pub open spec fn spec_validate_config(c: ConfigFile) -> Result<(), ConfigError> {
    if c.global_alert_pps == 0 {
        Err(ConfigError::ZeroAlertThreshold)
    } else if c.panic_mode_limit >= c.normal_mode_limit {
        Err(ConfigError::PanicLimitNotStricter {
            panic_mode_limit: c.panic_mode_limit,
            normal_mode_limit: c.normal_mode_limit,
        })
    } else if c.ban_duration_sec == 0 {
        Err(ConfigError::ZeroBanDuration)
    } else {
        Ok(())
    }
}

/// Checks the configuration before it is loaded into the filter.
pub fn validate_config(c: &ConfigFile) -> (r: Result<(), ConfigError>)
    ensures
        r == spec_validate_config(*c),
{
    if c.global_alert_pps == 0 {
        return Err(ConfigError::ZeroAlertThreshold);
    }
    if c.panic_mode_limit >= c.normal_mode_limit {
        return Err(ConfigError::PanicLimitNotStricter {
            panic_mode_limit: c.panic_mode_limit,
            normal_mode_limit: c.normal_mode_limit,
        });
    }
    if c.ban_duration_sec == 0 {
        return Err(ConfigError::ZeroBanDuration);
    }
    Ok(())
}

/// A configuration is accepted exactly when its global alert threshold is
/// not 0, its panic limit is strictly below its normal limit and its bans
/// last at least one second; a refusal names the first of these rules that
/// it breaks, with the two limits where they are at fault.
pub proof fn law_validate_config(c: ConfigFile)
    ensures
        spec_validate_config(c) is Ok
            <==> (c.global_alert_pps > 0 && c.panic_mode_limit < c.normal_mode_limit && c.ban_duration_sec > 0),
        c.global_alert_pps == 0 ==> spec_validate_config(c) == Err::<(), ConfigError>(ConfigError::ZeroAlertThreshold),
        c.global_alert_pps > 0 && c.panic_mode_limit >= c.normal_mode_limit ==> spec_validate_config(c)
            == Err::<(), ConfigError>(ConfigError::PanicLimitNotStricter {
                panic_mode_limit: c.panic_mode_limit,
                normal_mode_limit: c.normal_mode_limit,
            }),
        c.global_alert_pps > 0 && c.panic_mode_limit < c.normal_mode_limit && c.ban_duration_sec == 0
            ==> spec_validate_config(c) == Err::<(), ConfigError>(ConfigError::ZeroBanDuration),
{
}

/// The record written to the filter's configuration slot.
pub fn global_config_for(c: &ConfigFile, alert_mode: u32) -> (r: GlobalConfig)
    ensures
        r == (GlobalConfig {
            alert_mode,
            normal_mode_limit: c.normal_mode_limit,
            panic_mode_limit: c.panic_mode_limit,
            _padding: 0,
            ban_duration_sec: c.ban_duration_sec,
            arp_mode_limit: c.arp_mode_limit,
            mac_mode_limit: c.mac_mode_limit,
        }),
{
    GlobalConfig {
        alert_mode,
        normal_mode_limit: c.normal_mode_limit,
        panic_mode_limit: c.panic_mode_limit,
        _padding: 0,
        ban_duration_sec: c.ban_duration_sec,
        arp_mode_limit: c.arp_mode_limit,
        mac_mode_limit: c.mac_mode_limit,
    }
}

/// Sum of the frame counters of all CPUs, modulo 2^64.
pub open spec fn sum_pkts(s: Seq<GlobalStats>) -> u64
    decreases s.len(),
{
    if s.len() == 0 {
        0
    } else {
        u64_specs::wrapping_add(sum_pkts(s.drop_last()), s.last().pkt_count)
    }
}

/// Sum of the drop counters of all CPUs, modulo 2^64.
pub open spec fn sum_drops(s: Seq<GlobalStats>) -> u64
    decreases s.len(),
{
    if s.len() == 0 {
        0
    } else {
        u64_specs::wrapping_add(sum_drops(s.drop_last()), s.last().drop_count)
    }
}

/// Counter totals seen at the previous tick.
#[derive(Clone, Copy, PartialEq, Eq, Structural, Debug)]
pub struct RateTracker {
    pub last_pkt_count: u64,
    pub last_drop_count: u64,
}

pub open spec fn sat_sub(a: u64, b: u64) -> u64 {
    if a >= b { (a - b) as u64 } else { 0 }
}

/// Frames and drops per tick from the per-CPU counters: the totals minus
/// those of the previous tick (0 where a total went down); the totals are
/// kept for the next tick.
pub fn update_rates(tracker: &mut RateTracker, per_cpu: &[GlobalStats]) -> (r: (u64, u64))
    ensures
        r.0 == sat_sub(sum_pkts(per_cpu@), old(tracker).last_pkt_count),
        r.1 == sat_sub(sum_drops(per_cpu@), old(tracker).last_drop_count),
        final(tracker).last_pkt_count == sum_pkts(per_cpu@),
        final(tracker).last_drop_count == sum_drops(per_cpu@),
{
    let mut current_pkt: u64 = 0;
    let mut current_drop: u64 = 0;
    let mut i: usize = 0;
    while i < per_cpu.len()
        invariant
            i <= per_cpu@.len(),
            current_pkt == sum_pkts(per_cpu@.take(i as int)),
            current_drop == sum_drops(per_cpu@.take(i as int)),
        decreases per_cpu@.len() - i,
    {
        proof {
            assert(per_cpu@.take(i + 1).drop_last() =~= per_cpu@.take(i as int));
        }
        current_pkt = current_pkt.wrapping_add(per_cpu[i].pkt_count);
        current_drop = current_drop.wrapping_add(per_cpu[i].drop_count);
        i = i + 1;
    }
    assert(per_cpu@.take(i as int) =~= per_cpu@);
    let pps = current_pkt.saturating_sub(tracker.last_pkt_count);
    let dps = current_drop.saturating_sub(tracker.last_drop_count);
    tracker.last_pkt_count = current_pkt;
    tracker.last_drop_count = current_drop;
    (pps, dps)
}

/// Seconds of quiet traffic the controller waits before leaving panic mode.
pub const COOLDOWN_SECS: u32 = 10;

/// State of the panic-mode switch.
#[derive(Clone, Copy, PartialEq, Eq, Structural, Debug)]
pub struct PanicSwitch {
    pub alert_active: bool,
    pub cooldown_seconds: u32,
}

/// What the controller writes to the filter's configuration after a tick.
#[derive(Clone, Copy, PartialEq, Eq, Structural, Debug)]
pub enum ModeChange {
    Unchanged,
    /// Write the configuration with `alert_mode` 1.
    EnterPanic,
    /// Write the configuration with `alert_mode` 0.
    LeavePanic,
}

/// The calm threshold: 80% of the alert threshold, the product taken
/// modulo 2^64.
pub open spec fn calm_threshold(global_alert_pps: u64) -> u64 {
    (u64_specs::wrapping_mul(global_alert_pps, 8) / 10) as u64
}

/// One tick of the panic-mode switch for `pps` frames in the last second:
/// above the alert threshold the switch is (or stays) on with a full
/// cool-down; while on, each tick below 80% of the threshold uses up one
/// second of cool-down and the tick after the last one turns the switch
/// off; a tick between the two thresholds restores the full cool-down.
pub open spec fn spec_panic_step(s: PanicSwitch, pps: u64, global_alert_pps: u64) -> (PanicSwitch, ModeChange) {
    if pps > global_alert_pps {
        (
            PanicSwitch { alert_active: true, cooldown_seconds: COOLDOWN_SECS },
            if s.alert_active { ModeChange::Unchanged } else { ModeChange::EnterPanic },
        )
    } else if s.alert_active {
        if pps < calm_threshold(global_alert_pps) {
            if s.cooldown_seconds > 0 {
                (PanicSwitch { alert_active: true, cooldown_seconds: (s.cooldown_seconds - 1) as u32 }, ModeChange::Unchanged)
            } else {
                (PanicSwitch { alert_active: false, cooldown_seconds: s.cooldown_seconds }, ModeChange::LeavePanic)
            }
        } else {
            (PanicSwitch { alert_active: true, cooldown_seconds: COOLDOWN_SECS }, ModeChange::Unchanged)
        }
    } else {
        (s, ModeChange::Unchanged)
    }
}

pub fn panic_step(s: &mut PanicSwitch, pps: u64, global_alert_pps: u64) -> (r: ModeChange)
    ensures
        (*final(s), r) == spec_panic_step(*old(s), pps, global_alert_pps),
{
    if pps > global_alert_pps {
        let was_active = s.alert_active;
        s.alert_active = true;
        s.cooldown_seconds = COOLDOWN_SECS;
        if was_active { ModeChange::Unchanged } else { ModeChange::EnterPanic }
    } else if s.alert_active {
        if pps < global_alert_pps.wrapping_mul(8) / 10 {
            if s.cooldown_seconds > 0 {
                s.cooldown_seconds = s.cooldown_seconds - 1;
                ModeChange::Unchanged
            } else {
                s.alert_active = false;
                ModeChange::LeavePanic
            }
        } else {
            s.cooldown_seconds = COOLDOWN_SECS;
            ModeChange::Unchanged
        }
    } else {
        ModeChange::Unchanged
    }
}

/// The switch after a run of ticks.
pub open spec fn panic_run(s: PanicSwitch, pps: Seq<u64>, global_alert_pps: u64) -> PanicSwitch
    decreases pps.len(),
{
    if pps.len() == 0 {
        s
    } else {
        spec_panic_step(panic_run(s, pps.drop_last(), global_alert_pps), pps.last(), global_alert_pps).0
    }
}

/// Hysteresis: a switch that is on with `c` seconds of cool-down stays on
/// through any `c` ticks, whatever the traffic.
pub proof fn law_cooldown_holds(s: PanicSwitch, pps: Seq<u64>, global_alert_pps: u64)
    requires
        s.alert_active,
        pps.len() <= s.cooldown_seconds <= COOLDOWN_SECS,
    ensures
        panic_run(s, pps, global_alert_pps).alert_active,
        panic_run(s, pps, global_alert_pps).cooldown_seconds >= s.cooldown_seconds - pps.len(),
        panic_run(s, pps, global_alert_pps).cooldown_seconds <= COOLDOWN_SECS,
    decreases pps.len(),
{
    if pps.len() > 0 {
        law_cooldown_holds(s, pps.drop_last(), global_alert_pps);
    }
}

/// Entering panic mode: a tick above the threshold turns the switch on
/// with the full cool-down, and reports the change only when it was off.
pub proof fn law_overload_enters_panic(s: PanicSwitch, pps: u64, global_alert_pps: u64)
    requires
        pps > global_alert_pps,
    ensures
        spec_panic_step(s, pps, global_alert_pps).0 == (PanicSwitch { alert_active: true, cooldown_seconds: COOLDOWN_SECS }),
        (spec_panic_step(s, pps, global_alert_pps).1 == ModeChange::EnterPanic) == !s.alert_active,
{
}

/// A switch that is off stays off, and nothing is written, as long as the
/// traffic stays at or below the threshold.
pub proof fn law_calm_stays_normal(s: PanicSwitch, pps: Seq<u64>, global_alert_pps: u64)
    requires
        !s.alert_active,
        forall|i: int| 0 <= i < pps.len() ==> pps[i] <= global_alert_pps,
    ensures
        panic_run(s, pps, global_alert_pps) == s,
    decreases pps.len(),
{
    if pps.len() > 0 {
        law_calm_stays_normal(s, pps.drop_last(), global_alert_pps);
    }
}

/// The switch is only turned off by a tick below the calm threshold with no
/// cool-down left.
pub proof fn law_leave_only_when_calm(s: PanicSwitch, pps: u64, global_alert_pps: u64)
    requires
        s.alert_active,
        !spec_panic_step(s, pps, global_alert_pps).0.alert_active,
    ensures
        pps < calm_threshold(global_alert_pps),
        s.cooldown_seconds == 0,
        spec_panic_step(s, pps, global_alert_pps).1 == ModeChange::LeavePanic,
{
}

/// The switch in plain numbers (for thresholds whose eightfold fits in 64
/// bits): while on, a tick at or below the threshold but under 80% of it
/// uses up a second of the ten-second cool-down, or, with none left, turns
/// the switch off; a tick from 80% up to the threshold restores the full ten
/// seconds; a switch that is off stays off until a tick goes above the
/// threshold.
pub proof fn law_panic_thresholds(s: PanicSwitch, pps: u64, g: u64)
    requires
        g as int * 8 <= u64::MAX,
    ensures
        s.alert_active && (pps as int) < (g as int * 8) / 10 && s.cooldown_seconds > 0 ==> spec_panic_step(s, pps, g)
            == (PanicSwitch { alert_active: true, cooldown_seconds: (s.cooldown_seconds - 1) as u32 }, ModeChange::Unchanged),
        s.alert_active && (pps as int) < (g as int * 8) / 10 && s.cooldown_seconds == 0 ==> spec_panic_step(s, pps, g)
            == (PanicSwitch { alert_active: false, cooldown_seconds: 0 }, ModeChange::LeavePanic),
        s.alert_active && (g as int * 8) / 10 <= pps <= g ==> spec_panic_step(s, pps, g)
            == (PanicSwitch { alert_active: true, cooldown_seconds: 10 }, ModeChange::Unchanged),
        !s.alert_active && pps <= g ==> spec_panic_step(s, pps, g) == (s, ModeChange::Unchanged),
        pps > g ==> spec_panic_step(s, pps, g).0 == (PanicSwitch { alert_active: true, cooldown_seconds: 10 }),
{
    assert(u64_specs::wrapping_mul(g, 8) == g * 8) by {
        assert((g as nat * 8nat) % 0x1_0000_0000_0000_0000nat == g * 8);
    }
}

proof fn lemma_filter_all_or_none<K>(entries: Seq<(K, u64)>, now: u64)
    ensures
        (forall|i: int| 0 <= i < entries.len() ==> #[trigger] entries[i].1 > now) ==> entries.filter(ban_running(now)) == entries,
        (forall|i: int| 0 <= i < entries.len() ==> #[trigger] entries[i].1 <= now) ==> entries.filter(ban_running(now)).len() == 0,
    decreases entries.len(),
{
    reveal_with_fuel(Seq::<_>::filter, 1);
    if entries.len() > 0 {
        let rest = entries.drop_last();
        lemma_filter_all_or_none(rest, now);
        if forall|i: int| 0 <= i < entries.len() ==> #[trigger] entries[i].1 > now {
            assert forall|i: int| 0 <= i < rest.len() implies #[trigger] rest[i].1 > now by {
                assert(rest[i] == entries[i]);
            }
            assert(entries.last().1 > now);
            assert(rest.push(entries.last()) =~= entries);
        }
        if forall|i: int| 0 <= i < entries.len() ==> #[trigger] entries[i].1 <= now {
            assert forall|i: int| 0 <= i < rest.len() implies #[trigger] rest[i].1 <= now by {
                assert(rest[i] == entries[i]);
            }
            assert(entries.last().1 <= now);
        }
    }
}

/// Every running ban is listed, in order, with the whole seconds left on it
/// ((expiry - now) / 10^9); bans that expire at or before `now` are left out.
pub proof fn law_active_bans<K>(entries: Seq<(K, u64)>, now: u64)
    ensures
        ({
            let r = entries.filter(ban_running(now)).map_values(with_remaining(now));
            &&& r.len() <= entries.len()
            &&& (forall|i: int| 0 <= i < entries.len() ==> #[trigger] entries[i].1 > now) ==> r.len() == entries.len()
                && forall|i: int| 0 <= i < entries.len() ==> #[trigger] r[i] == (entries[i].0, ((entries[i].1 - now) / 1_000_000_000) as u64)
            &&& (forall|i: int| 0 <= i < entries.len() ==> #[trigger] entries[i].1 <= now) ==> r.len() == 0
        }),
{
    entries.lemma_filter_len(ban_running(now));
    lemma_filter_all_or_none(entries, now);
}

/// Seconds left on a ban that expires at `expiry`, if it is still running
/// at `now`.
pub open spec fn remaining_secs(expiry: u64, now: u64) -> Option<u64> {
    if expiry > now {
        Some(((expiry - now) / NS_PER_SEC as int) as u64)
    } else {
        None
    }
}

/// The entry's ban is still running at `now`.
pub open spec fn ban_running<K>(now: u64) -> spec_fn((K, u64)) -> bool {
    |e: (K, u64)| e.1 > now
}

/// An entry with the seconds left on its ban in place of its expiry.
pub open spec fn with_remaining<K>(now: u64) -> spec_fn((K, u64)) -> (K, u64) {
    |e: (K, u64)| (e.0, remaining_secs(e.1, now).unwrap())
}

/// Keeps the bans still running at `now`, in order, with the whole
/// seconds left on each.
pub fn active_bans<K: Copy>(entries: &[(K, u64)], now: u64) -> (r: Vec<(K, u64)>)
    ensures
        r@ == entries@.filter(ban_running(now)).map_values(with_remaining(now)),
{
    let mut out: Vec<(K, u64)> = Vec::new();
    let mut i: usize = 0;
    while i < entries.len()
        invariant
            i <= entries@.len(),
            out@ == entries@.take(i as int).filter(ban_running(now)).map_values(with_remaining(now)),
        decreases entries@.len() - i,
    {
        proof {
            reveal_with_fuel(Seq::<_>::filter, 1);
            assert(entries@.take(i + 1).drop_last() =~= entries@.take(i as int));
        }
        let (k, expiry) = entries[i];
        if expiry > now {
            out.push((k, (expiry - now) / NS_PER_SEC));
        }
        proof {
            let t1 = entries@.take(i + 1);
            let prev = t1.drop_last().filter(ban_running(now));
            assert(t1.filter(ban_running(now)) == if ban_running(now)(t1.last()) { prev.push(t1.last()) } else { prev });
            assert(prev.push(t1.last()).map_values(with_remaining(now)) =~= prev.map_values(with_remaining(now)).push(with_remaining(now)(t1.last())));
            assert(out@ =~= t1.filter(ban_running(now)).map_values(with_remaining(now)));
        }
        i = i + 1;
    }
    assert(entries@.take(i as int) =~= entries@);
    out
}


/// How many alerts the dashboard keeps.
pub const MAX_RECENT_ALERTS: usize = 10;

/// The alert queue after appending `msg`: when that makes it longer than
/// [`MAX_RECENT_ALERTS`], the oldest alert leaves.
pub open spec fn spec_push_alert(q: Seq<String>, msg: String) -> Seq<String> {
    if q.len() + 1 > MAX_RECENT_ALERTS {
        q.push(msg).drop_first()
    } else {
        q.push(msg)
    }
}

pub fn push_recent_alert(alerts: &mut VecDeque<String>, msg: String)
    ensures
        final(alerts)@ == spec_push_alert(old(alerts)@, msg),
{
    alerts.push_back(msg);
    if alerts.len() > MAX_RECENT_ALERTS {
        alerts.pop_front();
    }
}

/// The queue never grows past [`MAX_RECENT_ALERTS`] and always ends with
/// the newest alert.
pub proof fn law_alert_queue_bounded(q: Seq<String>, msg: String)
    requires
        q.len() <= MAX_RECENT_ALERTS,
    ensures
        spec_push_alert(q, msg).len() <= MAX_RECENT_ALERTS,
        spec_push_alert(q, msg).last() == msg,
        spec_push_alert(q, msg).len() == if q.len() == MAX_RECENT_ALERTS { q.len() } else { q.len() + 1 },
{
}

} // verus!
