//! The daemon's shared state: the pressed-pin bitmask, the combo
//! generation that cancels stale combo windows, and the installed
//! configurations with the pressed / key-hold state of their peripherals.

use vstd::prelude::*;

use crate::bitmask::{
    dispatch_order, lemma_layout_wf, lemma_members_contain, pin_users, resolve_and_dispatch_global, same_layout, Config,
    EventType, Peripheral,
};
use crate::bits::{lemma_mask_insert, lemma_mask_remove, mask_has, pins_of};
use crate::uinput::{
    dispatch_press, dispatch_release, hold_active, key_hold_continues, press_fits, press_outcome,
    release_event, release_outcome, same_mapping, PressAction, ReleaseAction,
};

verus! {

broadcast use vstd::std_specs::hash::group_hash_axioms;

/// `c2` is `c` with only the pressed / key-hold state of peripheral
/// `index` changed.
pub open spec fn updated_at(c: Config, c2: Config, index: int) -> bool {
    &&& c2.peripherals@.len() == c.peripherals@.len()
    &&& forall|i: int| 0 <= i < c.peripherals@.len() && i != index ==> #[trigger] c2.peripherals@[i] == c.peripherals@[i]
    &&& same_mapping(c2.peripherals@[index], c.peripherals@[index])
    &&& c2.device_peripherals == c.device_peripherals
    &&& c2.pin_map == c.pin_map
    &&& c2.combo_delay_ms == c.combo_delay_ms
    &&& c2.key_hold_delay_ms == c.key_hold_delay_ms
}

/// What pressing peripheral `index` of configuration `c` does.
pub open spec fn press_in_outcome(c: Config, c2: Config, index: usize, action: PressAction) -> bool {
    if index < c.peripherals@.len() {
        updated_at(c, c2, index as int) && press_outcome(
            c.peripherals@[index as int],
            c2.peripherals@[index as int],
            action,
        )
    } else {
        action is Ignored && c2 == c
    }
}

fn press_in(cfg: &mut Config, index: usize) -> (action: PressAction)
    requires
        old(cfg).wf(),
        index < old(cfg).peripherals@.len() ==> press_fits(old(cfg).peripherals@[index as int]),
    ensures
        final(cfg).wf(),
        press_in_outcome(*old(cfg), *final(cfg), index, action),
{
    let ghost before = *cfg;
    if index < cfg.peripherals.len() {
        let a = dispatch_press(&mut cfg.peripherals[index]);
        proof {
            lemma_layout_wf(before, *cfg);
        }
        a
    } else {
        PressAction::Ignored
    }
}

/// What releasing peripheral `index` of configuration `c` does.
pub open spec fn release_in_outcome(c: Config, c2: Config, index: usize, action: ReleaseAction) -> bool {
    if index < c.peripherals@.len() {
        let p = c.peripherals@[index as int];
        &&& updated_at(c, c2, index as int) && c2.peripherals@[index as int] == released(p)
        &&& release_outcome(p, released(p), action)
    } else {
        action is Ignored && c2 == c
    }
}

/// The peripheral with its action no longer active.
pub open spec fn released(p: Peripheral) -> Peripheral {
    Peripheral { is_pressed: false, ..p }
}

fn release_in(cfg: &mut Config, index: usize) -> (action: ReleaseAction)
    requires
        old(cfg).wf(),
    ensures
        final(cfg).wf(),
        release_in_outcome(*old(cfg), *final(cfg), index, action),
{
    let ghost before = *cfg;
    if index < cfg.peripherals.len() {
        let a = dispatch_release(&mut cfg.peripherals[index]);
        proof {
            lemma_layout_wf(before, *cfg);
        }
        a
    } else {
        ReleaseAction::Ignored
    }
}

/// `i` is among the first `t` entries of `users`.
pub open spec fn listed_before(users: Seq<usize>, t: int, i: int) -> bool {
    exists|a: int| 0 <= a < t && a < users.len() && #[trigger] users[a] as int == i
}

/// The release events, in order, of the active peripherals among `users`.
pub open spec fn release_events(ps: Seq<Peripheral>, users: Seq<usize>) -> Seq<(usize, ReleaseAction)>
    decreases users.len(),
{
    if users.len() == 0 {
        Seq::empty()
    } else {
        let r = release_events(ps, users.drop_last());
        let u = users.last();
        if ps[u as int].is_pressed {
            r.push((u, release_event(ps[u as int])))
        } else {
            r
        }
    }
}

/// What releasing pin `pin` does to configuration `c`: every peripheral
/// that uses the pin is released, and the active ones report their release
/// events, in configuration order.
pub open spec fn pin_release_outcome(c: Config, c2: Config, pin: u8, events: Seq<(usize, ReleaseAction)>) -> bool {
    let ps = c.peripherals@;
    let users = pin_users(ps, ps.len() as int, pin as int);
    &&& c2.peripherals@.len() == ps.len()
    &&& forall|i: int| 0 <= i < ps.len() ==> #[trigger] c2.peripherals@[i] == (if listed_before(users, users.len() as int, i) {
        released(ps[i])
    } else {
        ps[i]
    })
    &&& c2.device_peripherals == c.device_peripherals
    &&& c2.pin_map == c.pin_map
    &&& c2.combo_delay_ms == c.combo_delay_ms
    &&& c2.key_hold_delay_ms == c.key_hold_delay_ms
    &&& events == release_events(ps, users)
}

proof fn lemma_pin_users_ordered(ps: Seq<Peripheral>, n: int, pin: int)
    requires
        0 <= n <= ps.len(),
        n <= usize::MAX,
    ensures
        forall|a: int| 0 <= a < pin_users(ps, n, pin).len() ==> #[trigger] pin_users(ps, n, pin)[a] < n,
        forall|a: int, b: int|
            0 <= a < b < pin_users(ps, n, pin).len() ==> #[trigger] pin_users(ps, n, pin)[a] < #[trigger] pin_users(ps, n, pin)[b],
    decreases n,
{
    if n > 0 {
        lemma_pin_users_ordered(ps, n - 1, pin);
        let prev = pin_users(ps, n - 1, pin);
        let cur = pin_users(ps, n, pin);
        if mask_has(ps[n - 1].pin_mask, pin) {
            assert(cur == prev.push((n - 1) as usize));
            assert forall|a: int, b: int| 0 <= a < b < cur.len() implies #[trigger] cur[a] < #[trigger] cur[b] by {
                if b < prev.len() {
                    assert(prev[a] < prev[b]);
                } else {
                    assert(prev[a] < n - 1);
                }
            }
            assert forall|a: int| 0 <= a < cur.len() implies #[trigger] cur[a] < n by {
                if a < prev.len() {
                    assert(prev[a] < n - 1);
                }
            }
        }
    }
}

proof fn lemma_pin_users_out_of_range(ps: Seq<Peripheral>, n: int, pin: int)
    requires
        !(0 <= pin < 192),
    ensures
        pin_users(ps, n, pin).len() == 0,
    decreases n,
{
    if n > 0 {
        lemma_pin_users_out_of_range(ps, n - 1, pin);
    }
}

fn release_users(cfg: &mut Config, pin: u8) -> (events: Vec<(usize, ReleaseAction)>)
    requires
        old(cfg).wf(),
    ensures
        final(cfg).wf(),
        pin_release_outcome(*old(cfg), *final(cfg), pin, events@),
{
    let ghost before = *cfg;
    let mut events: Vec<(usize, ReleaseAction)> = Vec::new();
    let ghost orig = cfg.peripherals@;
    let ghost n = orig.len() as int;
    let ghost users = pin_users(orig, n, pin as int);
    assert(n == cfg.peripherals.len());
    proof {
        lemma_pin_users_ordered(orig, n, pin as int);
        if !(pin < 192) {
            lemma_pin_users_out_of_range(orig, n, pin as int);
        }
    }
    match cfg.pin_map.get(&pin) {
        Some(list) => {
            let mut t: usize = 0;
            while t < list.len()
                invariant
                    list@ == users,
                    t <= users.len(),
                    n == orig.len(),
                    cfg.peripherals@.len() == n,
                    forall|a: int| 0 <= a < users.len() ==> #[trigger] users[a] < n,
                    forall|a: int, b: int| 0 <= a < b < users.len() ==> #[trigger] users[a] < #[trigger] users[b],
                    cfg.device_peripherals == before.device_peripherals,
                    cfg.pin_map == before.pin_map,
                    cfg.combo_delay_ms == before.combo_delay_ms,
                    cfg.key_hold_delay_ms == before.key_hold_delay_ms,
                    forall|i: int| 0 <= i < n ==> #[trigger] cfg.peripherals@[i] == (if listed_before(users, t as int, i) {
                        released(orig[i])
                    } else {
                        orig[i]
                    }),
                    events@ == release_events(orig, users.subrange(0, t as int)),
                decreases users.len() - t,
            {
                let idx = list[t];
                proof {
                    if listed_before(users, t as int, idx as int) {
                        let a = choose|a: int| 0 <= a < t && a < users.len() && #[trigger] users[a] as int == idx as int;
                        assert(users[a] < users[t as int]);
                    }
                    assert(cfg.peripherals@[idx as int] == orig[idx as int]);
                }
                if cfg.peripherals[idx].is_pressed {
                    let a = dispatch_release(&mut cfg.peripherals[idx]);
                    events.push((idx, a));
                }
                proof {
                    let pre = users.subrange(0, t as int);
                    let post = users.subrange(0, t as int + 1);
                    assert(post.drop_last() =~= pre);
                    assert(post.last() == idx);
                    assert(users[t as int] as int == idx as int);
                    assert forall|i: int| 0 <= i < n implies #[trigger] cfg.peripherals@[i] == (if listed_before(users, t + 1, i) {
                        released(orig[i])
                    } else {
                        orig[i]
                    }) by {
                        if i != idx {
                            if listed_before(users, t + 1, i) {
                                let a = choose|a: int| 0 <= a < t + 1 && a < users.len() && #[trigger] users[a] as int == i;
                                assert(listed_before(users, t as int, i));
                            }
                        }
                    }
                }
                t += 1;
            }
            proof {
                assert(users.subrange(0, users.len() as int) =~= users);
            }
        },
        None => {
            proof {
                assert(users.len() == 0);
                assert forall|i: int| 0 <= i < n implies #[trigger] cfg.peripherals@[i] == (if listed_before(users, users.len() as int, i) {
                    released(orig[i])
                } else {
                    orig[i]
                }) by {}
            }
        },
    }
    proof {
        assert(same_layout(orig, cfg.peripherals@));
        lemma_layout_wf(before, *cfg);
    }
    events
}

proof fn lemma_pin_users_use_pin(ps: Seq<Peripheral>, n: int, pin: int)
    requires
        n <= usize::MAX,
    ensures
        forall|a: int| 0 <= a < pin_users(ps, n, pin).len()
            ==> mask_has(ps[#[trigger] pin_users(ps, n, pin)[a] as int].pin_mask, pin),
    decreases n,
{
    if n > 0 {
        lemma_pin_users_use_pin(ps, n - 1, pin);
        let prev = pin_users(ps, n - 1, pin);
        let cur = pin_users(ps, n, pin);
        if mask_has(ps[n - 1].pin_mask, pin) {
            assert forall|a: int| 0 <= a < cur.len() implies mask_has(ps[#[trigger] cur[a] as int].pin_mask, pin) by {
                if a < prev.len() {
                    assert(cur[a] == prev[a]);
                } else {
                    assert(cur[a] as int == n - 1);
                }
            }
        }
    }
}

proof fn lemma_release_events_members(ps: Seq<Peripheral>, users: Seq<usize>)
    requires
        forall|a: int, b: int| 0 <= a < b < users.len() ==> #[trigger] users[a] < #[trigger] users[b],
    ensures
        forall|t: int| 0 <= t < release_events(ps, users).len() ==> {
            let ev = #[trigger] release_events(ps, users)[t];
            &&& users.contains(ev.0)
            &&& ps[ev.0 as int].is_pressed
            &&& ev.1 == release_event(ps[ev.0 as int])
        },
        forall|k: int| 0 <= k < users.len() && ps[#[trigger] users[k] as int].is_pressed ==> exists|t: int|
            0 <= t < release_events(ps, users).len() && (#[trigger] release_events(ps, users)[t]).0 == users[k],
        forall|t1: int, t2: int| 0 <= t1 < t2 < release_events(ps, users).len()
            ==> (#[trigger] release_events(ps, users)[t1]).0 < (#[trigger] release_events(ps, users)[t2]).0,
    decreases users.len(),
{
    if users.len() > 0 {
        let init = users.drop_last();
        let u = users.last();
        lemma_release_events_members(ps, init);
        let r0 = release_events(ps, init);
        let r = release_events(ps, users);
        assert forall|t: int| 0 <= t < r0.len() implies users.contains((#[trigger] r0[t]).0) && r0[t].0 < u by {
            let k = choose|k: int| 0 <= k < init.len() && init[k] == r0[t].0;
            assert(users[k] == init[k]);
            assert(users[k] < users[users.len() - 1]);
        }
        assert(users[users.len() - 1] == u);
        assert forall|k: int| 0 <= k < users.len() && ps[#[trigger] users[k] as int].is_pressed implies exists|t: int|
            0 <= t < r.len() && (#[trigger] r[t]).0 == users[k] by {
            if k < users.len() - 1 {
                assert(init[k] == users[k]);
                let t = choose|t: int| 0 <= t < r0.len() && (#[trigger] r0[t]).0 == init[k];
                assert(r[t] == r0[t]);
            } else {
                assert(r[r.len() - 1].0 == u);
            }
        }
    }
}

/// Releasing a pin reports exactly the peripherals that use it and were
/// active, each once and in configuration order, with the release of its
/// own mapping: a button or a key gets an EV_KEY release of its code on its
/// device, an axis goes back to centre, a command reports that it has no
/// event. Every peripheral that uses the pin ends inactive; the others are
/// left as they were.
pub proof fn law_pin_release_reports_active_users(
    c: Config,
    c2: Config,
    pin: u8,
    events: Seq<(usize, ReleaseAction)>,
    i: int,
)
    requires
        pin_release_outcome(c, c2, pin, events),
        0 <= i < c.peripherals@.len(),
    ensures
        (exists|t: int| 0 <= t < events.len() && (#[trigger] events[t]).0 == i) <==> (c.peripherals@[i].is_pressed
            && mask_has(c.peripherals@[i].pin_mask, pin as int)),
        forall|t: int| 0 <= t < events.len() && (#[trigger] events[t]).0 == i ==> {
            let p = c.peripherals@[i];
            match p.event_type {
                EventType::Button { evdev_code } => events[t].1 == (ReleaseAction::ButtonRelease {
                    device_index: p.device_index,
                    evdev_code,
                }),
                EventType::Key { evdev_code } => events[t].1 == (ReleaseAction::KeyRelease {
                    device_index: p.device_index,
                    evdev_code,
                }),
                EventType::Axis { evdev_code, .. } => events[t].1 == (ReleaseAction::AxisRelease {
                    device_index: p.device_index,
                    evdev_code,
                }),
                EventType::Command { .. } => events[t].1 is NoEvent,
            }
        },
        forall|t1: int, t2: int| 0 <= t1 < t2 < events.len() ==> (#[trigger] events[t1]).0 < (#[trigger] events[t2]).0,
        mask_has(c.peripherals@[i].pin_mask, pin as int) ==> !c2.peripherals@[i].is_pressed,
        !mask_has(c.peripherals@[i].pin_mask, pin as int) ==> c2.peripherals@[i] == c.peripherals@[i],
{
    let ps = c.peripherals@;
    let n = ps.len() as int;
    let users = pin_users(ps, n, pin as int);
    assert(c.peripherals.len() == ps.len());
    lemma_pin_users_ordered(ps, n, pin as int);
    lemma_pin_users_use_pin(ps, n, pin as int);
    lemma_release_events_members(ps, users);
    assert(events == release_events(ps, users));
    let uses = mask_has(ps[i].pin_mask, pin as int);
    if uses {
        lemma_members_contain(ps, n, 0, pin as int, i);
        let k = choose|k: int| 0 <= k < users.len() && users[k] == i as usize;
        assert(listed_before(users, users.len() as int, i));
        if ps[i].is_pressed {
            assert(ps[users[k] as int].is_pressed);
        }
    } else {
        if listed_before(users, users.len() as int, i) {
            let a = choose|a: int| 0 <= a < users.len() && #[trigger] users[a] as int == i;
            assert(mask_has(ps[users[a] as int].pin_mask, pin as int));
        }
    }
    assert forall|t: int| 0 <= t < events.len() && (#[trigger] events[t]).0 == i implies ps[i].is_pressed && uses by {
        let k = choose|k: int| 0 <= k < users.len() && users[k] == events[t].0;
        assert(mask_has(ps[users[k] as int].pin_mask, pin as int));
    }
}

/// The held pins after `set_pin(pin)`: pins from 192 on are ignored.
pub open spec fn pins_after_set(pins: Set<int>, pin: u8) -> Set<int> {
    if pin < 192 {
        pins.insert(pin as int)
    } else {
        pins
    }
}

/// The held pins after `clear_pin(pin)`: pins from 192 on are ignored.
pub open spec fn pins_after_clear(pins: Set<int>, pin: u8) -> Set<int> {
    if pin < 192 {
        pins.remove(pin as int)
    } else {
        pins
    }
}

/// Releasing a pin that was not held undoes pressing it.
pub proof fn law_clear_undoes_set(pins: Set<int>, pin: u8)
    requires
        !pins.contains(pin as int),
    ensures
        pins_after_clear(pins_after_set(pins, pin), pin) == pins,
{
    assert(pins_after_clear(pins_after_set(pins, pin), pin) =~= pins);
}

/// Pressing a pin twice is the same as pressing it once.
pub proof fn law_set_is_idempotent(pins: Set<int>, pin: u8)
    ensures
        pins_after_set(pins_after_set(pins, pin), pin) == pins_after_set(pins, pin),
{
    assert(pins_after_set(pins_after_set(pins, pin), pin) =~= pins_after_set(pins, pin));
}

/// After `set_pin` the pin reads as held, after `clear_pin` as released,
/// and no other pin changes.
pub proof fn law_pin_read_after_write(pins: Set<int>, pin: u8, other: int)
    requires
        pin < 192,
        other != pin as int,
    ensures
        pins_after_set(pins, pin).contains(pin as int),
        !pins_after_clear(pins, pin).contains(pin as int),
        pins_after_set(pins, pin).contains(other) == pins.contains(other),
        pins_after_clear(pins, pin).contains(other) == pins.contains(other),
{
}

/// A call that changes one pin: `set_pin`, or `clear_pin` /
/// `on_pin_release`.
#[derive(Debug, Clone, Copy, PartialEq, Eq)]
pub enum PinCall {
    /// `set_pin(pin)`.
    Press(u8),
    /// `clear_pin(pin)` or `on_pin_release(pin)`.
    Release(u8),
}

/// The held pins after the calls, in order.
pub open spec fn apply_pin_calls(pins: Set<int>, calls: Seq<PinCall>) -> Set<int>
    decreases calls.len(),
{
    if calls.len() == 0 {
        pins
    } else {
        let before = apply_pin_calls(pins, calls.drop_last());
        match calls.last() {
            PinCall::Press(p) => pins_after_set(before, p),
            PinCall::Release(p) => pins_after_clear(before, p),
        }
    }
}

/// The last of the calls that names `pin` is a `set_pin`.
pub open spec fn last_call_sets(calls: Seq<PinCall>, pin: int) -> bool
    decreases calls.len(),
{
    if calls.len() == 0 {
        false
    } else {
        match calls.last() {
            PinCall::Press(p) => p as int == pin || last_call_sets(calls.drop_last(), pin),
            PinCall::Release(p) => p as int != pin && last_call_sets(calls.drop_last(), pin),
        }
    }
}

/// From no pin held, after any sequence of pin calls, a pin below 192 is
/// held (its bit in `current_bitmask` is 1) exactly when the last call
/// naming it was `set_pin`.
pub proof fn law_bitmask_follows_last_call(calls: Seq<PinCall>, pin: int, state: CoreState)
    requires
        0 <= pin < 192,
        state.pressed_pins() == apply_pin_calls(Set::empty(), calls),
    ensures
        apply_pin_calls(Set::empty(), calls).contains(pin) == last_call_sets(calls, pin),
        mask_has(state.words(), pin) == last_call_sets(calls, pin),
    decreases calls.len(),
{
    lemma_calls_follow_last(calls, pin);
}

proof fn lemma_calls_follow_last(calls: Seq<PinCall>, pin: int)
    requires
        0 <= pin < 192,
    ensures
        apply_pin_calls(Set::empty(), calls).contains(pin) == last_call_sets(calls, pin),
    decreases calls.len(),
{
    if calls.len() > 0 {
        lemma_calls_follow_last(calls.drop_last(), pin);
    }
}

/// A combo window opened by a press. It resolves only if no newer press
/// opened another window before `delay_ms` ran out, and it resolves
/// against the configuration that was active at the press.
#[derive(Debug, Clone, Copy, PartialEq, Eq)]
pub struct ComboWindow {
    /// Combo generation at the press that opened the window.
    pub generation: u64,
    /// How long the window stays open, in milliseconds.
    pub delay_ms: u64,
    /// Key hold delay of the configuration active at the press.
    pub key_hold_delay_ms: u64,
    /// Which installed configuration was active at the press (its index in
    /// installation order).
    pub config: usize,
}

/// The daemon's shared state: the pressed-pin bitmask, the combo
/// generation that cancels stale windows, and every configuration
/// installed so far (the last one is active). An earlier configuration
/// stays reachable for the windows and pressed peripherals that began
/// under it.
pub struct CoreState {
    bitmask: [u64; 3],
    combo_generation: u64,
    configs: Vec<Config>,
}

/// `before` and `after` hold the same configurations, except that
/// configuration `k` may have changed into `ck`.
pub open spec fn replaced_at(before: Seq<Config>, after: Seq<Config>, k: int, ck: Config) -> bool {
    &&& 0 <= k < before.len()
    &&& after == before.update(k, ck)
}

/// A press on configuration `k` of `before`, giving `after` and `action`.
pub open spec fn press_at_outcome(before: Seq<Config>, after: Seq<Config>, k: usize, index: usize, action: PressAction) -> bool {
    if k < before.len() {
        exists|c2: Config| replaced_at(before, after, k as int, c2) && press_in_outcome(before[k as int], c2, index, action)
    } else {
        action is Ignored && after == before
    }
}

/// A release on configuration `k` of `before`, giving `after` and `action`.
pub open spec fn release_at_outcome(before: Seq<Config>, after: Seq<Config>, k: usize, index: usize, action: ReleaseAction) -> bool {
    if k < before.len() {
        exists|c2: Config| replaced_at(before, after, k as int, c2) && release_in_outcome(before[k as int], c2, index, action)
    } else {
        action is Ignored && after == before
    }
}

/// What `on_pin_press` does: with a configuration active, the generation
/// moves on by one and a window opens on the active configuration;
/// otherwise nothing changes. Pins and configurations are left alone.
pub open spec fn opens_window(before: CoreState, after: CoreState, window: Option<ComboWindow>) -> bool {
    &&& after.words() == before.words()
    &&& after.installed() == before.installed()
    &&& match before.active_config() {
        None => window is None && after.combo_generation() == before.combo_generation(),
        Some(c) => {
            &&& after.combo_generation() == before.combo_generation() + 1
            &&& window == Some(ComboWindow {
                generation: after.combo_generation(),
                delay_ms: c.combo_delay_ms,
                key_hold_delay_ms: c.key_hold_delay_ms,
                config: (before.installed().len() - 1) as usize,
            })
        },
    }
}

impl CoreState {
    #[verifier::type_invariant]
    spec fn configs_wf(self) -> bool {
        forall|k: int| 0 <= k < self.configs@.len() ==> (#[trigger] self.configs@[k]).wf()
    }

    /// The three words of the pressed-pin bitmask.
    pub closed spec fn words(&self) -> [u64; 3] {
        self.bitmask
    }

    /// The current combo generation.
    pub closed spec fn combo_generation(&self) -> u64 {
        self.combo_generation
    }

    /// Every configuration installed so far, in installation order.
    pub closed spec fn installed(&self) -> Seq<Config> {
        self.configs@
    }

    /// The active configuration: the last one installed, if any.
    pub open spec fn active_config(&self) -> Option<Config> {
        if self.installed().len() > 0 {
            Some(self.installed().last())
        } else {
            None
        }
    }

    /// The BOARD pins currently held down.
    pub open spec fn pressed_pins(&self) -> Set<int> {
        pins_of(self.words())
    }

    /// No pin held, generation 0, no configuration.
    pub fn new() -> (s: Self)
        ensures
            s.words()@ == seq![0u64, 0u64, 0u64],
            s.pressed_pins() == Set::<int>::empty(),
            s.combo_generation() == 0,
            s.installed().len() == 0,
    {
        let s = CoreState { bitmask: [0u64, 0u64, 0u64], combo_generation: 0, configs: Vec::new() };
        proof {
            assert forall|pin: int| !#[trigger] s.pressed_pins().contains(pin) by {
                if 0 <= pin < 192 {
                    let w = pin / 64;
                    let j = (pin % 64) as u64;
                    assert((0u64 >> j) & 1 == 0) by (bit_vector);
                }
            }
            assert(s.pressed_pins() =~= Set::<int>::empty());
        }
        s
    }

    /// The pressed-pin bitmask: bit N of word W is set when BOARD pin
    /// 64 * W + N is held.
    pub fn current_bitmask(&self) -> (r: (u64, u64, u64))
        ensures
            r == (self.words()@[0], self.words()@[1], self.words()@[2]),
    {
        (self.bitmask[0], self.bitmask[1], self.bitmask[2])
    }

    /// The current combo generation.
    pub fn generation(&self) -> (g: u64)
        ensures
            g == self.combo_generation(),
    {
        self.combo_generation
    }

    /// The active configuration, if any; it is well formed.
    pub fn config(&self) -> (r: Option<&Config>)
        ensures
            match r {
                Some(c) => self.active_config() == Some(*c) && c.wf(),
                None => self.active_config() is None,
            },
    {
        proof {
            use_type_invariant(self);
        }
        let n = self.configs.len();
        if n > 0 {
            Some(&self.configs[n - 1])
        } else {
            None
        }
    }

    /// Installed configuration `k` (in installation order), if there is
    /// one; it is well formed.
    pub fn config_at(&self, k: usize) -> (r: Option<&Config>)
        ensures
            match r {
                Some(c) => k < self.installed().len() && *c == self.installed()[k as int] && c.wf(),
                None => k >= self.installed().len(),
            },
    {
        proof {
            use_type_invariant(self);
        }
        if k < self.configs.len() {
            Some(&self.configs[k])
        } else {
            None
        }
    }

    /// Marks a pin as held. Pins from 192 on are ignored.
    pub fn set_pin(&mut self, board_pin: u8)
        ensures
            final(self).pressed_pins() == pins_after_set(old(self).pressed_pins(), board_pin),
            final(self).combo_generation() == old(self).combo_generation(),
            final(self).installed() == old(self).installed(),
    {
        proof {
            use_type_invariant(&*self);
        }
        let idx = (board_pin / 64) as usize;
        if idx < 3 {
            let bit = (board_pin % 64) as u64;
            self.bitmask[idx] = self.bitmask[idx] | (1u64 << bit);
            proof {
                lemma_mask_insert(old(self).bitmask, self.bitmask, board_pin as int);
            }
        }
    }

    /// Marks a pin as released. Pins from 192 on are ignored.
    pub fn clear_pin(&mut self, board_pin: u8)
        ensures
            final(self).pressed_pins() == pins_after_clear(old(self).pressed_pins(), board_pin),
            final(self).combo_generation() == old(self).combo_generation(),
            final(self).installed() == old(self).installed(),
    {
        proof {
            use_type_invariant(&*self);
        }
        let idx = (board_pin / 64) as usize;
        if idx < 3 {
            let bit = (board_pin % 64) as u64;
            self.bitmask[idx] = self.bitmask[idx] & !(1u64 << bit);
            proof {
                lemma_mask_remove(old(self).bitmask, self.bitmask, board_pin as int);
            }
        }
    }

    /// Installs a new (or reloaded) configuration; it becomes the active one.
    pub fn set_config(&mut self, config: Config)
        requires
            config.wf(),
        ensures
            final(self).installed() == old(self).installed().push(config),
            final(self).active_config() == Some(config),
            final(self).words() == old(self).words(),
            final(self).combo_generation() == old(self).combo_generation(),
    {
        proof {
            use_type_invariant(&*self);
        }
        let mut taken: Vec<Config> = Vec::new();
        std::mem::swap(&mut taken, &mut self.configs);
        taken.push(config);
        self.configs = taken;
    }

    /// The number of configurations installed so far.
    pub fn installed_count(&self) -> (n: usize)
        ensures
            n == self.installed().len(),
    {
        self.configs.len()
    }

    /// A pin was pressed: with a configuration active, a new combo window
    /// opens on it and every older window becomes stale.
    pub fn on_pin_press(&mut self, board_pin: u8) -> (window: Option<ComboWindow>)
        requires
            old(self).active_config() is Some ==> old(self).combo_generation() < u64::MAX,
        ensures
            opens_window(*old(self), *final(self), window),
    {
        proof {
            use_type_invariant(&*self);
        }
        let n = self.configs.len();
        if n == 0 {
            return None;
        }
        let delay = self.configs[n - 1].combo_delay_ms;
        let hold = self.configs[n - 1].key_hold_delay_ms;
        self.combo_generation = self.combo_generation + 1;
        Some(ComboWindow { generation: self.combo_generation, delay_ms: delay, key_hold_delay_ms: hold, config: n - 1 })
    }

    /// What a combo window dispatches when it ends: nothing if a newer press
    /// opened another window, otherwise the longest-match resolution of the
    /// pins held now over the configuration active at the press.
    pub open spec fn window_result(&self, window: ComboWindow) -> Seq<usize> {
        if window.generation == self.combo_generation() && window.config < self.installed().len() {
            dispatch_order(self.installed()[window.config as int].peripherals@, self.words())
        } else {
            Seq::empty()
        }
    }

    /// Resolves a combo window that has run its delay: the indices, in the
    /// window's configuration, of the peripherals to dispatch, in order.
    pub fn resolve_combo_window(&self, window: ComboWindow) -> (order: Vec<usize>)
        ensures
            order@ == self.window_result(window),
            window.config < self.installed().len() ==> forall|t: int|
                0 <= t < order@.len() ==> #[trigger] order@[t] < self.installed()[window.config as int].peripherals@.len(),
    {
        proof {
            use_type_invariant(self);
        }
        if window.generation != self.combo_generation || window.config >= self.configs.len() {
            return Vec::new();
        }
        resolve_and_dispatch_global(&self.configs[window.config], self.bitmask)
    }

    /// Presses peripheral `index` of installed configuration `config` (see
    /// `dispatch_press`). Past the end of either, nothing happens.
    pub fn press_peripheral(&mut self, config: usize, index: usize) -> (action: PressAction)
        requires
            config < old(self).installed().len() && index < old(self).installed()[config as int].peripherals@.len()
                ==> press_fits(old(self).installed()[config as int].peripherals@[index as int]),
        ensures
            final(self).words() == old(self).words(),
            final(self).combo_generation() == old(self).combo_generation(),
            press_at_outcome(old(self).installed(), final(self).installed(), config, index, action),
    {
        proof {
            use_type_invariant(&*self);
        }
        if config >= self.configs.len() {
            return PressAction::Ignored;
        }
        let mut taken: Vec<Config> = Vec::new();
        std::mem::swap(&mut taken, &mut self.configs);
        let ghost before = taken@;
        let action = press_in(&mut taken[config], index);
        proof {
            assert(replaced_at(before, taken@, config as int, taken@[config as int]));
            assert forall|k: int| 0 <= k < taken@.len() implies (#[trigger] taken@[k]).wf() by {
                if k != config {
                    assert(taken@[k] == before[k]);
                }
            }
        }
        self.configs = taken;
        action
    }

    /// Releases peripheral `index` of installed configuration `config` (see
    /// `dispatch_release`). Past the end of either, nothing happens.
    pub fn release_peripheral(&mut self, config: usize, index: usize) -> (action: ReleaseAction)
        ensures
            final(self).words() == old(self).words(),
            final(self).combo_generation() == old(self).combo_generation(),
            release_at_outcome(old(self).installed(), final(self).installed(), config, index, action),
    {
        proof {
            use_type_invariant(&*self);
        }
        if config >= self.configs.len() {
            return ReleaseAction::Ignored;
        }
        let mut taken: Vec<Config> = Vec::new();
        std::mem::swap(&mut taken, &mut self.configs);
        let ghost before = taken@;
        let action = release_in(&mut taken[config], index);
        proof {
            assert(replaced_at(before, taken@, config as int, taken@[config as int]));
            assert forall|k: int| 0 <= k < taken@.len() implies (#[trigger] taken@[k]).wf() by {
                if k != config {
                    assert(taken@[k] == before[k]);
                }
            }
        }
        self.configs = taken;
        action
    }

    /// A pin was released: it is cleared from the bitmask and every active
    /// peripheral of the active configuration that uses it is released.
    /// Returns the release events, in configuration order, with the index
    /// of each peripheral. Earlier configurations are left alone.
    pub fn on_pin_release(&mut self, board_pin: u8) -> (events: Vec<(usize, ReleaseAction)>)
        ensures
            final(self).pressed_pins() == pins_after_clear(old(self).pressed_pins(), board_pin),
            final(self).combo_generation() == old(self).combo_generation(),
            old(self).installed().len() == 0 ==> events@.len() == 0 && final(self).installed() == old(self).installed(),
            old(self).installed().len() > 0 ==> exists|c2: Config|
                replaced_at(old(self).installed(), final(self).installed(), old(self).installed().len() - 1, c2)
                && pin_release_outcome(old(self).installed().last(), c2, board_pin, events@),
    {
        self.clear_pin(board_pin);
        proof {
            use_type_invariant(&*self);
        }
        let n = self.configs.len();
        if n == 0 {
            return Vec::new();
        }
        let mut taken: Vec<Config> = Vec::new();
        std::mem::swap(&mut taken, &mut self.configs);
        let ghost before = taken@;
        let events = release_users(&mut taken[n - 1], board_pin);
        proof {
            assert(replaced_at(before, taken@, n - 1, taken@[n - 1]));
            assert(before.last() == before[n - 1]);
            assert(pin_release_outcome(before.last(), taken@[n - 1], board_pin, events@));
            assert forall|k: int| 0 <= k < taken@.len() implies (#[trigger] taken@[k]).wf() by {
                if k != n - 1 {
                    assert(taken@[k] == before[k]);
                }
            }
        }
        self.configs = taken;
        events
    }

    /// True while peripheral `index` of installed configuration `config` is
    /// active.
    pub fn peripheral_is_pressed(&self, config: usize, index: usize) -> (r: bool)
        ensures
            r == (config < self.installed().len() && index < self.installed()[config as int].peripherals@.len()
                && self.installed()[config as int].peripherals@[index as int].is_pressed),
    {
        config < self.configs.len() && index < self.configs[config].peripherals.len()
            && self.configs[config].peripherals[index].is_pressed
    }

    /// A key-hold repeat task of peripheral `index` of installed
    /// configuration `config`, started for `hold_generation`, keeps
    /// repeating (see `key_hold_continues`).
    pub fn key_hold_continues_at(&self, config: usize, index: usize, hold_generation: u64) -> (r: bool)
        ensures
            r == (config < self.installed().len() && index < self.installed()[config as int].peripherals@.len()
                && hold_active(self.installed()[config as int].peripherals@[index as int], hold_generation)),
    {
        config < self.configs.len() && index < self.configs[config].peripherals.len()
            && key_hold_continues(&self.configs[config].peripherals[index], hold_generation)
    }
}

/// A window that a newer press has superseded dispatches nothing.
pub proof fn law_stale_window_dispatches_nothing(state: CoreState, window: ComboWindow)
    requires
        window.generation != state.combo_generation(),
    ensures
        state.window_result(window).len() == 0,
{
}

/// A later press cancels an earlier window: once a window has opened and
/// any later press (after any calls that leave the generation no lower)
/// opens another, the first window dispatches nothing.
pub proof fn law_newer_press_cancels_window(
    s0: CoreState,
    s1: CoreState,
    first: ComboWindow,
    s2: CoreState,
    s3: CoreState,
    second: ComboWindow,
)
    requires
        opens_window(s0, s1, Some(first)),
        s2.combo_generation() >= s1.combo_generation(),
        opens_window(s2, s3, Some(second)),
    ensures
        s3.window_result(first).len() == 0,
        s3.window_result(second) == (if second.config < s3.installed().len() {
            dispatch_order(s3.installed()[second.config as int].peripherals@, s3.words())
        } else {
            Seq::empty()
        }),
{
}

/// A window resolves against the configuration active at its press, even
/// after newer configurations were installed.
pub proof fn law_window_keeps_its_configuration(s0: CoreState, s1: CoreState, window: ComboWindow, s2: CoreState)
    requires
        s0.installed().len() <= usize::MAX,
        opens_window(s0, s1, Some(window)),
        s2.installed().len() >= s1.installed().len(),
        s2.installed().subrange(0, s1.installed().len() as int) == s1.installed(),
        s2.combo_generation() == s1.combo_generation(),
    ensures
        s2.window_result(window) == dispatch_order(s0.active_config()->0.peripherals@, s2.words()),
{
    let k = window.config as int;
    assert(k == s0.installed().len() - 1);
    assert(s2.installed().subrange(0, s1.installed().len() as int)[k] == s2.installed()[k]);
    assert(s2.installed()[k] == s1.installed()[k]);
    assert(s0.active_config()->0 == s0.installed()[k]);
}

} // verus!
