//! Peripheral mappings, the configuration index built from them, and the
//! longest-match combo rule.

use std::collections::HashMap;
use vstd::prelude::*;

use crate::bits::{lemma_words_cover, mask_has, pins_of};

verus! {

broadcast use vstd::std_specs::hash::group_hash_axioms;

/// The action fired when a peripheral is triggered.
#[derive(Debug, Clone)]
pub enum EventType {
    /// Joystick button: EV_KEY press, then release when the pins clear.
    Button { evdev_code: u32 },
    /// Keyboard key: EV_KEY press, repeating at about 30 Hz after the hold
    /// delay, released when the pins clear.
    Key { evdev_code: u32 },
    /// Joystick axis: EV_ABS to `press_value` on press, back to zero on release.
    Axis { evdev_type: u32, evdev_code: u32, press_value: i32 },
    /// Shell command run through `/bin/bash -c`; no input event.
    Command { bash: String },
}

/// A single button / key / axis / command mapping.
///
/// Several pins in `pin_mask` make a combo: all of them must be held. When
/// two peripherals match the same pins, the one with more pins wins.
#[derive(Debug)]
pub struct Peripheral {
    /// Human-readable name from the configuration (e.g. "START").
    pub name: String,
    /// Index of the device: 0-3 joypads, 4 keyboard, 5 commands.
    pub device_index: usize,
    /// Bit N of word W set means virtual BOARD pin 64 * W + N must be held.
    pub pin_mask: [u64; 3],
    /// Number of set bits in `pin_mask`; the higher count wins combo conflicts.
    pub pin_count: u8,
    /// What to do when triggered.
    pub event_type: EventType,
    /// True while the peripheral's action is active (between press and release).
    pub is_pressed: bool,
    /// Bumped each time a key-hold repeat starts, so that stale repeats stop.
    pub hold_generation: u64,
}

impl Peripheral {
    /// True when every pin of `pin_mask` is set in `gpio_bitmask`.
    pub fn bitmask_in(&self, gpio_bitmask: [u64; 3]) -> (r: bool)
        ensures
            r == pins_of(self.pin_mask).subset_of(pins_of(gpio_bitmask)),
    {
        proof {
            lemma_words_cover(gpio_bitmask, self.pin_mask);
        }
        (gpio_bitmask[0] & self.pin_mask[0] == self.pin_mask[0]) && (gpio_bitmask[1]
            & self.pin_mask[1] == self.pin_mask[1]) && (gpio_bitmask[2] & self.pin_mask[2]
            == self.pin_mask[2])
    }
}

/// `a` comes before `b` in longest-first order: more pins first, and among
/// equal pin counts the earlier input first.
pub open spec fn precedes(ps: Seq<Peripheral>, a: int, b: int) -> bool {
    ||| ps[a].pin_count > ps[b].pin_count
    ||| ps[a].pin_count == ps[b].pin_count && a < b
}

/// `perm` lists every index of `ps` exactly once, in longest-first order.
pub open spec fn is_longest_first_order(perm: Seq<int>, ps: Seq<Peripheral>) -> bool {
    &&& perm.len() == ps.len()
    &&& forall|i: int| 0 <= i < perm.len() ==> 0 <= #[trigger] perm[i] < ps.len()
    &&& forall|i: int, j: int|
        0 <= i < j < perm.len() ==> precedes(ps, #[trigger] perm[i], #[trigger] perm[j])
}

/// The sequence of `ps` rearranged by `perm`.
pub open spec fn permuted(ps: Seq<Peripheral>, perm: Seq<int>) -> Seq<Peripheral> {
    perm.map_values(|k: int| ps[k])
}

/// Pin counts never increase along `ps`.
pub open spec fn longest_first(ps: Seq<Peripheral>) -> bool {
    forall|i: int, j: int| 0 <= i < j < ps.len() ==> #[trigger] ps[i].pin_count >= #[trigger] ps[j].pin_count
}

/// Indices `i < n` of `ps`, in increasing order, whose device is `d`.
pub open spec fn device_members(ps: Seq<Peripheral>, n: int, d: int) -> Seq<usize>
    decreases n,
{
    if n <= 0 {
        Seq::empty()
    } else if ps[n - 1].device_index == d {
        device_members(ps, n - 1, d).push((n - 1) as usize)
    } else {
        device_members(ps, n - 1, d)
    }
}

/// Indices `i < n` of `ps`, in increasing order, whose mask holds `pin`.
pub open spec fn pin_users(ps: Seq<Peripheral>, n: int, pin: int) -> Seq<usize>
    decreases n,
{
    if n <= 0 {
        Seq::empty()
    } else if mask_has(ps[n - 1].pin_mask, pin) {
        pin_users(ps, n - 1, pin).push((n - 1) as usize)
    } else {
        pin_users(ps, n - 1, pin)
    }
}

proof fn lemma_order_covers(perm: Seq<int>, ps: Seq<Peripheral>, y: int)
    requires
        is_longest_first_order(perm, ps),
        0 <= y < ps.len(),
    ensures
        perm.contains(y),
{
    let n = ps.len() as int;
    assert(perm.no_duplicates()) by {
        assert forall|i: int, j: int| 0 <= i < perm.len() && 0 <= j < perm.len() && i != j implies perm[i] != perm[j] by {
            if i < j {
                assert(precedes(ps, perm[i], perm[j]));
            } else {
                assert(precedes(ps, perm[j], perm[i]));
            }
        }
    }
    perm.unique_seq_to_set();
    let range = Set::new(|k: int| 0 <= k < n);
    vstd::set_lib::lemma_int_range(0, n);
    assert(vstd::set_lib::set_int_range(0, n) =~= range);
    assert(perm.to_set().subset_of(range));
    vstd::set_lib::lemma_subset_equality(perm.to_set(), range);
    assert(range.contains(y));
}

/// The elements placed before position `t` of a longest-first order are
/// exactly the indices that precede `perm[t]`.
proof fn lemma_order_prefix(perm: Seq<int>, ps: Seq<Peripheral>, t: int)
    requires
        is_longest_first_order(perm, ps),
        0 <= t < perm.len(),
    ensures
        perm.subrange(0, t).to_set() == Set::new(|y: int| 0 <= y < ps.len() && precedes(ps, y, perm[t])),
        perm.subrange(0, t).no_duplicates(),
{
    let x = perm[t];
    let pre = perm.subrange(0, t);
    let target = Set::new(|y: int| 0 <= y < ps.len() && precedes(ps, y, x));
    assert forall|y: int| #[trigger] pre.to_set().contains(y) == target.contains(y) by {
        if pre.to_set().contains(y) {
            assert(pre.contains(y));
            let k = choose|k: int| 0 <= k < pre.len() && pre[k] == y;
            assert(perm[k] == y);
            assert(precedes(ps, perm[k], perm[t]));
        }
        if target.contains(y) {
            lemma_order_covers(perm, ps, y);
            let k = choose|k: int| 0 <= k < perm.len() && perm[k] == y;
            if k >= t {
                if k > t {
                    assert(precedes(ps, perm[t], perm[k]));
                }
            }
            assert(pre[k] == y);
            assert(pre.contains(y));
        }
    }
    assert(pre.to_set() =~= target);
    assert forall|i: int, j: int| 0 <= i < pre.len() && 0 <= j < pre.len() && i != j implies pre[i] != pre[j] by {
        if i < j {
            assert(precedes(ps, perm[i], perm[j]));
        } else {
            assert(precedes(ps, perm[j], perm[i]));
        }
    }
}

/// There is only one longest-first order of a list of peripherals, so
/// `build_config` fixes the order of the configuration completely.
pub proof fn law_longest_first_order_unique(p1: Seq<int>, p2: Seq<int>, ps: Seq<Peripheral>)
    requires
        is_longest_first_order(p1, ps),
        is_longest_first_order(p2, ps),
    ensures
        p1 == p2,
{
    assert forall|t: int| 0 <= t < p1.len() implies #[trigger] p1[t] == p2[t] by {
        let x = p1[t];
        lemma_order_covers(p2, ps, x);
        let u = choose|u: int| 0 <= u < p2.len() && p2[u] == x;
        lemma_order_prefix(p1, ps, t);
        lemma_order_prefix(p2, ps, u);
        p1.subrange(0, t).unique_seq_to_set();
        p2.subrange(0, u).unique_seq_to_set();
        assert(t == u);
    }
    assert(p1 =~= p2);
}

/// Runtime configuration: the peripherals and the indexes over them.
pub struct Config {
    /// All peripherals, longest pin_count first.
    pub peripherals: Vec<Peripheral>,
    /// Per-device lists of indices into `peripherals` (0-3 joypads,
    /// 4 keyboard, 5 commands), in the order of `peripherals`.
    pub device_peripherals: [Vec<usize>; 6],
    /// BOARD pin number to the indices of the peripherals that use it;
    /// only pins that some peripheral uses are keys.
    pub pin_map: HashMap<u8, Vec<usize>>,
    /// Milliseconds to wait for more presses before resolving a combo.
    pub combo_delay_ms: u64,
    /// Milliseconds before a held keyboard key starts repeating.
    pub key_hold_delay_ms: u64,
}

impl Config {
    /// The peripherals are longest-first and both indexes describe them.
    pub open spec fn wf(&self) -> bool {
        let ps = self.peripherals@;
        &&& longest_first(ps)
        &&& forall|d: int|
            0 <= d < 6 ==> (#[trigger] self.device_peripherals@[d])@ == device_members(
                ps,
                ps.len() as int,
                d,
            )
        &&& forall|pin: u8| #[trigger]
            self.pin_map@.contains_key(pin) <==> (pin < 192 && pin_users(
                ps,
                ps.len() as int,
                pin as int,
            ).len() > 0)
        &&& forall|pin: u8| #[trigger]
            self.pin_map@.contains_key(pin) ==> self.pin_map@[pin]@ == pin_users(
                ps,
                ps.len() as int,
                pin as int,
            )
    }
}

fn sort_longest_first(peripherals: Vec<Peripheral>) -> (sorted: Vec<Peripheral>)
    ensures
        exists|perm: Seq<int>|
            is_longest_first_order(perm, peripherals@) && sorted@ == permuted(peripherals@, perm),
{
    let ghost orig = peripherals@;
    let n = peripherals.len();
    let mut rest = peripherals;
    let mut sorted: Vec<Peripheral> = Vec::new();
    let ghost mut perm: Seq<int> = Seq::empty();
    let mut k: usize = 0;
    while k < n
        invariant
            n == orig.len(),
            k <= n,
            rest@ == orig.subrange(k as int, n as int),
            sorted@.len() == k,
            perm.len() == k,
            forall|t: int| 0 <= t < k ==> 0 <= #[trigger] perm[t] < k,
            forall|t: int| 0 <= t < k ==> #[trigger] sorted@[t] == orig[perm[t]],
            forall|s: int, t: int| 0 <= s < t < k ==> precedes(orig, #[trigger] perm[s], #[trigger] perm[t]),
        decreases n - k,
    {
        let p = rest.remove(0);
        assert(p == orig[k as int]);
        let c = p.pin_count;
        let mut pos: usize = 0;
        while pos < sorted.len() && sorted[pos].pin_count >= c
            invariant
                pos <= sorted@.len(),
                forall|t: int| 0 <= t < pos ==> (#[trigger] sorted@[t]).pin_count >= c,
            decreases sorted@.len() - pos,
        {
            pos += 1;
        }
        proof {
            assert forall|t: int| pos <= t < k implies (#[trigger] sorted@[t]).pin_count < c by {
                if t > pos {
                    assert(precedes(orig, perm[pos as int], perm[t]));
                }
            }
        }
        let ghost old_sorted = sorted@;
        let ghost old_perm = perm;
        sorted.insert(pos, p);
        proof {
            perm = perm.insert(pos as int, k as int);
            assert forall|t: int| 0 <= t <= k implies #[trigger] sorted@[t] == orig[perm[t]] by {
                if t < pos {
                    assert(sorted@[t] == old_sorted[t]);
                } else if t > pos {
                    assert(sorted@[t] == old_sorted[t - 1]);
                    assert(perm[t] == old_perm[t - 1]);
                }
            }
            assert forall|s: int, t: int| 0 <= s < t <= k implies precedes(orig, #[trigger] perm[s], #[trigger] perm[t]) by {
                if s < pos && t < pos {
                    assert(precedes(orig, old_perm[s], old_perm[t]));
                } else if s < pos && t == pos {
                    assert(old_sorted[s].pin_count >= c);
                } else if s < pos {
                    assert(precedes(orig, old_perm[s], old_perm[t - 1]));
                } else if s == pos {
                    assert(old_sorted[t - 1].pin_count < c);
                } else {
                    assert(precedes(orig, old_perm[s - 1], old_perm[t - 1]));
                }
            }
        }
        k += 1;
    }
    proof {
        assert(sorted@ =~= permuted(orig, perm));
        assert(is_longest_first_order(perm, orig));
    }
    sorted
}

fn device_list(ps: &Vec<Peripheral>, d: usize) -> (r: Vec<usize>)
    ensures
        r@ == device_members(ps@, ps@.len() as int, d as int),
{
    let mut r: Vec<usize> = Vec::new();
    let mut i: usize = 0;
    while i < ps.len()
        invariant
            i <= ps@.len(),
            r@ == device_members(ps@, i as int, d as int),
        decreases ps@.len() - i,
    {
        if ps[i].device_index == d {
            r.push(i);
        }
        i += 1;
    }
    r
}

/// True when `pin` (below 192) is held in `mask`.
pub fn mask_has_pin(mask: &[u64; 3], pin: u8) -> (r: bool)
    requires
        pin < 192,
    ensures
        r == mask_has(*mask, pin as int),
{
    let w = (pin / 64) as usize;
    let b = (pin % 64) as u64;
    (mask[w] >> b) & 1 == 1
}

fn pin_list(ps: &Vec<Peripheral>, pin: u8) -> (r: Vec<usize>)
    requires
        pin < 192,
    ensures
        r@ == pin_users(ps@, ps@.len() as int, pin as int),
{
    let mut r: Vec<usize> = Vec::new();
    let mut i: usize = 0;
    while i < ps.len()
        invariant
            pin < 192,
            i <= ps@.len(),
            r@ == pin_users(ps@, i as int, pin as int),
        decreases ps@.len() - i,
    {
        if mask_has_pin(&ps[i].pin_mask, pin) {
            r.push(i);
        }
        i += 1;
    }
    r
}

fn build_pin_map(ps: &Vec<Peripheral>) -> (m: HashMap<u8, Vec<usize>>)
    ensures
        forall|pin: u8| #[trigger]
            m@.contains_key(pin) <==> (pin < 192 && pin_users(ps@, ps@.len() as int, pin as int).len()
                > 0),
        forall|pin: u8| #[trigger]
            m@.contains_key(pin) ==> m@[pin]@ == pin_users(ps@, ps@.len() as int, pin as int),
{
    let mut m: HashMap<u8, Vec<usize>> = HashMap::new();
    let mut pin: u8 = 0;
    while pin < 192
        invariant
            pin <= 192,
            forall|q: u8| #[trigger]
                m@.contains_key(q) <==> (q < pin && pin_users(ps@, ps@.len() as int, q as int).len()
                    > 0),
            forall|q: u8| #[trigger]
                m@.contains_key(q) ==> m@[q]@ == pin_users(ps@, ps@.len() as int, q as int),
        decreases 192 - pin,
    {
        let users = pin_list(ps, pin);
        if users.len() > 0 {
            m.insert(pin, users);
        }
        pin += 1;
    }
    m
}

/// Builds the runtime configuration: peripherals longest pin_count first
/// (equal counts keep their input order), the per-device lists and the
/// pin-to-peripherals index.
pub fn build_config(peripherals: Vec<Peripheral>, combo_delay_ms: u64, key_hold_delay_ms: u64) -> (config: Config)
    requires
        forall|i: int| 0 <= i < peripherals@.len() ==> #[trigger] peripherals@[i].device_index < 6,
    ensures
        config.wf(),
        exists|perm: Seq<int>|
            is_longest_first_order(perm, peripherals@) && config.peripherals@ == permuted(
                peripherals@,
                perm,
            ),
        config.combo_delay_ms == combo_delay_ms,
        config.key_hold_delay_ms == key_hold_delay_ms,
{
    let ghost orig = peripherals@;
    let sorted = sort_longest_first(peripherals);
    proof {
        let perm = choose|perm: Seq<int>|
            is_longest_first_order(perm, orig) && sorted@ == permuted(orig, perm);
        assert forall|i: int, j: int| 0 <= i < j < sorted@.len() implies #[trigger] sorted@[i].pin_count
            >= #[trigger] sorted@[j].pin_count by {
            assert(precedes(orig, perm[i], perm[j]));
        }
    }
    let device_peripherals = [
        device_list(&sorted, 0),
        device_list(&sorted, 1),
        device_list(&sorted, 2),
        device_list(&sorted, 3),
        device_list(&sorted, 4),
        device_list(&sorted, 5),
    ];
    let pin_map = build_pin_map(&sorted);
    let config = Config {
        peripherals: sorted,
        device_peripherals,
        pin_map,
        combo_delay_ms,
        key_hold_delay_ms,
    };
    proof {
        assert forall|d: int| 0 <= d < 6 implies (#[trigger] config.device_peripherals@[d])@
            == device_members(config.peripherals@, config.peripherals@.len() as int, d) by {
            if d == 0 {
            } else if d == 1 {
            } else if d == 2 {
            } else if d == 3 {
            } else if d == 4 {
            } else {
            }
        }
    }
    config
}

/// Every pin of `p` is held in `bitmask`.
pub open spec fn covers(bitmask: [u64; 3], p: Peripheral) -> bool {
    pins_of(p.pin_mask).subset_of(pins_of(bitmask))
}

/// The largest pin_count among the peripherals `i < n` that `bitmask`
/// covers (0 when none does).
pub open spec fn top_count(ps: Seq<Peripheral>, bitmask: [u64; 3], n: int) -> int
    decreases n,
{
    if n <= 0 {
        0
    } else {
        let t = top_count(ps, bitmask, n - 1);
        if covers(bitmask, ps[n - 1]) && ps[n - 1].pin_count > t {
            ps[n - 1].pin_count as int
        } else {
            t
        }
    }
}

/// Indices `i < n`, in increasing order, of the covered peripherals with
/// exactly `count` pins.
pub open spec fn best_matches(ps: Seq<Peripheral>, bitmask: [u64; 3], n: int, count: int) -> Seq<usize>
    decreases n,
{
    if n <= 0 {
        Seq::empty()
    } else if covers(bitmask, ps[n - 1]) && ps[n - 1].pin_count == count {
        best_matches(ps, bitmask, n - 1, count).push((n - 1) as usize)
    } else {
        best_matches(ps, bitmask, n - 1, count)
    }
}

/// The peripheral runs a shell command.
pub open spec fn is_command(p: Peripheral) -> bool {
    p.event_type is Command
}

/// The entries of `s`, in order, that are commands (`want`) or are not.
pub open spec fn of_kind(ps: Seq<Peripheral>, s: Seq<usize>, want: bool) -> Seq<usize>
    decreases s.len(),
{
    if s.len() == 0 {
        Seq::empty()
    } else {
        let r = of_kind(ps, s.drop_last(), want);
        if is_command(ps[s.last() as int]) == want {
            r.push(s.last())
        } else {
            r
        }
    }
}

/// `s` with its commands moved to the front, each part keeping its order.
pub open spec fn commands_first(ps: Seq<Peripheral>, s: Seq<usize>) -> Seq<usize> {
    of_kind(ps, s, true) + of_kind(ps, s, false)
}

/// What a resolved combo window dispatches: all covered peripherals with
/// the largest pin_count among the covered ones, commands first.
pub open spec fn dispatch_order(ps: Seq<Peripheral>, bitmask: [u64; 3]) -> Seq<usize> {
    commands_first(
        ps,
        best_matches(ps, bitmask, ps.len() as int, top_count(ps, bitmask, ps.len() as int)),
    )
}

proof fn lemma_top_bound(ps: Seq<Peripheral>, bitmask: [u64; 3], n: int, j: int)
    requires
        0 <= j < n <= ps.len(),
        covers(bitmask, ps[j]),
    ensures
        ps[j].pin_count <= top_count(ps, bitmask, n),
    decreases n,
{
    if j < n - 1 {
        lemma_top_bound(ps, bitmask, n - 1, j);
    }
}

proof fn lemma_top_witness(ps: Seq<Peripheral>, bitmask: [u64; 3], n: int)
    requires
        n <= ps.len(),
        top_count(ps, bitmask, n) > 0,
    ensures
        exists|w: int| 0 <= w < n && covers(bitmask, ps[w]) && ps[w].pin_count == top_count(ps, bitmask, n),
    decreases n,
{
    if n > 0 {
        let t = top_count(ps, bitmask, n - 1);
        if covers(bitmask, ps[n - 1]) && ps[n - 1].pin_count > t {
            assert(covers(bitmask, ps[n - 1]));
        } else {
            lemma_top_witness(ps, bitmask, n - 1);
        }
    }
}

proof fn lemma_top_nonneg(ps: Seq<Peripheral>, bitmask: [u64; 3], n: int)
    ensures
        0 <= top_count(ps, bitmask, n),
    decreases n,
{
    if n > 0 {
        lemma_top_nonneg(ps, bitmask, n - 1);
    }
}

proof fn lemma_best_none(ps: Seq<Peripheral>, bitmask: [u64; 3], n: int, count: int)
    requires
        n <= ps.len(),
        forall|j: int| 0 <= j < n ==> !covers(bitmask, #[trigger] ps[j]),
    ensures
        best_matches(ps, bitmask, n, count) == Seq::<usize>::empty(),
        n >= 0 ==> top_count(ps, bitmask, n) == 0,
    decreases n,
{
    if n > 0 {
        lemma_best_none(ps, bitmask, n - 1, count);
    }
}

proof fn lemma_tail_below(ps: Seq<Peripheral>, bitmask: [u64; 3], i: int, n: int, top: int)
    requires
        0 <= i <= n <= ps.len(),
        top_count(ps, bitmask, i) == top,
        forall|j: int| i <= j < n ==> (#[trigger] ps[j]).pin_count < top,
    ensures
        top_count(ps, bitmask, n) == top,
        best_matches(ps, bitmask, n, top) == best_matches(ps, bitmask, i, top),
    decreases n - i,
{
    if n > i {
        lemma_tail_below(ps, bitmask, i, n - 1, top);
    }
}

fn of_kind_exec(ps: &Vec<Peripheral>, s: &Vec<usize>, want: bool, out: &mut Vec<usize>)
    requires
        forall|t: int| 0 <= t < s@.len() ==> #[trigger] s@[t] < ps@.len(),
    ensures
        final(out)@ == old(out)@ + of_kind(ps@, s@, want),
{
    let mut t: usize = 0;
    let ghost start = out@;
    while t < s.len()
        invariant
            t <= s@.len(),
            forall|u: int| 0 <= u < s@.len() ==> #[trigger] s@[u] < ps@.len(),
            out@ == start + of_kind(ps@, s@.subrange(0, t as int), want),
        decreases s@.len() - t,
    {
        let k = s[t];
        let is_cmd = match &ps[k].event_type {
            EventType::Command { .. } => true,
            _ => false,
        };
        proof {
            assert(s@.subrange(0, t as int + 1).drop_last() =~= s@.subrange(0, t as int));
        }
        if is_cmd == want {
            out.push(k);
        }
        t += 1;
    }
    proof {
        assert(s@.subrange(0, s@.len() as int) =~= s@);
    }
}

/// Resolves a combo window: every peripheral that the pressed pins cover
/// and that has the largest pin_count among those, in configuration order
/// with the commands first. These are the peripherals to dispatch, in the
/// order in which to dispatch them.
pub fn resolve_and_dispatch_global(config: &Config, bitmask: [u64; 3]) -> (order: Vec<usize>)
    requires
        longest_first(config.peripherals@),
    ensures
        order@ == dispatch_order(config.peripherals@, bitmask),
        forall|t: int| 0 <= t < order@.len() ==> #[trigger] order@[t] < config.peripherals@.len(),
{
    let ps = &config.peripherals;
    let ghost pss = ps@;
    let n = ps.len();
    let mut max_pin_count: u8 = 0;
    let mut matching: Vec<usize> = Vec::new();
    let mut stopped = false;
    let mut i: usize = 0;
    while i < n && !stopped
        invariant
            n == pss.len(),
            pss == ps@,
            longest_first(pss),
            i <= n,
            !stopped ==> max_pin_count == top_count(pss, bitmask, i as int),
            !stopped ==> matching@ == best_matches(pss, bitmask, i as int, max_pin_count as int),
            stopped ==> max_pin_count == top_count(pss, bitmask, n as int),
            stopped ==> matching@ == best_matches(pss, bitmask, n as int, max_pin_count as int),
        decreases (n - i) as int + if stopped { 0int } else { 1int },
    {
        if ps[i].bitmask_in(bitmask) {
            let c = ps[i].pin_count;
            proof {
                lemma_top_nonneg(pss, bitmask, i as int);
                if max_pin_count == 0 && c > 0 {
                    assert forall|j: int| 0 <= j < i implies !covers(bitmask, #[trigger] pss[j]) by {
                        if covers(bitmask, pss[j]) {
                            lemma_top_bound(pss, bitmask, i as int, j);
                        }
                    }
                    lemma_best_none(pss, bitmask, i as int, c as int);
                    lemma_best_none(pss, bitmask, i as int, 0);
                }
            }
            if max_pin_count == 0 {
                max_pin_count = c;
            }
            if c == max_pin_count {
                matching.push(i);
                i += 1;
            } else {
                proof {
                    lemma_top_witness(pss, bitmask, i as int);
                    let w = choose|w: int| 0 <= w < i && covers(bitmask, pss[w]) && pss[w].pin_count == max_pin_count;
                    assert(pss[w].pin_count >= pss[i as int].pin_count);
                    assert forall|j: int| i <= j < n implies (#[trigger] pss[j]).pin_count < max_pin_count by {
                        if j > i {
                            assert(pss[i as int].pin_count >= pss[j].pin_count);
                        }
                    }
                    lemma_tail_below(pss, bitmask, i as int, n as int, max_pin_count as int);
                }
                stopped = true;
            }
        } else {
            i += 1;
        }
    }
    proof {
        assert forall|t: int| 0 <= t < matching@.len() implies #[trigger] matching@[t] < pss.len() by {
            lemma_best_bounded(pss, bitmask, n as int, max_pin_count as int, t);
        }
    }
    let mut order: Vec<usize> = Vec::new();
    of_kind_exec(ps, &matching, true, &mut order);
    of_kind_exec(ps, &matching, false, &mut order);
    proof {
        lemma_of_kind_bounded(pss, matching@, true);
        lemma_of_kind_bounded(pss, matching@, false);
        assert(order@ =~= commands_first(pss, matching@));
    }
    order
}

proof fn lemma_best_bounded(ps: Seq<Peripheral>, bitmask: [u64; 3], n: int, count: int, t: int)
    requires
        n <= ps.len(),
        0 <= t < best_matches(ps, bitmask, n, count).len(),
    ensures
        best_matches(ps, bitmask, n, count)[t] < n,
    decreases n,
{
    if n > 0 {
        let prev = best_matches(ps, bitmask, n - 1, count);
        if t < prev.len() {
            lemma_best_bounded(ps, bitmask, n - 1, count, t);
        }
    }
}

proof fn lemma_of_kind_bounded(ps: Seq<Peripheral>, s: Seq<usize>, want: bool)
    ensures
        forall|t: int| 0 <= t < of_kind(ps, s, want).len() ==> s.contains(#[trigger] of_kind(ps, s, want)[t]),
    decreases s.len(),
{
    if s.len() > 0 {
        lemma_of_kind_bounded(ps, s.drop_last(), want);
        let r = of_kind(ps, s.drop_last(), want);
        assert forall|t: int| 0 <= t < of_kind(ps, s, want).len() implies s.contains(#[trigger] of_kind(ps, s, want)[t]) by {
            if t < r.len() {
                let x = r[t];
                assert(s.drop_last().contains(x));
                let k = choose|k: int| 0 <= k < s.drop_last().len() && s.drop_last()[k] == x;
                assert(s[k] == x);
            } else {
                assert(s[s.len() - 1] == s.last());
            }
        }
    }
}

/// `s` is strictly increasing.
pub open spec fn increasing(s: Seq<usize>) -> bool {
    forall|a: int, b: int| 0 <= a < b < s.len() ==> #[trigger] s[a] < #[trigger] s[b]
}

proof fn lemma_best_props(ps: Seq<Peripheral>, bitmask: [u64; 3], n: int, count: int)
    requires
        0 <= n <= ps.len(),
        n <= usize::MAX,
    ensures
        ({
            let b = best_matches(ps, bitmask, n, count);
            &&& forall|t: int|
                0 <= t < b.len() ==> (#[trigger] b[t]) < n && covers(bitmask, ps[b[t] as int])
                    && ps[b[t] as int].pin_count == count
            &&& increasing(b)
            &&& forall|j: int|
                0 <= j < n && covers(bitmask, #[trigger] ps[j]) && ps[j].pin_count == count
                    ==> b.contains(j as usize)
        }),
    decreases n,
{
    if n > 0 {
        lemma_best_props(ps, bitmask, n - 1, count);
        let prev = best_matches(ps, bitmask, n - 1, count);
        let b = best_matches(ps, bitmask, n, count);
        if covers(bitmask, ps[n - 1]) && ps[n - 1].pin_count == count {
            assert(b == prev.push((n - 1) as usize));
            assert forall|a: int, c: int| 0 <= a < c < b.len() implies #[trigger] b[a] < #[trigger] b[c] by {
                if c < prev.len() {
                    assert(prev[a] < prev[c]);
                } else {
                    assert(prev[a] < n - 1);
                }
            }
            assert forall|j: int| 0 <= j < n && covers(bitmask, #[trigger] ps[j]) && ps[j].pin_count == count implies b.contains(j as usize) by {
                if j < n - 1 {
                    let k = choose|k: int| 0 <= k < prev.len() && prev[k] == j as usize;
                    assert(b[k] == j as usize);
                } else {
                    assert(b[prev.len() as int] == j as usize);
                }
            }
        } else {
            assert forall|j: int| 0 <= j < n && covers(bitmask, #[trigger] ps[j]) && ps[j].pin_count == count implies b.contains(j as usize) by {
                if j == n - 1 {
                } else {
                }
            }
        }
    }
}

proof fn lemma_of_kind_props(ps: Seq<Peripheral>, s: Seq<usize>, want: bool)
    ensures
        ({
            let k = of_kind(ps, s, want);
            &&& forall|t: int| 0 <= t < k.len() ==> s.contains(#[trigger] k[t]) && is_command(ps[k[t] as int]) == want
            &&& increasing(s) ==> increasing(k)
            &&& forall|x: usize| #[trigger] s.contains(x) && is_command(ps[x as int]) == want ==> k.contains(x)
        }),
    decreases s.len(),
{
    if s.len() > 0 {
        let init = s.drop_last();
        lemma_of_kind_props(ps, init, want);
        let r = of_kind(ps, init, want);
        let k = of_kind(ps, s, want);
        assert forall|t: int| 0 <= t < k.len() implies s.contains(#[trigger] k[t]) && is_command(ps[k[t] as int]) == want by {
            if t < r.len() {
                assert(init.contains(r[t]));
                let a = choose|a: int| 0 <= a < init.len() && init[a] == r[t];
                assert(s[a] == r[t]);
            } else {
                assert(s[s.len() - 1] == s.last());
            }
        }
        if increasing(s) {
            assert(increasing(init)) by {
                assert forall|a: int, b: int| 0 <= a < b < init.len() implies #[trigger] init[a] < #[trigger] init[b] by {
                    assert(s[a] < s[b]);
                }
            }
            assert forall|a: int, b: int| 0 <= a < b < k.len() implies #[trigger] k[a] < #[trigger] k[b] by {
                if b < r.len() {
                    assert(r[a] < r[b]);
                } else {
                    assert(init.contains(r[a]));
                    let c = choose|c: int| 0 <= c < init.len() && init[c] == r[a];
                    assert(s[c] < s[s.len() - 1]);
                }
            }
        }
        assert forall|x: usize| #[trigger] s.contains(x) && is_command(ps[x as int]) == want implies k.contains(x) by {
            let a = choose|a: int| 0 <= a < s.len() && s[a] == x;
            if a < s.len() - 1 {
                assert(init[a] == x);
                assert(init.contains(x));
                let c = choose|c: int| 0 <= c < r.len() && r[c] == x;
                assert(k[c] == x);
            } else {
                assert(k[k.len() - 1] == x);
            }
        }
    }
}

/// The longest-match rule: a resolved window dispatches exactly the
/// covered peripherals with the largest pin_count among the covered ones,
/// each once, all commands before the other events.
pub proof fn law_longest_match(ps: Seq<Peripheral>, bitmask: [u64; 3])
    requires
        ps.len() <= usize::MAX,
    ensures
        ({
            let order = dispatch_order(ps, bitmask);
            let top = top_count(ps, bitmask, ps.len() as int);
            &&& forall|t: int|
                0 <= t < order.len() ==> (#[trigger] order[t]) < ps.len() && covers(bitmask, ps[order[t] as int])
                    && ps[order[t] as int].pin_count == top
            &&& forall|j: int| 0 <= j < ps.len() && covers(bitmask, #[trigger] ps[j]) ==> ps[j].pin_count <= top
            &&& forall|j: int|
                0 <= j < ps.len() && covers(bitmask, #[trigger] ps[j]) && ps[j].pin_count == top
                    ==> order.contains(j as usize)
            &&& order.no_duplicates()
            &&& forall|a: int, b: int|
                0 <= a < b < order.len() && is_command(ps[#[trigger] order[b] as int]) ==> is_command(
                    ps[#[trigger] order[a] as int],
                )
        }),
{
    let n = ps.len() as int;
    let top = top_count(ps, bitmask, n);
    let best = best_matches(ps, bitmask, n, top);
    lemma_best_props(ps, bitmask, n, top);
    lemma_of_kind_props(ps, best, true);
    lemma_of_kind_props(ps, best, false);
    let cmds = of_kind(ps, best, true);
    let rest = of_kind(ps, best, false);
    let order = dispatch_order(ps, bitmask);
    assert(order == cmds + rest);
    assert forall|t: int| 0 <= t < order.len() implies (#[trigger] order[t]) < ps.len() && covers(bitmask, ps[order[t] as int])
        && ps[order[t] as int].pin_count == top by {
        let x = order[t];
        if t < cmds.len() {
            assert(x == cmds[t]);
            assert(best.contains(x));
        } else {
            assert(x == rest[t - cmds.len()]);
            assert(best.contains(x));
        }
        let a = choose|a: int| 0 <= a < best.len() && best[a] == x;
    }
    assert forall|j: int| 0 <= j < ps.len() && covers(bitmask, #[trigger] ps[j]) implies ps[j].pin_count <= top by {
        lemma_top_bound(ps, bitmask, n, j);
    }
    assert forall|j: int| 0 <= j < ps.len() && covers(bitmask, #[trigger] ps[j]) && ps[j].pin_count == top implies order.contains(j as usize) by {
        let x = j as usize;
        assert(best.contains(x));
        if is_command(ps[x as int]) {
            assert(cmds.contains(x));
            let c = choose|c: int| 0 <= c < cmds.len() && cmds[c] == x;
            assert(order[c] == x);
        } else {
            assert(rest.contains(x));
            let c = choose|c: int| 0 <= c < rest.len() && rest[c] == x;
            assert(order[cmds.len() + c] == x);
        }
    }
    assert forall|a: int, b: int| 0 <= a < order.len() && 0 <= b < order.len() && a != b implies order[a] != order[b] by {
        let (lo, hi) = if a < b { (a, b) } else { (b, a) };
        if hi < cmds.len() {
            assert(cmds[lo] < cmds[hi]);
        } else if lo >= cmds.len() {
            assert(rest[lo - cmds.len()] < rest[hi - cmds.len()]);
        } else {
            assert(is_command(ps[cmds[lo] as int]));
            assert(!is_command(ps[rest[hi - cmds.len()] as int]));
        }
    }
    assert forall|a: int, b: int|
        0 <= a < b < order.len() && is_command(ps[#[trigger] order[b] as int]) implies is_command(ps[#[trigger] order[a] as int]) by {
        if b >= cmds.len() {
            assert(!is_command(ps[rest[b - cmds.len()] as int]));
        } else {
            assert(order[a] == cmds[a]);
        }
    }
}

/// `a` and `b` hold the same pins, counts and devices at every index.
pub open spec fn same_layout(a: Seq<Peripheral>, b: Seq<Peripheral>) -> bool {
    &&& a.len() == b.len()
    &&& forall|i: int|
        0 <= i < a.len() ==> (#[trigger] a[i]).device_index == b[i].device_index && a[i].pin_mask
            == b[i].pin_mask && a[i].pin_count == b[i].pin_count
}

proof fn lemma_layout_members(a: Seq<Peripheral>, b: Seq<Peripheral>, n: int, d: int, pin: int)
    requires
        same_layout(a, b),
        n <= a.len(),
    ensures
        device_members(a, n, d) == device_members(b, n, d),
        pin_users(a, n, pin) == pin_users(b, n, pin),
    decreases n,
{
    if n > 0 {
        lemma_layout_members(a, b, n - 1, d, pin);
        assert(a[n - 1].device_index == b[n - 1].device_index);
    }
}

pub(crate) proof fn lemma_layout_wf(c: Config, c2: Config)
    requires
        c.wf(),
        same_layout(c.peripherals@, c2.peripherals@),
        c2.device_peripherals == c.device_peripherals,
        c2.pin_map == c.pin_map,
    ensures
        c2.wf(),
{
    let a = c.peripherals@;
    let b = c2.peripherals@;
    assert forall|i: int, j: int| 0 <= i < j < b.len() implies #[trigger] b[i].pin_count >= #[trigger] b[j].pin_count by {
        assert(a[i].pin_count >= a[j].pin_count);
    }
    assert forall|d: int| 0 <= d < 6 implies (#[trigger] c2.device_peripherals@[d])@ == device_members(b, b.len() as int, d) by {
        lemma_layout_members(a, b, a.len() as int, d, 0);
    }
    assert forall|pin: u8| #[trigger] c2.pin_map@.contains_key(pin) <==> (pin < 192 && pin_users(b, b.len() as int, pin as int).len() > 0) by {
        lemma_layout_members(a, b, a.len() as int, 0, pin as int);
    }
    assert forall|pin: u8| #[trigger] c2.pin_map@.contains_key(pin) implies c2.pin_map@[pin]@ == pin_users(b, b.len() as int, pin as int) by {
        lemma_layout_members(a, b, a.len() as int, 0, pin as int);
    }
}

pub(crate) proof fn lemma_members_contain(ps: Seq<Peripheral>, n: int, d: int, pin: int, i: int)
    requires
        0 <= i < n <= ps.len(),
        n <= usize::MAX,
    ensures
        ps[i].device_index == d ==> device_members(ps, n, d).contains(i as usize),
        mask_has(ps[i].pin_mask, pin) ==> pin_users(ps, n, pin).contains(i as usize),
    decreases n,
{
    if i < n - 1 {
        lemma_members_contain(ps, n - 1, d, pin, i);
        if ps[i].device_index == d {
            let prev = device_members(ps, n - 1, d);
            let k = choose|k: int| 0 <= k < prev.len() && prev[k] == i as usize;
            assert(device_members(ps, n, d)[k] == i as usize);
        }
        if mask_has(ps[i].pin_mask, pin) {
            let prev = pin_users(ps, n - 1, pin);
            let k = choose|k: int| 0 <= k < prev.len() && prev[k] == i as usize;
            assert(pin_users(ps, n, pin)[k] == i as usize);
        }
    } else {
        if ps[i].device_index == d {
            let prev = device_members(ps, n - 1, d);
            assert(device_members(ps, n, d)[prev.len() as int] == i as usize);
        }
        if mask_has(ps[i].pin_mask, pin) {
            let prev = pin_users(ps, n - 1, pin);
            assert(pin_users(ps, n, pin)[prev.len() as int] == i as usize);
        }
    }
}

/// In a well-formed configuration every peripheral is listed under its
/// device, and under every pin it uses in the pin map.
pub proof fn law_config_indexes(c: Config, i: int, pin: int)
    requires
        c.wf(),
        0 <= i < c.peripherals@.len() <= usize::MAX,
    ensures
        c.peripherals@[i].device_index < 6 ==> c.device_peripherals@[c.peripherals@[i].device_index as int]@.contains(i as usize),
        pins_of(c.peripherals@[i].pin_mask).contains(pin) ==> c.pin_map@.contains_key(pin as u8)
            && c.pin_map@[pin as u8]@.contains(i as usize),
{
    let ps = c.peripherals@;
    let n = ps.len() as int;
    lemma_members_contain(ps, n, ps[i].device_index as int, pin, i);
    if pins_of(ps[i].pin_mask).contains(pin) {
        assert(0 <= pin < 192);
        assert(pin_users(ps, n, (pin as u8) as int).contains(i as usize));
        assert(pin_users(ps, n, (pin as u8) as int).len() > 0);
        let key = pin as u8;
        assert(c.pin_map@.contains_key(key) <==> (key < 192 && pin_users(ps, n, key as int).len() > 0));
        assert(c.pin_map@.contains_key(key));
        assert(c.pin_map@[key]@ == pin_users(ps, n, key as int));
    }
}

} // verus!
