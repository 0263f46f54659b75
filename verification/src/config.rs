//! Reading peripheral mappings from the plain values of the configuration:
//! type names, evdev codes, axis triples and pin lists.

use vstd::prelude::*;

use crate::bitmask::{mask_has_pin, EventType, Peripheral};
use crate::bits::{lemma_mask_insert, mask_has, pins_of};
use crate::text::{chars_of, decimal, digit_char, push_str, string_from_chars};

verus! {

broadcast use vstd::string::group_string_axioms;

/// `char::is_whitespace`: the Unicode White_Space characters.
pub open spec fn is_ws(c: char) -> bool {
    let u = c as u32;
    ||| 0x09 <= u <= 0x0D
    ||| u == 0x20
    ||| u == 0x85
    ||| u == 0xA0
    ||| u == 0x1680
    ||| 0x2000 <= u <= 0x200A
    ||| u == 0x2028
    ||| u == 0x2029
    ||| u == 0x202F
    ||| u == 0x205F
    ||| u == 0x3000
}

/// True for the Unicode White_Space characters (as `char::is_whitespace`).
pub fn is_whitespace(c: char) -> (r: bool)
    ensures
        r == is_ws(c),
{
    let u = c as u32;
    (0x09 <= u && u <= 0x0D) || u == 0x20 || u == 0x85 || u == 0xA0 || u == 0x1680 || (0x2000
        <= u && u <= 0x200A) || u == 0x2028 || u == 0x2029 || u == 0x202F || u == 0x205F || u
        == 0x3000
}

/// Which characters a strip removes.
#[derive(Debug, Clone, Copy, PartialEq, Eq)]
pub enum Strip {
    /// Unicode whitespace (`trim`).
    Whitespace,
    /// One given character (`trim_start_matches` / `trim_end_matches`).
    Char(char),
}

/// `c` is removed by `k`.
pub open spec fn strips(k: Strip, c: char) -> bool {
    match k {
        Strip::Whitespace => is_ws(c),
        Strip::Char(x) => c == x,
    }
}

fn strips_exec(k: Strip, c: char) -> (r: bool)
    ensures
        r == strips(k, c),
{
    match k {
        Strip::Whitespace => is_whitespace(c),
        Strip::Char(x) => c == x,
    }
}

/// `s` without its leading characters removed by `k`.
pub open spec fn strip_start(s: Seq<char>, k: Strip) -> Seq<char>
    decreases s.len(),
{
    if s.len() > 0 && strips(k, s[0]) {
        strip_start(s.drop_first(), k)
    } else {
        s
    }
}

/// `s` without its trailing characters removed by `k`.
pub open spec fn strip_end(s: Seq<char>, k: Strip) -> Seq<char>
    decreases s.len(),
{
    if s.len() > 0 && strips(k, s.last()) {
        strip_end(s.drop_last(), k)
    } else {
        s
    }
}

/// `str::trim`: leading and trailing whitespace removed.
pub open spec fn trim(s: Seq<char>) -> Seq<char> {
    strip_end(strip_start(s, Strip::Whitespace), Strip::Whitespace)
}

fn copy_range(v: &Vec<char>, from: usize, to: usize) -> (r: Vec<char>)
    requires
        from <= to <= v@.len(),
    ensures
        r@ == v@.subrange(from as int, to as int),
{
    let mut r: Vec<char> = Vec::new();
    let mut i = from;
    while i < to
        invariant
            from <= i <= to <= v@.len(),
            r@ == v@.subrange(from as int, i as int),
        decreases to - i,
    {
        r.push(v[i]);
        i += 1;
    }
    r
}

/// Removes the leading characters of `v` that `k` strips.
pub fn strip_start_chars(v: &Vec<char>, k: Strip) -> (r: Vec<char>)
    ensures
        r@ == strip_start(v@, k),
{
    let n = v.len();
    let mut i: usize = 0;
    assert(v@.subrange(0, n as int) =~= v@);
    while i < n && strips_exec(k, v[i])
        invariant
            i <= n == v@.len(),
            strip_start(v@, k) == strip_start(v@.subrange(i as int, n as int), k),
        decreases n - i,
    {
        proof {
            let s = v@.subrange(i as int, n as int);
            assert(s.drop_first() =~= v@.subrange(i + 1, n as int));
        }
        i += 1;
    }
    copy_range(v, i, n)
}

/// Removes the trailing characters of `v` that `k` strips.
pub fn strip_end_chars(v: &Vec<char>, k: Strip) -> (r: Vec<char>)
    ensures
        r@ == strip_end(v@, k),
{
    let mut j: usize = v.len();
    assert(v@.subrange(0, j as int) =~= v@);
    while j > 0 && strips_exec(k, v[j - 1])
        invariant
            j <= v@.len(),
            strip_end(v@, k) == strip_end(v@.subrange(0, j as int), k),
        decreases j,
    {
        proof {
            let s = v@.subrange(0, j as int);
            assert(s.drop_last() =~= v@.subrange(0, j - 1));
        }
        j -= 1;
    }
    copy_range(v, 0, j)
}

/// `str::trim` on characters.
pub fn trim_chars(v: &Vec<char>) -> (r: Vec<char>)
    ensures
        r@ == trim(v@),
{
    let a = strip_start_chars(v, Strip::Whitespace);
    strip_end_chars(&a, Strip::Whitespace)
}

/// The pieces of `s` between the occurrences of `sep` (as `str::split`
/// with a character): there is always at least one piece.
pub open spec fn split_on(s: Seq<char>, sep: char) -> Seq<Seq<char>>
    decreases s.len(),
{
    if s.len() == 0 {
        seq![Seq::<char>::empty()]
    } else {
        let r = split_on(s.drop_last(), sep);
        if s.last() == sep {
            r.push(Seq::<char>::empty())
        } else {
            r.update(r.len() - 1, r.last().push(s.last()))
        }
    }
}

proof fn lemma_split_on_nonempty(s: Seq<char>, sep: char)
    ensures
        split_on(s, sep).len() >= 1,
    decreases s.len(),
{
    if s.len() > 0 {
        lemma_split_on_nonempty(s.drop_last(), sep);
    }
}

/// The character views of a list of character vectors.
pub open spec fn char_views(parts: Seq<Vec<char>>) -> Seq<Seq<char>> {
    parts.map_values(|p: Vec<char>| p@)
}

/// Splits `v` at every `sep`.
pub fn split_chars(v: &Vec<char>, sep: char) -> (parts: Vec<Vec<char>>)
    ensures
        char_views(parts@) == split_on(v@, sep),
{
    let n = v.len();
    let mut parts: Vec<Vec<char>> = Vec::new();
    let mut cur: Vec<char> = Vec::new();
    let mut i: usize = 0;
    while i < n
        invariant
            i <= n == v@.len(),
            char_views(parts@).push(cur@) == split_on(v@.subrange(0, i as int), sep),
        decreases n - i,
    {
        let c = v[i];
        let ghost before = char_views(parts@).push(cur@);
        proof {
            let pre = v@.subrange(0, i + 1);
            assert(pre.drop_last() =~= v@.subrange(0, i as int));
            assert(pre.last() == c);
            lemma_split_on_nonempty(v@.subrange(0, i as int), sep);
        }
        if c == sep {
            let done = cur;
            parts.push(done);
            cur = Vec::new();
            proof {
                assert(char_views(parts@).push(cur@) =~= before.push(Seq::<char>::empty()));
            }
        } else {
            let ghost old_cur = cur@;
            cur.push(c);
            proof {
                assert(char_views(parts@).push(cur@) =~= before.update(
                    before.len() - 1,
                    before.last().push(c),
                ));
            }
        }
        i += 1;
    }
    let ghost before = char_views(parts@).push(cur@);
    parts.push(cur);
    proof {
        assert(char_views(parts@) =~= before);
        assert(v@.subrange(0, n as int) =~= v@);
    }
    parts
}

/// `c` is an ASCII digit.
pub open spec fn is_digit(c: char) -> bool {
    48 <= (c as u32) <= 57
}

/// Every character of `s` is an ASCII digit.
pub open spec fn all_digits(s: Seq<char>) -> bool {
    forall|i: int| 0 <= i < s.len() ==> is_digit(#[trigger] s[i])
}

/// The value of a string of decimal digits.
pub open spec fn digits_value(s: Seq<char>) -> nat
    decreases s.len(),
{
    if s.len() == 0 {
        0
    } else {
        digits_value(s.drop_last()) * 10 + ((s.last() as u32) - 48) as nat
    }
}

/// `s` is a non-empty run of digits whose value is at most `limit`.
pub open spec fn digits_within(s: Seq<char>, limit: int) -> bool {
    s.len() > 0 && all_digits(s) && digits_value(s) <= limit
}

/// `s` without one leading `'+'`.
pub open spec fn unsigned_body(s: Seq<char>) -> Seq<char> {
    if s.len() > 0 && s[0] == '+' {
        s.drop_first()
    } else {
        s
    }
}

/// `str::parse::<u32>`: an optional `'+'`, then one or more decimal digits
/// whose value fits in a `u32`.
pub open spec fn parse_u32_spec(s: Seq<char>) -> Option<u32> {
    let b = unsigned_body(s);
    if digits_within(b, u32::MAX as int) {
        Some(digits_value(b) as u32)
    } else {
        None
    }
}

/// `str::parse::<i32>`: an optional `'+'` or `'-'`, then one or more decimal
/// digits whose signed value fits in an `i32`.
pub open spec fn parse_i32_spec(s: Seq<char>) -> Option<i32> {
    if s.len() > 0 && s[0] == '-' {
        let b = s.drop_first();
        if digits_within(b, 0x8000_0000) {
            Some((-digits_value(b)) as i32)
        } else {
            None
        }
    } else {
        let b = unsigned_body(s);
        if digits_within(b, i32::MAX as int) {
            Some(digits_value(b) as i32)
        } else {
            None
        }
    }
}

/// The value of the digits `v[start..]` when they are a non-empty run of
/// digits worth at most `limit`.
fn parse_digits(v: &Vec<char>, start: usize, limit: u64) -> (r: Option<u64>)
    requires
        start <= v@.len(),
        limit <= u32::MAX as u64 + 1,
    ensures
        match r {
            Some(x) => digits_within(v@.subrange(start as int, v@.len() as int), limit as int)
                && x == digits_value(v@.subrange(start as int, v@.len() as int)),
            None => !digits_within(v@.subrange(start as int, v@.len() as int), limit as int),
        },
{
    let n = v.len();
    if start >= n {
        return None;
    }
    let mut acc: u64 = 0;
    let mut over = false;
    let mut i = start;
    while i < n
        invariant
            start <= i <= n == v@.len(),
            limit <= u32::MAX as u64 + 1,
            all_digits(v@.subrange(start as int, i as int)),
            !over ==> acc == digits_value(v@.subrange(start as int, i as int)) && acc <= limit,
            over ==> digits_value(v@.subrange(start as int, i as int)) > limit,
        decreases n - i,
    {
        let c = v[i];
        let u = c as u32;
        if u < 48 || u > 57 {
            proof {
                let s = v@.subrange(start as int, n as int);
                assert(s[i - start] == c);
            }
            return None;
        }
        let d = (u - 48) as u64;
        proof {
            let pre = v@.subrange(start as int, i + 1);
            assert(pre.drop_last() =~= v@.subrange(start as int, i as int));
            assert(pre.last() == c);
            let before = digits_value(v@.subrange(start as int, i as int));
            assert(before * 10 >= before) by (nonlinear_arith);
        }
        if !over {
            proof {
                assert(acc * 10 + d <= (u32::MAX as u64 + 1) * 10 + 9) by (nonlinear_arith)
                    requires acc <= u32::MAX as u64 + 1, d <= 9;
            }
            let next = acc * 10 + d;
            if next > limit {
                over = true;
            } else {
                acc = next;
            }
        }
        i += 1;
    }
    if over {
        None
    } else {
        Some(acc)
    }
}

/// Parses `v` as `str::parse::<u32>` does.
pub fn parse_u32_chars(v: &Vec<char>) -> (r: Option<u32>)
    ensures
        r == parse_u32_spec(v@),
{
    let start: usize = if v.len() > 0 && v[0] == '+' { 1 } else { 0 };
    proof {
        assert(v@.subrange(start as int, v@.len() as int) =~= unsigned_body(v@));
    }
    match parse_digits(v, start, 0xFFFF_FFFF) {
        Some(x) => Some(x as u32),
        None => None,
    }
}

/// Parses `v` as `str::parse::<i32>` does.
pub fn parse_i32_chars(v: &Vec<char>) -> (r: Option<i32>)
    ensures
        r == parse_i32_spec(v@),
{
    if v.len() > 0 && v[0] == '-' {
        proof {
            assert(v@.subrange(1, v@.len() as int) =~= v@.drop_first());
        }
        match parse_digits(v, 1, 0x8000_0000) {
            Some(x) => {
                if x == 0x8000_0000 {
                    Some(i32::MIN)
                } else {
                    Some(-(x as i32))
                }
            },
            None => None,
        }
    } else {
        let start: usize = if v.len() > 0 && v[0] == '+' { 1 } else { 0 };
        proof {
            assert(v@.subrange(start as int, v@.len() as int) =~= unsigned_body(v@));
        }
        match parse_digits(v, start, 0x7FFF_FFFF) {
            Some(x) => Some(x as i32),
            None => None,
        }
    }
}

/// A configuration entry that cannot be turned into a peripheral.
#[derive(Debug)]
pub enum ConfigError {
    /// A BUTTON whose command is not an integer evdev code.
    ButtonCode { name: String, command: String },
    /// A KEY whose command is not an integer evdev code.
    KeyCode { name: String, command: String },
    /// An AXIS command that is not `(type, code, value)`.
    AxisFormat { name: String, command: String },
    /// An AXIS whose evdev type is not an integer.
    AxisType { name: String },
    /// An AXIS whose evdev code is not an integer.
    AxisCode { name: String },
    /// An AXIS whose press value is not an integer.
    AxisValue { name: String },
    /// A type (`kind`) other than BUTTON, KEY, AXIS and COMMAND.
    UnknownType { kind: String, name: String },
}

/// The inside of an AXIS command: trimmed, then without its leading `'('`
/// and trailing `')'` characters.
pub open spec fn axis_inner(s: Seq<char>) -> Seq<char> {
    strip_end(strip_start(trim(s), Strip::Char('(')), Strip::Char(')'))
}

/// The comma-separated fields of an AXIS command.
pub open spec fn axis_fields(s: Seq<char>) -> Seq<Seq<char>> {
    split_on(axis_inner(s), ',')
}

/// What parsing AXIS command `s` of peripheral `name` gives: the three
/// trimmed fields as (u32, u32, i32), or the first failure.
pub open spec fn axis_outcome(s: Seq<char>, name: Seq<char>, r: Result<(u32, u32, i32), ConfigError>) -> bool {
    let f = axis_fields(s);
    if f.len() != 3 {
        r matches Err(ConfigError::AxisFormat { name: n, command: c }) && n@ == name && c@ == s
    } else if parse_u32_spec(trim(f[0])) is None {
        r matches Err(ConfigError::AxisType { name: n }) && n@ == name
    } else if parse_u32_spec(trim(f[1])) is None {
        r matches Err(ConfigError::AxisCode { name: n }) && n@ == name
    } else if parse_i32_spec(trim(f[2])) is None {
        r matches Err(ConfigError::AxisValue { name: n }) && n@ == name
    } else {
        r == Ok::<(u32, u32, i32), ConfigError>(
            (
                parse_u32_spec(trim(f[0]))->0,
                parse_u32_spec(trim(f[1]))->0,
                parse_i32_spec(trim(f[2]))->0,
            ),
        )
    }
}

/// A `String` with the characters of `s`.
pub fn owned(s: &str) -> (r: String)
    ensures
        r@ == s@,
{
    s.to_owned()
}

/// Parses an AXIS command `"(evdev_type, evdev_code, value)"`; `name` is
/// the peripheral's name, for the error.
pub fn parse_axis_command(s: &str, name: &str) -> (r: Result<(u32, u32, i32), ConfigError>)
    ensures
        axis_outcome(s@, name@, r),
{
    let cs = chars_of(s);
    let t = trim_chars(&cs);
    let a = strip_start_chars(&t, Strip::Char('('));
    let inner = strip_end_chars(&a, Strip::Char(')'));
    let parts = split_chars(&inner, ',');
    proof {
        assert(char_views(parts@).len() == parts@.len());
    }
    if parts.len() != 3 {
        return Err(ConfigError::AxisFormat { name: owned(name), command: owned(s) });
    }
    proof {
        assert(parts@[0]@ == axis_fields(s@)[0]);
        assert(parts@[1]@ == axis_fields(s@)[1]);
        assert(parts@[2]@ == axis_fields(s@)[2]);
    }
    let et = match parse_u32_chars(&trim_chars(&parts[0])) {
        Some(x) => x,
        None => {
            return Err(ConfigError::AxisType { name: owned(name) });
        },
    };
    let ec = match parse_u32_chars(&trim_chars(&parts[1])) {
        Some(x) => x,
        None => {
            return Err(ConfigError::AxisCode { name: owned(name) });
        },
    };
    let pv = match parse_i32_chars(&trim_chars(&parts[2])) {
        Some(x) => x,
        None => {
            return Err(ConfigError::AxisValue { name: owned(name) });
        },
    };
    Ok((et, ec, pv))
}

/// The three fields of a well-formed AXIS command.
pub open spec fn axis_triple(s: Seq<char>) -> Option<(u32, u32, i32)> {
    let f = axis_fields(s);
    if f.len() == 3 && parse_u32_spec(trim(f[0])) is Some && parse_u32_spec(trim(f[1])) is Some
        && parse_i32_spec(trim(f[2])) is Some {
        Some(
            (
                parse_u32_spec(trim(f[0]))->0,
                parse_u32_spec(trim(f[1]))->0,
                parse_i32_spec(trim(f[2]))->0,
            ),
        )
    } else {
        None
    }
}

/// One peripheral entry of the configuration, as plain values.
#[derive(Debug)]
pub struct PeripheralEntry {
    /// Human-readable name.
    pub name: String,
    /// Device index (0-3 joypads, 4 keyboard, 5 commands); larger values
    /// are clamped to 5.
    pub device_index: usize,
    /// "BUTTON", "KEY", "AXIS" or "COMMAND".
    pub kind: String,
    /// The evdev code, the `(type, code, value)` axis triple or the bash
    /// command, as text.
    pub command: String,
    /// BOARD pin numbers that must all be held.
    pub pins: Vec<u8>,
}

/// The pins that appear in `pins`.
pub open spec fn listed_pins(pins: Seq<u8>) -> Set<int> {
    Set::new(|q: int| exists|k: int| 0 <= k < pins.len() && pins[k] as int == q)
}

/// The number of pins below `n` held in `mask`.
pub open spec fn held_count(mask: [u64; 3], n: int) -> nat
    decreases n,
{
    if n <= 0 {
        0
    } else {
        held_count(mask, n - 1) + if mask_has(mask, n - 1) {
            1nat
        } else {
            0nat
        }
    }
}

/// The entry's type and command are valid.
pub open spec fn entry_accepted(e: PeripheralEntry) -> bool {
    let t = e.kind@;
    let cmd = e.command@;
    if t == "BUTTON"@ || t == "KEY"@ {
        parse_u32_spec(cmd) is Some
    } else if t == "AXIS"@ {
        axis_triple(cmd) is Some
    } else {
        t == "COMMAND"@
    }
}

/// The event an accepted entry maps to.
pub open spec fn event_from(e: PeripheralEntry, ev: EventType) -> bool {
    let t = e.kind@;
    let cmd = e.command@;
    if t == "BUTTON"@ {
        ev == EventType::Button { evdev_code: parse_u32_spec(cmd)->0 }
    } else if t == "KEY"@ {
        ev == EventType::Key { evdev_code: parse_u32_spec(cmd)->0 }
    } else if t == "AXIS"@ {
        let (et, ec, pv) = axis_triple(cmd)->0;
        ev == EventType::Axis { evdev_type: et, evdev_code: ec, press_value: pv }
    } else {
        ev matches EventType::Command { bash } && bash@ == cmd
    }
}

/// The error a rejected entry reports.
pub open spec fn entry_error(e: PeripheralEntry, err: ConfigError) -> bool {
    let t = e.kind@;
    let cmd = e.command@;
    if t == "BUTTON"@ {
        err matches ConfigError::ButtonCode { name, command } && name@ == e.name@ && command@ == cmd
    } else if t == "KEY"@ {
        err matches ConfigError::KeyCode { name, command } && name@ == e.name@ && command@ == cmd
    } else if t == "AXIS"@ {
        axis_outcome(cmd, e.name@, Err(err))
    } else {
        err matches ConfigError::UnknownType { kind, name } && kind@ == t && name@ == e.name@
    }
}

/// `p` is the peripheral that entry `e` describes.
pub open spec fn peripheral_from(e: PeripheralEntry, p: Peripheral) -> bool {
    &&& p.name@ == e.name@
    &&& p.device_index == if e.device_index < 5 {
        e.device_index
    } else {
        5
    }
    &&& pins_of(p.pin_mask) == listed_pins(e.pins@)
    &&& p.pin_count == held_count(p.pin_mask, 192)
    &&& event_from(e, p.event_type)
    &&& !p.is_pressed
    &&& p.hold_generation == 0
}

/// True when `a` and `b` hold the same characters.
pub fn same_text(a: &str, b: &str) -> (r: bool)
    ensures
        r == (a@ == b@),
{
    let x = chars_of(a);
    let y = chars_of(b);
    if x.len() != y.len() {
        return false;
    }
    let mut i: usize = 0;
    while i < x.len()
        invariant
            i <= x@.len() == y@.len(),
            x@ == a@,
            y@ == b@,
            x@.subrange(0, i as int) == y@.subrange(0, i as int),
        decreases x@.len() - i,
    {
        if x[i] != y[i] {
            proof {
                assert(x@[i as int] != y@[i as int]);
                assert(x@ != y@);
            }
            return false;
        }
        proof {
            assert(x@.subrange(0, i + 1) =~= x@.subrange(0, i as int).push(x@[i as int]));
            assert(y@.subrange(0, i + 1) =~= y@.subrange(0, i as int).push(y@[i as int]));
        }
        i += 1;
    }
    proof {
        assert(x@.subrange(0, i as int) =~= x@);
        assert(y@.subrange(0, i as int) =~= y@);
    }
    true
}

/// The mask of a list of pins (all below 192).
pub fn mask_of_pins(pins: &Vec<u8>) -> (mask: [u64; 3])
    requires
        forall|k: int| 0 <= k < pins@.len() ==> #[trigger] pins@[k] < 192,
    ensures
        pins_of(mask) == listed_pins(pins@),
{
    let mut mask: [u64; 3] = [0u64, 0u64, 0u64];
    proof {
        assert forall|q: int| !#[trigger] pins_of(mask).contains(q) by {
            if 0 <= q < 192 {
                let j = (q % 64) as u64;
                assert((0u64 >> j) & 1 == 0) by (bit_vector);
            }
        }
        assert(pins_of(mask) =~= listed_pins(pins@.subrange(0, 0)));
    }
    let mut i: usize = 0;
    while i < pins.len()
        invariant
            i <= pins@.len(),
            forall|k: int| 0 <= k < pins@.len() ==> #[trigger] pins@[k] < 192,
            pins_of(mask) == listed_pins(pins@.subrange(0, i as int)),
        decreases pins@.len() - i,
    {
        let pin = pins[i];
        let w = (pin / 64) as usize;
        let b = (pin % 64) as u64;
        let ghost before = mask;
        mask[w] = mask[w] | (1u64 << b);
        proof {
            lemma_mask_insert(before, mask, pin as int);
            let pre = pins@.subrange(0, i as int);
            let post = pins@.subrange(0, i + 1);
            assert forall|q: int| #[trigger] listed_pins(post).contains(q) == listed_pins(pre).insert(pin as int).contains(q) by {
                if listed_pins(post).contains(q) {
                    let k = choose|k: int| 0 <= k < post.len() && post[k] as int == q;
                    if k < i {
                        assert(pre[k] == post[k]);
                    }
                }
                if listed_pins(pre).contains(q) {
                    let k = choose|k: int| 0 <= k < pre.len() && pre[k] as int == q;
                    assert(post[k] == pre[k]);
                }
                if q == pin as int {
                    assert(post[i as int] == pin);
                }
            }
            assert(listed_pins(post) =~= listed_pins(pre).insert(pin as int));
        }
        i += 1;
    }
    proof {
        assert(pins@.subrange(0, i as int) =~= pins@);
    }
    mask
}

/// The number of pins held in `mask`.
pub fn count_pins(mask: &[u64; 3]) -> (c: u8)
    ensures
        c == held_count(*mask, 192),
{
    let mut c: u8 = 0;
    let mut p: u8 = 0;
    while p < 192
        invariant
            p <= 192,
            c == held_count(*mask, p as int),
            c <= p,
        decreases 192 - p,
    {
        if mask_has_pin(mask, p) {
            c += 1;
        }
        p += 1;
    }
    c
}

/// Turns one configuration entry into a peripheral: the pin mask and its
/// pin count from the pin list, the device index clamped to 5, and the
/// event from the type and command.
pub fn parse_peripheral(entry: &PeripheralEntry) -> (r: Result<Peripheral, ConfigError>)
    requires
        forall|k: int| 0 <= k < entry.pins@.len() ==> #[trigger] entry.pins@[k] < 192,
    ensures
        match r {
            Ok(p) => entry_accepted(*entry) && peripheral_from(*entry, p),
            Err(err) => !entry_accepted(*entry) && entry_error(*entry, err),
        },
{
    let pin_mask = mask_of_pins(&entry.pins);
    let pin_count = count_pins(&pin_mask);
    let kind = entry.kind.as_str();
    let command = entry.command.as_str();
    let event_type = if same_text(kind, "BUTTON") {
        match parse_u32_chars(&chars_of(command)) {
            Some(code) => EventType::Button { evdev_code: code },
            None => {
                return Err(
                    ConfigError::ButtonCode { name: entry.name.clone(), command: entry.command.clone() },
                );
            },
        }
    } else if same_text(kind, "KEY") {
        match parse_u32_chars(&chars_of(command)) {
            Some(code) => EventType::Key { evdev_code: code },
            None => {
                return Err(
                    ConfigError::KeyCode { name: entry.name.clone(), command: entry.command.clone() },
                );
            },
        }
    } else if same_text(kind, "AXIS") {
        match parse_axis_command(command, entry.name.as_str()) {
            Ok((et, ec, pv)) => EventType::Axis { evdev_type: et, evdev_code: ec, press_value: pv },
            Err(e) => {
                return Err(e);
            },
        }
    } else if same_text(kind, "COMMAND") {
        EventType::Command { bash: entry.command.clone() }
    } else {
        return Err(ConfigError::UnknownType { kind: entry.kind.clone(), name: entry.name.clone() });
    };
    let device_index = if entry.device_index < 5 { entry.device_index } else { 5 };
    Ok(Peripheral {
        name: entry.name.clone(),
        device_index,
        pin_mask,
        pin_count,
        event_type,
        is_pressed: false,
        hold_generation: 0,
    })
}

/// Turns every entry into a peripheral, in order; the first rejected entry
/// makes the whole list fail with its error.
pub fn parse_peripherals(entries: &Vec<PeripheralEntry>) -> (r: Result<Vec<Peripheral>, ConfigError>)
    requires
        forall|i: int, k: int|
            0 <= i < entries@.len() && 0 <= k < entries@[i].pins@.len() ==> #[trigger] entries@[i].pins@[k] < 192,
    ensures
        match r {
            Ok(v) => v@.len() == entries@.len() && forall|i: int|
                0 <= i < entries@.len() ==> entry_accepted(#[trigger] entries@[i]) && peripheral_from(
                    entries@[i],
                    v@[i],
                ),
            Err(err) => exists|j: int|
                0 <= j < entries@.len() && (forall|i: int| 0 <= i < j ==> entry_accepted(#[trigger] entries@[i]))
                    && !entry_accepted(#[trigger] entries@[j]) && entry_error(entries@[j], err),
        },
{
    let mut result: Vec<Peripheral> = Vec::new();
    let mut i: usize = 0;
    while i < entries.len()
        invariant
            i <= entries@.len(),
            forall|i: int, k: int|
                0 <= i < entries@.len() && 0 <= k < entries@[i].pins@.len() ==> #[trigger] entries@[i].pins@[k] < 192,
            result@.len() == i,
            forall|t: int| 0 <= t < i ==> entry_accepted(#[trigger] entries@[t]) && peripheral_from(entries@[t], result@[t]),
        decreases entries@.len() - i,
    {
        let entry = &entries[i];
        proof {
            assert forall|k: int| 0 <= k < entry.pins@.len() implies #[trigger] entry.pins@[k] < 192 by {
                assert(entries@[i as int].pins@[k] < 192);
            }
        }
        match parse_peripheral(entry) {
            Ok(p) => {
                result.push(p);
            },
            Err(e) => {
                return Err(e);
            },
        }
        i += 1;
    }
    Ok(result)
}

/// The message of a configuration error.
pub open spec fn config_error_message(e: ConfigError) -> Seq<char> {
    match e {
        ConfigError::ButtonCode { name, command } => "BUTTON '"@ + name@
            + "' command must be an integer evdev code, got '"@ + command@ + "'"@,
        ConfigError::KeyCode { name, command } => "KEY '"@ + name@
            + "' command must be an integer evdev code, got '"@ + command@ + "'"@,
        ConfigError::AxisFormat { name, command } => "AXIS '"@ + name@
            + "' command must be '(type, code, value)', got '"@ + command@ + "'"@,
        ConfigError::AxisType { name } => "AXIS '"@ + name@ + "' evdev_type not an int"@,
        ConfigError::AxisCode { name } => "AXIS '"@ + name@ + "' evdev_code not an int"@,
        ConfigError::AxisValue { name } => "AXIS '"@ + name@ + "' press_value not an int"@,
        ConfigError::UnknownType { kind, name } => "Unknown peripheral type '"@ + kind@
            + "' for '"@ + name@ + "'"@,
    }
}

impl ConfigError {
    /// A human-readable description of the error.
    pub fn message(&self) -> (m: String)
        ensures
            m@ == config_error_message(*self),
    {
        let mut v: Vec<char> = Vec::new();
        match self {
            ConfigError::ButtonCode { name, command } => {
                push_str(&mut v, "BUTTON '");
                push_str(&mut v, name.as_str());
                push_str(&mut v, "' command must be an integer evdev code, got '");
                push_str(&mut v, command.as_str());
                push_str(&mut v, "'");
            },
            ConfigError::KeyCode { name, command } => {
                push_str(&mut v, "KEY '");
                push_str(&mut v, name.as_str());
                push_str(&mut v, "' command must be an integer evdev code, got '");
                push_str(&mut v, command.as_str());
                push_str(&mut v, "'");
            },
            ConfigError::AxisFormat { name, command } => {
                push_str(&mut v, "AXIS '");
                push_str(&mut v, name.as_str());
                push_str(&mut v, "' command must be '(type, code, value)', got '");
                push_str(&mut v, command.as_str());
                push_str(&mut v, "'");
            },
            ConfigError::AxisType { name } => {
                push_str(&mut v, "AXIS '");
                push_str(&mut v, name.as_str());
                push_str(&mut v, "' evdev_type not an int");
            },
            ConfigError::AxisCode { name } => {
                push_str(&mut v, "AXIS '");
                push_str(&mut v, name.as_str());
                push_str(&mut v, "' evdev_code not an int");
            },
            ConfigError::AxisValue { name } => {
                push_str(&mut v, "AXIS '");
                push_str(&mut v, name.as_str());
                push_str(&mut v, "' press_value not an int");
            },
            ConfigError::UnknownType { kind, name } => {
                push_str(&mut v, "Unknown peripheral type '");
                push_str(&mut v, kind.as_str());
                push_str(&mut v, "' for '");
                push_str(&mut v, name.as_str());
                push_str(&mut v, "'");
            },
        }
        proof {
            assert(v@ =~= config_error_message(*self));
        }
        string_from_chars(&v)
    }
}

/// A parsed peripheral stays on the entry's device when that is one of the
/// six (joypads 0 to 3, the keyboard 4, the command device 5); a larger
/// index goes to the command device 5. So the device is the smaller of the
/// entry's index and 5.
pub proof fn law_device_index_clamped(e: PeripheralEntry, p: Peripheral)
    requires
        peripheral_from(e, p),
    ensures
        e.device_index <= 5 ==> p.device_index == e.device_index,
        e.device_index > 5 ==> p.device_index == 5,
        p.device_index <= 5,
        p.device_index <= e.device_index,
{
}

proof fn lemma_decimal_digits(n: nat)
    ensures
        decimal(n).len() > 0,
        all_digits(decimal(n)),
        digits_value(decimal(n)) == n,
    decreases n,
{
    let d = (n % 10) as int;
    assert(((d + 48) as u8) as int == d + 48);
    assert(digit_char(d) as u32 == d + 48);
    if n >= 10 {
        lemma_decimal_digits(n / 10);
        let s = decimal(n);
        let t = decimal(n / 10);
        assert(s == t.push(digit_char(d)));
        assert(s.drop_last() == t);
        assert forall|i: int| 0 <= i < s.len() implies is_digit(#[trigger] s[i]) by {
            if i < s.len() - 1 {
                assert(s[i] == t[i]);
            }
        }
        assert(digits_value(s) == digits_value(t) * 10 + d);
        assert((n / 10) * 10 + n % 10 == n) by (nonlinear_arith);
    } else {
        assert(decimal(n).drop_last() =~= Seq::<char>::empty());
        assert(digits_value(Seq::<char>::empty()) == 0);
        assert(decimal(n).last() == digit_char(d));
    }
}

/// A button or key entry whose command is the decimal text of a code is
/// accepted, and its peripheral sends exactly that code.
pub proof fn law_decimal_code_reads_back(e: PeripheralEntry, p: Peripheral, code: u32)
    requires
        e.command@ == decimal(code as nat),
        e.kind@ == "BUTTON"@ || e.kind@ == "KEY"@,
    ensures
        entry_accepted(e),
        peripheral_from(e, p) && e.kind@ == "BUTTON"@ ==> p.event_type == (EventType::Button { evdev_code: code }),
        peripheral_from(e, p) && e.kind@ == "KEY"@ ==> p.event_type == (EventType::Key { evdev_code: code }),
{
    reveal_strlit("BUTTON");
    reveal_strlit("KEY");
    assert("KEY"@.len() != "BUTTON"@.len());
    let s = decimal(code as nat);
    lemma_decimal_digits(code as nat);
    assert(is_digit(s[0]));
    assert(unsigned_body(s) == s);
    assert(parse_u32_spec(s) == Some(code));
}

proof fn lemma_held_count_is_len(mask: [u64; 3], n: int)
    requires
        0 <= n,
    ensures
        Set::new(|q: int| 0 <= q < n && mask_has(mask, q)).finite(),
        held_count(mask, n) == Set::new(|q: int| 0 <= q < n && mask_has(mask, q)).len(),
    decreases n,
{
    let cur = Set::new(|q: int| 0 <= q < n && mask_has(mask, q));
    if n == 0 {
        assert(cur =~= Set::<int>::empty());
    } else {
        lemma_held_count_is_len(mask, n - 1);
        let prev = Set::new(|q: int| 0 <= q < n - 1 && mask_has(mask, q));
        if mask_has(mask, n - 1) {
            assert(cur =~= prev.insert(n - 1));
        } else {
            assert(cur =~= prev);
        }
    }
}

/// A parsed peripheral holds exactly the pins its entry lists, and its pin
/// count is the number of distinct pins listed (a pin listed twice counts
/// once).
pub proof fn law_parsed_pins(e: PeripheralEntry, p: Peripheral)
    requires
        peripheral_from(e, p),
    ensures
        forall|k: int| 0 <= k < e.pins@.len() ==> mask_has(p.pin_mask, #[trigger] e.pins@[k] as int),
        forall|q: int| mask_has(p.pin_mask, q) ==> exists|k: int| 0 <= k < e.pins@.len() && #[trigger] e.pins@[k] as int == q,
        listed_pins(e.pins@).finite(),
        p.pin_count == listed_pins(e.pins@).len(),
{
    lemma_held_count_is_len(p.pin_mask, 192);
    let held = Set::new(|q: int| 0 <= q < 192 && mask_has(p.pin_mask, q));
    assert(held =~= pins_of(p.pin_mask));
    assert forall|k: int| 0 <= k < e.pins@.len() implies mask_has(p.pin_mask, #[trigger] e.pins@[k] as int) by {
        assert(listed_pins(e.pins@).contains(e.pins@[k] as int));
    }
    assert forall|q: int| mask_has(p.pin_mask, q) implies exists|k: int| 0 <= k < e.pins@.len() && #[trigger] e.pins@[k] as int == q by {
        assert(pins_of(p.pin_mask).contains(q));
    }
}

} // verus!
