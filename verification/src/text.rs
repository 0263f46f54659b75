//! Character-level helpers: strings as sequences of chars.

use vstd::prelude::*;

verus! {

broadcast use vstd::string::group_string_axioms;

/// The characters of `s`, in order.
pub fn chars_of(s: &str) -> (v: Vec<char>)
    ensures
        v@ == s@,
{
    let mut v: Vec<char> = Vec::new();
    for c in it: s.chars()
        invariant
            v@.len() == it.index(),
            forall|j: int| 0 <= j < v@.len() ==> v@[j] == it.seq()[j],
    {
        v.push(c);
    }
    assert(v@ =~= s@);
    v
}

/// Builds a `String` from its characters (`std`'s `FromIterator<char>` for
/// `String`, which appends each character in turn).
#[verifier::external_body]
pub(crate) fn string_from_chars(chars: &Vec<char>) -> (s: String)
    ensures
        s@ == chars@,
{
    chars.iter().collect()
}

/// A command separator `"; "` starts at position `k` of `s`.
pub open spec fn sep_at(s: Seq<char>, k: int) -> bool {
    0 <= k && k + 1 < s.len() && s[k] == ';' && s[k + 1] == ' '
}

/// `s` holds no command separator `"; "`.
pub open spec fn sep_free(s: Seq<char>) -> bool {
    forall|k: int| !#[trigger] sep_at(s, k)
}

/// The parts joined back together with `"; "` between them.
pub open spec fn join_parts(parts: Seq<Seq<char>>) -> Seq<char>
    decreases parts.len(),
{
    if parts.len() == 0 {
        Seq::empty()
    } else if parts.len() == 1 {
        parts[0]
    } else {
        join_parts(parts.drop_last()) + seq![';', ' '] + parts.last()
    }
}

/// The character views of a list of strings.
pub open spec fn views(parts: Seq<String>) -> Seq<Seq<char>> {
    parts.map_values(|p: String| p@)
}

/// `parts` is `s` cut at every `"; "`: joined back with `"; "` they give
/// `s`, and none of them holds `"; "`.
pub open spec fn is_split_of(parts: Seq<String>, s: Seq<char>) -> bool {
    &&& parts.len() >= 1
    &&& join_parts(views(parts)) == s
    &&& forall|j: int| 0 <= j < parts.len() ==> sep_free(#[trigger] parts[j]@)
}

proof fn lemma_join_extend(ps: Seq<Seq<char>>, x: Seq<char>, c: char)
    ensures
        join_parts(ps.push(x.push(c))) == join_parts(ps.push(x)).push(c),
{
    let a = ps.push(x.push(c));
    let b = ps.push(x);
    assert(a.drop_last() =~= ps);
    assert(b.drop_last() =~= ps);
    if ps.len() == 0 {
        assert(join_parts(a) == a[0]);
        assert(join_parts(b) == b[0]);
    } else {
        assert(join_parts(a) == join_parts(ps) + seq![';', ' '] + x.push(c));
        assert(join_parts(b) == join_parts(ps) + seq![';', ' '] + x);
        assert(join_parts(a) =~= join_parts(b).push(c));
    }
}

/// Splits `s` at every `"; "`, as `str::split("; ")` does.
pub fn split_commands(s: &str) -> (parts: Vec<String>)
    ensures
        is_split_of(parts@, s@),
{
    let cs = chars_of(s);
    let n = cs.len();
    let mut parts: Vec<String> = Vec::new();
    let mut cur: Vec<char> = Vec::new();
    let mut i: usize = 0;
    while i < n
        invariant
            n == cs@.len(),
            i <= n,
            join_parts(views(parts@).push(cur@)) == cs@.subrange(0, i as int),
            forall|j: int| 0 <= j < parts@.len() ==> sep_free(#[trigger] parts@[j]@),
            sep_free(cur@),
            cur@.len() > 0 && cur@.last() == ';' ==> (i == n || cs@[i as int] != ' '),
        decreases n - i,
    {
        if cs[i] == ';' && i + 1 < n && cs[i + 1] == ' ' {
            let part = string_from_chars(&cur);
            let ghost before = views(parts@).push(cur@);
            parts.push(part);
            cur = Vec::new();
            proof {
                assert(views(parts@) =~= before);
                let after = views(parts@).push(cur@);
                assert(after.drop_last() =~= before);
                assert(join_parts(after) =~= cs@.subrange(0, i + 2));
            }
            i += 2;
        } else {
            let c = cs[i];
            let ghost old_cur = cur@;
            cur.push(c);
            proof {
                lemma_join_extend(views(parts@), old_cur, c);
                assert(cur@ == old_cur.push(c));
                assert(cs@.subrange(0, i + 1) =~= cs@.subrange(0, i as int).push(c));
                assert forall|k: int| !#[trigger] sep_at(cur@, k) by {
                    if sep_at(cur@, k) && k + 1 < old_cur.len() {
                        assert(sep_at(old_cur, k));
                    }
                }
            }
            i += 1;
        }
    }
    let ghost before = views(parts@).push(cur@);
    let last = string_from_chars(&cur);
    parts.push(last);
    proof {
        assert(views(parts@) =~= before);
        assert(cs@.subrange(0, n as int) =~= cs@);
    }
    parts
}

/// The parts are free of `"; "`.
pub open spec fn parts_sep_free(parts: Seq<Seq<char>>) -> bool {
    forall|j: int| 0 <= j < parts.len() ==> sep_free(#[trigger] parts[j])
}

proof fn lemma_join_last(parts: Seq<Seq<char>>)
    requires
        parts.len() >= 2,
    ensures
        join_parts(parts) == join_parts(parts.drop_last()) + seq![';', ' '] + parts.last(),
        sep_at(join_parts(parts), join_parts(parts.drop_last()).len() as int),
{
    let s = join_parts(parts);
    let k = join_parts(parts.drop_last()).len() as int;
    assert(s[k] == ';');
    assert(s[k + 1] == ' ');
}

/// In a join of `"; "`-free parts, the separator before the last part is
/// the last one in the string.
proof fn lemma_last_sep(parts: Seq<Seq<char>>, j: int)
    requires
        parts.len() >= 2,
        parts_sep_free(parts),
        sep_at(join_parts(parts), j),
    ensures
        j <= join_parts(parts.drop_last()).len(),
{
    let s = join_parts(parts);
    let k = join_parts(parts.drop_last()).len() as int;
    let last = parts.last();
    lemma_join_last(parts);
    if j > k {
        if j == k + 1 {
            assert(s[k + 1] == ' ');
        } else {
            assert(sep_free(parts[parts.len() - 1]));
            assert(s[j] == last[j - k - 2]);
            assert(s[j + 1] == last[j - k - 1]);
            assert(sep_at(last, j - k - 2));
        }
    }
}

proof fn lemma_sep_free_join_single(parts: Seq<Seq<char>>)
    requires
        parts.len() >= 1,
        parts_sep_free(parts),
        sep_free(join_parts(parts)),
    ensures
        parts.len() == 1,
{
    if parts.len() >= 2 {
        lemma_join_last(parts);
    }
}

/// Cutting at `"; "` has one answer: two lists of `"; "`-free parts that
/// join to the same string are the same list.
pub proof fn law_split_unique(p: Seq<Seq<char>>, q: Seq<Seq<char>>)
    requires
        p.len() >= 1,
        q.len() >= 1,
        parts_sep_free(p),
        parts_sep_free(q),
        join_parts(p) == join_parts(q),
    ensures
        p == q,
    decreases p.len(),
{
    let s = join_parts(p);
    if p.len() == 1 {
        assert(sep_free(s));
        lemma_sep_free_join_single(q);
        assert(p =~= q);
    } else if q.len() == 1 {
        assert(sep_free(join_parts(q)));
        lemma_sep_free_join_single(p);
    } else {
        lemma_join_last(p);
        lemma_join_last(q);
        let kp = join_parts(p.drop_last()).len() as int;
        let kq = join_parts(q.drop_last()).len() as int;
        lemma_last_sep(p, kq);
        lemma_last_sep(q, kp);
        assert(kp == kq);
        assert(join_parts(p.drop_last()) =~= s.subrange(0, kp));
        assert(join_parts(q.drop_last()) =~= s.subrange(0, kq));
        assert(p.last() =~= s.subrange(kp + 2, s.len() as int));
        assert(q.last() =~= s.subrange(kq + 2, s.len() as int));
        assert(parts_sep_free(p.drop_last()));
        assert(parts_sep_free(q.drop_last()));
        law_split_unique(p.drop_last(), q.drop_last());
        assert(p =~= p.drop_last().push(p.last()));
        assert(q =~= q.drop_last().push(q.last()));
    }
}

/// The ASCII digit for `d` (0..10).
pub open spec fn digit_char(d: int) -> char {
    ((d + 48) as u8) as char
}

/// The upper-case hexadecimal digit for `d` (0..16).
pub open spec fn hex_digit(d: int) -> char {
    if d < 10 {
        digit_char(d)
    } else {
        ((d + 55) as u8) as char
    }
}

/// `n` in decimal, without leading zeros.
pub open spec fn decimal(n: nat) -> Seq<char>
    decreases n,
{
    if n < 10 {
        seq![digit_char(n as int)]
    } else {
        decimal(n / 10).push(digit_char((n % 10) as int))
    }
}

/// `b` as two upper-case hexadecimal digits (`{:02X}`).
pub open spec fn hex2(b: u8) -> Seq<char> {
    seq![hex_digit((b / 16) as int), hex_digit((b % 16) as int)]
}

/// Appends the characters of `s`.
pub fn push_str(v: &mut Vec<char>, s: &str)
    ensures
        final(v)@ == old(v)@ + s@,
{
    let mut cs = chars_of(s);
    v.append(&mut cs);
}

/// Appends `n` in decimal.
pub fn push_decimal(v: &mut Vec<char>, n: u64)
    ensures
        final(v)@ == old(v)@ + decimal(n as nat),
    decreases n,
{
    if n >= 10 {
        push_decimal(v, n / 10);
    }
    let d = (n % 10) as u8;
    v.push((48u8 + d) as char);
    proof {
        if n >= 10 {
            assert(decimal(n as nat) == decimal((n / 10) as nat).push(digit_char((n % 10) as int)));
        }
    }
    assert(final(v)@ =~= old(v)@ + decimal(n as nat));
}

/// Appends `b` as two upper-case hexadecimal digits.
pub fn push_hex2(v: &mut Vec<char>, b: u8)
    ensures
        final(v)@ == old(v)@ + hex2(b),
{
    let hi = b / 16;
    let lo = b % 16;
    let c_hi = if hi < 10 { (48u8 + hi) as char } else { (55u8 + hi) as char };
    let c_lo = if lo < 10 { (48u8 + lo) as char } else { (55u8 + lo) as char };
    v.push(c_hi);
    v.push(c_lo);
    assert(final(v)@ =~= old(v)@ + hex2(b));
}

/// `c` is an upper-case hexadecimal digit whose value is `d`: `'0'` to
/// `'9'` for 0 to 9, `'A'` to `'F'` for 10 to 15.
pub open spec fn reads_as_hex(c: char, d: int) -> bool {
    ||| ('0' <= c <= '9' && c as int - '0' as int == d)
    ||| ('A' <= c <= 'F' && c as int - 'A' as int + 10 == d)
}

/// The two digits of `hex2(b)` are upper-case hexadecimal digits that read
/// back as `b`: the first is the high nibble, the second the low one.
pub proof fn law_hex2_reads_back(b: u8)
    ensures
        hex2(b).len() == 2,
        reads_as_hex(hex2(b)[0], (b / 16) as int),
        reads_as_hex(hex2(b)[1], (b % 16) as int),
        forall|d1: int, d2: int|
            reads_as_hex(hex2(b)[0], d1) && reads_as_hex(hex2(b)[1], d2) ==> 16 * d1 + d2 == b,
{
    lemma_hex_digit_reads((b / 16) as int);
    lemma_hex_digit_reads((b % 16) as int);
}

proof fn lemma_hex_digit_reads(d: int)
    requires
        0 <= d < 16,
    ensures
        reads_as_hex(hex_digit(d), d),
        forall|e: int| reads_as_hex(hex_digit(d), e) ==> e == d,
{
    let c = hex_digit(d);
    if d < 10 {
        assert(((d + 48) as u8) as int == d + 48);
        assert(c as int == d + 48);
    } else {
        assert(((d + 55) as u8) as int == d + 55);
        assert(c as int == d + 55);
    }
}

} // verus!
