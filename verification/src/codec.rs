//! Durable-state encoding.
//!
//! The batch record is kept in a single file as a JSON object
//! `{"notifications":[...],"window_start":N}`.  The encoding written here
//! is canonical: fixed key order, no whitespace, decimal numbers without
//! leading zeros, and only `"` and `\` escaped in strings.  The parser
//! accepts exactly the canonical encodings and is proved to be the
//! inverse of the encoder, so a record that is persisted and reloaded
//! yields the same entries in the same order with identical fields.
//! Anything else — a missing, truncated or hand-edited file — parses to
//! nothing and is treated by the caller as an absent batch.

use vstd::prelude::*;
use crate::aggregator::{AggregatedNotification, AggregationState, NotificationModel, models_of};
use crate::text::{
    chars_to_string, push_char, spec_digit, spec_u64_digits, str_to_chars, u64_to_string,
};

verus! {

/// How one character is written inside a JSON string.
pub open spec fn esc_char(c: char) -> Seq<char> {
    if c == '"' {
        seq!['\\', '"']
    } else if c == '\\' {
        seq!['\\', '\\']
    } else {
        seq![c]
    }
}

/// How a character sequence is written inside a JSON string.
pub open spec fn spec_escape(s: Seq<char>) -> Seq<char>
    decreases s.len(),
{
    if s.len() == 0 {
        Seq::empty()
    } else {
        esc_char(s[0]) + spec_escape(s.drop_first())
    }
}

/// The encoding of one buffered event.
pub open spec fn spec_enc_entry(e: NotificationModel) -> Seq<char> {
    "{\"status\":\""@ + spec_escape(e.0) + "\",\"duration\":"@ + spec_u64_digits(e.1 as int)
        + ",\"cmd\":\""@ + spec_escape(e.2) + "\",\"timestamp\":"@ + spec_u64_digits(e.3 as int)
        + "}"@
}

/// The encoding of the event list: entries separated by commas.
pub open spec fn spec_enc_entries(s: Seq<NotificationModel>) -> Seq<char>
    decreases s.len(),
{
    if s.len() == 0 {
        Seq::empty()
    } else if s.len() == 1 {
        spec_enc_entry(s[0])
    } else {
        spec_enc_entry(s[0]) + seq![','] + spec_enc_entries(s.drop_first())
    }
}

/// Appending one more entry extends the encoded list by a comma and that
/// entry's encoding (or by just the entry when the list was empty).
proof fn lemma_enc_entries_push(s: Seq<NotificationModel>, x: NotificationModel)
    ensures
        spec_enc_entries(s.push(x)) == if s.len() == 0 {
            spec_enc_entry(x)
        } else {
            spec_enc_entries(s) + seq![','] + spec_enc_entry(x)
        },
    decreases s.len(),
{
    if s.len() == 0 {
        assert(s.push(x) =~= seq![x]);
        assert(spec_enc_entries(seq![x]) == spec_enc_entry(x));
    } else if s.len() == 1 {
        assert(s.push(x).drop_first() =~= seq![x]);
        assert(s.push(x)[0] == s[0]);
        assert(spec_enc_entries(seq![x]) == spec_enc_entry(x));
        assert(spec_enc_entries(s) == spec_enc_entry(s[0]));
        assert(spec_enc_entries(s.push(x)) == spec_enc_entry(s[0]) + seq![','] + spec_enc_entry(x));
        assert(spec_enc_entry(s[0]) + seq![','] + spec_enc_entry(x) =~= spec_enc_entries(s)
            + seq![','] + spec_enc_entry(x));
    } else {
        lemma_enc_entries_push(s.drop_first(), x);
        assert(s.push(x).drop_first() =~= s.drop_first().push(x));
        assert(s.push(x)[0] == s[0]);
        assert(spec_enc_entries(s.push(x)) == spec_enc_entry(s[0]) + seq![','] + spec_enc_entries(
            s.drop_first().push(x),
        ));
        assert(spec_enc_entry(s[0]) + seq![','] + (spec_enc_entries(s.drop_first()) + seq![',']
            + spec_enc_entry(x)) =~= (spec_enc_entry(s[0]) + seq![','] + spec_enc_entries(
            s.drop_first(),
        )) + seq![','] + spec_enc_entry(x));
    }
}

/// The encoding of the whole record.
pub open spec fn spec_enc_state(entries: Seq<NotificationModel>, window_start: u64) -> Seq<char> {
    "{\"notifications\":["@ + spec_enc_entries(entries) + "],\"window_start\":"@
        + spec_u64_digits(window_start as int) + "}"@
}

/// Escaping distributes over appending one character at the end.
proof fn lemma_escape_push(t: Seq<char>, c: char)
    ensures
        spec_escape(t.push(c)) == spec_escape(t) + esc_char(c),
    decreases t.len(),
{
    if t.len() == 0 {
        assert(t.push(c)[0] == c);
        assert(t.push(c).drop_first() =~= Seq::<char>::empty());
        assert(spec_escape(Seq::<char>::empty()) == Seq::<char>::empty());
        assert(spec_escape(t) == Seq::<char>::empty());
        assert(spec_escape(t.push(c)) == esc_char(c) + Seq::<char>::empty());
        assert(esc_char(c) + Seq::<char>::empty() =~= Seq::<char>::empty() + esc_char(c));
    } else {
        lemma_escape_push(t.drop_first(), c);
        assert(t.push(c)[0] == t[0]);
        assert(t.push(c).drop_first() =~= t.drop_first().push(c));
        assert(esc_char(t[0]) + (spec_escape(t.drop_first()) + esc_char(c)) =~= (esc_char(t[0])
            + spec_escape(t.drop_first())) + esc_char(c));
    }
}

/// Writes the characters of `s`, escaped, onto the end of `out`.
fn append_escaped(out: &mut String, s: &str)
    ensures
        final(out)@ == old(out)@ + spec_escape(s@),
{
    let v = str_to_chars(s);
    let n = v.len();
    let mut i: usize = 0;
    proof {
        assert(spec_escape(v@.take(0)) =~= Seq::<char>::empty());
        assert(out@ + spec_escape(v@.take(0)) =~= out@);
    }
    while i < n
        invariant
            i <= n,
            n == v@.len(),
            v@ == s@,
            out@ == old(out)@ + spec_escape(v@.take(i as int)),
        decreases n - i,
    {
        let c = v[i];
        if c == '"' {
            push_char(out, '\\');
            push_char(out, '"');
        } else if c == '\\' {
            push_char(out, '\\');
            push_char(out, '\\');
        } else {
            push_char(out, c);
        }
        proof {
            lemma_escape_push(v@.take(i as int), v@[i as int]);
            assert(v@.take(i as int).push(v@[i as int]) =~= v@.take(i + 1 as int));
            assert(out@ =~= old(out)@ + spec_escape(v@.take(i + 1 as int)));
        }
        i = i + 1;
    }
    proof {
        assert(v@.take(n as int) =~= v@);
    }
}

/// Writes the decimal rendering of `n` onto the end of `out`.
fn append_u64(out: &mut String, n: u64)
    ensures
        final(out)@ == old(out)@ + spec_u64_digits(n as int),
{
    let t = u64_to_string(n);
    out.append(t.as_str());
}

/// Writes the encoding of one buffered event onto the end of `out`.
fn append_entry(out: &mut String, e: &AggregatedNotification)
    ensures
        final(out)@ == old(out)@ + spec_enc_entry(e@),
{
    out.append("{\"status\":\"");
    append_escaped(out, e.status.as_str());
    out.append("\",\"duration\":");
    append_u64(out, e.duration);
    out.append(",\"cmd\":\"");
    append_escaped(out, e.cmd.as_str());
    out.append("\",\"timestamp\":");
    append_u64(out, e.timestamp);
    out.append("}");
    proof {
        assert(out@ =~= old(out)@ + spec_enc_entry(e@));
    }
}

/// Renders the record in its canonical encoding.
pub fn encode_state(st: &AggregationState) -> (r: String)
    ensures
        r@ == spec_enc_state(models_of(st.notifications@), st.window_start),
{
    let ghost entries = models_of(st.notifications@);
    let mut out = String::from_str("{\"notifications\":[");
    let n = st.notifications.len();
    let mut i: usize = 0;
    proof {
        assert(entries.take(0) =~= Seq::<NotificationModel>::empty());
        assert(spec_enc_entries(entries.take(0)) == Seq::<char>::empty());
        assert(out@ + spec_enc_entries(entries.take(0)) =~= out@);
    }
    while i < n
        invariant
            i <= n,
            n == st.notifications@.len(),
            entries == models_of(st.notifications@),
            out@ == "{\"notifications\":["@ + spec_enc_entries(entries.take(i as int)),
        decreases n - i,
    {
        if i > 0 {
            out.append(",");
        }
        append_entry(&mut out, &st.notifications[i]);
        proof {
            reveal_strlit(",");
            assert(","@ =~= seq![',']);
            assert(entries.take(i + 1 as int) =~= entries.take(i as int).push(entries[i as int]));
            lemma_enc_entries_push(entries.take(i as int), entries[i as int]);
            assert(out@ =~= "{\"notifications\":["@ + spec_enc_entries(entries.take(i + 1 as int)));
        }
        i = i + 1;
    }
    proof {
        assert(entries.take(n as int) =~= entries);
    }
    out.append("],\"window_start\":");
    append_u64(&mut out, st.window_start);
    out.append("}");
    proof {
        assert(out@ =~= spec_enc_state(entries, st.window_start));
    }
    out
}

/// `x` occurs in `v` at position `pos`.
pub open spec fn at_is(v: Seq<char>, pos: int, x: Seq<char>) -> bool {
    &&& 0 <= pos
    &&& pos + x.len() <= v.len()
    &&& v.subrange(pos, pos + x.len()) == x
}

/// A concatenation occurs at a position exactly when its parts occur
/// back to back.
proof fn lemma_at_concat(v: Seq<char>, pos: int, a: Seq<char>, b: Seq<char>)
    ensures
        at_is(v, pos, a + b) <==> (at_is(v, pos, a) && at_is(v, pos + a.len(), b)),
{
    if at_is(v, pos, a + b) {
        assert forall|k: int| 0 <= k < a.len() implies v.subrange(pos, pos + a.len())[k]
            == a[k] by {
            assert(v.subrange(pos, pos + (a + b).len())[k] == (a + b)[k]);
        }
        assert(v.subrange(pos, pos + a.len()) =~= a);
        assert forall|k: int| 0 <= k < b.len() implies v.subrange(
            pos + a.len(),
            pos + a.len() + b.len(),
        )[k] == b[k] by {
            assert(v.subrange(pos, pos + (a + b).len())[a.len() + k] == (a + b)[a.len() + k]);
        }
        assert(v.subrange(pos + a.len(), pos + a.len() + b.len()) =~= b);
    }
    if at_is(v, pos, a) && at_is(v, pos + a.len(), b) {
        assert forall|k: int| 0 <= k < (a + b).len() implies v.subrange(
            pos,
            pos + (a + b).len(),
        )[k] == (a + b)[k] by {
            if k < a.len() {
                assert(v.subrange(pos, pos + a.len())[k] == a[k]);
            } else {
                assert(v.subrange(pos + a.len(), pos + a.len() + b.len())[k - a.len()] == b[k
                    - a.len()]);
            }
        }
        assert(v.subrange(pos, pos + (a + b).len()) =~= a + b);
    }
}

/// Checks whether the literal occurs at `pos`; on success the cursor
/// moves past it.
fn parse_lit(v: &Vec<char>, pos: usize, lit: &str) -> (r: Option<usize>)
    requires
        pos <= v@.len(),
    ensures
        match r {
            Some(p) => p == pos + lit@.len() && p <= v@.len() && at_is(v@, pos as int, lit@),
            None => !at_is(v@, pos as int, lit@),
        },
{
    let lc = str_to_chars(lit);
    let m = lc.len();
    let n = v.len();
    if m > n - pos {
        return None;
    }
    let mut j: usize = 0;
    while j < m
        invariant
            j <= m,
            m == lit@.len(),
            lc@ == lit@,
            n == v@.len(),
            pos + m <= n,
            forall|k: int| 0 <= k < j ==> v@[pos + k] == lit@[k],
        decreases m - j,
    {
        if v[pos + j] != lc[j] {
            proof {
                if at_is(v@, pos as int, lit@) {
                    assert(v@.subrange(pos as int, pos + lit@.len())[j as int] == lit@[j as int]);
                }
            }
            return None;
        }
        j = j + 1;
    }
    proof {
        assert(v@.subrange(pos as int, pos + lit@.len()) =~= lit@);
    }
    Some(pos + m)
}

/// The ten decimal digit characters.
pub open spec fn is_digit_char(c: char) -> bool {
    c == '0' || c == '1' || c == '2' || c == '3' || c == '4' || c == '5' || c == '6' || c == '7'
        || c == '8' || c == '9'
}

/// Whether `c` is a decimal digit.
fn is_digit(c: char) -> (r: bool)
    ensures
        r == is_digit_char(c),
{
    c == '0' || c == '1' || c == '2' || c == '3' || c == '4' || c == '5' || c == '6' || c == '7'
        || c == '8' || c == '9'
}

/// The value of a digit character.
fn digit_val(c: char) -> (d: u64)
    requires
        is_digit_char(c),
    ensures
        d < 10,
        spec_digit(d as int) == c,
{
    if c == '0' {
        0
    } else if c == '1' {
        1
    } else if c == '2' {
        2
    } else if c == '3' {
        3
    } else if c == '4' {
        4
    } else if c == '5' {
        5
    } else if c == '6' {
        6
    } else if c == '7' {
        7
    } else if c == '8' {
        8
    } else {
        9
    }
}

/// Powers of ten.
pub open spec fn spec_pow10(k: nat) -> int
    decreases k,
{
    if k == 0 {
        1
    } else {
        10 * spec_pow10((k - 1) as nat)
    }
}

proof fn lemma_pow10_pos(k: nat)
    ensures
        spec_pow10(k) >= 1,
    decreases k,
{
    if k > 0 {
        lemma_pow10_pos((k - 1) as nat);
    }
}

proof fn lemma_pow10_mono(a: nat, b: nat)
    requires
        a <= b,
    ensures
        spec_pow10(a) <= spec_pow10(b),
    decreases b,
{
    if a < b {
        lemma_pow10_mono(a, (b - 1) as nat);
        lemma_pow10_pos((b - 1) as nat);
    }
}

/// A decimal rendering has at least one character.
proof fn lemma_digits_len_pos(m: int)
    ensures
        spec_u64_digits(m).len() >= 1,
{
}

/// A number below `10^k` is rendered with at most `k` digits.
proof fn lemma_digits_len_upper(m: int, k: nat)
    requires
        0 <= m < spec_pow10(k),
        k >= 1,
    ensures
        spec_u64_digits(m).len() <= k,
    decreases k,
{
    if m < 10 {
    } else {
        assert(spec_pow10(1) == 10 * spec_pow10(0));
        assert(spec_pow10(0) == 1);
        if k == 1 {
            assert(false);
        }
        assert(m == 10 * (m / 10) + m % 10);
        assert(m / 10 < spec_pow10((k - 1) as nat)) by {
            if m / 10 >= spec_pow10((k - 1) as nat) {
                assert(10 * (m / 10) >= 10 * spec_pow10((k - 1) as nat));
            }
        }
        lemma_digits_len_upper(m / 10, (k - 1) as nat);
    }
}

/// Every character of a decimal rendering is a digit.
proof fn lemma_digits_all_digits(m: int)
    requires
        m >= 0,
    ensures
        forall|j: int|
            0 <= j < spec_u64_digits(m).len() ==> is_digit_char(#[trigger] spec_u64_digits(m)[j]),
    decreases m,
{
    if m < 10 {
        assert(spec_u64_digits(m) == seq![spec_digit(m)]);
        assert(is_digit_char(spec_digit(m)));
    } else {
        lemma_digits_all_digits(m / 10);
        assert forall|j: int| 0 <= j < spec_u64_digits(m).len() implies is_digit_char(
            spec_u64_digits(m)[j],
        ) by {
            if j < spec_u64_digits(m / 10).len() {
                assert(spec_u64_digits(m)[j] == spec_u64_digits(m / 10)[j]);
            } else {
                assert(spec_u64_digits(m)[j] == spec_digit(m % 10));
                assert(is_digit_char(spec_digit(m % 10)));
            }
        }
    }
}

/// Distinct values below ten have distinct digit characters.
proof fn lemma_digit_inj(x: int, y: int)
    requires
        0 <= x < 10,
        0 <= y < 10,
        spec_digit(x) == spec_digit(y),
    ensures
        x == y,
{
}

/// A positive number's decimal rendering has no leading zero.
proof fn lemma_digits_first_nonzero(m: int)
    requires
        m >= 1,
    ensures
        spec_u64_digits(m)[0] != '0',
    decreases m,
{
    if m >= 10 {
        lemma_digits_first_nonzero(m / 10);
        lemma_digits_len_pos(m / 10);
    }
}

/// The decimal rendering determines the number.
proof fn lemma_digits_injective(a: int, b: int)
    requires
        a >= 0,
        b >= 0,
        spec_u64_digits(a) == spec_u64_digits(b),
    ensures
        a == b,
    decreases a,
{
    if a < 10 && b < 10 {
        assert(spec_u64_digits(a) == seq![spec_digit(a)]);
        assert(spec_u64_digits(b) == seq![spec_digit(b)]);
        assert(spec_digit(a) == seq![spec_digit(a)][0]);
        assert(spec_digit(b) == seq![spec_digit(b)][0]);
        lemma_digit_inj(a, b);
    } else if a < 10 && b >= 10 {
        lemma_digits_len_pos(b / 10);
        assert(spec_u64_digits(a).len() == 1);
        assert(spec_u64_digits(b).len() >= 2);
    } else if a >= 10 && b < 10 {
        lemma_digits_len_pos(a / 10);
        assert(spec_u64_digits(a).len() >= 2);
        assert(spec_u64_digits(b).len() == 1);
    } else {
        assert(spec_u64_digits(a).last() == spec_digit(a % 10));
        assert(spec_u64_digits(b).last() == spec_digit(b % 10));
        lemma_digit_inj(a % 10, b % 10);
        assert(a % 10 == b % 10);
        assert(spec_u64_digits(a).drop_last() =~= spec_u64_digits(a / 10));
        assert(spec_u64_digits(b).drop_last() =~= spec_u64_digits(b / 10));
        lemma_digits_injective(a / 10, b / 10);
        assert(a == 10 * (a / 10) + a % 10);
        assert(b == 10 * (b / 10) + b % 10);
    }
}

/// The canonical decimal rendering of `m` occurs at `pos` and is
/// followed by the end of the input or a non-digit.
pub open spec fn u64_here(v: Seq<char>, pos: int, m: u64) -> bool {
    &&& at_is(v, pos, spec_u64_digits(m as int))
    &&& (pos + spec_u64_digits(m as int).len() == v.len() || !is_digit_char(
        v[pos + spec_u64_digits(m as int).len()],
    ))
}

/// When a maximal digit run renders `n`, the only number whose canonical
/// rendering sits at `pos` is `n`.
proof fn lemma_u64_complete(v: Seq<char>, pos: int, n: u64, cur: int)
    requires
        0 <= pos < cur <= v.len(),
        at_is(v, pos, spec_u64_digits(n as int)),
        cur - pos == spec_u64_digits(n as int).len(),
        forall|j: int| pos <= j < cur ==> is_digit_char(#[trigger] v[j]),
        cur == v.len() || !is_digit_char(v[cur]),
    ensures
        forall|m: u64|
            u64_here(v, pos, m) ==> m == n && pos + spec_u64_digits(m as int).len() == cur,
{
    assert forall|m: u64| u64_here(v, pos, m) implies m == n && pos + spec_u64_digits(
        m as int,
    ).len() == cur by {
        lemma_digits_all_digits(m as int);
        lemma_digits_len_pos(m as int);
        let dm = spec_u64_digits(m as int);
        if pos + dm.len() > cur {
            assert(v.subrange(pos, pos + dm.len())[cur - pos] == dm[cur - pos]);
            assert(is_digit_char(v[cur]));
            assert(cur < pos + dm.len() <= v.len());
        }
        if pos + dm.len() < cur {
            assert(is_digit_char(v[pos + dm.len()]));
        }
        assert(pos + dm.len() == cur);
        assert(dm == v.subrange(pos, cur));
        assert(spec_u64_digits(n as int) == v.subrange(pos, cur));
        lemma_digits_injective(m as int, n as int);
    }
}

/// No number's canonical rendering can sit at the head of a digit run of
/// twenty-one or more characters.
proof fn lemma_digit_run_too_long(v: Seq<char>, pos: int, end: int)
    requires
        0 <= pos,
        pos + 21 <= end <= v.len(),
        forall|j: int| pos <= j < end ==> is_digit_char(#[trigger] v[j]),
    ensures
        forall|m: u64| !u64_here(v, pos, m),
{
    assert forall|m: u64| !u64_here(v, pos, m) by {
        if u64_here(v, pos, m) {
            reveal_with_fuel(spec_pow10, 25);
            assert(spec_pow10(20) == 100000000000000000000);
            lemma_digits_len_upper(m as int, 20);
            lemma_digits_len_pos(m as int);
            let e = pos + spec_u64_digits(m as int).len();
            assert(pos < e <= pos + 20);
            assert(is_digit_char(v[e]));
        }
    }
}

/// Parses a canonical decimal `u64` with maximal munch.
fn parse_u64(v: &Vec<char>, pos: usize) -> (r: Option<(u64, usize)>)
    requires
        pos <= v@.len(),
    ensures
        match r {
            Some((n, p)) => pos < p <= v@.len() && p == pos + spec_u64_digits(n as int).len()
                && at_is(v@, pos as int, spec_u64_digits(n as int)),
            None => true,
        },
        forall|m: u64|
            u64_here(v@, pos as int, m) ==> r == Some(
                (m, (pos + spec_u64_digits(m as int).len()) as usize),
            ),
{
    let len = v.len();
    if pos >= len {
        proof {
            assert forall|m: u64| !u64_here(v@, pos as int, m) by {
                lemma_digits_len_pos(m as int);
            }
        }
        return None;
    }
    let c0 = v[pos];
    if !is_digit(c0) {
        proof {
            assert forall|m: u64| !u64_here(v@, pos as int, m) by {
                if u64_here(v@, pos as int, m) {
                    lemma_digits_all_digits(m as int);
                    lemma_digits_len_pos(m as int);
                    assert(v@.subrange(pos as int, pos + spec_u64_digits(m as int).len())[0]
                        == spec_u64_digits(m as int)[0]);
                }
            }
        }
        return None;
    }
    if c0 == '0' {
        proof {
            assert(v@.subrange(pos as int, pos + 1) =~= seq!['0']);
            assert(spec_u64_digits(0) == seq![spec_digit(0)]);
            assert forall|m: u64| u64_here(v@, pos as int, m) implies m == 0 by {
                if m >= 1 {
                    lemma_digits_first_nonzero(m as int);
                    lemma_digits_len_pos(m as int);
                    assert(v@.subrange(pos as int, pos + spec_u64_digits(m as int).len())[0]
                        == spec_u64_digits(m as int)[0]);
                }
            }
        }
        return Some((0, pos + 1));
    }
    let d0 = digit_val(c0);
    let mut n: u64 = d0;
    let mut cur: usize = pos + 1;
    proof {
        assert(spec_u64_digits(n as int) == seq![spec_digit(n as int)]);
        assert(v@.subrange(pos as int, pos + 1) =~= seq![c0]);
        assert(spec_pow10(1) == 10 * spec_pow10(0));
    }
    while cur < len && cur - pos < 19 && is_digit(v[cur])
        invariant
            pos < cur <= len,
            len == v@.len(),
            1 <= n,
            cur - pos == spec_u64_digits(n as int).len(),
            at_is(v@, pos as int, spec_u64_digits(n as int)),
            (n as int) < spec_pow10((cur - pos) as nat),
            forall|j: int| pos <= j < cur ==> is_digit_char(#[trigger] v@[j]),
            cur - pos <= 19,
        decreases len - cur,
    {
        let c = v[cur];
        let d = digit_val(c);
        proof {
            lemma_pow10_mono((cur - pos) as nat, 18);
            reveal_with_fuel(spec_pow10, 25);
            assert(spec_pow10(18) == 1000000000000000000);
        }
        let ghost n_old = n;
        n = n * 10 + d;
        proof {
            assert(n as int == 10 * (n_old as int) + d);
            assert(n / 10 == n_old && n % 10 == d);
            assert(spec_u64_digits(n as int) == spec_u64_digits(n_old as int).push(
                spec_digit(d as int),
            ));
            assert(v@.subrange(pos as int, cur + 1) =~= v@.subrange(pos as int, cur as int).push(
                v@[cur as int],
            ));
            assert(spec_pow10(((cur + 1) - pos) as nat) == 10 * spec_pow10((cur - pos) as nat));
        }
        cur = cur + 1;
    }
    if cur < len && cur - pos == 19 && is_digit(v[cur]) {
        // a twentieth digit: the only place overflow is possible
        let c = v[cur];
        let d = digit_val(c);
        if n > (u64::MAX - d) / 10 {
            proof {
                assert forall|m: u64| !u64_here(v@, pos as int, m) by {
                    if u64_here(v@, pos as int, m) {
                        lemma_digits_all_digits(m as int);
                        lemma_digits_len_pos(m as int);
                        reveal_with_fuel(spec_pow10, 25);
                        assert(spec_pow10(20) == 100000000000000000000);
                        lemma_digits_len_upper(m as int, 20);
                        let dm = spec_u64_digits(m as int);
                        if pos + dm.len() < cur + 1 {
                            assert(is_digit_char(v@[pos + dm.len()]));
                        }
                        assert(dm.len() == 20);
                        assert(m >= 10) by {
                            if m < 10 {
                                assert(dm.len() == 1);
                            }
                        }
                        assert(dm == spec_u64_digits(m as int / 10).push(
                            spec_digit(m as int % 10),
                        ));
                        assert(dm =~= v@.subrange(pos as int, cur + 1));
                        assert(dm.drop_last() =~= v@.subrange(pos as int, cur as int));
                        assert(spec_u64_digits(m as int / 10) == spec_u64_digits(n as int));
                        lemma_digits_injective(m as int / 10, n as int);
                        assert(dm.last() == v@[cur as int]);
                        assert(spec_digit(m as int % 10) == spec_digit(d as int));
                        assert(m as int % 10 == d);
                        assert(m as int == 10 * (n as int) + d);
                        assert(10 * (n as int) + d > u64::MAX);
                    }
                }
            }
            return None;
        }
        let ghost n_old = n;
        n = n * 10 + d;
        proof {
            assert(n as int == 10 * (n_old as int) + d);
            assert(n / 10 == n_old && n % 10 == d);
            assert(spec_u64_digits(n as int) == spec_u64_digits(n_old as int).push(
                spec_digit(d as int),
            ));
            assert(v@.subrange(pos as int, cur + 1) =~= v@.subrange(pos as int, cur as int).push(
                v@[cur as int],
            ));
        }
        cur = cur + 1;
        if cur < len && is_digit(v[cur]) {
            proof {
                lemma_digit_run_too_long(v@, pos as int, cur + 1);
            }
            return None;
        }
        proof {
            lemma_u64_complete(v@, pos as int, n, cur as int);
        }
        return Some((n, cur));
    }
    proof {
        assert(cur == len || !is_digit_char(v@[cur as int]));
        lemma_u64_complete(v@, pos as int, n, cur as int);
    }
    Some((n, cur))
}

/// The escaped form of `t`, followed by the closing quote, occurs at
/// `pos`.
pub open spec fn string_here(v: Seq<char>, pos: int, t: Seq<char>) -> bool {
    at_is(v, pos, spec_escape(t) + seq!['"'])
}

/// Parses the escaped content of a JSON string up to and including the
/// closing quote.
#[verifier::rlimit(60)]
fn parse_string(v: &Vec<char>, pos: usize) -> (r: Option<(String, usize)>)
    requires
        pos <= v@.len(),
    ensures
        match r {
            Some((s, p)) => pos < p <= v@.len() && p == pos + spec_escape(s@).len() + 1
                && string_here(v@, pos as int, s@),
            None => true,
        },
        forall|t: Seq<char>|
            #[trigger] string_here(v@, pos as int, t) ==> (match r {
                Some(sp) => sp.0@ == t && sp.1 == pos + spec_escape(t).len() + 1,
                None => false,
            }),
{
    let len = v.len();
    let mut out: Vec<char> = Vec::new();
    let mut cur: usize = pos;
    proof {
        assert(v@.subrange(pos as int, pos as int) =~= spec_escape(out@));
        assert forall|t: Seq<char>| #[trigger] string_here(v@, pos as int, t) implies t.len()
            >= out@.len() && t.take(out@.len() as int) == out@ && string_here(
            v@,
            pos as int,
            t.skip(out@.len() as int),
        ) by {
            assert(t.take(0) =~= out@);
            assert(t.skip(0) =~= t);
        }
    }
    while cur < len
        invariant
            pos <= cur <= len,
            len == v@.len(),
            v@.subrange(pos as int, cur as int) == spec_escape(out@),
            cur - pos == spec_escape(out@).len(),
            forall|t: Seq<char>|
                #[trigger] string_here(v@, pos as int, t) ==> t.len() >= out@.len() && t.take(
                    out@.len() as int,
                ) == out@ && string_here(v@, cur as int, t.skip(out@.len() as int)),
        decreases len - cur,
    {
        let c = v[cur];
        if c == '"' {
            proof {
                assert(v@.subrange(pos as int, cur + 1) =~= spec_escape(out@) + seq!['"']);
                assert(at_is(v@, pos as int, spec_escape(out@) + seq!['"']));
                assert(string_here(v@, pos as int, out@));
                assert forall|t: Seq<char>| #[trigger] string_here(v@, pos as int, t) implies t
                    == out@ by {
                    let k = out@.len() as int;
                    let tk = t.skip(k);
                    lemma_at_concat(v@, cur as int, spec_escape(tk), seq!['"']);
                    if tk.len() > 0 {
                        assert(spec_escape(tk) == esc_char(tk[0]) + spec_escape(tk.drop_first()));
                        lemma_at_concat(
                            v@,
                            cur as int,
                            esc_char(tk[0]),
                            spec_escape(tk.drop_first()),
                        );
                        assert(v@.subrange(cur as int, cur + esc_char(tk[0]).len())[0]
                            == esc_char(tk[0])[0]);
                        assert(v@[cur as int] == esc_char(tk[0])[0]);
                        assert(esc_char(tk[0])[0] != '"');
                    }
                    assert(tk =~= Seq::<char>::empty());
                    assert(t =~= t.take(k));
                }
                assert forall|t: Seq<char>| #[trigger] string_here(v@, pos as int, t) implies cur
                    + 1 == pos + spec_escape(t).len() + 1 by {
                    assert(t == out@);
                }
            }
            let s = chars_to_string(&out);
            return Some((s, cur + 1));
        } else if c == '\\' {
            if cur + 1 >= len {
                proof {
                    assert forall|t: Seq<char>| !(#[trigger] string_here(v@, pos as int, t)) by {
                        if string_here(v@, pos as int, t) {
                            let k = out@.len() as int;
                            let tk = t.skip(k);
                            lemma_at_concat(v@, cur as int, spec_escape(tk), seq!['"']);
                            if tk.len() == 0 {
                                assert(v@.subrange(cur as int, cur + 1)[0] == '"');
                            } else {
                                assert(spec_escape(tk) == esc_char(tk[0]) + spec_escape(
                                    tk.drop_first(),
                                ));
                                lemma_at_concat(
                                    v@,
                                    cur as int,
                                    esc_char(tk[0]),
                                    spec_escape(tk.drop_first()),
                                );
                                assert(v@.subrange(cur as int, cur + esc_char(tk[0]).len())[0]
                                    == esc_char(tk[0])[0]);
                                assert(esc_char(tk[0])[0] == '\\');
                                assert(tk[0] == '"' || tk[0] == '\\');
                                assert(esc_char(tk[0]).len() == 2);
                                assert(cur + 2 + spec_escape(tk.drop_first()).len() + 1 <= len);
                            }
                        }
                    }
                }
                return None;
            }
            let d = v[cur + 1];
            if d == '"' || d == '\\' {
                let ghost out_old = out@;
                out.push(d);
                proof {
                    lemma_escape_push(out_old, d);
                    assert(out@ =~= out_old.push(d));
                    assert(esc_char(d) =~= seq!['\\', d]);
                    assert(v@.subrange(pos as int, cur + 2) =~= v@.subrange(pos as int, cur as int)
                        + seq![v@[cur as int], v@[cur + 1]]);
                    assert(v@.subrange(pos as int, cur + 2) =~= spec_escape(out@));
                    assert forall|t: Seq<char>| #[trigger] string_here(v@, pos as int, t) implies
                        t.len() >= out@.len() && t.take(out@.len() as int) == out@ && string_here(
                        v@,
                        (cur + 2) as int,
                        t.skip(out@.len() as int),
                    ) by {
                        let k = out_old.len() as int;
                        let tk = t.skip(k);
                        lemma_at_concat(v@, cur as int, spec_escape(tk), seq!['"']);
                        if tk.len() == 0 {
                            assert(v@.subrange(cur as int, cur + 1)[0] == '"');
                        }
                        assert(tk.len() > 0);
                        assert(spec_escape(tk) == esc_char(tk[0]) + spec_escape(tk.drop_first()));
                        lemma_at_concat(v@, cur as int, esc_char(tk[0]), spec_escape(
                            tk.drop_first(),
                        ));
                        assert(v@.subrange(cur as int, cur + esc_char(tk[0]).len())[0]
                            == esc_char(tk[0])[0]);
                        assert(esc_char(tk[0])[0] == '\\');
                        assert(tk[0] == '"' || tk[0] == '\\');
                        assert(esc_char(tk[0]).len() == 2);
                        assert(v@.subrange(cur as int, cur + 2)[1] == esc_char(tk[0])[1]);
                        assert(tk[0] == v@[cur + 1]);
                        assert(t.take(k + 1) =~= t.take(k).push(tk[0]));
                        assert(t.take(out@.len() as int) == out@);
                        assert((spec_escape(tk) + seq!['"']) =~= esc_char(tk[0]) + (spec_escape(
                            tk.drop_first(),
                        ) + seq!['"']));
                        lemma_at_concat(v@, cur as int, esc_char(tk[0]), spec_escape(
                            tk.drop_first(),
                        ) + seq!['"']);
                        assert(tk.drop_first() =~= t.skip(k + 1));
                        assert(string_here(v@, (cur + 2) as int, t.skip(out@.len() as int)));
                    }
                }
                cur = cur + 2;
            } else {
                proof {
                    assert forall|t: Seq<char>| !(#[trigger] string_here(v@, pos as int, t)) by {
                        if string_here(v@, pos as int, t) {
                            let k = out@.len() as int;
                            let tk = t.skip(k);
                            lemma_at_concat(v@, cur as int, spec_escape(tk), seq!['"']);
                            if tk.len() == 0 {
                                assert(v@.subrange(cur as int, cur + 1)[0] == '"');
                            } else {
                                assert(spec_escape(tk) == esc_char(tk[0]) + spec_escape(
                                    tk.drop_first(),
                                ));
                                lemma_at_concat(
                                    v@,
                                    cur as int,
                                    esc_char(tk[0]),
                                    spec_escape(tk.drop_first()),
                                );
                                assert(v@.subrange(cur as int, cur + esc_char(tk[0]).len())[0]
                                    == esc_char(tk[0])[0]);
                                assert(esc_char(tk[0])[0] == '\\');
                                assert(tk[0] == '"' || tk[0] == '\\');
                                assert(esc_char(tk[0]).len() == 2);
                                assert(v@.subrange(cur as int, cur + 2)[1] == esc_char(tk[0])[1]);
                                assert(v@[cur + 1] == tk[0]);
                            }
                        }
                    }
                }
                return None;
            }
        } else {
            let ghost out_old = out@;
            out.push(c);
            proof {
                lemma_escape_push(out_old, c);
                assert(out@ =~= out_old.push(c));
                assert(esc_char(c) =~= seq![c]);
                assert(v@.subrange(pos as int, cur + 1) =~= v@.subrange(pos as int, cur as int)
                    + seq![v@[cur as int]]);
                assert(v@.subrange(pos as int, cur + 1) =~= spec_escape(out@));
                assert forall|t: Seq<char>| #[trigger] string_here(v@, pos as int, t) implies
                    t.len() >= out@.len() && t.take(out@.len() as int) == out@ && string_here(
                    v@,
                    (cur + 1) as int,
                    t.skip(out@.len() as int),
                ) by {
                    let k = out_old.len() as int;
                    let tk = t.skip(k);
                    lemma_at_concat(v@, cur as int, spec_escape(tk), seq!['"']);
                    if tk.len() == 0 {
                        assert(v@.subrange(cur as int, cur + 1)[0] == '"');
                    }
                    assert(tk.len() > 0);
                    assert(spec_escape(tk) == esc_char(tk[0]) + spec_escape(tk.drop_first()));
                    lemma_at_concat(v@, cur as int, esc_char(tk[0]), spec_escape(tk.drop_first()));
                    assert(v@.subrange(cur as int, cur + esc_char(tk[0]).len())[0] == esc_char(
                        tk[0],
                    )[0]);
                    if tk[0] == '"' || tk[0] == '\\' {
                        assert(esc_char(tk[0])[0] == '\\');
                    } else {
                        assert(esc_char(tk[0])[0] == tk[0]);
                    }
                    assert(tk[0] == c);
                    assert(esc_char(tk[0]).len() == 1);
                    assert(t.take(k + 1) =~= t.take(k).push(tk[0]));
                    assert(t.take(out@.len() as int) == out@);
                    assert((spec_escape(tk) + seq!['"']) =~= esc_char(tk[0]) + (spec_escape(
                        tk.drop_first(),
                    ) + seq!['"']));
                    lemma_at_concat(v@, cur as int, esc_char(tk[0]), spec_escape(tk.drop_first())
                        + seq!['"']);
                    assert(tk.drop_first() =~= t.skip(k + 1));
                    assert(string_here(v@, (cur + 1) as int, t.skip(out@.len() as int)));
                }
            }
            cur = cur + 1;
        }
    }
    proof {
        assert forall|t: Seq<char>| !(#[trigger] string_here(v@, pos as int, t)) by {
            if string_here(v@, pos as int, t) {
                let k = out@.len() as int;
                let tk = t.skip(k);
                assert(string_here(v@, cur as int, tk));
                assert(cur + spec_escape(tk).len() + 1 <= len);
            }
        }
    }
    None
}

/// The pieces of one entry's encoding, at their positions inside it.
/// This is the shape both directions of the entry parser proof use.
pub open spec fn entry_pieces_at(v: Seq<char>, pos: int, em: NotificationModel) -> bool {
    let p1 = pos + "{\"status\":\""@.len();
    let p2 = p1 + spec_escape(em.0).len() + 1;
    let p3 = p2 + ",\"duration\":"@.len();
    let p4 = p3 + spec_u64_digits(em.1 as int).len();
    let p5 = p4 + ",\"cmd\":\""@.len();
    let p6 = p5 + spec_escape(em.2).len() + 1;
    let p7 = p6 + ",\"timestamp\":"@.len();
    let p8 = p7 + spec_u64_digits(em.3 as int).len();
    &&& at_is(v, pos, "{\"status\":\""@)
    &&& string_here(v, p1, em.0)
    &&& at_is(v, p2, ",\"duration\":"@)
    &&& u64_here(v, p3, em.1)
    &&& at_is(v, p4, ",\"cmd\":\""@)
    &&& string_here(v, p5, em.2)
    &&& at_is(v, p6, ",\"timestamp\":"@)
    &&& u64_here(v, p7, em.3)
    &&& at_is(v, p8, "}"@)
    &&& pos + spec_enc_entry(em).len() == p8 + "}"@.len()
}

/// The two literals around a closing quote, re-split.
proof fn lemma_quote_lits()
    ensures
        "\",\"duration\":"@ == seq!['"'] + ",\"duration\":"@,
        "\",\"timestamp\":"@ == seq!['"'] + ",\"timestamp\":"@,
        ",\"duration\":"@[0] == ',',
        ",\"cmd\":\""@[0] == ',',
        "}"@[0] == '}',
        !is_digit_char(','),
        !is_digit_char('}'),
        "{\"status\":\""@.len() == 11,
        ",\"duration\":"@.len() == 12,
        ",\"cmd\":\""@.len() == 8,
        ",\"timestamp\":"@.len() == 13,
        "}"@.len() == 1,
{
    reveal_strlit("{\"status\":\"");
    reveal_strlit("\",\"duration\":");
    reveal_strlit(",\"duration\":");
    reveal_strlit("\",\"timestamp\":");
    reveal_strlit(",\"timestamp\":");
    reveal_strlit(",\"cmd\":\"");
    reveal_strlit("}");
    assert("\",\"duration\":"@ =~= seq!['"'] + ",\"duration\":"@);
    assert("\",\"timestamp\":"@ =~= seq!['"'] + ",\"timestamp\":"@);
}

/// An entry encoding at `pos` yields all its pieces at their positions.
proof fn lemma_entry_decompose(v: Seq<char>, pos: int, em: NotificationModel)
    requires
        at_is(v, pos, spec_enc_entry(em)),
    ensures
        entry_pieces_at(v, pos, em),
{
    lemma_quote_lits();
    let a = "{\"status\":\""@;
    let b = "\",\"duration\":"@;
    let c = ",\"cmd\":\""@;
    let d = "\",\"timestamp\":"@;
    let e = "}"@;
    let t1 = a + spec_escape(em.0);
    let t2 = t1 + b;
    let t3 = t2 + spec_u64_digits(em.1 as int);
    let t4 = t3 + c;
    let t5 = t4 + spec_escape(em.2);
    let t6 = t5 + d;
    let t7 = t6 + spec_u64_digits(em.3 as int);
    assert(spec_enc_entry(em) == t7 + e);
    lemma_at_concat(v, pos, t7, e);
    lemma_at_concat(v, pos, t6, spec_u64_digits(em.3 as int));
    lemma_at_concat(v, pos, t5, d);
    lemma_at_concat(v, pos, t4, spec_escape(em.2));
    lemma_at_concat(v, pos, t3, c);
    lemma_at_concat(v, pos, t2, spec_u64_digits(em.1 as int));
    lemma_at_concat(v, pos, t1, b);
    lemma_at_concat(v, pos, a, spec_escape(em.0));
    let p1 = pos + a.len();
    let pb = p1 + spec_escape(em.0).len();
    assert(t1.len() == a.len() + spec_escape(em.0).len());
    assert(b.len() == 1 + ",\"duration\":"@.len());
    assert(at_is(v, pb, b));
    // split the quote off the duration literal
    lemma_at_concat(v, pb, seq!['"'], ",\"duration\":"@);
    assert(at_is(v, pb, seq!['"']));
    assert(at_is(v, pb + 1, ",\"duration\":"@));
    lemma_at_concat(v, p1, spec_escape(em.0), seq!['"']);
    assert(string_here(v, p1, em.0));
    let p3 = pb + 1 + ",\"duration\":"@.len();
    let p4 = p3 + spec_u64_digits(em.1 as int).len();
    assert(p3 == pos + t2.len());
    assert(at_is(v, p3, spec_u64_digits(em.1 as int)));
    assert(p4 == pos + t3.len());
    assert(at_is(v, p4, c));
    // the comma after the duration digits is not a digit
    assert(v.subrange(p4, p4 + c.len())[0] == v[p4]);
    assert(v[p4] == ',');
    assert(!is_digit_char(v[p4]));
    assert(u64_here(v, p3, em.1));
    let p5 = p4 + c.len();
    let pd = p5 + spec_escape(em.2).len();
    assert(d.len() == 1 + ",\"timestamp\":"@.len());
    assert(at_is(v, pd, d));
    lemma_at_concat(v, pd, seq!['"'], ",\"timestamp\":"@);
    assert(at_is(v, pd, seq!['"']));
    assert(at_is(v, pd + 1, ",\"timestamp\":"@));
    lemma_at_concat(v, p5, spec_escape(em.2), seq!['"']);
    assert(string_here(v, p5, em.2));
    let p7 = pd + 1 + ",\"timestamp\":"@.len();
    let p8 = p7 + spec_u64_digits(em.3 as int).len();
    assert(p7 == pos + t6.len());
    assert(at_is(v, p7, spec_u64_digits(em.3 as int)));
    assert(p8 == pos + t7.len());
    assert(at_is(v, p8, e));
    assert(v.subrange(p8, p8 + e.len())[0] == v[p8]);
    assert(v[p8] == '}');
    assert(!is_digit_char(v[p8]));
    assert(u64_here(v, p7, em.3));
}

/// All the pieces at their positions yield the entry encoding at `pos`.
proof fn lemma_entry_recompose(v: Seq<char>, pos: int, em: NotificationModel)
    requires
        entry_pieces_at(v, pos, em),
    ensures
        at_is(v, pos, spec_enc_entry(em)),
{
    lemma_quote_lits();
    let a = "{\"status\":\""@;
    let b = "\",\"duration\":"@;
    let c = ",\"cmd\":\""@;
    let d = "\",\"timestamp\":"@;
    let e = "}"@;
    let p1 = pos + a.len();
    let pb = p1 + spec_escape(em.0).len();
    lemma_at_concat(v, p1, spec_escape(em.0), seq!['"']);
    lemma_at_concat(v, pb, seq!['"'], ",\"duration\":"@);
    let p5 = pb + 1 + ",\"duration\":"@.len() + spec_u64_digits(em.1 as int).len() + c.len();
    let pd = p5 + spec_escape(em.2).len();
    lemma_at_concat(v, p5, spec_escape(em.2), seq!['"']);
    lemma_at_concat(v, pd, seq!['"'], ",\"timestamp\":"@);
    let t1 = a + spec_escape(em.0);
    let t2 = t1 + b;
    let t3 = t2 + spec_u64_digits(em.1 as int);
    let t4 = t3 + c;
    let t5 = t4 + spec_escape(em.2);
    let t6 = t5 + d;
    let t7 = t6 + spec_u64_digits(em.3 as int);
    lemma_at_concat(v, pos, a, spec_escape(em.0));
    lemma_at_concat(v, pos, t1, b);
    lemma_at_concat(v, pos, t2, spec_u64_digits(em.1 as int));
    lemma_at_concat(v, pos, t3, c);
    lemma_at_concat(v, pos, t4, spec_escape(em.2));
    lemma_at_concat(v, pos, t5, d);
    lemma_at_concat(v, pos, t6, spec_u64_digits(em.3 as int));
    lemma_at_concat(v, pos, t7, e);
    assert(spec_enc_entry(em) == t7 + e);
}

/// Parses one entry.
fn parse_entry(v: &Vec<char>, pos: usize) -> (r: Option<(AggregatedNotification, usize)>)
    requires
        pos <= v@.len(),
    ensures
        match r {
            Some((e, p)) => pos < p <= v@.len() && p == pos + spec_enc_entry(e@).len() && at_is(
                v@,
                pos as int,
                spec_enc_entry(e@),
            ),
            None => true,
        },
        forall|em: NotificationModel|
            #[trigger] at_is(v@, pos as int, spec_enc_entry(em)) ==> (match r {
                Some(ep) => ep.0@ == em && ep.1 == pos + spec_enc_entry(em).len(),
                None => false,
            }),
{
    let p1 = match parse_lit(v, pos, "{\"status\":\"") {
        Some(p) => p,
        None => {
            proof {
                assert forall|em: NotificationModel|
                    !(#[trigger] at_is(v@, pos as int, spec_enc_entry(em))) by {
                    if at_is(v@, pos as int, spec_enc_entry(em)) {
                        lemma_entry_decompose(v@, pos as int, em);
                    }
                }
            }
            return None;
        },
    };
    let (status, p2m) = match parse_string(v, p1) {
        Some(sp) => sp,
        None => {
            proof {
                assert forall|em: NotificationModel|
                    !(#[trigger] at_is(v@, pos as int, spec_enc_entry(em))) by {
                    if at_is(v@, pos as int, spec_enc_entry(em)) {
                        lemma_entry_decompose(v@, pos as int, em);
                    }
                }
            }
            return None;
        },
    };
    let p3 = match parse_lit(v, p2m, ",\"duration\":") {
        Some(p) => p,
        None => {
            proof {
                assert forall|em: NotificationModel|
                    !(#[trigger] at_is(v@, pos as int, spec_enc_entry(em))) by {
                    if at_is(v@, pos as int, spec_enc_entry(em)) {
                        lemma_entry_decompose(v@, pos as int, em);
                    }
                }
            }
            return None;
        },
    };
    let (duration, p4) = match parse_u64(v, p3) {
        Some(np) => np,
        None => {
            proof {
                assert forall|em: NotificationModel|
                    !(#[trigger] at_is(v@, pos as int, spec_enc_entry(em))) by {
                    if at_is(v@, pos as int, spec_enc_entry(em)) {
                        lemma_entry_decompose(v@, pos as int, em);
                    }
                }
            }
            return None;
        },
    };
    let p5 = match parse_lit(v, p4, ",\"cmd\":\"") {
        Some(p) => p,
        None => {
            proof {
                assert forall|em: NotificationModel|
                    !(#[trigger] at_is(v@, pos as int, spec_enc_entry(em))) by {
                    if at_is(v@, pos as int, spec_enc_entry(em)) {
                        lemma_entry_decompose(v@, pos as int, em);
                    }
                }
            }
            return None;
        },
    };
    let (cmd, p6m) = match parse_string(v, p5) {
        Some(sp) => sp,
        None => {
            proof {
                assert forall|em: NotificationModel|
                    !(#[trigger] at_is(v@, pos as int, spec_enc_entry(em))) by {
                    if at_is(v@, pos as int, spec_enc_entry(em)) {
                        lemma_entry_decompose(v@, pos as int, em);
                    }
                }
            }
            return None;
        },
    };
    let p7 = match parse_lit(v, p6m, ",\"timestamp\":") {
        Some(p) => p,
        None => {
            proof {
                assert forall|em: NotificationModel|
                    !(#[trigger] at_is(v@, pos as int, spec_enc_entry(em))) by {
                    if at_is(v@, pos as int, spec_enc_entry(em)) {
                        lemma_entry_decompose(v@, pos as int, em);
                    }
                }
            }
            return None;
        },
    };
    let (timestamp, p8) = match parse_u64(v, p7) {
        Some(np) => np,
        None => {
            proof {
                assert forall|em: NotificationModel|
                    !(#[trigger] at_is(v@, pos as int, spec_enc_entry(em))) by {
                    if at_is(v@, pos as int, spec_enc_entry(em)) {
                        lemma_entry_decompose(v@, pos as int, em);
                    }
                }
            }
            return None;
        },
    };
    let p9 = match parse_lit(v, p8, "}") {
        Some(p) => p,
        None => {
            proof {
                assert forall|em: NotificationModel|
                    !(#[trigger] at_is(v@, pos as int, spec_enc_entry(em))) by {
                    if at_is(v@, pos as int, spec_enc_entry(em)) {
                        lemma_entry_decompose(v@, pos as int, em);
                    }
                }
            }
            return None;
        },
    };
    let entry = AggregatedNotification { status, duration, cmd, timestamp };
    proof {
        lemma_quote_lits();
        // terminators of the two digit runs
        assert(v@.subrange(p4 as int, p4 + ",\"cmd\":\""@.len())[0] == v@[p4 as int]);
        assert(v@[p4 as int] == ',');
        assert(v@.subrange(p8 as int, p8 + "}"@.len())[0] == v@[p8 as int]);
        assert(v@[p8 as int] == '}');
        assert(u64_here(v@, p3 as int, duration));
        assert(u64_here(v@, p7 as int, timestamp));
        assert(entry_pieces_at(v@, pos as int, entry@));
        lemma_entry_recompose(v@, pos as int, entry@);
        assert forall|em: NotificationModel|
            #[trigger] at_is(v@, pos as int, spec_enc_entry(em)) implies entry@ == em && p9 == pos
            + spec_enc_entry(em).len() by {
            lemma_entry_decompose(v@, pos as int, em);
            assert(em == (em.0, em.1, em.2, em.3));
        }
    }
    Some((entry, p9))
}

/// The encoded entry list, closed by `]`, occurs at `pos`.
pub open spec fn entries_here(v: Seq<char>, pos: int, es: Seq<NotificationModel>) -> bool {
    at_is(v, pos, spec_enc_entries(es) + seq![']'])
}

/// An entry encoding starts with an opening brace.
proof fn lemma_entry_first_char(v: Seq<char>, q: int, em: NotificationModel)
    requires
        at_is(v, q, spec_enc_entry(em)),
    ensures
        q < v.len(),
        v[q] == '{',
{
    reveal_strlit("{\"status\":\"");
    let a = "{\"status\":\""@;
    let t1 = a + spec_escape(em.0);
    let t2 = t1 + "\",\"duration\":"@;
    let t3 = t2 + spec_u64_digits(em.1 as int);
    let t4 = t3 + ",\"cmd\":\""@;
    let t5 = t4 + spec_escape(em.2);
    let t6 = t5 + "\",\"timestamp\":"@;
    let t7 = t6 + spec_u64_digits(em.3 as int);
    assert(spec_enc_entry(em) == t7 + "}"@);
    lemma_at_concat(v, q, t7, "}"@);
    lemma_at_concat(v, q, t6, spec_u64_digits(em.3 as int));
    lemma_at_concat(v, q, t5, "\",\"timestamp\":"@);
    lemma_at_concat(v, q, t4, spec_escape(em.2));
    lemma_at_concat(v, q, t3, ",\"cmd\":\""@);
    lemma_at_concat(v, q, t2, spec_u64_digits(em.1 as int));
    lemma_at_concat(v, q, t1, "\",\"duration\":"@);
    lemma_at_concat(v, q, a, spec_escape(em.0));
    assert(v.subrange(q, q + a.len())[0] == v[q]);
    assert(v[q] == a[0]);
}

/// A non-empty encoded list splits into its first entry and, after a
/// comma, the encoded rest.
proof fn lemma_entries_split(v: Seq<char>, q: int, tail: Seq<NotificationModel>)
    requires
        tail.len() >= 1,
        at_is(v, q, spec_enc_entries(tail) + seq![']']),
    ensures
        at_is(v, q, spec_enc_entry(tail[0])),
        ({
            let q2 = q + spec_enc_entry(tail[0]).len();
            if tail.len() == 1 {
                q2 < v.len() && v[q2] == ']' && q + spec_enc_entries(tail).len() == q2
            } else {
                &&& q2 < v.len()
                &&& v[q2] == ','
                &&& at_is(v, q2 + 1, spec_enc_entries(tail.drop_first()) + seq![']'])
                &&& q + spec_enc_entries(tail).len() == q2 + 1 + spec_enc_entries(
                    tail.drop_first(),
                ).len()
            }
        }),
{
    lemma_at_concat(v, q, spec_enc_entries(tail), seq![']']);
    let q2 = q + spec_enc_entry(tail[0]).len();
    if tail.len() == 1 {
        assert(spec_enc_entries(tail) == spec_enc_entry(tail[0]));
        assert(v.subrange(q + spec_enc_entries(tail).len(), q + spec_enc_entries(tail).len() + 1)[0]
            == v[q2]);
    } else {
        let t = spec_enc_entry(tail[0]) + seq![','];
        assert(spec_enc_entries(tail) == t + spec_enc_entries(tail.drop_first()));
        lemma_at_concat(v, q, t, spec_enc_entries(tail.drop_first()));
        lemma_at_concat(v, q, spec_enc_entry(tail[0]), seq![',']);
        assert(v.subrange(q2, q2 + 1)[0] == v[q2]);
        lemma_at_concat(
            v,
            q2 + 1,
            spec_enc_entries(tail.drop_first()),
            seq![']'],
        );
    }
}

/// Parses the entry list up to and including the closing bracket.
fn parse_entries(v: &Vec<char>, pos: usize) -> (r: Option<(Vec<AggregatedNotification>, usize)>)
    requires
        pos <= v@.len(),
    ensures
        match r {
            Some((es, p)) => pos < p <= v@.len() && p == pos + spec_enc_entries(
                models_of(es@),
            ).len() + 1 && entries_here(v@, pos as int, models_of(es@)),
            None => true,
        },
        forall|es: Seq<NotificationModel>|
            #[trigger] entries_here(v@, pos as int, es) ==> (match r {
                Some(ep) => models_of(ep.0@) == es && ep.1 == pos + spec_enc_entries(es).len() + 1,
                None => false,
            }),
{
    let len = v.len();
    if pos < len && v[pos] == ']' {
        proof {
            assert(v@.subrange(pos as int, pos + 1) =~= seq![']']);
            assert(spec_enc_entries(Seq::<NotificationModel>::empty()) == Seq::<char>::empty());
            assert(models_of(Seq::<AggregatedNotification>::empty()) =~= Seq::<
                NotificationModel,
            >::empty());
            assert(spec_enc_entries(Seq::<NotificationModel>::empty()) + seq![']'] =~= seq![']']);
            assert(entries_here(v@, pos as int, Seq::<NotificationModel>::empty()));
            assert forall|es: Seq<NotificationModel>|
                #[trigger] entries_here(v@, pos as int, es) implies es =~= Seq::<
                NotificationModel,
            >::empty() by {
                if es.len() >= 1 {
                    lemma_entries_split(v@, pos as int, es);
                    lemma_entry_first_char(v@, pos as int, es[0]);
                }
            }
        }
        let es: Vec<AggregatedNotification> = Vec::new();
        proof {
            assert(models_of(es@) =~= Seq::<NotificationModel>::empty());
        }
        return Some((es, pos + 1));
    }
    proof {
        assert forall|es: Seq<NotificationModel>|
            #[trigger] entries_here(v@, pos as int, es) implies es.len() > 0 by {
            if es.len() == 0 {
                assert(spec_enc_entries(es) + seq![']'] =~= seq![']']);
                assert(v@.subrange(pos as int, pos + 1)[0] == v@[pos as int]);
            }
        }
    }
    let mut acc: Vec<AggregatedNotification> = Vec::new();
    let mut cur: usize = pos;
    proof {
        assert(models_of(acc@) =~= Seq::<NotificationModel>::empty());
        assert forall|es: Seq<NotificationModel>|
            #[trigger] entries_here(v@, pos as int, es) implies acc@.len() < es.len() && models_of(
            acc@,
        ) == es.take(acc@.len() as int) && at_is(
            v@,
            cur as int,
            spec_enc_entries(es.skip(acc@.len() as int)) + seq![']'],
        ) by {
            assert(es.take(0) =~= Seq::<NotificationModel>::empty());
            assert(models_of(acc@) =~= es.take(0));
            assert(es.skip(0) =~= es);
        }
    }
    loop
        invariant
            pos <= cur <= len,
            len == v@.len(),
            acc@.len() == 0 ==> cur == pos,
            acc@.len() > 0 ==> cur - pos == spec_enc_entries(models_of(acc@)).len() + 1
                && v@.subrange(pos as int, cur as int) == spec_enc_entries(models_of(acc@))
                + seq![','],
            forall|es: Seq<NotificationModel>|
                #[trigger] entries_here(v@, pos as int, es) ==> acc@.len() < es.len() && models_of(
                    acc@,
                ) == es.take(acc@.len() as int) && at_is(
                    v@,
                    cur as int,
                    spec_enc_entries(es.skip(acc@.len() as int)) + seq![']'],
                ),
        decreases len - cur,
    {
        let ghost acc_old = acc@;
        let (e, p) = match parse_entry(v, cur) {
            Some(ep) => ep,
            None => {
                proof {
                    assert forall|es: Seq<NotificationModel>|
                        !(#[trigger] entries_here(v@, pos as int, es)) by {
                        if entries_here(v@, pos as int, es) {
                            let k = acc@.len() as int;
                            let tail = es.skip(k);
                            lemma_entries_split(v@, cur as int, tail);
                        }
                    }
                }
                return None;
            },
        };
        acc.push(e);
        proof {
            assert(models_of(acc@) =~= models_of(acc_old).push(e@));
        }
        if p >= len {
            proof {
                assert forall|es: Seq<NotificationModel>|
                    !(#[trigger] entries_here(v@, pos as int, es)) by {
                    if entries_here(v@, pos as int, es) {
                        let k = acc_old.len() as int;
                        let tail = es.skip(k);
                        lemma_entries_split(v@, cur as int, tail);
                        assert(tail[0] == es[k]);
                        assert(e@ == tail[0] && p == cur + spec_enc_entry(tail[0]).len());
                    }
                }
            }
            return None;
        }
        let c = v[p];
        if c == ']' {
            proof {
                // soundness: what was consumed is the encoded list plus `]`
                lemma_enc_entries_push(models_of(acc_old), e@);
                if acc_old.len() == 0 {
                    assert(v@.subrange(pos as int, p + 1) =~= spec_enc_entry(e@) + seq![']']);
                    assert(v@.subrange(pos as int, p + 1) =~= spec_enc_entries(models_of(acc@))
                        + seq![']']);
                } else {
                    assert(v@.subrange(pos as int, p + 1) =~= (spec_enc_entries(
                        models_of(acc_old),
                    ) + seq![','] + spec_enc_entry(e@)) + seq![']']);
                    assert(v@.subrange(pos as int, p + 1) =~= spec_enc_entries(models_of(acc@))
                        + seq![']']);
                }
                assert(entries_here(v@, pos as int, models_of(acc@)));
                assert forall|es: Seq<NotificationModel>|
                    #[trigger] entries_here(v@, pos as int, es) implies models_of(acc@) == es && p
                    + 1 == pos + spec_enc_entries(es).len() + 1 by {
                    let k = acc_old.len() as int;
                    let tail = es.skip(k);
                    lemma_entries_split(v@, cur as int, tail);
                    assert(tail[0] == es[k]);
                    assert(e@ == tail[0] && p == cur + spec_enc_entry(tail[0]).len());
                    if tail.len() > 1 {
                        assert(v@[p as int] == ',');
                    }
                    assert(tail.len() == 1);
                    assert(es =~= es.take(k).push(es[k]));
                    assert(models_of(acc@) =~= es);
                    lemma_enc_entries_push(es.take(k), es[k]);
                }
            }
            return Some((acc, p + 1));
        } else if c == ',' {
            proof {
                lemma_enc_entries_push(models_of(acc_old), e@);
                if acc_old.len() == 0 {
                    assert(v@.subrange(pos as int, p + 1) =~= spec_enc_entry(e@) + seq![',']);
                    assert(v@.subrange(pos as int, p + 1) =~= spec_enc_entries(models_of(acc@))
                        + seq![',']);
                } else {
                    assert(v@.subrange(pos as int, p + 1) =~= (spec_enc_entries(
                        models_of(acc_old),
                    ) + seq![','] + spec_enc_entry(e@)) + seq![',']);
                    assert(v@.subrange(pos as int, p + 1) =~= spec_enc_entries(models_of(acc@))
                        + seq![',']);
                }
                assert forall|es: Seq<NotificationModel>|
                    #[trigger] entries_here(v@, pos as int, es) implies acc@.len() < es.len()
                    && models_of(acc@) == es.take(acc@.len() as int) && at_is(
                    v@,
                    (p + 1) as int,
                    spec_enc_entries(es.skip(acc@.len() as int)) + seq![']'],
                ) by {
                    let k = acc_old.len() as int;
                    let tail = es.skip(k);
                    lemma_entries_split(v@, cur as int, tail);
                    assert(tail[0] == es[k]);
                    assert(e@ == tail[0] && p == cur + spec_enc_entry(tail[0]).len());
                    if tail.len() == 1 {
                        assert(v@[p as int] == ']');
                    }
                    assert(tail.len() > 1);
                    assert(es.take(k + 1) =~= es.take(k).push(es[k]));
                    assert(models_of(acc@) =~= es.take(k + 1));
                    assert(tail.drop_first() =~= es.skip(k + 1));
                }
            }
            cur = p + 1;
        } else {
            proof {
                assert forall|es: Seq<NotificationModel>|
                    !(#[trigger] entries_here(v@, pos as int, es)) by {
                    if entries_here(v@, pos as int, es) {
                        let k = acc_old.len() as int;
                        let tail = es.skip(k);
                        lemma_entries_split(v@, cur as int, tail);
                        assert(tail[0] == es[k]);
                        assert(e@ == tail[0] && p == cur + spec_enc_entry(tail[0]).len());
                        if tail.len() == 1 {
                            assert(v@[p as int] == ']');
                        } else {
                            assert(v@[p as int] == ',');
                        }
                    }
                }
            }
            return None;
        }
    }
}

/// The pieces of the whole record's encoding, at their positions.
pub open spec fn state_pieces_at(v: Seq<char>, es: Seq<NotificationModel>, ws: u64) -> bool {
    let p1 = "{\"notifications\":["@.len() as int;
    let p2 = p1 + spec_enc_entries(es).len() + 1;
    let p3 = p2 + ",\"window_start\":"@.len();
    let p4 = p3 + spec_u64_digits(ws as int).len();
    &&& at_is(v, 0, "{\"notifications\":["@)
    &&& entries_here(v, p1, es)
    &&& at_is(v, p2, ",\"window_start\":"@)
    &&& u64_here(v, p3, ws)
    &&& at_is(v, p4, "}"@)
    &&& p4 + 1 == v.len()
}

/// The literals around the record's closing bracket, re-split.
proof fn lemma_state_lits()
    ensures
        "],\"window_start\":"@ == seq![']'] + ",\"window_start\":"@,
        "{\"notifications\":["@.len() == 18,
        ",\"window_start\":"@.len() == 16,
        "}"@.len() == 1,
        "}"@[0] == '}',
        !is_digit_char('}'),
{
    reveal_strlit("],\"window_start\":");
    reveal_strlit(",\"window_start\":");
    reveal_strlit("{\"notifications\":[");
    reveal_strlit("}");
    assert("],\"window_start\":"@ =~= seq![']'] + ",\"window_start\":"@);
}

/// A whole-record encoding decomposes into its pieces.
proof fn lemma_state_decompose(v: Seq<char>, es: Seq<NotificationModel>, ws: u64)
    requires
        v == spec_enc_state(es, ws),
    ensures
        state_pieces_at(v, es, ws),
{
    lemma_state_lits();
    let a = "{\"notifications\":["@;
    let b = "],\"window_start\":"@;
    let e = "}"@;
    let t1 = a + spec_enc_entries(es);
    let t2 = t1 + b;
    let t3 = t2 + spec_u64_digits(ws as int);
    assert(spec_enc_state(es, ws) == t3 + e);
    assert(v.subrange(0, v.len() as int) =~= v);
    assert(at_is(v, 0, spec_enc_state(es, ws)));
    lemma_at_concat(v, 0, t3, e);
    lemma_at_concat(v, 0, t2, spec_u64_digits(ws as int));
    lemma_at_concat(v, 0, t1, b);
    lemma_at_concat(v, 0, a, spec_enc_entries(es));
    let p1 = a.len() as int;
    let pb = p1 + spec_enc_entries(es).len();
    lemma_at_concat(v, pb, seq![']'], ",\"window_start\":"@);
    lemma_at_concat(v, p1, spec_enc_entries(es), seq![']']);
    assert(entries_here(v, p1, es));
    let p3 = pb + 1 + ",\"window_start\":"@.len();
    let p4 = p3 + spec_u64_digits(ws as int).len();
    assert(at_is(v, p4, e));
    assert(v.subrange(p4, p4 + e.len())[0] == v[p4]);
    assert(v[p4] == '}');
    assert(u64_here(v, p3, ws));
}

/// The pieces recompose into the whole-record encoding.
proof fn lemma_state_recompose(v: Seq<char>, es: Seq<NotificationModel>, ws: u64)
    requires
        state_pieces_at(v, es, ws),
    ensures
        v == spec_enc_state(es, ws),
{
    lemma_state_lits();
    let a = "{\"notifications\":["@;
    let b = "],\"window_start\":"@;
    let e = "}"@;
    let p1 = a.len() as int;
    let pb = p1 + spec_enc_entries(es).len();
    lemma_at_concat(v, p1, spec_enc_entries(es), seq![']']);
    lemma_at_concat(v, pb, seq![']'], ",\"window_start\":"@);
    let t1 = a + spec_enc_entries(es);
    let t2 = t1 + b;
    let t3 = t2 + spec_u64_digits(ws as int);
    lemma_at_concat(v, 0, a, spec_enc_entries(es));
    lemma_at_concat(v, 0, t1, b);
    lemma_at_concat(v, 0, t2, spec_u64_digits(ws as int));
    lemma_at_concat(v, 0, t3, e);
    assert(spec_enc_state(es, ws) == t3 + e);
    assert(at_is(v, 0, spec_enc_state(es, ws)));
    assert(v.subrange(0, v.len() as int) =~= v);
    assert(v =~= spec_enc_state(es, ws));
}

/// Parses a persisted record.
///
/// Returns the record exactly when the input is the canonical encoding
/// of one; on anything else — absent, truncated, or edited by hand — it
/// returns nothing, and the caller starts a fresh batch.
pub fn parse_state(s: &str) -> (r: Option<AggregationState>)
    ensures
        match r {
            Some(st) => s@ == spec_enc_state(models_of(st.notifications@), st.window_start),
            None => true,
        },
        forall|es: Seq<NotificationModel>, ws: u64|
            s@ == #[trigger] spec_enc_state(es, ws) ==> (match r {
                Some(st) => models_of(st.notifications@) == es && st.window_start == ws,
                None => false,
            }),
{
    let v = str_to_chars(s);
    let len = v.len();
    let p1 = match parse_lit(&v, 0, "{\"notifications\":[") {
        Some(p) => p,
        None => {
            proof {
                assert forall|es: Seq<NotificationModel>, ws: u64|
                    s@ != #[trigger] spec_enc_state(es, ws) by {
                    if s@ == spec_enc_state(es, ws) {
                        lemma_state_decompose(v@, es, ws);
                    }
                }
            }
            return None;
        },
    };
    let (entries, p2) = match parse_entries(&v, p1) {
        Some(ep) => ep,
        None => {
            proof {
                assert forall|es: Seq<NotificationModel>, ws: u64|
                    s@ != #[trigger] spec_enc_state(es, ws) by {
                    if s@ == spec_enc_state(es, ws) {
                        lemma_state_decompose(v@, es, ws);
                    }
                }
            }
            return None;
        },
    };
    let p3 = match parse_lit(&v, p2, ",\"window_start\":") {
        Some(p) => p,
        None => {
            proof {
                assert forall|es: Seq<NotificationModel>, ws: u64|
                    s@ != #[trigger] spec_enc_state(es, ws) by {
                    if s@ == spec_enc_state(es, ws) {
                        lemma_state_decompose(v@, es, ws);
                    }
                }
            }
            return None;
        },
    };
    let (ws, p4) = match parse_u64(&v, p3) {
        Some(np) => np,
        None => {
            proof {
                assert forall|es: Seq<NotificationModel>, ws2: u64|
                    s@ != #[trigger] spec_enc_state(es, ws2) by {
                    if s@ == spec_enc_state(es, ws2) {
                        lemma_state_decompose(v@, es, ws2);
                    }
                }
            }
            return None;
        },
    };
    let p5 = match parse_lit(&v, p4, "}") {
        Some(p) => p,
        None => {
            proof {
                assert forall|es: Seq<NotificationModel>, ws2: u64|
                    s@ != #[trigger] spec_enc_state(es, ws2) by {
                    if s@ == spec_enc_state(es, ws2) {
                        lemma_state_decompose(v@, es, ws2);
                    }
                }
            }
            return None;
        },
    };
    if p5 != len {
        proof {
            assert forall|es: Seq<NotificationModel>, ws2: u64|
                s@ != #[trigger] spec_enc_state(es, ws2) by {
                if s@ == spec_enc_state(es, ws2) {
                    lemma_state_decompose(v@, es, ws2);
                }
            }
        }
        return None;
    }
    let st = AggregationState { notifications: entries, window_start: ws };
    proof {
        lemma_state_lits();
        assert(v@.subrange(p4 as int, p4 + "}"@.len())[0] == v@[p4 as int]);
        assert(v@[p4 as int] == '}');
        assert(u64_here(v@, p3 as int, ws));
        assert(state_pieces_at(v@, models_of(st.notifications@), st.window_start));
        lemma_state_recompose(v@, models_of(st.notifications@), st.window_start);
        assert forall|es: Seq<NotificationModel>, ws2: u64|
            s@ == #[trigger] spec_enc_state(es, ws2) implies models_of(st.notifications@) == es
            && st.window_start == ws2 by {
            lemma_state_decompose(v@, es, ws2);
        }
    }
    Some(st)
}

} // verus!
