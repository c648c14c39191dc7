//! Character-level text utilities for the report reader: trimming,
//! prefix tests, substring search, occurrence removal, line splitting,
//! and decimal rendering of integers.
use vstd::prelude::*;

verus! {

/// Whitespace as the trimming rules of this crate understand it:
/// the ASCII blank characters.
pub open spec fn is_space_char(c: char) -> bool {
    c == ' ' || c == '\t' || c == '\r' || c == '\n' || c == '\u{b}' || c == '\u{c}'
}

/// The sequence with its leading characters satisfying `p` removed.
pub open spec fn trim_left_p(s: Seq<char>, p: spec_fn(char) -> bool) -> Seq<char>
    decreases s.len(),
{
    if s.len() > 0 && p(s[0]) {
        trim_left_p(s.skip(1), p)
    } else {
        s
    }
}

/// The sequence with its trailing characters satisfying `p` removed.
pub open spec fn trim_right_p(s: Seq<char>, p: spec_fn(char) -> bool) -> Seq<char>
    decreases s.len(),
{
    if s.len() > 0 && p(s[s.len() - 1]) {
        trim_right_p(s.take(s.len() - 1), p)
    } else {
        s
    }
}

/// The sequence with characters satisfying `p` removed from both ends.
pub open spec fn trim_p(s: Seq<char>, p: spec_fn(char) -> bool) -> Seq<char> {
    trim_right_p(trim_left_p(s, p), p)
}

/// The whitespace test, as a function value for the trimming specs.
pub open spec fn space_pred() -> spec_fn(char) -> bool {
    |c: char| is_space_char(c)
}

/// The carriage-return test, as a function value for the trimming specs.
pub open spec fn cr_pred() -> spec_fn(char) -> bool {
    |c: char| c == '\r'
}

/// The text with surrounding whitespace removed.
pub open spec fn spec_trim(s: Seq<char>) -> Seq<char> {
    trim_p(s, space_pred())
}

/// The text with surrounding carriage returns removed.
pub open spec fn spec_trim_cr(s: Seq<char>) -> Seq<char> {
    trim_p(s, cr_pred())
}

fn is_space(c: char) -> (b: bool)
    ensures
        b == is_space_char(c),
{
    c == ' ' || c == '\t' || c == '\r' || c == '\n' || c == '\u{b}' || c == '\u{c}'
}

/// Removes surrounding whitespace.
#[verifier::loop_isolation(false)]
pub fn trim_ws<'a>(s: &'a str) -> (r: &'a str)
    ensures
        r@ == spec_trim(s@),
{
    let ghost p = space_pred();
    let n: usize = s.unicode_len();
    let mut start: usize = 0;
    proof {
        assert(s@.skip(0) =~= s@);
    }
    while start < n && is_space(s.get_char(start))
        invariant
            start <= n,
            trim_left_p(s@, p) == trim_left_p(s@.skip(start as int), p),
        decreases n - start,
    {
        proof {
            assert(s@.skip(start as int)[0] == s@[start as int]);
            assert(s@.skip(start as int).skip(1) =~= s@.skip(start as int + 1));
        }
        start = start + 1;
    }
    assert(trim_left_p(s@, p) == s@.skip(start as int));
    let mut end: usize = n;
    while end > start && is_space(s.get_char(end - 1))
        invariant
            start <= end <= n,
            trim_right_p(s@.skip(start as int), p) == trim_right_p(
                s@.subrange(start as int, end as int),
                p,
            ),
        decreases end,
    {
        proof {
            let w = s@.subrange(start as int, end as int);
            assert(w[w.len() - 1] == s@[end - 1]);
            assert(w.take(w.len() - 1) =~= s@.subrange(start as int, end as int - 1));
        }
        end = end - 1;
    }
    assert(trim_right_p(s@.subrange(start as int, end as int), p) == s@.subrange(
        start as int,
        end as int,
    ));
    s.substring_char(start, end)
}

/// Removes surrounding carriage returns, as line cleaning does.
#[verifier::loop_isolation(false)]
pub fn trim_cr<'a>(s: &'a str) -> (r: &'a str)
    ensures
        r@ == spec_trim_cr(s@),
{
    let ghost p = cr_pred();
    let n: usize = s.unicode_len();
    let mut start: usize = 0;
    proof {
        assert(s@.skip(0) =~= s@);
    }
    while start < n && s.get_char(start) == '\r'
        invariant
            start <= n,
            trim_left_p(s@, p) == trim_left_p(s@.skip(start as int), p),
        decreases n - start,
    {
        proof {
            assert(s@.skip(start as int)[0] == s@[start as int]);
            assert(s@.skip(start as int).skip(1) =~= s@.skip(start as int + 1));
        }
        start = start + 1;
    }
    assert(trim_left_p(s@, p) == s@.skip(start as int));
    let mut end: usize = n;
    while end > start && s.get_char(end - 1) == '\r'
        invariant
            start <= end <= n,
            trim_right_p(s@.skip(start as int), p) == trim_right_p(
                s@.subrange(start as int, end as int),
                p,
            ),
        decreases end,
    {
        proof {
            let w = s@.subrange(start as int, end as int);
            assert(w[w.len() - 1] == s@[end - 1]);
            assert(w.take(w.len() - 1) =~= s@.subrange(start as int, end as int - 1));
        }
        end = end - 1;
    }
    assert(trim_right_p(s@.subrange(start as int, end as int), p) == s@.subrange(
        start as int,
        end as int,
    ));
    s.substring_char(start, end)
}

/// Whether `pat` occurs in `s` at position `i`.
pub open spec fn occurs_at(s: Seq<char>, pat: Seq<char>, i: int) -> bool {
    0 <= i && i + pat.len() <= s.len() && s.subrange(i, i + pat.len()) == pat
}

/// The first position at or after `from` where `pat` occurs in `s`.
pub open spec fn spec_find(s: Seq<char>, pat: Seq<char>, from: int) -> Option<int>
    decreases s.len() - from,
{
    if from < 0 || from + pat.len() > s.len() {
        None
    } else if pat.len() == 0 {
        Some(from)
    } else if occurs_at(s, pat, from) {
        Some(from)
    } else {
        spec_find(s, pat, from + 1)
    }
}

/// A found position lies within `s`, at or after `from`.
pub proof fn lemma_find_bounds(s: Seq<char>, pat: Seq<char>, from: int)
    requires
        spec_find(s, pat, from) is Some,
    ensures
        from <= spec_find(s, pat, from)->Some_0,
        spec_find(s, pat, from)->Some_0 + pat.len() <= s.len(),
        occurs_at(s, pat, spec_find(s, pat, from)->Some_0),
    decreases s.len() - from,
{
    if pat.len() == 0 {
        assert(s.subrange(from, from) =~= pat);
    } else if !occurs_at(s, pat, from) {
        lemma_find_bounds(s, pat, from + 1);
    }
}

/// Whether `pat` occurs in `s` at position `i`, decided by characters.
#[verifier::loop_isolation(false)]
fn match_at(s: &str, pat: &str, i: usize, n: usize, m: usize) -> (b: bool)
    requires
        n == s@.len(),
        m == pat@.len(),
        i + m <= n,
    ensures
        b == occurs_at(s@, pat@, i as int),
{
    let mut j: usize = 0;
    while j < m
        invariant
            j <= m,
            forall|k: int| 0 <= k < j ==> s@[i + k] == pat@[k],
        decreases m - j,
    {
        if s.get_char(i + j) != pat.get_char(j) {
            proof {
                assert(s@.subrange(i as int, i + m)[j as int] == s@[i + j]);
            }
            return false;
        }
        j = j + 1;
    }
    proof {
        assert(s@.subrange(i as int, i + m) =~= pat@);
    }
    true
}

/// The first position at or after `from` where `pat` occurs in `s`, if any.
#[verifier::loop_isolation(false)]
pub fn find_sub(s: &str, pat: &str, from: usize) -> (r: Option<usize>)
    ensures
        match r {
            Some(i) => spec_find(s@, pat@, from as int) == Some(i as int),
            None => spec_find(s@, pat@, from as int) is None,
        },
{
    let n: usize = s.unicode_len();
    let m: usize = pat.unicode_len();
    if from > n || m > n - from {
        return None;
    }
    if m == 0 {
        proof {
            assert(s@.subrange(from as int, from as int) =~= pat@);
        }
        return Some(from);
    }
    let mut i: usize = from;
    while i <= n - m
        invariant
            from <= i,
            1 <= m <= n,
            i <= n,
            spec_find(s@, pat@, from as int) == spec_find(s@, pat@, i as int),
        decreases n - i,
    {
        if match_at(s, pat, i, n, m) {
            return Some(i);
        }
        i = i + 1;
    }
    None
}

/// Whether two texts hold the same characters.
pub fn str_eq(a: &str, b: &str) -> (r: bool)
    ensures
        r == (a@ == b@),
{
    let n: usize = a.unicode_len();
    let m: usize = b.unicode_len();
    if n != m {
        return false;
    }
    let r = match_at(a, b, 0, n, m);
    proof {
        assert(a@.subrange(0, m as int) =~= a@);
    }
    r
}

/// Whether `pat` is a prefix of `s`.
pub fn starts_with_str(s: &str, pat: &str) -> (b: bool)
    ensures
        b == pat@.is_prefix_of(s@),
{
    let n: usize = s.unicode_len();
    let m: usize = pat.unicode_len();
    if m > n {
        return false;
    }
    let r = match_at(s, pat, 0, n, m);
    proof {
        assert(s@.subrange(0, pat@.len() as int) == s@.take(pat@.len() as int));
    }
    r
}

/// `s` with every occurrence of `pat` removed, scanning left to right
/// and skipping past each match; the empty pattern removes nothing.
pub open spec fn spec_remove_all(s: Seq<char>, pat: Seq<char>) -> Seq<char>
    decreases s.len(),
{
    if pat.len() == 0 {
        s
    } else if s.len() < pat.len() {
        s
    } else if s.subrange(0, pat.len() as int) == pat {
        spec_remove_all(s.skip(pat.len() as int), pat)
    } else {
        seq![s[0]] + spec_remove_all(s.skip(1), pat)
    }
}

/// Removes every occurrence of `pat` from `s`.
#[verifier::loop_isolation(false)]
pub fn remove_all(s: &str, pat: &str) -> (r: String)
    ensures
        r@ == spec_remove_all(s@, pat@),
{
    let n: usize = s.unicode_len();
    let m: usize = pat.unicode_len();
    if m == 0 {
        return s.to_owned();
    }
    let mut out = String::new();
    let mut i: usize = 0;
    proof {
        assert(s@.skip(0) =~= s@);
        assert(out@ + spec_remove_all(s@, pat@) =~= spec_remove_all(s@, pat@));
    }
    while i < n
        invariant
            i <= n,
            spec_remove_all(s@, pat@) == out@ + spec_remove_all(s@.skip(i as int), pat@),
        decreases n - i,
    {
        if m <= n - i && match_at(s, pat, i, n, m) {
            proof {
                let rest = s@.skip(i as int);
                assert(rest.subrange(0, m as int) =~= s@.subrange(i as int, i + m));
                assert(rest.skip(m as int) =~= s@.skip(i + m));
            }
            i = i + m;
        } else {
            proof {
                let rest = s@.skip(i as int);
                if m <= n - i {
                    assert(rest.subrange(0, m as int) =~= s@.subrange(i as int, i + m));
                }
                assert(rest[0] == s@[i as int]);
                assert(rest.skip(1) =~= s@.skip(i as int + 1));
                assert(rest =~= seq![rest[0]] + rest.skip(1));
            }
            let piece = s.substring_char(i, i + 1);
            proof {
                assert(piece@ =~= seq![s@[i as int]]);
            }
            out.append(piece);
            proof {
                assert(out@ + seq![s@[i as int]] + spec_remove_all(s@.skip(i as int + 1), pat@)
                    =~= out@ + (seq![s@[i as int]] + spec_remove_all(s@.skip(i as int + 1), pat@)));
            }
            i = i + 1;
        }
    }
    proof {
        assert(s@.skip(n as int) =~= Seq::<char>::empty());
        assert(spec_remove_all(Seq::<char>::empty(), pat@) =~= Seq::<char>::empty());
        assert(out@ + Seq::<char>::empty() =~= out@);
    }
    out
}

/// `s` cut at every occurrence of the character `c`.
pub open spec fn spec_split_char(s: Seq<char>, c: char) -> Seq<Seq<char>>
    decreases s.len(),
    via spec_split_char_decreases
{
    match spec_find(s, seq![c], 0) {
        None => seq![s],
        Some(i) => seq![s.take(i)] + spec_split_char(s.skip(i + 1), c),
    }
}

#[via_fn]
proof fn spec_split_char_decreases(s: Seq<char>, c: char) {
    if spec_find(s, seq![c], 0) is Some {
        lemma_find_bounds(s, seq![c], 0);
    }
}

/// Carriage-return trimming, as a function value for the line spec.
pub open spec fn trim_cr_fn() -> spec_fn(Seq<char>) -> Seq<char> {
    |l: Seq<char>| spec_trim_cr(l)
}

/// The lines of a report text: the text cut at every newline, each
/// piece with surrounding carriage returns removed.
pub open spec fn spec_lines(s: Seq<char>) -> Seq<Seq<char>> {
    spec_split_char(s, '\n').map_values(trim_cr_fn())
}

pub proof fn lemma_find_char_none(s: Seq<char>, c: char, from: int)
    requires
        0 <= from <= s.len(),
        forall|k: int| from <= k < s.len() ==> s[k] != c,
    ensures
        spec_find(s, seq![c], from) is None,
    decreases s.len() - from,
{
    if from + 1 <= s.len() {
        assert(!occurs_at(s, seq![c], from)) by {
            assert(s.subrange(from, from + 1)[0] == s[from]);
        }
        lemma_find_char_none(s, c, from + 1);
    }
}

pub proof fn lemma_find_char_at(s: Seq<char>, c: char, from: int, j: int)
    requires
        0 <= from <= j < s.len(),
        forall|k: int| from <= k < j ==> s[k] != c,
        s[j] == c,
    ensures
        spec_find(s, seq![c], from) == Some(j),
    decreases j - from,
{
    if from == j {
        assert(occurs_at(s, seq![c], from)) by {
            assert(s.subrange(from, from + 1) =~= seq![c]);
        }
    } else {
        assert(!occurs_at(s, seq![c], from)) by {
            assert(s.subrange(from, from + 1)[0] == s[from]);
        }
        lemma_find_char_at(s, c, from + 1, j);
    }
}

/// Splits a report text into lines: cut at every newline, then strip
/// carriage returns from the ends of each line.
#[verifier::loop_isolation(false)]
pub fn split_lines(s: &str) -> (r: Vec<String>)
    ensures
        r.deep_view() == spec_lines(s@),
{
    let ghost tcr = trim_cr_fn();
    let n: usize = s.unicode_len();
    let mut out: Vec<String> = Vec::new();
    let ghost mut raw: Seq<Seq<char>> = Seq::empty();
    let mut seg_start: usize = 0;
    let mut i: usize = 0;
    proof {
        assert(raw + spec_split_char(s@.skip(0), '\n') =~= spec_split_char(s@, '\n')) by {
            assert(s@.skip(0) =~= s@);
        }
        assert(out.deep_view() =~= raw.map_values(tcr));
    }
    while i < n
        invariant
            seg_start <= i <= n,
            forall|k: int| seg_start <= k < i ==> s@[k] != '\n',
            spec_split_char(s@, '\n') == raw + spec_split_char(s@.skip(seg_start as int), '\n'),
            out.deep_view() == raw.map_values(tcr),
        decreases n - i,
    {
        if s.get_char(i) == '\n' {
            let ghost u = s@.skip(seg_start as int);
            let ghost j = i - seg_start as int;
            let ghost seg = s@.subrange(seg_start as int, i as int);
            proof {
                assert(forall|k: int| 0 <= k < j ==> u[k] == s@[seg_start + k] && u[k] != '\n');
                assert(u[j] == s@[i as int]);
                lemma_find_char_at(u, '\n', 0, j);
                assert(spec_split_char(u, '\n') == seq![u.take(j)] + spec_split_char(
                    u.skip(j + 1),
                    '\n',
                ));
                assert(u.take(j) =~= seg);
                assert(u.skip(j + 1) =~= s@.skip(i as int + 1));
            }
            let ghost prev_dv = out.deep_view();
            let ghost prev_raw = raw;
            let piece = trim_cr(s.substring_char(seg_start, i));
            let owned = piece.to_owned();
            out.push(owned);
            proof {
                raw = prev_raw.push(seg);
                assert(out.deep_view() =~= prev_dv.push(tcr(seg)));
                assert(raw.map_values(tcr) =~= prev_raw.map_values(tcr).push(tcr(seg)));
                assert(prev_raw + (seq![seg] + spec_split_char(s@.skip(i as int + 1), '\n'))
                    =~= raw + spec_split_char(s@.skip(i as int + 1), '\n'));
            }
            seg_start = i + 1;
        }
        i = i + 1;
    }
    let ghost u = s@.skip(seg_start as int);
    proof {
        assert(forall|k: int| 0 <= k < u.len() ==> u[k] == s@[seg_start + k] && u[k] != '\n');
        lemma_find_char_none(u, '\n', 0);
        assert(spec_split_char(u, '\n') == seq![u]);
        assert(u =~= s@.subrange(seg_start as int, n as int));
    }
    let ghost prev_dv = out.deep_view();
    let ghost prev_raw = raw;
    let piece = trim_cr(s.substring_char(seg_start, n));
    let owned = piece.to_owned();
    out.push(owned);
    proof {
        raw = prev_raw.push(u);
        assert(out.deep_view() =~= prev_dv.push(tcr(u)));
        assert(raw.map_values(tcr) =~= prev_raw.map_values(tcr).push(tcr(u)));
        assert(prev_raw + seq![u] =~= raw);
        assert(spec_split_char(s@, '\n') == raw);
        assert(spec_lines(s@) =~= raw.map_values(tcr));
        assert(out.deep_view() == spec_lines(s@));
    }
    out
}

/// Digit rendering, as a function value for the decimal specs.
pub open spec fn digit_map_fn() -> spec_fn(u64) -> char {
    |d: u64| dec_digit(d as int)
}

/// The decimal digit character for `d`.
pub open spec fn dec_digit(d: int) -> char {
    if d == 0 {
        '0'
    } else if d == 1 {
        '1'
    } else if d == 2 {
        '2'
    } else if d == 3 {
        '3'
    } else if d == 4 {
        '4'
    } else if d == 5 {
        '5'
    } else if d == 6 {
        '6'
    } else if d == 7 {
        '7'
    } else if d == 8 {
        '8'
    } else {
        '9'
    }
}

/// The decimal digits of `n`, most significant first, no sign and no
/// leading zero except for zero itself.
pub open spec fn spec_dec(n: int) -> Seq<char>
    decreases n,
{
    if n < 10 {
        seq![dec_digit(n)]
    } else {
        spec_dec(n / 10) + seq![dec_digit(n % 10)]
    }
}

/// Appends one decimal digit character to a string.
fn append_digit(s: &mut String, d: u64)
    requires
        d < 10,
    ensures
        final(s)@ == old(s)@ + seq![dec_digit(d as int)],
{
    proof {
        reveal_strlit("0");
        reveal_strlit("1");
        reveal_strlit("2");
        reveal_strlit("3");
        reveal_strlit("4");
        reveal_strlit("5");
        reveal_strlit("6");
        reveal_strlit("7");
        reveal_strlit("8");
        reveal_strlit("9");
        assert("0"@ =~= seq!['0']);
        assert("1"@ =~= seq!['1']);
        assert("2"@ =~= seq!['2']);
        assert("3"@ =~= seq!['3']);
        assert("4"@ =~= seq!['4']);
        assert("5"@ =~= seq!['5']);
        assert("6"@ =~= seq!['6']);
        assert("7"@ =~= seq!['7']);
        assert("8"@ =~= seq!['8']);
        assert("9"@ =~= seq!['9']);
    }
    if d == 0 {
        s.append("0");
    } else if d == 1 {
        s.append("1");
    } else if d == 2 {
        s.append("2");
    } else if d == 3 {
        s.append("3");
    } else if d == 4 {
        s.append("4");
    } else if d == 5 {
        s.append("5");
    } else if d == 6 {
        s.append("6");
    } else if d == 7 {
        s.append("7");
    } else if d == 8 {
        s.append("8");
    } else {
        s.append("9");
    }
}

/// Renders `n` in decimal.
#[verifier::loop_isolation(false)]
pub fn u64_to_dec(n: u64) -> (r: String)
    ensures
        r@ == spec_dec(n as int),
{
    let mut rev: Vec<u64> = Vec::new();
    rev.push(n % 10);
    let mut m: u64 = n / 10;
    while m > 0
        invariant
            forall|k: int| 0 <= k < rev@.len() ==> rev@[k] < 10,
            rev@.len() >= 1,
            spec_dec(n as int) == (if m > 0 {
                spec_dec(m as int) + rev@.reverse().map_values(digit_map_fn())
            } else {
                rev@.reverse().map_values(digit_map_fn())
            }),
        decreases m,
    {
        let ghost prev = rev@;
        rev.push(m % 10);
        proof {
            assert(rev@.reverse() =~= seq![rev@[rev@.len() - 1]] + prev.reverse());
            assert(rev@.reverse().map_values(digit_map_fn()) =~= seq![
                dec_digit((m % 10) as int),
            ] + prev.reverse().map_values(digit_map_fn()));
        }
        m = m / 10;
        proof {
            if m > 0 {
                assert(spec_dec(m as int) + seq![dec_digit((rev@[rev@.len() - 1]) as int)]
                    + prev.reverse().map_values(digit_map_fn()) =~= spec_dec(m as int)
                    + (seq![dec_digit((rev@[rev@.len() - 1]) as int)] + prev.reverse().map_values(
                    digit_map_fn())));
            }
        }
    }
    let mut out = String::new();
    let mut k: usize = rev.len();
    while k > 0
        invariant
            k <= rev@.len(),
            forall|t: int| 0 <= t < rev@.len() ==> rev@[t] < 10,
            spec_dec(n as int) == rev@.reverse().map_values(digit_map_fn()),
            out@ == rev@.skip(k as int).reverse().map_values(digit_map_fn()),
        decreases k,
    {
        k = k - 1;
        append_digit(&mut out, rev[k]);
        proof {
            assert(rev@.skip(k as int).reverse() =~= rev@.skip(k as int + 1).reverse().push(
                rev@[k as int],
            ));
            assert(rev@.skip(k as int).reverse().map_values(digit_map_fn())
                =~= rev@.skip(k as int + 1).reverse().map_values(digit_map_fn()).push(
                dec_digit(rev@[k as int] as int),
            ));
        }
    }
    proof {
        assert(rev@.skip(0) =~= rev@);
    }
    out
}

/// The text that `format_milliseconds` owes: the elapsed time in
/// milliseconds with two digits after the point, the hundredths
/// rounded half up from the microseconds.
pub open spec fn spec_format_ms(micros: int) -> Seq<char> {
    let h = (micros + 5) / 10;
    spec_dec(h / 100) + seq!['.'] + seq![dec_digit((h % 100) / 10), dec_digit(h % 10)]
}

/// Renders a duration, given in microseconds, as milliseconds with two
/// digits after the point.
pub fn format_milliseconds(micros: u64) -> (r: String)
    ensures
        r@ == spec_format_ms(micros as int),
{
    let h: u64 = micros / 10 + (if micros % 10 >= 5 {
        1
    } else {
        0
    });
    assert(h == (micros + 5) / 10);
    let mut out = u64_to_dec(h / 100);
    proof {
        reveal_strlit(".");
        assert("."@ =~= seq!['.']);
    }
    out.append(".");
    append_digit(&mut out, (h % 100) / 10);
    append_digit(&mut out, h % 10);
    proof {
        assert((h % 100) % 10 == h % 10) by (nonlinear_arith);
        assert(out@ =~= spec_format_ms(micros as int));
    }
    out
}

} // verus!
