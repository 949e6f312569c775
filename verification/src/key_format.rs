//! Musical ↔ Camelot (Mixed In Key) key display helpers.
//!
//! Storage and APIs keep musical notation. UIs call [`format_key`] with the
//! user's [`KeyDisplayMode`] from app settings.

use vstd::prelude::*;

use crate::text::{
    ascii_lower, lemma_trim_lower, lower_seq, ascii_upper, char_ascii_upper, chars_eq, chars_of, dec, digit, digit_char, is_ws, lemma_lead_ws,
    lemma_trail_ws, lemma_trim_no_ws, push_char, push_chars, string_of, trim, trim_chars,
};

verus! {

/// How keys are shown in the UI.
#[derive(Clone, Copy, Debug, PartialEq, Eq, Hash, Structural)]
pub enum KeyDisplayMode {
    Musical,
    Camelot,
}

impl Default for KeyDisplayMode {
    fn default() -> (m: Self)
        ensures
            m == KeyDisplayMode::Musical,
    {
        KeyDisplayMode::Musical
    }
}

/// Circle-of-fifths majors starting at C: C G D A E B F# C# G# D# A# F.
pub open spec fn major_name(i: int) -> Seq<char> {
    if i == 0 {
        seq!['C']
    } else if i == 1 {
        seq!['G']
    } else if i == 2 {
        seq!['D']
    } else if i == 3 {
        seq!['A']
    } else if i == 4 {
        seq!['E']
    } else if i == 5 {
        seq!['B']
    } else if i == 6 {
        seq!['F', '#']
    } else if i == 7 {
        seq!['C', '#']
    } else if i == 8 {
        seq!['G', '#']
    } else if i == 9 {
        seq!['D', '#']
    } else if i == 10 {
        seq!['A', '#']
    } else {
        seq!['F']
    }
}

/// Relative minors starting at Am: Am Em Bm F#m C#m G#m D#m A#m Fm Cm Gm Dm.
pub open spec fn minor_name(i: int) -> Seq<char> {
    if i == 0 {
        seq!['A', 'm']
    } else if i == 1 {
        seq!['E', 'm']
    } else if i == 2 {
        seq!['B', 'm']
    } else if i == 3 {
        seq!['F', '#', 'm']
    } else if i == 4 {
        seq!['C', '#', 'm']
    } else if i == 5 {
        seq!['G', '#', 'm']
    } else if i == 6 {
        seq!['D', '#', 'm']
    } else if i == 7 {
        seq!['A', '#', 'm']
    } else if i == 8 {
        seq!['F', 'm']
    } else if i == 9 {
        seq!['C', 'm']
    } else if i == 10 {
        seq!['G', 'm']
    } else {
        seq!['D', 'm']
    }
}

/// Wheel position `i` has Camelot number `(i + 7) % 12 + 1`.
pub open spec fn camelot_number(i: int) -> int {
    (i + 7) % 12 + 1
}

/// Camelot number `n` (1..=12) sits at wheel position `(n + 4) % 12`.
pub open spec fn wheel_index(n: int) -> int {
    (n + 12 - 1 - 7) % 12
}

/// First wheel position at or after `i` whose major name is `t`, or -1.
pub open spec fn find_major(t: Seq<char>, i: int) -> int
    decreases 12 - i,
{
    if i < 0 || i >= 12 {
        -1
    } else if major_name(i) == t {
        i
    } else {
        find_major(t, i + 1)
    }
}

/// First wheel position at or after `i` whose minor name is `t`, or -1.
pub open spec fn find_minor(t: Seq<char>, i: int) -> int
    decreases 12 - i,
{
    if i < 0 || i >= 12 {
        -1
    } else if minor_name(i) == t {
        i
    } else {
        find_minor(t, i + 1)
    }
}

/// Camelot code of a wheel position: the number followed by `B` (major) or `A` (minor).
pub open spec fn camelot_code(i: int, minor: bool) -> Seq<char> {
    dec(camelot_number(i) as nat).push(if minor { 'A' } else { 'B' })
}

/// Musical → Camelot on the trimmed key (`C` → `8B`, `Am` → `8A`).
pub open spec fn musical_to_camelot_of(key: Seq<char>) -> Option<Seq<char>> {
    let t = trim(key);
    let mj = find_major(t, 0);
    let mn = find_minor(t, 0);
    if mj >= 0 {
        Some(camelot_code(mj, false))
    } else if mn >= 0 {
        Some(camelot_code(mn, true))
    } else {
        None
    }
}

/// `c` is an ASCII decimal digit.
pub open spec fn is_digit(c: char) -> bool {
    '0' <= c <= '9'
}

/// Value of a run of decimal digits.
pub open spec fn digits_value(d: Seq<char>) -> nat
    decreases d.len(),
{
    if d.len() == 0 {
        0
    } else {
        digits_value(d.drop_last()) * 10 + ((d.last() as u32) - 48) as nat
    }
}

/// `str::parse::<usize>` on text whose value is small: an optional `+`, then
/// one or more ASCII digits. (Values too large for `usize` are never in range
/// for the callers here, so their overflow does not change any result.)
pub open spec fn parse_unsigned(s: Seq<char>) -> Option<nat> {
    let d = unsigned_digits(s);
    if d.len() > 0 && all_digits(d) {
        Some(digits_value(d))
    } else {
        None
    }
}

/// `s` without one leading `+`.
pub open spec fn unsigned_digits(s: Seq<char>) -> Seq<char> {
    if s.len() > 0 && s[0] == '+' {
        s.drop_first()
    } else {
        s
    }
}

/// Every character of `d` is an ASCII digit.
pub open spec fn all_digits(d: Seq<char>) -> bool {
    forall|j: int| 0 <= j < d.len() ==> is_digit(#[trigger] d[j])
}

/// The musical name of a wheel position.
pub open spec fn key_name(i: int, minor: bool) -> Seq<char> {
    if minor {
        minor_name(i)
    } else {
        major_name(i)
    }
}

/// Camelot → musical on the trimmed code; the letter (`A` minor, `B` major)
/// may be in either case. `None` unless the number is 1..=12.
pub open spec fn camelot_to_musical_of(code: Seq<char>) -> Option<Seq<char>> {
    let t = trim(code);
    if t.len() == 0 {
        None
    } else {
        let last = ascii_upper(t.last());
        if last != 'A' && last != 'B' {
            None
        } else {
            match parse_unsigned(t.drop_last()) {
                Some(n) => if 1 <= n <= 12 {
                    Some(key_name(wheel_index(n as int), last == 'A'))
                } else {
                    None
                },
                None => None,
            }
        }
    }
}

/// Camelot number + minor flag → musical.
pub open spec fn camelot_code_to_musical_of(code: int, minor: bool) -> Option<Seq<char>> {
    if 1 <= code <= 12 {
        Some(key_name(wheel_index(code), minor))
    } else {
        None
    }
}

/// A stored key formatted for display in `mode`: empty (after trimming) stays
/// empty, a key the other notation does not know passes through trimmed.
pub open spec fn format_key_of(key: Seq<char>, mode: KeyDisplayMode) -> Seq<char> {
    let t = trim(key);
    if t.len() == 0 {
        seq![]
    } else {
        match mode {
            KeyDisplayMode::Musical => match camelot_to_musical_of(t) {
                Some(m) => m,
                None => t,
            },
            KeyDisplayMode::Camelot => match musical_to_camelot_of(t) {
                Some(c) => c,
                None => t,
            },
        }
    }
}

/// The major key name at wheel position `i`.
pub fn major_key(i: usize) -> (k: Vec<char>)
    requires
        i < 12,
    ensures
        k@ == major_name(i as int),
{
    let v = match i {
        0 => vec!['C'],
        1 => vec!['G'],
        2 => vec!['D'],
        3 => vec!['A'],
        4 => vec!['E'],
        5 => vec!['B'],
        6 => vec!['F', '#'],
        7 => vec!['C', '#'],
        8 => vec!['G', '#'],
        9 => vec!['D', '#'],
        10 => vec!['A', '#'],
        _ => vec!['F'],
    };
    assert(v@ =~= major_name(i as int));
    v
}

/// The minor key name at wheel position `i`.
pub fn minor_key(i: usize) -> (k: Vec<char>)
    requires
        i < 12,
    ensures
        k@ == minor_name(i as int),
{
    let v = match i {
        0 => vec!['A', 'm'],
        1 => vec!['E', 'm'],
        2 => vec!['B', 'm'],
        3 => vec!['F', '#', 'm'],
        4 => vec!['C', '#', 'm'],
        5 => vec!['G', '#', 'm'],
        6 => vec!['D', '#', 'm'],
        7 => vec!['A', '#', 'm'],
        8 => vec!['F', 'm'],
        9 => vec!['C', 'm'],
        10 => vec!['G', 'm'],
        _ => vec!['D', 'm'],
    };
    assert(v@ =~= minor_name(i as int));
    v
}

/// Wheel position of a major key name, if it is one.
fn position_major(t: &[char]) -> (r: Option<usize>)
    ensures
        match r {
            Some(i) => i < 12 && find_major(t@, 0) == i,
            None => find_major(t@, 0) == -1,
        },
{
    let mut i: usize = 0;
    while i < 12
        invariant
            i <= 12,
            find_major(t@, 0) == find_major(t@, i as int),
        decreases 12 - i,
    {
        let k = major_key(i);
        if chars_eq(k.as_slice(), t) {
            return Some(i);
        }
        i = i + 1;
    }
    None
}

/// Wheel position of a minor key name, if it is one.
fn position_minor(t: &[char]) -> (r: Option<usize>)
    ensures
        match r {
            Some(i) => i < 12 && find_minor(t@, 0) == i,
            None => find_minor(t@, 0) == -1,
        },
{
    let mut i: usize = 0;
    while i < 12
        invariant
            i <= 12,
            find_minor(t@, 0) == find_minor(t@, i as int),
        decreases 12 - i,
    {
        let k = minor_key(i);
        if chars_eq(k.as_slice(), t) {
            return Some(i);
        }
        i = i + 1;
    }
    None
}

/// Appends the decimal digits of `n` (1..=12) to `out`.
fn push_small(out: &mut String, n: usize)
    requires
        1 <= n <= 12,
    ensures
        final(out)@ == old(out)@ + dec(n as nat),
{
    if n >= 10 {
        push_char(out, '1');
        push_char(out, digit((n - 10) as u8));
        proof {
            reveal_with_fuel(dec, 2);
            assert(dec(1) == seq![digit_char(1)]);
        }
        assert(old(out)@.push('1').push(digit_char((n - 10) as nat)) =~= old(out)@ + dec(
            n as nat,
        ));
    } else {
        push_char(out, digit(n as u8));
        assert(old(out)@.push(digit_char(n as nat)) =~= old(out)@ + dec(n as nat));
    }
}

/// Musical → Camelot (`C` → `8B`, `Am` → `8A`).
pub fn musical_to_camelot(key: &str) -> (out: Option<String>)
    ensures
        match out {
            Some(s) => musical_to_camelot_of(key@) == Some(s@),
            None => musical_to_camelot_of(key@) is None,
        },
{
    let cs = chars_of(key);
    let t = trim_chars(cs.as_slice());
    if let Some(i) = position_major(t.as_slice()) {
        let mut out = String::new();
        push_small(&mut out, (i + 7) % 12 + 1);
        push_char(&mut out, 'B');
        return Some(out);
    }
    if let Some(i) = position_minor(t.as_slice()) {
        let mut out = String::new();
        push_small(&mut out, (i + 7) % 12 + 1);
        push_char(&mut out, 'A');
        return Some(out);
    }
    None
}

/// The parsed value of `s` when it is a number in 1..=12.
pub open spec fn small_value(s: Seq<char>) -> Option<nat> {
    match parse_unsigned(s) {
        Some(v) => if 1 <= v <= 12 {
            Some(v)
        } else {
            None
        },
        None => None,
    }
}

/// Parses `[+]digits` when its value is 1..=12.
fn parse_small(s: &[char]) -> (r: Option<usize>)
    ensures
        match r {
            Some(n) => 1 <= n <= 12 && small_value(s@) == Some(n as nat),
            None => small_value(s@) is None,
        },
{
    let start: usize = if s.len() > 0 && s[0] == '+' {
        1
    } else {
        0
    };
    let ghost d = unsigned_digits(s@);
    assert(d =~= s@.skip(start as int));
    if start >= s.len() {
        assert(d.len() == 0);
        return None;
    }
    let mut i: usize = start;
    let mut val: usize = 0;
    let mut big = false;
    while i < s.len()
        invariant
            start <= i <= s.len(),
            d == s@.skip(start as int),
            d == unsigned_digits(s@),
            forall|j: int| 0 <= j < i - start ==> is_digit(#[trigger] d[j]),
            big ==> digits_value(d.take(i - start)) > 12,
            !big ==> val == digits_value(d.take(i - start)) && val <= 12,
        decreases s.len() - i,
    {
        let c = s[i];
        assert(d[i - start] == c);
        if !('0' <= c && c <= '9') {
            assert(!is_digit(d[i - start]));
            assert(!all_digits(d));
            assert(parse_unsigned(s@) is None);
            return None;
        }
        let dv = (c as u32 - 48) as usize;
        assert(d.take(i - start + 1).drop_last() =~= d.take(i - start));
        assert(d.take(i - start + 1).last() == c);
        if !big {
            let nv = val * 10 + dv;
            if nv > 12 {
                big = true;
            } else {
                val = nv;
            }
        }
        i = i + 1;
    }
    assert(d.take(d.len() as int) =~= d);
    if big || val == 0 {
        None
    } else {
        Some(val)
    }
}

/// Camelot → musical (`8B` → `C`, `8A` → `Am`). Accepts lower/upper letter suffix.
pub fn camelot_to_musical(code: &str) -> (out: Option<String>)
    ensures
        match out {
            Some(s) => camelot_to_musical_of(code@) == Some(s@),
            None => camelot_to_musical_of(code@) is None,
        },
{
    let cs = chars_of(code);
    let t = trim_chars(cs.as_slice());
    let n = t.len();
    if n == 0 {
        return None;
    }
    let last = char_ascii_upper(t[n - 1]);
    if last != 'A' && last != 'B' {
        return None;
    }
    let mut rest: Vec<char> = Vec::new();
    let mut k: usize = 0;
    while k < n - 1
        invariant
            k <= n - 1,
            n == t@.len(),
            rest@ == t@.take(k as int),
        decreases n - 1 - k,
    {
        rest.push(t[k]);
        assert(t@.take(k as int).push(t@[k as int]) =~= t@.take(k + 1));
        k = k + 1;
    }
    assert(rest@ =~= t@.drop_last());
    match parse_small(rest.as_slice()) {
        Some(num) => {
            let index = (num + 12 - 1 - 7) % 12;
            if last == 'A' {
                Some(string_of(minor_key(index).as_slice()))
            } else {
                Some(string_of(major_key(index).as_slice()))
            }
        },
        None => None,
    }
}

/// Camelot number + minor flag → musical (tag import).
pub fn camelot_code_to_musical(code: usize, minor: bool) -> (out: Option<String>)
    ensures
        match out {
            Some(s) => camelot_code_to_musical_of(code as int, minor) == Some(s@),
            None => camelot_code_to_musical_of(code as int, minor) is None,
        },
{
    if code < 1 || code > 12 {
        return None;
    }
    let index = (code + 12 - 1 - 7) % 12;
    if minor {
        Some(string_of(minor_key(index).as_slice()))
    } else {
        Some(string_of(major_key(index).as_slice()))
    }
}

/// Format a stored key for display. Empty input returns empty; unknown tokens pass through.
pub fn format_key(key: &str, mode: KeyDisplayMode) -> (out: String)
    ensures
        out@ == format_key_of(key@, mode),
{
    let cs = chars_of(key);
    let t = trim_chars(cs.as_slice());
    if t.len() == 0 {
        return String::new();
    }
    let ts = string_of(t.as_slice());
    match mode {
        KeyDisplayMode::Musical => match camelot_to_musical(ts.as_str()) {
            Some(m) => m,
            None => ts,
        },
        KeyDisplayMode::Camelot => match musical_to_camelot(ts.as_str()) {
            Some(c) => c,
            None => ts,
        },
    }
}

/// Decimal text of 1..=12 is a plain run of digits worth `n`.
pub proof fn lemma_dec_small(n: nat)
    requires
        1 <= n <= 12,
    ensures
        dec(n).len() > 0,
        dec(n)[0] != '+',
        all_digits(dec(n)),
        digits_value(dec(n)) == n,
        forall|j: int| 0 <= j < dec(n).len() ==> !is_ws(#[trigger] dec(n)[j]),
{
    reveal_with_fuel(dec, 2);
    reveal_with_fuel(digits_value, 3);
    assert(digit_char(n % 10) as u32 == n % 10 + 48);
    assert(digit_char(1) as u32 == 49);
    if n < 10 {
        assert(dec(n) == seq![digit_char(n)]);
        assert(dec(n).drop_last() =~= Seq::<char>::empty());
    } else {
        assert(dec(n / 10) == seq![digit_char(1)]);
        assert(dec(n) =~= seq![digit_char(1), digit_char((n % 10) as nat)]);
        assert(dec(n).drop_last() =~= seq![digit_char(1)]);
        assert(dec(n).drop_last().drop_last() =~= Seq::<char>::empty());
    }
}

/// The code text "nA"/"nB" for a number 1..=12 parses back to that number and letter.
pub proof fn lemma_code_text(n: nat, minor: bool)
    requires
        1 <= n <= 12,
    ensures
        camelot_to_musical_of(dec(n).push(if minor { 'A' } else { 'B' })) == Some(
            key_name(wheel_index(n as int), minor),
        ),
{
    let letter = if minor {
        'A'
    } else {
        'B'
    };
    let code = dec(n).push(letter);
    lemma_dec_small(n);
    assert forall|j: int| 0 <= j < code.len() implies !is_ws(#[trigger] code[j]) by {
        if j < dec(n).len() {
            assert(code[j] == dec(n)[j]);
        }
    }
    lemma_trim_no_ws(code);
    assert(code.drop_last() =~= dec(n));
    assert(unsigned_digits(dec(n)) == dec(n));
}

/// Each wheel position's Camelot number maps back to that position.
pub proof fn lemma_wheel_index(i: int)
    requires
        0 <= i < 12,
    ensures
        1 <= camelot_number(i) <= 12,
        wheel_index(camelot_number(i)) == i,
{
}

/// Key names contain no whitespace.
proof fn lemma_names_no_ws(i: int, minor: bool)
    requires
        0 <= i < 12,
    ensures
        forall|j: int|
            0 <= j < key_name(i, minor).len() ==> !is_ws(#[trigger] key_name(i, minor)[j]),
{
}

/// The major names are distinct from one another and from the minor names.
proof fn lemma_find_names(i: int)
    requires
        0 <= i < 12,
    ensures
        find_major(major_name(i), 0) == i,
        find_major(minor_name(i), 0) == -1,
        find_minor(minor_name(i), 0) == i,
{
    reveal_with_fuel(find_major, 13);
    reveal_with_fuel(find_minor, 13);
    let a = major_name(i);
    let b = minor_name(i);
    assert forall|k: int| 0 <= k < 12 && k != i implies major_name(k) != a && minor_name(k) != b by {
        if major_name(k) == a {
            assert(major_name(k).len() == a.len());
            assert(major_name(k)[0] == a[0]);
            if a.len() > 1 {
                assert(major_name(k)[1] == a[1]);
            }
        }
        if minor_name(k) == b {
            assert(minor_name(k).len() == b.len());
            assert(minor_name(k)[0] == b[0]);
            assert(minor_name(k)[1] == b[1]);
        }
    }
    assert forall|k: int| 0 <= k < 12 implies major_name(k) != b by {
        if major_name(k) == b {
            assert(major_name(k).len() == b.len());
            assert(major_name(k)[b.len() - 1] == b[b.len() - 1]);
        }
    }
}

/// Round trip over the whole wheel: every musical key converts to its Camelot
/// code, and that code converts back to the same musical key.
pub proof fn law_camelot_round_trip(i: int, minor: bool)
    requires
        0 <= i < 12,
    ensures
        musical_to_camelot_of(key_name(i, minor)) == Some(camelot_code(i, minor)),
        camelot_to_musical_of(camelot_code(i, minor)) == Some(key_name(i, minor)),
{
    lemma_names_no_ws(i, minor);
    lemma_trim_no_ws(key_name(i, minor));
    lemma_find_names(i);
    lemma_wheel_index(i);
    lemma_code_text(camelot_number(i) as nat, minor);
}

/// The numeric form agrees with the text parser: number `n` with the minor
/// flag names the same key as the text "nA" (minor) or "nB" (major).
pub proof fn law_code_matches_text(n: int, minor: bool)
    requires
        1 <= n <= 12,
    ensures
        camelot_code_to_musical_of(n, minor) == camelot_to_musical_of(
            dec(n as nat).push(if minor { 'A' } else { 'B' }),
        ),
{
    lemma_code_text(n as nat, minor);
}

/// Formatting is the identity on empty or blank input, in either mode.
pub proof fn law_format_blank(key: Seq<char>, mode: KeyDisplayMode)
    requires
        trim(key).len() == 0,
    ensures
        format_key_of(key, mode) == Seq::<char>::empty(),
{
}

/// A Camelot code is accepted exactly when, trimmed, it is a number from 1 to
/// 12 (digits after an optional `+`) followed by the letter `A` or `B` in
/// either case.
pub proof fn law_camelot_acceptance(code: Seq<char>)
    ensures
        camelot_to_musical_of(code) is Some <==> ({
            let t = trim(code);
            &&& t.len() >= 2
            &&& (ascii_upper(t.last()) == 'A' || ascii_upper(t.last()) == 'B')
            &&& parse_unsigned(t.drop_last()) matches Some(n) && 1 <= n <= 12
        }),
{
}

/// The letter case of a Camelot code does not matter: lowercasing it gives
/// the same result.
pub proof fn law_camelot_case_blind(code: Seq<char>)
    ensures
        camelot_to_musical_of(lower_seq(code)) == camelot_to_musical_of(code),
{
    lemma_trim_lower(code);
    let t = trim(code);
    let u = lower_seq(t);
    if t.len() > 0 {
        let c = t.last();
        assert(u.last() == ascii_lower(c));
        if 'A' <= c <= 'Z' {
            assert(97 <= (ascii_lower(c) as u32) <= 122);
            assert(ascii_upper(ascii_lower(c)) == c);
        }
        let d = t.drop_last();
        assert(u.drop_last() =~= lower_seq(d));
        let ld = lower_seq(d);
        if d.len() > 0 {
            if 'A' <= d[0] <= 'Z' {
                assert(97 <= (ascii_lower(d[0]) as u32) <= 122);
            }
            assert(ld[0] == ascii_lower(d[0]));
        }
        let ud = unsigned_digits(d);
        let lud = unsigned_digits(ld);
        assert(lud =~= lower_seq(ud));
        assert forall|j: int| 0 <= j < ud.len() implies (is_digit(#[trigger] lud[j]) == is_digit(ud[j])) by {
            assert(lud[j] == ascii_lower(ud[j]));
            if 'A' <= ud[j] <= 'Z' {
                assert(97 <= (ascii_lower(ud[j]) as u32) <= 122);
            }
        }
        if all_digits(ud) {
            assert(lud =~= ud);
        } else {
            let j = choose|j: int| 0 <= j < ud.len() && !is_digit(#[trigger] ud[j]);
            assert(!is_digit(lud[j]));
        }
    }
}

/// The name of pitch class `p` (C = 0, C# = 1, ..., B = 11), with sharps.
pub open spec fn pitch_name(p: int) -> Seq<char> {
    if p == 0 {
        seq!['C']
    } else if p == 1 {
        seq!['C', '#']
    } else if p == 2 {
        seq!['D']
    } else if p == 3 {
        seq!['D', '#']
    } else if p == 4 {
        seq!['E']
    } else if p == 5 {
        seq!['F']
    } else if p == 6 {
        seq!['F', '#']
    } else if p == 7 {
        seq!['G']
    } else if p == 8 {
        seq!['G', '#']
    } else if p == 9 {
        seq!['A']
    } else if p == 10 {
        seq!['A', '#']
    } else {
        seq!['B']
    }
}

/// Pitch class `p` sits on the major wheel at `7p mod 12` and on the minor
/// wheel at `(7p + 9) mod 12`: each step up a fifth is one step on the wheel.
proof fn lemma_pitch_wheel(p: int)
    requires
        0 <= p < 12,
    ensures
        major_name((7 * p) % 12) == pitch_name(p),
        minor_name((7 * p + 9) % 12) == pitch_name(p).push('m'),
        camelot_number((7 * p) % 12) == (7 * p + 7) % 12 + 1,
        camelot_number((7 * p + 9) % 12) == (7 * p + 4) % 12 + 1,
{
    if p == 0 {
        assert(pitch_name(p).push('m') =~= seq!['C', 'm']);
    } else if p == 1 {
        assert(pitch_name(p).push('m') =~= seq!['C', '#', 'm']);
    } else if p == 2 {
        assert(pitch_name(p).push('m') =~= seq!['D', 'm']);
    } else if p == 3 {
        assert(pitch_name(p).push('m') =~= seq!['D', '#', 'm']);
    } else if p == 4 {
        assert(pitch_name(p).push('m') =~= seq!['E', 'm']);
    } else if p == 5 {
        assert(pitch_name(p).push('m') =~= seq!['F', 'm']);
    } else if p == 6 {
        assert(pitch_name(p).push('m') =~= seq!['F', '#', 'm']);
    } else if p == 7 {
        assert(pitch_name(p).push('m') =~= seq!['G', 'm']);
    } else if p == 8 {
        assert(pitch_name(p).push('m') =~= seq!['G', '#', 'm']);
    } else if p == 9 {
        assert(pitch_name(p).push('m') =~= seq!['A', 'm']);
    } else if p == 10 {
        assert(pitch_name(p).push('m') =~= seq!['A', '#', 'm']);
    } else {
        assert(pitch_name(p).push('m') =~= seq!['B', 'm']);
    }
}

/// The Camelot code of a key is fixed by its pitch class `p`: the major key
/// is number `(7p + 7) mod 12 + 1` with `B`, the minor key number
/// `(7p + 4) mod 12 + 1` with `A` (C is 8B, Am is 8A, a fifth up adds one),
/// and each code converts back to that key.
pub proof fn law_camelot_by_pitch(p: int)
    requires
        0 <= p < 12,
    ensures
        musical_to_camelot_of(pitch_name(p)) == Some(dec(((7 * p + 7) % 12 + 1) as nat).push('B')),
        musical_to_camelot_of(pitch_name(p).push('m')) == Some(
            dec(((7 * p + 4) % 12 + 1) as nat).push('A'),
        ),
        camelot_to_musical_of(dec(((7 * p + 7) % 12 + 1) as nat).push('B')) == Some(pitch_name(p)),
        camelot_to_musical_of(dec(((7 * p + 4) % 12 + 1) as nat).push('A')) == Some(
            pitch_name(p).push('m'),
        ),
{
    lemma_pitch_wheel(p);
    law_camelot_round_trip((7 * p) % 12, false);
    law_camelot_round_trip((7 * p + 9) % 12, true);
}

} // verus!
