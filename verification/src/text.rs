//! Character-sequence helpers shared by the parser and the renderer:
//! trimming, prefix tests, searching, splitting, and decimal digits,
//! each as a specification over `Seq<char>` with a verified executable
//! counterpart.

use vstd::prelude::*;

verus! {

/// The whitespace characters removed by trimming (the ASCII ones).
pub open spec fn is_space(c: char) -> bool {
    c == ' ' || c == '\t' || c == '\n' || c == '\r' || c == '\u{000B}' || c == '\u{000C}'
}

/// Index of the first non-whitespace character at or after `i`, or
/// `s.len()` when everything from `i` on is whitespace.
pub open spec fn scan_non_space(s: Seq<char>, i: int) -> int
    decreases s.len() - i,
{
    if i < 0 || i >= s.len() {
        s.len() as int
    } else if is_space(s[i]) {
        scan_non_space(s, i + 1)
    } else {
        i
    }
}

/// One past the last non-whitespace character strictly before `i`, or
/// `0` when everything before `i` is whitespace.
pub open spec fn scan_back_non_space(s: Seq<char>, i: int) -> int
    decreases i,
{
    if i <= 0 || i > s.len() {
        0
    } else if is_space(s[i - 1]) {
        scan_back_non_space(s, i - 1)
    } else {
        i
    }
}

/// `s` with leading and trailing whitespace removed.
pub open spec fn trimmed(s: Seq<char>) -> Seq<char> {
    let b = scan_non_space(s, 0);
    if b == s.len() {
        Seq::empty()
    } else {
        s.subrange(b, scan_back_non_space(s, s.len() as int))
    }
}

/// `s` with leading whitespace removed.
pub open spec fn ltrimmed(s: Seq<char>) -> Seq<char> {
    s.subrange(scan_non_space(s, 0), s.len() as int)
}

/// The glob of a calling-context line: what follows the four-character
/// `obj:` or `fun:` prefix, with its leading whitespace removed.
pub open spec fn frame_glob_of(t: Seq<char>) -> Seq<char> {
    ltrimmed(t.skip(4))
}

/// `p` is a prefix of `s`.
pub open spec fn has_prefix(s: Seq<char>, p: Seq<char>) -> bool {
    p.len() <= s.len() && s.subrange(0, p.len() as int) == p
}

/// Index of the first occurrence of `c` at or after `i`, or `s.len()`
/// when there is none.
pub open spec fn find_char_at(s: Seq<char>, c: char, i: int) -> int
    decreases s.len() - i,
{
    if i < 0 || i >= s.len() {
        s.len() as int
    } else if s[i] == c {
        i
    } else {
        find_char_at(s, c, i + 1)
    }
}

/// The pieces of `s[i..]` delimited by `sep`; empty pieces are kept, so
/// the result always has one piece more than `s[i..]` has separators.
pub open spec fn split_from(s: Seq<char>, sep: char, i: int) -> Seq<Seq<char>>
    decreases s.len() - i,
{
    let f = find_char_at(s, sep, i);
    if 0 <= i && i <= f && f < s.len() {
        seq![s.subrange(i, f)] + split_from(s, sep, f + 1)
    } else {
        seq![s.subrange(i, s.len() as int)]
    }
}

/// The pieces of `s` delimited by `sep`.
pub open spec fn split_seq(s: Seq<char>, sep: char) -> Seq<Seq<char>> {
    split_from(s, sep, 0)
}

/// The ten decimal digit characters.
pub open spec fn is_digit_char(c: char) -> bool {
    c == '0' || c == '1' || c == '2' || c == '3' || c == '4' || c == '5' || c == '6' || c == '7'
        || c == '8' || c == '9'
}

/// Numeric value of a digit character (zero on other characters).
pub open spec fn digit_val(c: char) -> nat {
    if c == '1' {
        1
    } else if c == '2' {
        2
    } else if c == '3' {
        3
    } else if c == '4' {
        4
    } else if c == '5' {
        5
    } else if c == '6' {
        6
    } else if c == '7' {
        7
    } else if c == '8' {
        8
    } else if c == '9' {
        9
    } else {
        0
    }
}

/// Digit character for a value below ten ('9' above that).
pub open spec fn digit_char(d: nat) -> char {
    if d == 0 {
        '0'
    } else if d == 1 {
        '1'
    } else if d == 2 {
        '2'
    } else if d == 3 {
        '3'
    } else if d == 4 {
        '4'
    } else if d == 5 {
        '5'
    } else if d == 6 {
        '6'
    } else if d == 7 {
        '7'
    } else if d == 8 {
        '8'
    } else {
        '9'
    }
}

/// Every character of `s` is a decimal digit.
pub open spec fn all_digits(s: Seq<char>) -> bool {
    forall|j: int| 0 <= j < s.len() ==> is_digit_char(s[j])
}

/// Value of `s` read as a decimal numeral.
pub open spec fn dec_value(s: Seq<char>) -> nat
    decreases s.len(),
{
    if s.len() == 0 {
        0
    } else {
        dec_value(s.drop_last()) * 10 + digit_val(s.last())
    }
}

/// What reading `s` as a non-negative machine integer yields: its value
/// when `s` is one or more digits and the value fits, nothing otherwise.
pub open spec fn dec_parse(s: Seq<char>) -> Option<nat> {
    if s.len() > 0 && all_digits(s) && dec_value(s) <= usize::MAX {
        Some(dec_value(s))
    } else {
        None
    }
}

/// Canonical decimal numeral for `n`: no sign, no leading zero except
/// on zero itself.
pub open spec fn dec_digits(n: nat) -> Seq<char>
    decreases n,
{
    if n < 10 {
        seq![digit_char(n)]
    } else {
        dec_digits(n / 10).push(digit_char(n % 10))
    }
}

pub proof fn lemma_scan_back_non_space(s: Seq<char>, i: int)
    requires
        0 <= i <= s.len(),
    ensures
        0 <= scan_back_non_space(s, i) <= i,
        forall|j: int| scan_back_non_space(s, i) <= j < i ==> is_space(s[j]),
        scan_back_non_space(s, i) > 0 ==> !is_space(s[scan_back_non_space(s, i) - 1]),
    decreases i,
{
    if i > 0 && is_space(s[i - 1]) {
        lemma_scan_back_non_space(s, i - 1);
    }
}

/// The back scan stays to the right of any non-whitespace character.
pub proof fn lemma_scan_back_above(s: Seq<char>, i: int, k: int)
    requires
        0 <= k < i <= s.len(),
        !is_space(s[k]),
    ensures
        scan_back_non_space(s, i) > k,
    decreases i,
{
    if is_space(s[i - 1]) {
        lemma_scan_back_above(s, i - 1, k);
    }
}

/// A non-empty sequence that neither starts nor ends in whitespace is
/// its own trimmed form.
pub proof fn lemma_trim_id(s: Seq<char>)
    requires
        s.len() > 0,
        !is_space(s[0]),
        !is_space(s[s.len() - 1]),
    ensures
        trimmed(s) == s,
{
    assert(scan_non_space(s, 0) == 0);
    assert(scan_back_non_space(s, s.len() as int) == s.len());
    assert(s.subrange(0, s.len() as int) =~= s);
}

/// Prefixing three spaces does not change the trimmed form of a line
/// that neither starts nor ends in whitespace.
pub proof fn lemma_trim_indent(x: Seq<char>)
    requires
        x.len() > 0,
        !is_space(x[0]),
        !is_space(x[x.len() - 1]),
    ensures
        trimmed("   "@ + x) == x,
{
    reveal_strlit("   ");
    let s = "   "@ + x;
    assert(s.len() == 3 + x.len());
    assert(is_space(s[0]) && is_space(s[1]) && is_space(s[2]));
    assert(s[3] == x[0]);
    assert(scan_non_space(s, 0) == scan_non_space(s, 1));
    assert(scan_non_space(s, 1) == scan_non_space(s, 2));
    assert(scan_non_space(s, 2) == scan_non_space(s, 3));
    assert(scan_non_space(s, 3) == 3);
    assert(s[s.len() - 1] == x[x.len() - 1]);
    assert(scan_back_non_space(s, s.len() as int) == s.len());
    assert(s.subrange(3, s.len() as int) =~= x);
}

/// A sequence without leading whitespace is its own left-trimmed form.
pub proof fn lemma_ltrim_id(s: Seq<char>)
    requires
        s.len() == 0 || !is_space(s[0]),
    ensures
        ltrimmed(s) == s,
{
    assert(scan_non_space(s, 0) == 0);
    assert(s.subrange(0, s.len() as int) =~= s);
}

pub proof fn lemma_find_char_at(s: Seq<char>, c: char, i: int)
    requires
        0 <= i <= s.len(),
    ensures
        i <= find_char_at(s, c, i) <= s.len(),
        forall|j: int| i <= j < find_char_at(s, c, i) ==> s[j] != c,
        find_char_at(s, c, i) < s.len() ==> s[find_char_at(s, c, i)] == c,
    decreases s.len() - i,
{
    if i < s.len() && s[i] != c {
        lemma_find_char_at(s, c, i + 1);
    }
}

/// The first occurrence of `c` at or after `i` is exactly the position
/// `k` where `c` stands with no earlier occurrence.
pub proof fn lemma_find_char_is(s: Seq<char>, c: char, i: int, k: int)
    requires
        0 <= i <= k < s.len(),
        s[k] == c,
        forall|j: int| i <= j < k ==> s[j] != c,
    ensures
        find_char_at(s, c, i) == k,
    decreases k - i,
{
    if i < k {
        lemma_find_char_is(s, c, i + 1, k);
    }
}

/// Splitting a separator-free sequence yields that sequence alone.
pub proof fn lemma_split_no_sep(s: Seq<char>, sep: char)
    requires
        !s.contains(sep),
    ensures
        split_seq(s, sep) == seq![s],
{
    lemma_find_char_at(s, sep, 0);
    assert(find_char_at(s, sep, 0) == s.len()) by {
        if find_char_at(s, sep, 0) < s.len() {
            assert(s.contains(sep));
        }
    }
    assert(s.subrange(0, s.len() as int) =~= s);
    assert(split_from(s, sep, 0) =~= seq![s]);
}

/// Splitting `a`, the separator, then `b` (each piece separator-free)
/// yields exactly the two pieces, in order.
pub proof fn lemma_split_two(a: Seq<char>, b: Seq<char>, sep: char)
    requires
        !a.contains(sep),
        !b.contains(sep),
    ensures
        split_seq(a + seq![sep] + b, sep) == seq![a, b],
{
    let s = a + seq![sep] + b;
    let al = a.len() as int;
    assert(s.len() == a.len() + 1 + b.len());
    assert(s[al] == sep);
    assert(forall|j: int| 0 <= j < al ==> s[j] == a[j] && !a.contains(sep) ==> s[j] != sep);
    assert forall|j: int| 0 <= j < al implies s[j] != sep by {
        assert(s[j] == a[j]);
        if s[j] == sep {
            assert(a.contains(sep));
        }
    }
    lemma_find_char_is(s, sep, 0, al);
    assert(s.subrange(0, al) =~= a);
    assert forall|j: int| al + 1 <= j < s.len() implies s[j] != sep by {
        assert(s[j] == b[j - al - 1]);
        if s[j] == sep {
            assert(b.contains(sep));
        }
    }
    lemma_find_char_at(s, sep, al + 1);
    assert(find_char_at(s, sep, al + 1) == s.len());
    assert(s.subrange(al + 1, s.len() as int) =~= b);
    assert(split_from(s, sep, al + 1) == seq![b]);
    assert(split_from(s, sep, 0) =~= seq![a, b]);
}

/// Splitting further into a sequence splits its remaining suffix.
pub proof fn lemma_split_from_offset(s: Seq<char>, sep: char, i: int)
    requires
        0 <= i <= s.len(),
    ensures
        split_from(s, sep, i) == split_from(s.skip(i), sep, 0),
    decreases s.len() - i,
{
    let u = s.skip(i);
    let f = find_char_at(s, sep, i);
    lemma_find_char_at(s, sep, i);
    if f == s.len() {
        assert forall|k: int| 0 <= k < u.len() implies u[k] != sep by {
            assert(u[k] == s[i + k]);
        }
        lemma_find_char_at(u, sep, 0);
        assert(find_char_at(u, sep, 0) == u.len()) by {
            if find_char_at(u, sep, 0) < u.len() {
                assert(u[find_char_at(u, sep, 0)] == sep);
            }
        }
        assert(s.subrange(i, s.len() as int) =~= u);
        assert(u.subrange(0, u.len() as int) =~= u);
    } else {
        assert forall|k: int| 0 <= k < f - i implies u[k] != sep by {
            assert(u[k] == s[i + k]);
        }
        assert(u[f - i] == s[f]);
        lemma_find_char_is(u, sep, 0, f - i);
        assert(s.subrange(i, f) =~= u.subrange(0, f - i));
        lemma_split_from_offset(s, sep, f + 1);
        lemma_split_from_offset(u, sep, f - i + 1);
        assert(s.skip(f + 1) =~= u.skip(f - i + 1));
    }
}

/// Splitting a text that begins with a separator-free piece and the
/// separator yields that piece, then the split of the rest.
pub proof fn lemma_split_head(a: Seq<char>, b: Seq<char>, sep: char)
    requires
        !a.contains(sep),
    ensures
        split_seq(a + seq![sep] + b, sep) == seq![a] + split_seq(b, sep),
{
    let s = a + seq![sep] + b;
    let al = a.len() as int;
    assert(s[al] == sep);
    assert forall|j: int| 0 <= j < al implies s[j] != sep by {
        assert(s[j] == a[j]);
        if s[j] == sep {
            assert(a.contains(sep));
        }
    }
    lemma_find_char_is(s, sep, 0, al);
    assert(s.subrange(0, al) =~= a);
    lemma_split_from_offset(s, sep, al + 1);
    assert(s.skip(al + 1) =~= b);
}

/// No character of either part, no character of the concatenation.
pub proof fn lemma_concat_no_char(a: Seq<char>, b: Seq<char>, c: char)
    requires
        !a.contains(c),
        !b.contains(c),
    ensures
        !(a + b).contains(c),
{
    assert forall|j: int| 0 <= j < (a + b).len() implies (a + b)[j] != c by {
        if j < a.len() {
            assert((a + b)[j] == a[j]);
            if a[j] == c {
                assert(a.contains(c));
            }
        } else {
            assert((a + b)[j] == b[j - a.len()]);
            if b[j - a.len()] == c {
                assert(b.contains(c));
            }
        }
    }
}

/// Digits carry their value back: the canonical numeral of `n` is all
/// digits and reads as `n`.
pub proof fn lemma_dec_digits(n: nat)
    ensures
        dec_digits(n).len() >= 1,
        all_digits(dec_digits(n)),
        dec_value(dec_digits(n)) == n,
    decreases n,
{
    if n < 10 {
        let s = dec_digits(n);
        assert(s == seq![digit_char(n)]);
        assert(s.drop_last() =~= Seq::<char>::empty());
        assert(s.last() == digit_char(n));
        assert(dec_value(s) == dec_value(s.drop_last()) * 10 + digit_val(s.last()));
        assert(dec_value(Seq::<char>::empty()) == 0);
        assert(digit_val(digit_char(n)) == n);
    } else {
        lemma_dec_digits(n / 10);
        let p = dec_digits(n / 10);
        let s = dec_digits(n);
        assert(s == p.push(digit_char(n % 10)));
        assert(s.drop_last() =~= p);
        assert(s.last() == digit_char(n % 10));
        assert(dec_value(s) == dec_value(p) * 10 + digit_val(digit_char(n % 10)));
        assert(digit_val(digit_char(n % 10)) == n % 10);
        assert((n / 10) * 10 + n % 10 == n);
    }
}

/// Reading a prefix of a numeral never yields more than the whole.
pub proof fn lemma_dec_value_take_mono(s: Seq<char>, i: int)
    requires
        0 <= i <= s.len(),
    ensures
        dec_value(s.take(i)) <= dec_value(s),
    decreases s.len() - i,
{
    if i < s.len() {
        lemma_dec_value_take_mono(s, i + 1);
        let t = s.take(i + 1);
        assert(t.drop_last() =~= s.take(i));
        assert(dec_value(t) == dec_value(s.take(i)) * 10 + digit_val(t.last()));
        assert(dec_value(s.take(i)) <= dec_value(s.take(i)) * 10);
    } else {
        assert(s.take(i) =~= s);
    }
}

fn is_space_x(c: char) -> (r: bool)
    ensures
        r == is_space(c),
{
    c == ' ' || c == '\t' || c == '\n' || c == '\r' || c == '\u{000B}' || c == '\u{000C}'
}

/// Removes leading and trailing whitespace.
pub fn trim_of(s: &str) -> (r: &str)
    ensures
        r@ == trimmed(s@),
{
    let n = s.unicode_len();
    let mut b: usize = 0;
    while b < n && is_space_x(s.get_char(b))
        invariant
            0 <= b <= n,
            n == s@.len(),
            scan_non_space(s@, 0) == scan_non_space(s@, b as int),
        decreases n - b,
    {
        b = b + 1;
    }
    assert(scan_non_space(s@, b as int) == b);
    if b == n {
        let r = s.substring_char(n, n);
        assert(r@ =~= trimmed(s@));
        r
    } else {
        let mut e: usize = n;
        proof {
            lemma_scan_back_above(s@, n as int, b as int);
        }
        while e > 0 && is_space_x(s.get_char(e - 1))
            invariant
                0 <= e <= n,
                n == s@.len(),
                scan_back_non_space(s@, n as int) == scan_back_non_space(s@, e as int),
                scan_back_non_space(s@, n as int) > b,
                b < n,
            decreases e,
        {
            proof {
                lemma_scan_back_non_space(s@, e as int);
            }
            e = e - 1;
        }
        assert(scan_back_non_space(s@, e as int) == e);
        assert(e > b);
        s.substring_char(b, e)
    }
}

/// Removes leading whitespace.
pub fn ltrim_of(s: &str) -> (r: &str)
    ensures
        r@ == ltrimmed(s@),
{
    let n = s.unicode_len();
    let mut b: usize = 0;
    while b < n && is_space_x(s.get_char(b))
        invariant
            0 <= b <= n,
            n == s@.len(),
            scan_non_space(s@, 0) == scan_non_space(s@, b as int),
        decreases n - b,
    {
        b = b + 1;
    }
    assert(scan_non_space(s@, b as int) == b);
    s.substring_char(b, n)
}

/// Character-wise equality of two text slices.
pub fn text_eq(a: &str, b: &str) -> (r: bool)
    ensures
        r == (a@ == b@),
{
    let n = a.unicode_len();
    let m = b.unicode_len();
    if n != m {
        return false;
    }
    let mut i: usize = 0;
    while i < n
        invariant
            0 <= i <= n,
            n == a@.len(),
            n == b@.len(),
            forall|j: int| 0 <= j < i ==> a@[j] == b@[j],
        decreases n - i,
    {
        if a.get_char(i) != b.get_char(i) {
            return false;
        }
        i = i + 1;
    }
    proof {
        assert(a@ =~= b@);
    }
    true
}

/// Whether `p` is a prefix of `s`.
pub fn begins_with(s: &str, p: &str) -> (r: bool)
    ensures
        r == has_prefix(s@, p@),
{
    let n = s.unicode_len();
    let m = p.unicode_len();
    if m > n {
        return false;
    }
    let mut i: usize = 0;
    while i < m
        invariant
            0 <= i <= m <= n,
            n == s@.len(),
            m == p@.len(),
            forall|j: int| 0 <= j < i ==> s@[j] == p@[j],
        decreases m - i,
    {
        if s.get_char(i) != p.get_char(i) {
            assert(s@.subrange(0, m as int)[i as int] != p@[i as int]);
            return false;
        }
        i = i + 1;
    }
    proof {
        assert(s@.subrange(0, m as int) =~= p@);
    }
    true
}

/// Whether `c` occurs in `s`.
pub fn has_char(s: &str, c: char) -> (r: bool)
    ensures
        r == s@.contains(c),
{
    let n = s.unicode_len();
    let mut i: usize = 0;
    while i < n
        invariant
            0 <= i <= n,
            n == s@.len(),
            forall|j: int| 0 <= j < i ==> s@[j] != c,
        decreases n - i,
    {
        if s.get_char(i) == c {
            return true;
        }
        i = i + 1;
    }
    false
}

/// Position of the first occurrence of `c` in `s`, if any.
pub fn find_char(s: &str, c: char) -> (r: Option<usize>)
    ensures
        match r {
            Some(k) => k as int == find_char_at(s@, c, 0) && (k as int) < s@.len(),
            None => find_char_at(s@, c, 0) == s@.len(),
        },
{
    let n = s.unicode_len();
    let mut i: usize = 0;
    while i < n
        invariant
            0 <= i <= n,
            n == s@.len(),
            forall|j: int| 0 <= j < i ==> s@[j] != c,
        decreases n - i,
    {
        if s.get_char(i) == c {
            proof {
                lemma_find_char_is(s@, c, 0, i as int);
            }
            return Some(i);
        }
        i = i + 1;
    }
    proof {
        lemma_find_char_at(s@, c, 0);
        if find_char_at(s@, c, 0) < s@.len() {
            assert(false);
        }
    }
    None
}

/// Splits `s` on `sep`, keeping empty pieces.
pub fn split_on(s: &str, sep: char) -> (r: Vec<String>)
    ensures
        r.deep_view() == split_seq(s@, sep),
{
    let n = s.unicode_len();
    let mut parts: Vec<String> = Vec::new();
    let mut start: usize = 0;
    let mut i: usize = 0;
    proof {
        assert(s@.subrange(0, n as int) =~= s@);
    }
    while i < n
        invariant
            0 <= start <= i <= n,
            n == s@.len(),
            forall|j: int| start <= j < i ==> s@[j] != sep,
            split_seq(s@, sep) == parts.deep_view() + split_from(s@, sep, start as int),
        decreases n - i,
    {
        if s.get_char(i) == sep {
            let piece = s.substring_char(start, i);
            proof {
                lemma_find_char_is(s@, sep, start as int, i as int);
            }
            parts.push(String::from_str(piece));
            proof {
                assert(parts.deep_view() =~= parts.deep_view().take(
                    parts.deep_view().len() - 1,
                ).push(piece@));
                assert(split_from(s@, sep, start as int) == seq![s@.subrange(
                    start as int,
                    i as int,
                )] + split_from(s@, sep, i + 1));
                assert(split_seq(s@, sep) =~= parts.deep_view() + split_from(s@, sep, i + 1));
            }
            start = i + 1;
        }
        i = i + 1;
    }
    let piece = s.substring_char(start, n);
    proof {
        lemma_find_char_at(s@, sep, start as int);
        assert(find_char_at(s@, sep, start as int) == n) by {
            if find_char_at(s@, sep, start as int) < n {
                assert(s@[find_char_at(s@, sep, start as int)] == sep);
            }
        }
        assert(split_from(s@, sep, start as int) == seq![s@.subrange(start as int, n as int)]);
    }
    parts.push(String::from_str(piece));
    proof {
        assert(parts.deep_view() =~= split_seq(s@, sep));
    }
    parts
}

fn digit_of(c: char) -> (r: Option<usize>)
    ensures
        match r {
            Some(d) => is_digit_char(c) && d as nat == digit_val(c) && d < 10,
            None => !is_digit_char(c),
        },
{
    if c == '0' {
        Some(0)
    } else if c == '1' {
        Some(1)
    } else if c == '2' {
        Some(2)
    } else if c == '3' {
        Some(3)
    } else if c == '4' {
        Some(4)
    } else if c == '5' {
        Some(5)
    } else if c == '6' {
        Some(6)
    } else if c == '7' {
        Some(7)
    } else if c == '8' {
        Some(8)
    } else if c == '9' {
        Some(9)
    } else {
        None
    }
}

/// Reads `s` as a non-negative decimal integer; fails on an empty
/// text, a non-digit, or a value that does not fit.
pub fn parse_dec(s: &str) -> (r: Option<usize>)
    ensures
        match r {
            Some(v) => dec_parse(s@) == Some(v as nat),
            None => dec_parse(s@) == None::<nat>,
        },
{
    let n = s.unicode_len();
    if n == 0 {
        return None;
    }
    let mut val: usize = 0;
    let mut i: usize = 0;
    proof {
        assert(s@.take(0) =~= Seq::<char>::empty());
    }
    while i < n
        invariant
            0 <= i <= n,
            n == s@.len(),
            n > 0,
            all_digits(s@.take(i as int)),
            val as nat == dec_value(s@.take(i as int)),
        decreases n - i,
    {
        let c = s.get_char(i);
        let d = match digit_of(c) {
            Some(d) => d,
            None => {
                assert(!is_digit_char(s@[i as int]));
                return None;
            },
        };
        proof {
            assert(s@.take(i + 1).drop_last() =~= s@.take(i as int));
            assert(s@.take(i + 1).last() == s@[i as int]);
        }
        if val > (usize::MAX - d) / 10 {
            proof {
                let limit = (usize::MAX - d) as int;
                assert(limit == 10 * (limit / 10) + limit % 10) by {
                    vstd::arithmetic::div_mod::lemma_fundamental_div_mod(limit, 10);
                }
                assert(10 * (val as int) >= 10 * (limit / 10 + 1));
                assert(dec_value(s@.take(i + 1)) > usize::MAX);
                lemma_dec_value_take_mono(s@, i + 1);
                assert(s@.take(n as int) =~= s@);
                assert(dec_value(s@) > usize::MAX);
            }
            return None;
        }
        proof {
            let limit = (usize::MAX - d) as int;
            assert(limit == 10 * (limit / 10) + limit % 10) by {
                vstd::arithmetic::div_mod::lemma_fundamental_div_mod(limit, 10);
            }
            assert(10 * (val as int) <= 10 * (limit / 10));
        }
        val = val * 10 + d;
        i = i + 1;
    }
    proof {
        assert(s@.take(n as int) =~= s@);
    }
    Some(val)
}

fn digit_str(d: usize) -> (r: &'static str)
    requires
        d < 10,
    ensures
        r@ == seq![digit_char(d as nat)],
{
    if d == 0 {
        proof {
            reveal_strlit("0");
        }
        let r = "0";
        proof {
            assert(r@ =~= seq![digit_char(0)]);
        }
        r
    } else if d == 1 {
        proof {
            reveal_strlit("1");
        }
        let r = "1";
        proof {
            assert(r@ =~= seq![digit_char(1)]);
        }
        r
    } else if d == 2 {
        proof {
            reveal_strlit("2");
        }
        let r = "2";
        proof {
            assert(r@ =~= seq![digit_char(2)]);
        }
        r
    } else if d == 3 {
        proof {
            reveal_strlit("3");
        }
        let r = "3";
        proof {
            assert(r@ =~= seq![digit_char(3)]);
        }
        r
    } else if d == 4 {
        proof {
            reveal_strlit("4");
        }
        let r = "4";
        proof {
            assert(r@ =~= seq![digit_char(4)]);
        }
        r
    } else if d == 5 {
        proof {
            reveal_strlit("5");
        }
        let r = "5";
        proof {
            assert(r@ =~= seq![digit_char(5)]);
        }
        r
    } else if d == 6 {
        proof {
            reveal_strlit("6");
        }
        let r = "6";
        proof {
            assert(r@ =~= seq![digit_char(6)]);
        }
        r
    } else if d == 7 {
        proof {
            reveal_strlit("7");
        }
        let r = "7";
        proof {
            assert(r@ =~= seq![digit_char(7)]);
        }
        r
    } else if d == 8 {
        proof {
            reveal_strlit("8");
        }
        let r = "8";
        proof {
            assert(r@ =~= seq![digit_char(8)]);
        }
        r
    } else {
        proof {
            reveal_strlit("9");
        }
        let r = "9";
        proof {
            assert(r@ =~= seq![digit_char(9)]);
        }
        r
    }
}

/// Renders `n` as its canonical decimal numeral.
pub fn dec_string(n: usize) -> (r: String)
    ensures
        r@ == dec_digits(n as nat),
    decreases n,
{
    if n < 10 {
        String::from_str(digit_str(n))
    } else {
        let r = dec_string(n / 10).concat(digit_str(n % 10));
        proof {
            assert(dec_digits((n / 10) as nat) + seq![digit_char((n % 10) as nat)] =~= dec_digits(
                (n / 10) as nat,
            ).push(digit_char((n % 10) as nat)));
        }
        r
    }
}

} // verus!
