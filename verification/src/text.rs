//! Character-sequence utilities shared by the wire codec, the path matcher
//! and the JSON scraper: splitting on a separator, trimming, and decimal
//! parsing and printing, each as a spec-level definition with a verified
//! executable counterpart.

use vstd::prelude::*;
use vstd::string::StrSliceExecFns;

verus! {

/// Index of the first occurrence of `c` in `s`, if any.
pub open spec fn find_first(s: Seq<char>, c: char) -> Option<int>
    decreases s.len(),
{
    if s.len() == 0 {
        None
    } else if s[0] == c {
        Some(0)
    } else {
        match find_first(s.skip(1), c) {
            Some(j) => Some(j + 1),
            None => None,
        }
    }
}

/// `find_first` returns the least index holding `c`, or `None` when `c`
/// does not occur.
pub proof fn lemma_find_first(s: Seq<char>, c: char)
    ensures
        match find_first(s, c) {
            Some(i) => 0 <= i < s.len() && s[i] == c && (forall|j: int|
                0 <= j < i ==> s[j] != c),
            None => forall|j: int| 0 <= j < s.len() ==> s[j] != c,
        },
    decreases s.len(),
{
    if s.len() == 0 {
    } else if s[0] == c {
    } else {
        lemma_find_first(s.skip(1), c);
        match find_first(s.skip(1), c) {
            Some(j) => {
                assert(s.skip(1)[j] == s[j + 1]);
                assert forall|j2: int| 0 <= j2 < j + 1 implies s[j2] != c by {
                    if j2 > 0 {
                        assert(s.skip(1)[j2 - 1] == s[j2]);
                    }
                }
            },
            None => {
                assert forall|j2: int| 0 <= j2 < s.len() implies s[j2] != c by {
                    if j2 > 0 {
                        assert(s.skip(1)[j2 - 1] == s[j2]);
                    }
                }
            },
        }
    }
}

/// Any outcome that satisfies the first-occurrence characterization is
/// `find_first`'s outcome.
pub proof fn lemma_find_first_unique(s: Seq<char>, c: char, r: Option<int>)
    requires
        match r {
            Some(i) => 0 <= i < s.len() && s[i] == c && (forall|j: int|
                0 <= j < i ==> s[j] != c),
            None => forall|j: int| 0 <= j < s.len() ==> s[j] != c,
        },
    ensures
        find_first(s, c) == r,
{
    lemma_find_first(s, c);
}

/// Split `s` at every occurrence of `sep`.  The separators themselves are
/// dropped; empty parts are kept, so the result always holds one part more
/// than `s` holds separators.
pub open spec fn split_on(s: Seq<char>, sep: char) -> Seq<Seq<char>>
    decreases s.len(),
{
    if s.len() == 0 {
        seq![Seq::<char>::empty()]
    } else if s[0] == sep {
        seq![Seq::<char>::empty()] + split_on(s.skip(1), sep)
    } else {
        let rest = split_on(s.skip(1), sep);
        seq![seq![s[0]] + rest[0]] + rest.skip(1)
    }
}

pub proof fn lemma_split_on_len(s: Seq<char>, sep: char)
    ensures
        split_on(s, sep).len() >= 1,
    decreases s.len(),
{
    if s.len() == 0 {
    } else if s[0] == sep {
        lemma_split_on_len(s.skip(1), sep);
    } else {
        lemma_split_on_len(s.skip(1), sep);
    }
}

/// Unrolls `split_on` by a whole part at a time: the part before the first
/// separator, then the split of what follows it.
pub proof fn lemma_split_on_step(s: Seq<char>, sep: char)
    ensures
        match find_first(s, sep) {
            Some(i) => split_on(s, sep) == seq![s.take(i)] + split_on(
                s.skip(i + 1),
                sep,
            ),
            None => split_on(s, sep) == seq![s],
        },
    decreases s.len(),
{
    lemma_find_first(s, sep);
    if s.len() == 0 {
        assert(s =~= Seq::<char>::empty());
        assert(split_on(s, sep) =~~= seq![s]);
    } else if s[0] == sep {
        assert(s.take(0) =~= Seq::<char>::empty());
        assert(split_on(s, sep) =~~= seq![s.take(0)] + split_on(s.skip(1), sep));
    } else {
        lemma_split_on_step(s.skip(1), sep);
        lemma_split_on_len(s.skip(1), sep);
        let rest = split_on(s.skip(1), sep);
        match find_first(s.skip(1), sep) {
            None => {
                assert(rest == seq![s.skip(1)]);
                assert(seq![s[0]] + rest[0] =~= s);
                assert(split_on(s, sep) =~~= seq![s]);
            },
            Some(j) => {
                lemma_find_first(s.skip(1), sep);
                assert(find_first(s, sep) == Some(j + 1));
                assert(rest[0] == s.skip(1).take(j));
                assert(rest.skip(1) =~= split_on(s.skip(1).skip(j + 1), sep));
                assert(seq![s[0]] + s.skip(1).take(j) =~= s.take(j + 1));
                assert(s.skip(1).skip(j + 1) =~= s.skip(j + 2));
                assert(split_on(s, sep) =~~= seq![s.take(j + 1)] + split_on(
                    s.skip(j + 2),
                    sep,
                ));
            },
        }
    }
}

/// The parts of `parts` that are not empty.
pub open spec fn nonempty_of(parts: Seq<Seq<char>>) -> Seq<Seq<char>> {
    parts.filter(|p: Seq<char>| p.len() > 0)
}

/// Split on `sep` and discard empty parts: the segmentation used for both
/// request-line words and path segments.
pub open spec fn split_nonempty_s(s: Seq<char>, sep: char) -> Seq<Seq<char>> {
    nonempty_of(split_on(s, sep))
}

/// Every part of `split_nonempty_s` is non-empty.
pub proof fn lemma_split_nonempty_parts(s: Seq<char>, sep: char)
    ensures
        forall|i: int|
            0 <= i < split_nonempty_s(s, sep).len() ==> split_nonempty_s(s, sep)[i].len()
                > 0,
{
    broadcast use vstd::seq_lib::group_filter_ensures;

    assert(split_nonempty_s(s, sep) == nonempty_of(split_on(s, sep)));
}

/// Filtering a one-part sequence keeps or drops that part.
pub proof fn lemma_nonempty_singleton(p: Seq<char>)
    ensures
        nonempty_of(seq![p]) == if p.len() > 0 {
            seq![p]
        } else {
            Seq::<Seq<char>>::empty()
        },
{
    broadcast use vstd::seq_lib::group_filter_ensures;

    let pred = |q: Seq<char>| q.len() > 0;
    let none: Seq<Seq<char>> = Seq::empty();
    none.lemma_filter_push(p, pred);
    assert(none.filter(pred) =~= none);
    assert(none.push(p) =~= seq![p]);
}

/// A character counted as padding by `trim_s`.
pub open spec fn is_blank(c: char) -> bool {
    c == ' ' || c == '\t'
}

pub open spec fn trim_start_s(s: Seq<char>) -> Seq<char>
    decreases s.len(),
{
    if s.len() > 0 && is_blank(s[0]) {
        trim_start_s(s.skip(1))
    } else {
        s
    }
}

pub open spec fn trim_end_s(s: Seq<char>) -> Seq<char>
    decreases s.len(),
{
    if s.len() > 0 && is_blank(s.last()) {
        trim_end_s(s.drop_last())
    } else {
        s
    }
}

/// `s` with leading and trailing blanks removed.
pub open spec fn trim_s(s: Seq<char>) -> Seq<char> {
    trim_end_s(trim_start_s(s))
}

pub open spec fn is_digit(c: char) -> bool {
    c == '0' || c == '1' || c == '2' || c == '3' || c == '4' || c == '5' || c == '6'
        || c == '7' || c == '8' || c == '9'
}

/// Value of a digit character; ten digits, so the final branch is `'9'`.
pub open spec fn digit_val(c: char) -> nat {
    if c == '0' {
        0
    } else if c == '1' {
        1
    } else if c == '2' {
        2
    } else if c == '3' {
        3
    } else if c == '4' {
        4
    } else if c == '5' {
        5
    } else if c == '6' {
        6
    } else if c == '7' {
        7
    } else if c == '8' {
        8
    } else {
        9
    }
}

/// Value of a digit string read most-significant first.
pub open spec fn dec_val(s: Seq<char>) -> nat
    decreases s.len(),
{
    if s.len() == 0 {
        0
    } else {
        dec_val(s.drop_last()) * 10 + digit_val(s.last())
    }
}

pub open spec fn all_digits(s: Seq<char>) -> bool {
    forall|i: int| 0 <= i < s.len() ==> is_digit(s[i])
}

/// Decimal parsing: defined exactly for non-empty all-digit strings.
pub open spec fn parse_dec(s: Seq<char>) -> Option<nat> {
    if s.len() > 0 && all_digits(s) {
        Some(dec_val(s))
    } else {
        None
    }
}

/// A longer digit string never has a smaller value.
pub proof fn lemma_dec_val_prefix(s: Seq<char>, k: int)
    requires
        0 <= k <= s.len(),
    ensures
        dec_val(s) >= dec_val(s.take(k)),
    decreases s.len() - k,
{
    if k < s.len() {
        lemma_dec_val_prefix(s, k + 1);
        assert(s.take(k + 1).drop_last() =~= s.take(k));
        assert(dec_val(s.take(k + 1)) == dec_val(s.take(k)) * 10 + digit_val(
            s.take(k + 1).last(),
        ));
    } else {
        assert(s.take(k) =~= s);
    }
}

/// The digit character for `d`; ten digits, so the final branch is `'9'`.
pub open spec fn dec_digit_char(d: nat) -> char {
    if d == 0 {
        '0'
    } else if d == 1 {
        '1'
    } else if d == 2 {
        '2'
    } else if d == 3 {
        '3'
    } else if d == 4 {
        '4'
    } else if d == 5 {
        '5'
    } else if d == 6 {
        '6'
    } else if d == 7 {
        '7'
    } else if d == 8 {
        '8'
    } else {
        '9'
    }
}

/// Decimal numeral of `n`, most significant digit first, no leading zeros.
pub open spec fn dec_chars(n: nat) -> Seq<char>
    decreases n,
{
    if n < 10 {
        seq![dec_digit_char(n)]
    } else {
        dec_chars(n / 10).push(dec_digit_char(n % 10))
    }
}

/// Relies on std's `String::push`: appends exactly the one character `c`.
#[verifier::external_body]
pub(crate) fn push_char(s: &mut String, c: char)
    ensures
        final(s)@ == old(s)@.push(c),
{
    s.push(c);
}

/// Append the decimal numeral of `n`.
pub fn push_dec(s: &mut String, n: usize)
    ensures
        final(s)@ == old(s)@ + dec_chars(n as nat),
    decreases n,
{
    proof {
        if n >= 10 {
            assert(n / 10 < n) by (nonlinear_arith)
                requires
                    n >= 10,
            ;
        }
    }
    if n < 10 {
        push_char(s, digit_char(n));
        proof {
            assert(old(s)@.push(dec_digit_char(n as nat)) =~= old(s)@ + dec_chars(
                n as nat,
            ));
        }
    } else {
        push_dec(s, n / 10);
        push_char(s, digit_char(n % 10));
        proof {
            assert((old(s)@ + dec_chars((n / 10) as nat)).push(
                dec_digit_char((n % 10) as nat),
            ) =~= old(s)@ + dec_chars(n as nat));
        }
    }
}

/// The digit character for `d < 10`.
fn digit_char(d: usize) -> (c: char)
    requires
        d < 10,
    ensures
        c == dec_digit_char(d as nat),
{
    if d == 0 {
        '0'
    } else if d == 1 {
        '1'
    } else if d == 2 {
        '2'
    } else if d == 3 {
        '3'
    } else if d == 4 {
        '4'
    } else if d == 5 {
        '5'
    } else if d == 6 {
        '6'
    } else if d == 7 {
        '7'
    } else if d == 8 {
        '8'
    } else {
        '9'
    }
}

/// The value of a digit character, or `None` for any other character.
fn digit_of(c: char) -> (r: Option<usize>)
    ensures
        match r {
            Some(d) => is_digit(c) && d == digit_val(c) && d <= 9,
            None => !is_digit(c),
        },
{
    if c == '0' {
        Some(0)
    } else if c == '1' {
        Some(1)
    } else if c == '2' {
        Some(2)
    } else if c == '3' {
        Some(3)
    } else if c == '4' {
        Some(4)
    } else if c == '5' {
        Some(5)
    } else if c == '6' {
        Some(6)
    } else if c == '7' {
        Some(7)
    } else if c == '8' {
        Some(8)
    } else if c == '9' {
        Some(9)
    } else {
        None
    }
}

/// Values at or above this bound are rejected by `parse_dec_chars`; it is
/// far above the request-size cap, so such a length can never fit anyway.
pub const DEC_PARSE_CAP: u64 = 1000000000;

/// Parse a decimal numeral.  `None` when `v` is empty, holds a non-digit,
/// or encodes a value at or above `DEC_PARSE_CAP`.
pub fn parse_dec_chars(v: &Vec<char>) -> (r: Option<usize>)
    ensures
        match r {
            Some(n) => parse_dec(v@) == Some(n as nat) && (n as nat) < DEC_PARSE_CAP,
            None => parse_dec(v@) is None || (forall|m: nat|
                parse_dec(v@) == Some(m) ==> m >= DEC_PARSE_CAP),
        },
{
    if v.len() == 0 {
        return None;
    }
    let mut acc: u64 = 0;
    let mut i: usize = 0;
    while i < v.len()
        invariant
            0 < v@.len(),
            i <= v@.len(),
            acc < DEC_PARSE_CAP,
            forall|j: int| 0 <= j < i ==> is_digit(v@[j]),
            acc as nat == dec_val(v@.take(i as int)),
        decreases v@.len() - i,
    {
        match digit_of(v[i]) {
            None => {
                assert(!all_digits(v@));
                return None;
            },
            Some(d) => {
                acc = acc * 10 + (d as u64);
                i = i + 1;
                proof {
                    assert(v@.take(i as int).drop_last() =~= v@.take(i as int - 1));
                    assert(v@.take(i as int).last() == v@[i as int - 1]);
                }
                if acc >= DEC_PARSE_CAP {
                    proof {
                        lemma_dec_val_prefix(v@, i as int);
                    }
                    return None;
                }
            },
        }
    }
    proof {
        assert(v@.take(v@.len() as int) =~= v@);
    }
    Some(acc as usize)
}

/// Collect the characters of `s` into a vector.
pub fn chars_vec(s: &str) -> (v: Vec<char>)
    ensures
        v@ == s@,
{
    let n = s.unicode_len();
    let mut v: Vec<char> = Vec::new();
    let mut i: usize = 0;
    while i < n
        invariant
            i <= n,
            n == s@.len(),
            v@ == s@.take(i as int),
        decreases n - i,
    {
        v.push(s.get_char(i));
        i = i + 1;
        proof {
            assert(s@.take(i as int) =~= s@.take(i as int - 1).push(
                s@[i as int - 1],
            ));
        }
    }
    proof {
        assert(s@.take(n as int) =~= s@);
    }
    v
}

/// Whether the characters of `v` are exactly those of `s`.
pub fn chars_eq_str(v: &Vec<char>, s: &str) -> (b: bool)
    ensures
        b == (v@ == s@),
{
    let n = s.unicode_len();
    if v.len() != n {
        return false;
    }
    let mut i: usize = 0;
    while i < n
        invariant
            i <= n,
            n == s@.len(),
            v@.len() == n,
            forall|j: int| 0 <= j < i ==> v@[j] == s@[j],
        decreases n - i,
    {
        if v[i] != s.get_char(i) {
            return false;
        }
        i = i + 1;
    }
    proof {
        assert(v@ =~= s@);
    }
    true
}

/// Whether two character vectors hold the same characters.
pub fn chars_eq(a: &Vec<char>, b: &Vec<char>) -> (r: bool)
    ensures
        r == (a@ == b@),
{
    if a.len() != b.len() {
        return false;
    }
    let mut i: usize = 0;
    while i < a.len()
        invariant
            i <= a@.len(),
            a@.len() == b@.len(),
            forall|j: int| 0 <= j < i ==> a@[j] == b@[j],
        decreases a@.len() - i,
    {
        if a[i] != b[i] {
            return false;
        }
        i = i + 1;
    }
    proof {
        assert(a@ =~= b@);
    }
    true
}

/// Copy `v[from..to]` into a fresh vector.
pub fn subvec(v: &Vec<char>, from: usize, to: usize) -> (r: Vec<char>)
    requires
        from <= to <= v@.len(),
    ensures
        r@ == v@.subrange(from as int, to as int),
{
    let mut r: Vec<char> = Vec::new();
    let mut i: usize = from;
    while i < to
        invariant
            from <= i <= to <= v@.len(),
            r@ == v@.subrange(from as int, i as int),
        decreases to - i,
    {
        r.push(v[i]);
        i = i + 1;
        proof {
            assert(v@.subrange(from as int, i as int) =~= v@.subrange(
                from as int,
                i as int - 1,
            ).push(v@[i as int - 1]));
        }
    }
    r
}

/// Copy `v[from..to]` into a fresh string.
pub fn string_from_chars(v: &Vec<char>, from: usize, to: usize) -> (s: String)
    requires
        from <= to <= v@.len(),
    ensures
        s@ == v@.subrange(from as int, to as int),
{
    let mut s = String::new();
    let mut i: usize = from;
    while i < to
        invariant
            from <= i <= to <= v@.len(),
            s@ == v@.subrange(from as int, i as int),
        decreases to - i,
    {
        push_char(&mut s, v[i]);
        i = i + 1;
        proof {
            assert(v@.subrange(from as int, i as int) =~= v@.subrange(
                from as int,
                i as int - 1,
            ).push(v@[i as int - 1]));
        }
    }
    s
}

fn is_blank_char(c: char) -> (b: bool)
    ensures
        b == is_blank(c),
{
    c == ' ' || c == '\t'
}

/// `v` with leading and trailing blanks removed.
pub fn trim_chars(v: &Vec<char>) -> (r: Vec<char>)
    ensures
        r@ == trim_s(v@),
{
    let mut lo: usize = 0;
    proof {
        assert(v@.skip(0) =~= v@);
    }
    while lo < v.len() && is_blank_char(v[lo])
        invariant
            lo <= v@.len(),
            trim_start_s(v@) == trim_start_s(v@.skip(lo as int)),
        decreases v@.len() - lo,
    {
        proof {
            assert(v@.skip(lo as int).skip(1) =~= v@.skip(lo as int + 1));
        }
        lo = lo + 1;
    }
    proof {
        if lo >= v@.len() {
            assert(v@.skip(lo as int) =~= Seq::<char>::empty());
        }
        assert(trim_start_s(v@) == v@.skip(lo as int));
        assert(v@.subrange(lo as int, v@.len() as int) =~= v@.skip(lo as int));
    }
    let mut hi: usize = v.len();
    while hi > lo && is_blank_char(v[hi - 1])
        invariant
            lo <= hi <= v@.len(),
            trim_start_s(v@) == v@.skip(lo as int),
            trim_end_s(v@.skip(lo as int)) == trim_end_s(
                v@.subrange(lo as int, hi as int),
            ),
        decreases hi,
    {
        proof {
            assert(v@.subrange(lo as int, hi as int).drop_last() =~= v@.subrange(
                lo as int,
                hi as int - 1,
            ));
        }
        hi = hi - 1;
    }
    proof {
        if hi <= lo {
            assert(v@.subrange(lo as int, hi as int) =~= Seq::<char>::empty());
        }
        assert(trim_s(v@) == v@.subrange(lo as int, hi as int));
    }
    subvec(v, lo, hi)
}

/// Split `v` at every occurrence of `sep`, keeping empty parts.
pub fn split_all(v: &Vec<char>, sep: char) -> (r: Vec<Vec<char>>)
    ensures
        r@.map_values(|p: Vec<char>| p@) == split_on(v@, sep),
{
    let n = v.len();
    let mut r: Vec<Vec<char>> = Vec::new();
    let mut pos: usize = 0;
    proof {
        assert(v@.skip(0) =~= v@);
        assert(r@.map_values(|p: Vec<char>| p@) =~= Seq::<Seq<char>>::empty());
    }
    loop
        invariant_except_break
            n == v@.len(),
            pos <= v@.len(),
            split_on(v@, sep) == r@.map_values(|p: Vec<char>| p@) + split_on(
                v@.skip(pos as int),
                sep,
            ),
        ensures
            r@.map_values(|p: Vec<char>| p@) == split_on(v@, sep),
        decreases v@.len() - pos,
    {
        let ghost t = v@.skip(pos as int);
        match find_from(v, sep, pos) {
            Some(k) => {
                let part = subvec(v, pos, k);
                proof {
                    assert forall|j: int| 0 <= j < k - pos implies t[j] != sep by {
                        assert(t[j] == v@[j + pos]);
                    }
                    assert(t[k - pos as int] == v@[k as int]);
                    lemma_find_first_unique(t, sep, Some(k - pos as int));
                    lemma_split_on_step(t, sep);
                    assert(t.take(k - pos as int) =~= v@.subrange(
                        pos as int,
                        k as int,
                    ));
                    assert(t.skip(k - pos as int + 1) =~= v@.skip(k as int + 1));
                }
                let ghost r_prev = r@;
                r.push(part);
                proof {
                    assert(r@.map_values(|p: Vec<char>| p@) =~= r_prev.map_values(
                        |p: Vec<char>| p@,
                    ).push(part@));
                    assert(split_on(v@, sep) =~= r@.map_values(|p: Vec<char>| p@)
                        + split_on(v@.skip(k as int + 1), sep));
                }
                pos = k + 1;
            },
            None => {
                let part = subvec(v, pos, v.len());
                proof {
                    assert forall|j: int| 0 <= j < t.len() implies t[j] != sep by {
                        assert(t[j] == v@[j + pos]);
                    }
                    lemma_find_first_unique(t, sep, None);
                    lemma_split_on_step(t, sep);
                    assert(t =~= v@.subrange(pos as int, v@.len() as int));
                }
                let ghost r_prev = r@;
                r.push(part);
                proof {
                    assert(r@.map_values(|p: Vec<char>| p@) =~= r_prev.map_values(
                        |p: Vec<char>| p@,
                    ).push(part@));
                    assert(r@.map_values(|p: Vec<char>| p@) =~= split_on(v@, sep));
                }
                break;
            },
        }
    }
    r
}

/// Split `v` at every occurrence of `sep` and discard empty parts.
pub fn split_nonempty(v: &Vec<char>, sep: char) -> (r: Vec<Vec<char>>)
    ensures
        r@.map_values(|p: Vec<char>| p@) == split_nonempty_s(v@, sep),
{
    broadcast use vstd::seq_lib::group_filter_ensures;

    let n = v.len();
    let mut r: Vec<Vec<char>> = Vec::new();
    let mut pos: usize = 0;
    proof {
        assert(v@.skip(0) =~= v@);
        assert(r@.map_values(|p: Vec<char>| p@) =~= Seq::<Seq<char>>::empty());
    }
    loop
        invariant_except_break
            n == v@.len(),
            pos <= v@.len(),
            split_nonempty_s(v@, sep) == r@.map_values(|p: Vec<char>| p@)
                + nonempty_of(split_on(v@.skip(pos as int), sep)),
        ensures
            r@.map_values(|p: Vec<char>| p@) == split_nonempty_s(v@, sep),
        decreases v@.len() - pos,
    {
        let ghost t = v@.skip(pos as int);
        let ghost r_prev = r@;
        match find_from(v, sep, pos) {
            Some(k) => {
                let part = subvec(v, pos, k);
                proof {
                    assert forall|j: int| 0 <= j < k - pos implies t[j] != sep by {
                        assert(t[j] == v@[j + pos]);
                    }
                    assert(t[k - pos as int] == v@[k as int]);
                    lemma_find_first_unique(t, sep, Some(k - pos as int));
                    lemma_split_on_step(t, sep);
                    assert(t.take(k - pos as int) =~= part@);
                    assert(t.skip(k - pos as int + 1) =~= v@.skip(k as int + 1));
                    lemma_nonempty_singleton(part@);
                }
                if part.len() > 0 {
                    r.push(part);
                    proof {
                        assert(r@.map_values(|p: Vec<char>| p@)
                            =~= r_prev.map_values(|p: Vec<char>| p@).push(part@));
                    }
                }
                proof {
                    assert(split_nonempty_s(v@, sep) =~= r@.map_values(
                        |p: Vec<char>| p@,
                    ) + nonempty_of(split_on(v@.skip(k as int + 1), sep)));
                }
                pos = k + 1;
            },
            None => {
                let part = subvec(v, pos, v.len());
                proof {
                    assert forall|j: int| 0 <= j < t.len() implies t[j] != sep by {
                        assert(t[j] == v@[j + pos]);
                    }
                    lemma_find_first_unique(t, sep, None);
                    lemma_split_on_step(t, sep);
                    assert(t =~= part@);
                    lemma_nonempty_singleton(part@);
                }
                if part.len() > 0 {
                    r.push(part);
                    proof {
                        assert(r@.map_values(|p: Vec<char>| p@)
                            =~= r_prev.map_values(|p: Vec<char>| p@).push(part@));
                    }
                }
                proof {
                    assert(r@.map_values(|p: Vec<char>| p@) =~= split_nonempty_s(
                        v@,
                        sep,
                    ));
                }
                break;
            },
        }
    }
    r
}

/// First occurrence of `sep` in `v` at or after `start`.
pub fn find_from(v: &Vec<char>, sep: char, start: usize) -> (r: Option<usize>)
    ensures
        match r {
            Some(k) => start <= k < v@.len() && v@[k as int] == sep && (forall|j: int|
                start <= j < k ==> v@[j] != sep),
            None => forall|j: int| start <= j < v@.len() ==> v@[j] != sep,
        },
{
    let mut i: usize = start;
    while i < v.len()
        invariant
            start <= i,
            forall|j: int| start <= j < i ==> v@[j] != sep,
        decreases v@.len() - i,
    {
        if v[i] == sep {
            return Some(i);
        }
        i = i + 1;
    }
    None
}

} // verus!
