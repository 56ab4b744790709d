use vstd::prelude::*;

verus! {

broadcast use vstd::string::group_string_axioms;

/// Appends one character to a string (std `String::push`).
#[verifier::external_body]
pub(crate) fn push_char(s: &mut String, c: char)
    ensures
        final(s)@ == old(s)@.push(c),
{
    s.push(c);
}

/// The characters of a string slice, in order.
pub fn chars_of(s: &str) -> (v: Vec<char>)
    ensures
        v@ == s@,
{
    let mut v: Vec<char> = Vec::new();
    for c in it: s.chars()
        invariant
            it.seq() == s@,
            v@ == it.seq().take(it.index() as int),
    {
        v.push(c);
    }
    v
}

/// A string made of the characters `v[lo..hi]`.
pub fn string_from_range(v: &Vec<char>, lo: usize, hi: usize) -> (s: String)
    requires
        lo <= hi <= v.len(),
    ensures
        s@ == v@.subrange(lo as int, hi as int),
{
    let mut s = String::new();
    let mut i = lo;
    while i < hi
        invariant
            lo <= i <= hi <= v.len(),
            s@ == v@.subrange(lo as int, i as int),
        decreases hi - i,
    {
        push_char(&mut s, v[i]);
        assert(v@.subrange(lo as int, i + 1) == v@.subrange(lo as int, i as int).push(v@[i as int]));
        i = i + 1;
    }
    s
}

/// A string made of all the characters of `v`.
pub fn string_from_chars(v: &Vec<char>) -> (s: String)
    ensures
        s@ == v@,
{
    let s = string_from_range(v, 0, v.len());
    assert(v@.subrange(0, v@.len() as int) == v@);
    s
}

/// Whether `s` has no characters.
pub fn is_empty_text(s: &str) -> (r: bool)
    ensures
        r == (s@.len() == 0),
{
    chars_of(s).len() == 0
}

/// A copy of a string slice as an owned string.
pub fn owned(s: &str) -> (r: String)
    ensures
        r@ == s@,
{
    s.to_owned()
}

/// The string `a` followed by `b`.
pub fn concat(a: &str, b: &str) -> (r: String)
    ensures
        r@ == a@ + b@,
{
    let va = chars_of(a);
    let vb = chars_of(b);
    let mut r = string_from_chars(&va);
    let mut i: usize = 0;
    while i < vb.len()
        invariant
            i <= vb.len(),
            vb@ == b@,
            r@ == a@ + b@.take(i as int),
        decreases vb.len() - i,
    {
        push_char(&mut r, vb[i]);
        assert(b@.take(i + 1) == b@.take(i as int).push(b@[i as int]));
        i = i + 1;
    }
    assert(b@.take(vb.len() as int) == b@);
    r
}

/// Unicode `White_Space` characters, as std's `char::is_whitespace` classifies them.
pub open spec fn is_ws(c: char) -> bool {
    let u = c as u32;
    ||| 0x09 <= u <= 0x0D
    ||| u == 0x20
    ||| u == 0x85
    ||| u == 0xA0
    ||| u == 0x1680
    ||| 0x2000 <= u <= 0x200A
    ||| u == 0x2028
    ||| u == 0x2029
    ||| u == 0x202F
    ||| u == 0x205F
    ||| u == 0x3000
}

/// Whether `c` is a Unicode white-space character.
pub fn is_whitespace_char(c: char) -> (b: bool)
    ensures
        b == is_ws(c),
{
    let u = c as u32;
    (0x09 <= u && u <= 0x0D) || u == 0x20 || u == 0x85 || u == 0xA0 || u == 0x1680
        || (0x2000 <= u && u <= 0x200A) || u == 0x2028 || u == 0x2029 || u == 0x202F
        || u == 0x205F || u == 0x3000
}

/// Number of white-space characters at the start of `s`.
pub open spec fn leading_ws(s: Seq<char>) -> nat
    decreases s.len(),
{
    if s.len() > 0 && is_ws(s[0]) {
        1 + leading_ws(s.subrange(1, s.len() as int))
    } else {
        0
    }
}

/// Number of white-space characters at the end of `s`.
pub open spec fn trailing_ws(s: Seq<char>) -> nat
    decreases s.len(),
{
    if s.len() > 0 && is_ws(s.last()) {
        1 + trailing_ws(s.drop_last())
    } else {
        0
    }
}

pub proof fn lemma_leading_ws_bound(s: Seq<char>)
    ensures
        leading_ws(s) <= s.len(),
    decreases s.len(),
{
    if s.len() > 0 && is_ws(s[0]) {
        lemma_leading_ws_bound(s.subrange(1, s.len() as int));
    }
}

pub proof fn lemma_trailing_ws_bound(s: Seq<char>)
    ensures
        trailing_ws(s) <= s.len(),
    decreases s.len(),
{
    if s.len() > 0 && is_ws(s.last()) {
        lemma_trailing_ws_bound(s.drop_last());
    }
}

/// The first character after the leading white space is not white space.
proof fn lemma_leading_ws_stop(s: Seq<char>)
    ensures
        leading_ws(s) <= s.len(),
        leading_ws(s) < s.len() ==> !is_ws(s[leading_ws(s) as int]),
    decreases s.len(),
{
    if s.len() > 0 && is_ws(s[0]) {
        let rest = s.subrange(1, s.len() as int);
        lemma_leading_ws_stop(rest);
        if leading_ws(rest) < rest.len() {
            assert(rest[leading_ws(rest) as int] == s[1 + leading_ws(rest) as int]);
        }
    }
}

/// The last character before the trailing white space is not white space.
proof fn lemma_trailing_ws_stop(s: Seq<char>)
    ensures
        trailing_ws(s) <= s.len(),
        trailing_ws(s) < s.len() ==> !is_ws(s[s.len() - 1 - trailing_ws(s)]),
    decreases s.len(),
{
    if s.len() > 0 && is_ws(s.last()) {
        let rest = s.drop_last();
        lemma_trailing_ws_stop(rest);
        if trailing_ws(rest) < rest.len() {
            assert(rest[rest.len() - 1 - trailing_ws(rest)] == s[s.len() - 1 - trailing_ws(s)]);
        }
    }
}

/// Trimmed text is a piece of the text and has no white space at either end.
pub proof fn lemma_trimmed_edges(s: Seq<char>)
    ensures
        trimmed(s).len() <= s.len(),
        forall|i: int| 0 <= i < trimmed(s).len() ==> exists|j: int| 0 <= j < s.len() && s[j] == #[trigger] trimmed(s)[i],
        trimmed(s).len() > 0 ==> !is_ws(trimmed(s)[0]) && !is_ws(trimmed(s).last()),
{
    lemma_leading_ws_stop(s);
    let lead = leading_ws(s) as int;
    let a = s.subrange(lead, s.len() as int);
    lemma_trailing_ws_stop(a);
    let t = trimmed(s);
    assert forall|i: int| 0 <= i < t.len() implies exists|j: int| 0 <= j < s.len() && s[j] == #[trigger] t[i] by {
        assert(t[i] == s[lead + i]);
    }
    if t.len() > 0 {
        assert(t[0] == s[lead]);
        assert(t.last() == a[a.len() - 1 - trailing_ws(a)]);
    }
}

/// Trimming twice is trimming once.
pub proof fn lemma_trimmed_idempotent(s: Seq<char>)
    ensures
        trimmed(trimmed(s)) == trimmed(s),
{
    let t = trimmed(s);
    lemma_trimmed_edges(s);
    if t.len() == 0 {
        assert(trimmed(t) =~= t);
    } else {
        assert(leading_ws(t) == 0);
        assert(t.subrange(0, t.len() as int) =~= t);
        assert(trailing_ws(t) == 0);
        assert(trimmed(t) =~= t);
    }
}

/// `s` without leading and trailing white space (std `str::trim`).
pub open spec fn trimmed(s: Seq<char>) -> Seq<char> {
    let a = s.subrange(leading_ws(s) as int, s.len() as int);
    a.subrange(0, a.len() - trailing_ws(a))
}

/// Bounds `(lo, hi)` such that `s[lo..hi]` is `s` trimmed.
fn trim_bounds(v: &Vec<char>) -> (r: (usize, usize))
    ensures
        r.0 <= r.1 <= v.len(),
        v@.subrange(r.0 as int, r.1 as int) == trimmed(v@),
{
    let n = v.len();
    let mut lo: usize = 0;
    assert(v@.subrange(0, n as int) == v@);
    while lo < n && is_whitespace_char(v[lo])
        invariant
            lo <= n == v.len(),
            leading_ws(v@) == lo + leading_ws(v@.subrange(lo as int, n as int)),
        decreases n - lo,
    {
        let ghost rest = v@.subrange(lo as int, n as int);
        assert(rest.subrange(1, rest.len() as int) == v@.subrange(lo + 1, n as int));
        lo = lo + 1;
    }
    let ghost a = v@.subrange(lo as int, n as int);
    assert(leading_ws(v@.subrange(lo as int, n as int)) == 0);
    let mut hi: usize = n;
    while hi > lo && is_whitespace_char(v[hi - 1])
        invariant
            lo <= hi <= n == v.len(),
            a == v@.subrange(lo as int, n as int),
            trailing_ws(a) == (n - hi) + trailing_ws(v@.subrange(lo as int, hi as int)),
        decreases hi - lo,
    {
        let ghost part = v@.subrange(lo as int, hi as int);
        assert(part.drop_last() == v@.subrange(lo as int, hi - 1));
        hi = hi - 1;
    }
    assert(trailing_ws(v@.subrange(lo as int, hi as int)) == 0);
    assert(a.subrange(0, a.len() - trailing_ws(a)) == v@.subrange(lo as int, hi as int));
    (lo, hi)
}

/// `s` without leading and trailing white space.
pub fn trim(s: &str) -> (r: String)
    ensures
        r@ == trimmed(s@),
{
    let v = chars_of(s);
    let (lo, hi) = trim_bounds(&v);
    string_from_range(&v, lo, hi)
}

/// `s` without trailing white space (std `str::trim_end`).
pub open spec fn trimmed_end(s: Seq<char>) -> Seq<char> {
    s.take(s.len() - trailing_ws(s))
}

/// `s` without trailing white space.
pub fn trim_end(s: &str) -> (r: String)
    ensures
        r@ == trimmed_end(s@),
{
    let v = chars_of(s);
    let n = v.len();
    let mut hi: usize = n;
    assert(v@.take(n as int) == v@);
    while hi > 0 && is_whitespace_char(v[hi - 1])
        invariant
            hi <= n == v.len(),
            v@ == s@,
            trailing_ws(s@) == (n - hi) + trailing_ws(v@.take(hi as int)),
        decreases hi,
    {
        assert(v@.take(hi as int).drop_last() == v@.take(hi - 1));
        hi = hi - 1;
    }
    assert(trailing_ws(v@.take(hi as int)) == 0);
    string_from_range(&v, 0, hi)
}

/// Whether `s` is empty or white space only.
pub fn is_blank(s: &str) -> (b: bool)
    ensures
        b == (trimmed(s@).len() == 0),
{
    let v = chars_of(s);
    let (lo, hi) = trim_bounds(&v);
    lo == hi
}

/// ASCII upper-case letters mapped to lower case; every other character unchanged.
pub open spec fn lower_char(c: char) -> char {
    if 'A' <= c <= 'Z' {
        ((c as u32) + 32) as char
    } else {
        c
    }
}

/// `c` with an ASCII upper-case letter mapped to lower case.
pub fn ascii_lower_char(c: char) -> (r: char)
    ensures
        r == lower_char(c),
{
    if 'A' <= c && c <= 'Z' {
        let u = (c as u8) + 32;
        assert(u == (c as u32) + 32);
        u as char
    } else {
        c
    }
}

/// `s` with every ASCII upper-case letter in lower case (std `str::to_ascii_lowercase`).
pub open spec fn lower_seq(s: Seq<char>) -> Seq<char> {
    Seq::new(s.len(), |i: int| lower_char(s[i]))
}

/// `s` with ASCII upper-case letters in lower case.
pub fn to_ascii_lowercase(s: &str) -> (r: String)
    ensures
        r@ == lower_seq(s@),
{
    let v = chars_of(s);
    let mut r = String::new();
    let mut i: usize = 0;
    while i < v.len()
        invariant
            i <= v.len(),
            v@ == s@,
            r@ == lower_seq(s@).take(i as int),
        decreases v.len() - i,
    {
        let c = ascii_lower_char(v[i]);
        push_char(&mut r, c);
        assert(lower_seq(s@).take(i + 1) == lower_seq(s@).take(i as int).push(c));
        i = i + 1;
    }
    assert(lower_seq(s@).take(v.len() as int) == lower_seq(s@));
    r
}

/// `c` with an ASCII lower-case letter mapped to upper case.
pub open spec fn upper_char(c: char) -> char {
    if 'a' <= c <= 'z' {
        ((c as u32) - 32) as char
    } else {
        c
    }
}

/// `c` with an ASCII lower-case letter mapped to upper case.
pub fn ascii_upper_char(c: char) -> (r: char)
    ensures
        r == upper_char(c),
{
    if 'a' <= c && c <= 'z' {
        let u = (c as u8) - 32;
        assert(u == (c as u32) - 32);
        u as char
    } else {
        c
    }
}

/// `s` with every ASCII lower-case letter in upper case (std `str::to_ascii_uppercase`).
pub open spec fn upper_seq(s: Seq<char>) -> Seq<char> {
    Seq::new(s.len(), |i: int| upper_char(s[i]))
}

/// `s` with ASCII lower-case letters in upper case.
pub fn to_ascii_uppercase(s: &str) -> (r: String)
    ensures
        r@ == upper_seq(s@),
{
    let v = chars_of(s);
    let mut r = String::new();
    let mut i: usize = 0;
    while i < v.len()
        invariant
            i <= v.len(),
            v@ == s@,
            r@ == upper_seq(s@).take(i as int),
        decreases v.len() - i,
    {
        let c = ascii_upper_char(v[i]);
        push_char(&mut r, c);
        assert(upper_seq(s@).take(i + 1) == upper_seq(s@).take(i as int).push(c));
        i = i + 1;
    }
    assert(upper_seq(s@).take(v.len() as int) == upper_seq(s@));
    r
}

/// The characters of `s` after its last `sep`; all of `s` when it has none
/// (the first item of std `str::rsplit`).
pub open spec fn last_segment(s: Seq<char>, sep: char) -> Seq<char>
    decreases s.len(),
{
    if s.len() == 0 {
        s
    } else if s.last() == sep {
        Seq::empty()
    } else {
        last_segment(s.drop_last(), sep).push(s.last())
    }
}

/// The characters of `s` after its last `sep` (see `last_segment`).
pub fn after_last(s: &str, sep: char) -> (r: String)
    ensures
        r@ == last_segment(s@, sep),
{
    let v = chars_of(s);
    let mut start: usize = 0;
    let mut i: usize = 0;
    while i < v.len()
        invariant
            i <= v.len(),
            v@ == s@,
            start <= i,
            last_segment(v@.take(i as int), sep) == v@.subrange(start as int, i as int),
        decreases v.len() - i,
    {
        assert(v@.take(i + 1).drop_last() == v@.take(i as int));
        if v[i] == sep {
            start = i + 1;
            assert(v@.subrange(start as int, i + 1) =~= Seq::<char>::empty());
        } else {
            assert(v@.subrange(start as int, i + 1) =~= v@.subrange(start as int, i as int).push(v@[i as int]));
        }
        i = i + 1;
    }
    assert(v@.take(v.len() as int) == v@);
    string_from_range(&v, start, v.len())
}

/// Equality that ignores ASCII case (std `str::eq_ignore_ascii_case`).
pub open spec fn eq_ignore_case(a: Seq<char>, b: Seq<char>) -> bool {
    lower_seq(a) == lower_seq(b)
}

/// Whether `a` and `b` are equal when ASCII case is ignored.
pub fn eq_ignore_ascii_case(a: &str, b: &str) -> (r: bool)
    ensures
        r == eq_ignore_case(a@, b@),
{
    let la = to_ascii_lowercase(a);
    let lb = to_ascii_lowercase(b);
    let r = la == lb;
    proof {
        if lower_seq(a@) == lower_seq(b@) {
            assert(la@ == lb@);
        }
    }
    r
}

/// Whether `s` begins with `p`.
pub open spec fn has_prefix(s: Seq<char>, p: Seq<char>) -> bool {
    p.len() <= s.len() && s.take(p.len() as int) == p
}

/// Whether `p` occurs in `s` starting at position `i`.
pub open spec fn occurs_at(s: Seq<char>, p: Seq<char>, i: int) -> bool {
    0 <= i && i + p.len() <= s.len() && s.subrange(i, i + p.len()) == p
}

/// Whether `p` occurs somewhere in `s`.
pub open spec fn has_infix(s: Seq<char>, p: Seq<char>) -> bool {
    exists|i: int| occurs_at(s, p, i)
}

/// Whether `v[at..]` begins with `p`.
pub(crate) fn matches_at(v: &Vec<char>, p: &Vec<char>, at: usize) -> (r: bool)
    requires
        at <= v.len(),
    ensures
        r == occurs_at(v@, p@, at as int),
{
    if p.len() > v.len() - at {
        return false;
    }
    let mut j: usize = 0;
    while j < p.len()
        invariant
            j <= p.len(),
            at + p.len() <= v.len(),
            v@.subrange(at as int, at + j) == p@.take(j as int),
        decreases p.len() - j,
    {
        if v[at + j] != p[j] {
            assert(v@.subrange(at as int, at + p.len())[j as int] != p@[j as int]);
            return false;
        }
        assert(v@.subrange(at as int, at + j + 1) == v@.subrange(at as int, at + j).push(v@[at + j]));
        assert(p@.take(j + 1) == p@.take(j as int).push(p@[j as int]));
        j = j + 1;
    }
    assert(p@.take(p.len() as int) == p@);
    true
}

/// Whether `s` begins with `p` (std `str::starts_with`).
pub fn starts_with(s: &str, p: &str) -> (r: bool)
    ensures
        r == has_prefix(s@, p@),
{
    let v = chars_of(s);
    let q = chars_of(p);
    let r = matches_at(&v, &q, 0);
    assert(v@.subrange(0, q@.len() as int) == v@.take(q@.len() as int));
    r
}

/// Whether `p` occurs in `s` (std `str::contains`).
pub fn contains(s: &str, p: &str) -> (r: bool)
    ensures
        r == has_infix(s@, p@),
{
    let v = chars_of(s);
    let q = chars_of(p);
    if q.len() > v.len() {
        return false;
    }
    let mut i: usize = 0;
    let last = v.len() - q.len();
    loop
        invariant
            q.len() <= v.len(),
            last == v.len() - q.len(),
            i <= last,
            v@ == s@,
            q@ == p@,
            forall|k: int| 0 <= k < i ==> !occurs_at(s@, p@, k),
        ensures
            forall|k: int| 0 <= k <= last ==> !occurs_at(s@, p@, k),
        decreases last - i,
    {
        if matches_at(&v, &q, i) {
            return true;
        }
        if i == last {
            break;
        }
        i = i + 1;
    }
    assert forall|k: int| !occurs_at(s@, p@, k) by {
        if 0 <= k && k + p@.len() <= s@.len() {
            assert(k <= last);
        }
    }
    false
}

/// The character of the decimal digit `d`.
pub open spec fn digit_char(d: nat) -> char {
    (d + 48) as char
}

/// Decimal representation of `n`, without leading zeros.
pub open spec fn decimal(n: nat) -> Seq<char>
    decreases n,
{
    if n < 10 {
        seq![digit_char(n)]
    } else {
        decimal(n / 10).push(digit_char(n % 10))
    }
}

/// `digits[k]` is the last decimal digit of `tails[k]`, and `tails[k + 1]` is
/// `tails[k]` without that digit.
pub open spec fn digit_tails(digits: Seq<char>, tails: Seq<nat>) -> bool {
    &&& tails.len() == digits.len() + 1
    &&& forall|k: int| 0 <= k < digits.len() ==> #[trigger] tails[k + 1] == tails[k] / 10 && tails[k] >= 10
        && digits[k] == digit_char(tails[k] % 10)
}

/// Decimal representation of `n` (what std's `to_string` gives for an integer).
pub fn decimal_string(n: u64) -> (s: String)
    ensures
        s@ == decimal(n as nat),
{
    // digits[k] is the digit of weight 10^k; tails[k] is n / 10^k
    let mut digits: Vec<char> = Vec::new();
    let mut m = n;
    let ghost mut tails: Seq<nat> = seq![n as nat];
    while m >= 10
        invariant
            m as nat == tails.last(),
            tails.len() == digits.len() + 1,
            tails[0] == n as nat,
            digit_tails(digits@, tails),
        decreases m,
    {
        let d = (m % 10) as u8;
        let c = (d + 48) as char;
        assert(c == digit_char((m % 10) as nat));
        let ghost old_tails = tails;
        let ghost old_digits = digits@;
        digits.push(c);
        proof {
            tails = tails.push((m / 10) as nat);
            assert forall|k: int| 0 <= k < digits@.len() implies #[trigger] tails[k + 1] == tails[k] / 10
                && tails[k] >= 10 && digits@[k] == digit_char(tails[k] % 10) by {
                if k < old_digits.len() {
                    assert(tails[k] == old_tails[k]);
                    assert(tails[k + 1] == old_tails[k + 1]);
                    assert(digits@[k] == old_digits[k]);
                } else {
                    assert(k == old_digits.len());
                    assert(tails[k] == m as nat);
                    assert(tails[k + 1] == (m / 10) as nat);
                    assert(digits@[k] == c);
                }
            }
        }
        m = m / 10;
    }
    let mut s = String::new();
    let c0 = ((m as u8) + 48) as char;
    assert(c0 == digit_char(m as nat));
    push_char(&mut s, c0);
    assert(s@ == decimal(m as nat));
    let mut i: usize = digits.len();
    while i > 0
        invariant
            i <= digits.len(),
            tails.len() == digits.len() + 1,
            tails[0] == n as nat,
            digit_tails(digits@, tails),
            s@ == decimal(tails[i as int]),
        decreases i,
    {
        i = i - 1;
        assert(tails[i + 1] == tails[i as int] / 10);
        assert(decimal(tails[i as int]) == decimal(tails[i as int] / 10).push(digit_char(tails[i as int] % 10)));
        push_char(&mut s, digits[i]);
    }
    s
}

/// Whether `a` and `b` hold the same characters.
pub fn same_text(a: &str, b: &str) -> (r: bool)
    ensures
        r == (a@ == b@),
{
    let va = chars_of(a);
    let vb = chars_of(b);
    if va.len() != vb.len() {
        return false;
    }
    let mut i: usize = 0;
    while i < va.len()
        invariant
            i <= va.len() == vb.len(),
            va@ == a@,
            vb@ == b@,
            forall|j: int| 0 <= j < i ==> va@[j] == vb@[j],
        decreases va.len() - i,
    {
        if va[i] != vb[i] {
            return false;
        }
        i = i + 1;
    }
    assert(va@ =~= vb@);
    true
}

/// `s` with every occurrence of `from` replaced by `to`.
pub open spec fn replace_char(s: Seq<char>, from: char, to: char) -> Seq<char> {
    Seq::new(s.len(), |i: int| if s[i] == from { to } else { s[i] })
}

/// `s` with every `from` character replaced by `to` (std `str::replace` with
/// single-character patterns).
pub fn replace_chars(s: &str, from: char, to: char) -> (r: String)
    ensures
        r@ == replace_char(s@, from, to),
{
    let v = chars_of(s);
    let mut r = String::new();
    let mut i: usize = 0;
    while i < v.len()
        invariant
            i <= v.len(),
            v@ == s@,
            r@ == replace_char(s@, from, to).take(i as int),
        decreases v.len() - i,
    {
        let c = if v[i] == from { to } else { v[i] };
        push_char(&mut r, c);
        assert(replace_char(s@, from, to).take(i + 1) == replace_char(s@, from, to).take(i as int).push(c));
        i = i + 1;
    }
    assert(replace_char(s@, from, to).take(v.len() as int) == replace_char(s@, from, to));
    r
}

} // verus!
