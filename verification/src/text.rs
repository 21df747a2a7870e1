//! Character-level building blocks shared by every renderer of the crate:
//! decimal and hexadecimal formatting, ASCII classes and whitespace trimming.

use vstd::prelude::*;

verus! {

/// `String::push` appends one character to the end of the string.
pub assume_specification[ String::push ](string: &mut String, ch: char)
    ensures
        final(string)@ == old(string)@.push(ch),
;

/// The character for a digit value below sixteen (lower-case hexadecimal).
pub open spec fn digit_char(d: nat) -> char {
    if d < 10 {
        (48 + d) as char
    } else {
        (87 + d) as char
    }
}

/// Shortest decimal rendering of `n`, as `{}` prints an unsigned integer.
pub open spec fn decimal(n: nat) -> Seq<char>
    decreases n,
{
    if n < 10 {
        seq![digit_char(n)]
    } else {
        decimal(n / 10).push(digit_char(n % 10))
    }
}

/// The `width` lowest hexadecimal digits of `n`, most significant first.
pub open spec fn hex_fixed(n: nat, width: nat) -> Seq<char>
    decreases width,
{
    if width == 0 {
        Seq::empty()
    } else {
        hex_fixed(n / 16, (width - 1) as nat).push(digit_char(n % 16))
    }
}

/// Decimal rendering left-padded with zeros to at least `width` characters
/// (the `{:0width}` format).
pub open spec fn decimal_padded(n: nat, width: nat) -> Seq<char> {
    let d = decimal(n);
    if d.len() >= width {
        d
    } else {
        Seq::new((width - d.len()) as nat, |i: int| '0') + d
    }
}

pub fn digit(d: u64) -> (c: char)
    requires
        d < 16,
    ensures
        c == digit_char(d as nat),
{
    if d < 10 {
        ((48 + d) as u8) as char
    } else {
        ((87 + d) as u8) as char
    }
}

/// Appends the decimal rendering of `n`.
pub fn push_decimal(s: &mut String, n: u64)
    ensures
        final(s)@ == old(s)@ + decimal(n as nat),
    decreases n,
{
    if n >= 10 {
        push_decimal(s, n / 10);
    }
    let c = digit(n % 10);
    s.push(c);
    assert(final(s)@ == old(s)@ + decimal(n as nat)) by {
        if n >= 10 {
            assert(decimal(n as nat) == decimal((n / 10) as nat).push(digit_char((n % 10) as nat)));
        }
    }
}

pub fn decimal_string(n: u64) -> (s: String)
    ensures
        s@ == decimal(n as nat),
{
    let mut s = String::new();
    push_decimal(&mut s, n);
    assert(s@ =~= decimal(n as nat));
    s
}

} // verus!

verus! {

/// The characters of `s`, one per element.
pub fn chars_of(s: &str) -> (v: Vec<char>)
    ensures
        v@ == s@,
{
    let mut v: Vec<char> = Vec::new();
    for c in it: s.chars()
        invariant
            v@ == it.seq().take(it.index() as int),
            it.seq() == s@,
    {
        v.push(c);
    }
    v
}

} // verus!

verus! {

/// The Unicode `White_Space` property, which `char::is_whitespace` and
/// `str::trim` go by.
pub open spec fn is_ws(c: char) -> bool {
    let u = c as u32;
    ||| 9 <= u <= 13
    ||| u == 32
    ||| u == 0x85
    ||| u == 0xA0
    ||| u == 0x1680
    ||| 0x2000 <= u <= 0x200A
    ||| u == 0x2028
    ||| u == 0x2029
    ||| u == 0x202F
    ||| u == 0x205F
    ||| u == 0x3000
}

pub fn is_whitespace(c: char) -> (b: bool)
    ensures
        b == is_ws(c),
{
    let u = c as u32;
    (9 <= u && u <= 13) || u == 32 || u == 0x85 || u == 0xA0 || u == 0x1680 || (0x2000 <= u && u
        <= 0x200A) || u == 0x2028 || u == 0x2029 || u == 0x202F || u == 0x205F || u == 0x3000
}

/// `s.trim().is_empty()`: every character is whitespace.
pub open spec fn blank(s: Seq<char>) -> bool {
    forall|i: int| 0 <= i < s.len() ==> is_ws(#[trigger] s[i])
}

/// Number of whitespace characters at the start of `s`.
pub open spec fn lead_ws(s: Seq<char>) -> nat
    decreases s.len(),
{
    if s.len() > 0 && is_ws(s[0]) {
        1 + lead_ws(s.drop_first())
    } else {
        0
    }
}

/// Number of whitespace characters at the end of `s`.
pub open spec fn trail_ws(s: Seq<char>) -> nat
    decreases s.len(),
{
    if s.len() > 0 && is_ws(s.last()) {
        1 + trail_ws(s.drop_last())
    } else {
        0
    }
}

/// `str::trim_start`.
pub open spec fn trim_start(s: Seq<char>) -> Seq<char> {
    s.skip(lead_ws(s) as int)
}

/// `str::trim_end`.
pub open spec fn trim_end(s: Seq<char>) -> Seq<char> {
    s.take(s.len() - trail_ws(s))
}

/// `str::trim`: leading and trailing whitespace removed.
pub open spec fn trimmed(s: Seq<char>) -> Seq<char> {
    trim_end(trim_start(s))
}

pub proof fn lemma_lead_ws_bound(s: Seq<char>)
    ensures
        lead_ws(s) <= s.len(),
        forall|j: int| 0 <= j < lead_ws(s) ==> is_ws(#[trigger] s[j]),
        lead_ws(s) < s.len() ==> !is_ws(s[lead_ws(s) as int]),
    decreases s.len(),
{
    if s.len() > 0 && is_ws(s[0]) {
        lemma_lead_ws_bound(s.drop_first());
        assert forall|j: int| 0 <= j < lead_ws(s) implies is_ws(#[trigger] s[j]) by {
            if j > 0 {
                assert(s[j] == s.drop_first()[j - 1]);
            }
        }
        if lead_ws(s) < s.len() {
            assert(s[lead_ws(s) as int] == s.drop_first()[lead_ws(s.drop_first()) as int]);
        }
    }
}

pub proof fn lemma_trail_ws_bound(s: Seq<char>)
    ensures
        trail_ws(s) <= s.len(),
        forall|j: int| s.len() - trail_ws(s) <= j < s.len() ==> is_ws(#[trigger] s[j]),
        trail_ws(s) < s.len() ==> !is_ws(s[s.len() - trail_ws(s) - 1]),
    decreases s.len(),
{
    if s.len() > 0 && is_ws(s.last()) {
        lemma_trail_ws_bound(s.drop_last());
        assert forall|j: int| s.len() - trail_ws(s) <= j < s.len() implies is_ws(#[trigger] s[j]) by {
            if j < s.len() - 1 {
                assert(s[j] == s.drop_last()[j]);
            }
        }
        if trail_ws(s) < s.len() {
            assert(s[s.len() - trail_ws(s) - 1] == s.drop_last()[s.drop_last().len() - trail_ws(
                s.drop_last(),
            ) - 1]);
        }
    }
}

/// `lead_ws` is the length of the longest whitespace prefix.
pub proof fn lemma_lead_ws_exact(s: Seq<char>, k: int)
    requires
        0 <= k <= s.len(),
        forall|j: int| 0 <= j < k ==> is_ws(#[trigger] s[j]),
        k == s.len() || !is_ws(s[k]),
    ensures
        lead_ws(s) == k,
    decreases k,
{
    if k > 0 {
        assert forall|j: int| 0 <= j < k - 1 implies is_ws(#[trigger] s.drop_first()[j]) by {
            assert(s.drop_first()[j] == s[j + 1]);
        }
        if k < s.len() {
            assert(s.drop_first()[k - 1] == s[k]);
        }
        lemma_lead_ws_exact(s.drop_first(), k - 1);
    }
}

/// `trail_ws` is the length of the longest whitespace suffix.
pub proof fn lemma_trail_ws_exact(s: Seq<char>, k: int)
    requires
        0 <= k <= s.len(),
        forall|j: int| s.len() - k <= j < s.len() ==> is_ws(#[trigger] s[j]),
        k == s.len() || !is_ws(s[s.len() - k - 1]),
    ensures
        trail_ws(s) == k,
    decreases k,
{
    if k > 0 {
        let t = s.drop_last();
        assert forall|j: int| t.len() - (k - 1) <= j < t.len() implies is_ws(#[trigger] t[j]) by {
            assert(t[j] == s[j]);
        }
        if k < s.len() {
            assert(t[t.len() - (k - 1) - 1] == s[s.len() - k - 1]);
        }
        lemma_trail_ws_exact(t, k - 1);
    }
}

/// Bounds `(start, end)` of `v.trim()` inside `v`.
pub fn trim_bounds(v: &[char]) -> (r: (usize, usize))
    ensures
        r.0 <= r.1 <= v@.len(),
        v@.subrange(r.0 as int, r.1 as int) == trimmed(v@),
{
    let n = v.len();
    let mut start: usize = 0;
    while start < n && is_whitespace(v[start])
        invariant
            n == v@.len(),
            start <= n,
            forall|j: int| 0 <= j < start ==> is_ws(#[trigger] v@[j]),
        decreases n - start,
    {
        start = start + 1;
    }
    proof {
        lemma_lead_ws_exact(v@, start as int);
    }
    let ghost t = v@.skip(start as int);
    let mut end: usize = n;
    while end > start && is_whitespace(v[end - 1])
        invariant
            n == v@.len(),
            start <= end <= n,
            t == v@.skip(start as int),
            forall|j: int| end <= j < n ==> is_ws(#[trigger] v@[j]),
        decreases end - start,
    {
        end = end - 1;
    }
    proof {
        let k = (n - end) as int;
        assert forall|j: int| t.len() - k <= j < t.len() implies is_ws(#[trigger] t[j]) by {
            assert(t[j] == v@[j + start]);
        }
        if k < t.len() {
            assert(t[t.len() - k - 1] == v@[end - 1]);
        }
        lemma_trail_ws_exact(t, k);
        assert(v@.subrange(start as int, end as int) =~= trimmed(v@));
    }
    (start, end)
}

/// `s.trim().is_empty()`.
pub fn is_blank(v: &[char]) -> (b: bool)
    ensures
        b == blank(v@),
{
    let n = v.len();
    let mut i: usize = 0;
    while i < n
        invariant
            n == v@.len(),
            i <= n,
            forall|j: int| 0 <= j < i ==> is_ws(#[trigger] v@[j]),
        decreases n - i,
    {
        if !is_whitespace(v[i]) {
            return false;
        }
        i = i + 1;
    }
    true
}

/// `p` is a prefix of `s`.
pub open spec fn has_prefix(s: Seq<char>, p: Seq<char>) -> bool {
    p.len() <= s.len() && s.take(p.len() as int) == p
}

/// `p` is a suffix of `s`.
pub open spec fn has_suffix(s: Seq<char>, p: Seq<char>) -> bool {
    p.len() <= s.len() && s.skip(s.len() - p.len()) == p
}

/// `p` occurs in `s` starting at index `i`.
pub open spec fn occurs_at(s: Seq<char>, p: Seq<char>, i: int) -> bool {
    0 <= i && i + p.len() <= s.len() && s.subrange(i, i + p.len()) == p
}

/// The first index at or after `i` where `p` occurs in `s`.
pub open spec fn find_from(s: Seq<char>, p: Seq<char>, i: int) -> Option<int>
    decreases (s.len() - i) as nat,
{
    if i < 0 || i + p.len() > s.len() {
        None
    } else if occurs_at(s, p, i) {
        Some(i)
    } else if i >= s.len() {
        None
    } else {
        find_from(s, p, i + 1)
    }
}

/// `str::find` with a string pattern.
pub open spec fn find(s: Seq<char>, p: Seq<char>) -> Option<int> {
    find_from(s, p, 0)
}

/// Whether `v[at..]` starts with `p`.
pub fn matches_at(v: &[char], p: &[char], at: usize) -> (b: bool)
    requires
        at <= v@.len(),
    ensures
        b == occurs_at(v@, p@, at as int),
{
    if p.len() > v.len() - at {
        return false;
    }
    let m = p.len();
    let n = v.len();
    let mut k: usize = 0;
    while k < m
        invariant
            m == p@.len(),
            n == v@.len(),
            at + m <= n,
            k <= m,
            forall|j: int| 0 <= j < k ==> v@[at + j] == p@[j],
        decreases m - k,
    {
        if v[at + k] != p[k] {
            assert(v@.subrange(at as int, at + m)[k as int] != p@[k as int]);
            return false;
        }
        k = k + 1;
    }
    assert(v@.subrange(at as int, at + m) =~= p@);
    true
}

pub fn starts_with(v: &[char], p: &[char]) -> (b: bool)
    ensures
        b == has_prefix(v@, p@),
{
    let b = matches_at(v, p, 0);
    assert(b ==> v@.subrange(0, p@.len() as int) =~= v@.take(p@.len() as int));
    assert(has_prefix(v@, p@) ==> v@.subrange(0, p@.len() as int) =~= v@.take(p@.len() as int));
    b
}

pub fn ends_with(v: &[char], p: &[char]) -> (b: bool)
    ensures
        b == has_suffix(v@, p@),
{
    if p.len() > v.len() {
        return false;
    }
    let at = v.len() - p.len();
    let b = matches_at(v, p, at);
    assert(v@.subrange(at as int, v@.len() as int) =~= v@.skip(at as int));
    b
}

/// First occurrence of `p` in `v`.
pub fn find_slice(v: &[char], p: &[char]) -> (r: Option<usize>)
    ensures
        match r {
            Some(i) => find(v@, p@) == Some(i as int),
            None => find(v@, p@) is None,
        },
{
    let n = v.len();
    let m = p.len();
    if m > n {
        assert(find_from(v@, p@, 0) is None);
        return None;
    }
    if m == 0 {
        assert(v@.subrange(0, 0) =~= p@);
        return Some(0);
    }
    let mut i: usize = 0;
    while i <= n - m
        invariant
            n == v@.len(),
            m == p@.len(),
            1 <= m <= n,
            i <= n - m + 1,
            find(v@, p@) == find_from(v@, p@, i as int),
        decreases n - i,
    {
        if matches_at(v, p, i) {
            return Some(i);
        }
        i = i + 1;
    }
    None
}

/// Whether `c` occurs in `v`.
pub fn contains_char(v: &[char], c: char) -> (b: bool)
    ensures
        b == v@.contains(c),
{
    let n = v.len();
    let mut i: usize = 0;
    while i < n
        invariant
            n == v@.len(),
            i <= n,
            forall|j: int| 0 <= j < i ==> v@[j] != c,
        decreases n - i,
    {
        if v[i] == c {
            return true;
        }
        i = i + 1;
    }
    false
}

/// The characters `v[from..to]` as a new string.
pub fn substring(v: &[char], from: usize, to: usize) -> (s: String)
    requires
        from <= to <= v@.len(),
    ensures
        s@ == v@.subrange(from as int, to as int),
{
    let mut s = String::new();
    let mut i: usize = from;
    while i < to
        invariant
            from <= i <= to,
            to <= v@.len(),
            s@ == v@.subrange(from as int, i as int),
        decreases to - i,
    {
        s.push(v[i]);
        assert(s@ =~= v@.subrange(from as int, i + 1));
        i = i + 1;
    }
    s
}

/// Appends every character of `v`.
pub fn push_chars(s: &mut String, v: &[char])
    ensures
        final(s)@ == old(s)@ + v@,
{
    let n = v.len();
    let mut i: usize = 0;
    while i < n
        invariant
            n == v@.len(),
            i <= n,
            s@ == old(s)@ + v@.take(i as int),
        decreases n - i,
    {
        s.push(v[i]);
        assert(s@ =~= old(s)@ + v@.take(i + 1));
        i = i + 1;
    }
    assert(v@.take(n as int) =~= v@);
}

/// Appends `t`.
pub fn push_str(s: &mut String, t: &str)
    ensures
        final(s)@ == old(s)@ + t@,
{
    let v = chars_of(t);
    push_chars(s, v.as_slice());
}

/// A new string holding `t`.
pub fn owned(t: &str) -> (s: String)
    ensures
        s@ == t@,
{
    let mut s = String::new();
    push_str(&mut s, t);
    assert(s@ =~= t@);
    s
}

} // verus!

verus! {

/// `str::strip_prefix`.
pub open spec fn strip_prefix(s: Seq<char>, p: Seq<char>) -> Option<Seq<char>> {
    if has_prefix(s, p) {
        Some(s.skip(p.len() as int))
    } else {
        None
    }
}

/// `str::strip_suffix`.
pub open spec fn strip_suffix(s: Seq<char>, p: Seq<char>) -> Option<Seq<char>> {
    if has_suffix(s, p) {
        Some(s.take(s.len() - p.len()))
    } else {
        None
    }
}

/// `str::split_once`: the parts before and after the first occurrence of `p`.
pub open spec fn split_once(s: Seq<char>, p: Seq<char>) -> Option<(Seq<char>, Seq<char>)> {
    match find(s, p) {
        Some(i) => Some((s.take(i), s.skip(i + p.len()))),
        None => None,
    }
}

/// The view of an optional string.
pub open spec fn opt_view(o: Option<String>) -> Option<Seq<char>> {
    match o {
        Some(s) => Some(s@),
        None => None,
    }
}

pub proof fn lemma_find_some(s: Seq<char>, p: Seq<char>, i: int)
    requires
        find(s, p) == Some(i),
    ensures
        occurs_at(s, p, i),
{
    lemma_find_from_some(s, p, 0, i);
}

proof fn lemma_find_from_some(s: Seq<char>, p: Seq<char>, k: int, i: int)
    requires
        find_from(s, p, k) == Some(i),
    ensures
        occurs_at(s, p, i),
        k <= i,
    decreases s.len() - k,
{
    if k < 0 || k + p.len() > s.len() {
    } else if occurs_at(s, p, k) {
    } else if k >= s.len() {
    } else {
        lemma_find_from_some(s, p, k + 1, i);
    }
}

/// A copy of `v[from..to]`.
pub fn slice_vec(v: &[char], from: usize, to: usize) -> (r: Vec<char>)
    requires
        from <= to <= v@.len(),
    ensures
        r@ == v@.subrange(from as int, to as int),
{
    let mut r: Vec<char> = Vec::new();
    let mut i: usize = from;
    while i < to
        invariant
            from <= i <= to,
            to <= v@.len(),
            r@ == v@.subrange(from as int, i as int),
        decreases to - i,
    {
        r.push(v[i]);
        assert(r@ =~= v@.subrange(from as int, i + 1));
        i = i + 1;
    }
    r
}

pub fn strip_prefix_vec(v: &[char], p: &[char]) -> (r: Option<Vec<char>>)
    ensures
        match r {
            Some(t) => strip_prefix(v@, p@) == Some(t@),
            None => strip_prefix(v@, p@) is None,
        },
{
    if starts_with(v, p) {
        let t = slice_vec(v, p.len(), v.len());
        assert(t@ =~= v@.skip(p@.len() as int));
        Some(t)
    } else {
        None
    }
}

pub fn strip_suffix_vec(v: &[char], p: &[char]) -> (r: Option<Vec<char>>)
    ensures
        match r {
            Some(t) => strip_suffix(v@, p@) == Some(t@),
            None => strip_suffix(v@, p@) is None,
        },
{
    if ends_with(v, p) {
        let t = slice_vec(v, 0, v.len() - p.len());
        assert(t@ =~= v@.take(v@.len() - p@.len()));
        Some(t)
    } else {
        None
    }
}

pub fn split_once_vec(v: &[char], p: &[char]) -> (r: Option<(Vec<char>, Vec<char>)>)
    ensures
        match r {
            Some((a, b)) => split_once(v@, p@) == Some((a@, b@)),
            None => split_once(v@, p@) is None,
        },
{
    match find_slice(v, p) {
        Some(i) => {
            proof {
                lemma_find_some(v@, p@, i as int);
                assert(i + p@.len() <= v@.len());
            }
            let n = v.len();
            let m = p.len();
            assert(i + m <= n);
            let a = slice_vec(v, 0, i);
            let b = slice_vec(v, i + m, n);
            assert(a@ =~= v@.take(i as int));
            assert(b@ =~= v@.skip(i + p@.len()));
            Some((a, b))
        },
        None => None,
    }
}

pub fn string_of(v: &[char]) -> (s: String)
    ensures
        s@ == v@,
{
    let s = substring(v, 0, v.len());
    assert(v@.subrange(0, v@.len() as int) =~= v@);
    s
}

} // verus!

verus! {

pub open spec fn is_digit(c: char) -> bool {
    '0' <= c <= '9'
}

pub open spec fn all_digits(s: Seq<char>) -> bool {
    forall|i: int| 0 <= i < s.len() ==> is_digit(#[trigger] s[i])
}

/// The value of a string of decimal digits.
pub open spec fn digits_value(s: Seq<char>) -> nat
    decreases s.len(),
{
    if s.len() == 0 {
        0
    } else {
        digits_value(s.drop_last()) * 10 + ((s.last() as u32) - 48) as nat
    }
}

/// The digits of an unsigned number: the text without one leading `+`.
pub open spec fn unsigned_digits(s: Seq<char>) -> Seq<char> {
    if s.len() > 0 && s[0] == '+' {
        s.drop_first()
    } else {
        s
    }
}

/// `str::parse` for an unsigned integer type whose maximum is `max`: an
/// optional `+`, then one or more ASCII digits whose value is at most `max`.
pub open spec fn parse_unsigned(s: Seq<char>, max: nat) -> Option<nat> {
    let d = unsigned_digits(s);
    if d.len() > 0 && all_digits(d) && digits_value(d) <= max {
        Some(digits_value(d))
    } else {
        None
    }
}

proof fn lemma_digits_value_monotone(s: Seq<char>, i: int)
    requires
        0 <= i <= s.len(),
        all_digits(s),
    ensures
        digits_value(s.take(i)) <= digits_value(s),
    decreases s.len() - i,
{
    if i < s.len() {
        let t = s.take(i + 1);
        assert(t.drop_last() =~= s.take(i));
        assert(is_digit(s[i]));
        assert forall|j: int| 0 <= j < s.take(i + 1).len() implies is_digit(#[trigger] s.take(i + 1)[j]) by {
            assert(s.take(i + 1)[j] == s[j]);
        }
        lemma_digits_value_monotone(s, i + 1);
    } else {
        assert(s.take(i) =~= s);
    }
}

/// Parses `v` as an unsigned integer no larger than `max`.
pub fn parse_unsigned_chars(v: &[char], max: u64) -> (r: Option<u64>)
    ensures
        match r {
            Some(x) => parse_unsigned(v@, max as nat) == Some(x as nat),
            None => parse_unsigned(v@, max as nat) is None,
        },
{
    let n = v.len();
    let start: usize = if n > 0 && v[0] == '+' {
        1
    } else {
        0
    };
    let ghost d = unsigned_digits(v@);
    assert(d =~= v@.skip(start as int));
    if start >= n {
        return None;
    }
    let mut acc: u64 = 0;
    let mut i: usize = start;
    while i < n
        invariant
            n == v@.len(),
            start <= i <= n,
            d == v@.skip(start as int),
            d == unsigned_digits(v@),
            forall|j: int| start <= j < i ==> is_digit(#[trigger] v@[j]),
            acc as nat == digits_value(d.take(i - start)),
            acc <= max,
        decreases n - i,
    {
        let c = v[i];
        if !('0' <= c && c <= '9') {
            assert(d[i - start] == c);
            assert(!is_digit(d[i - start]));
            assert(!all_digits(d));
            assert(parse_unsigned(v@, max as nat) is None);
            return None;
        }
        let digit = (c as u32 - 48) as u64;
        assert(d.take(i - start + 1).drop_last() =~= d.take(i - start));
        assert(d.take(i - start + 1).last() == c);
        let next: u128 = acc as u128 * 10 + digit as u128;
        if next > max as u128 {
            proof {
                if all_digits(d) {
                    lemma_digits_value_monotone(d, i - start + 1);
                    assert(digits_value(d.take(i - start + 1)) == next);
                    assert(digits_value(d) > max);
                }
                assert(parse_unsigned(v@, max as nat) is None);
            }
            return None;
        }
        acc = next as u64;
        i = i + 1;
    }
    assert(d.take(n - start) =~= d);
    assert forall|j: int| 0 <= j < d.len() implies is_digit(#[trigger] d[j]) by {
        assert(d[j] == v@[j + start]);
    }
    Some(acc)
}

} // verus!

verus! {

pub fn chars_equal(a: &[char], b: &[char]) -> (r: bool)
    ensures
        r == (a@ == b@),
{
    if a.len() != b.len() {
        return false;
    }
    let n = a.len();
    let mut i: usize = 0;
    while i < n
        invariant
            n == a@.len(),
            n == b@.len(),
            i <= n,
            forall|j: int| 0 <= j < i ==> a@[j] == b@[j],
        decreases n - i,
    {
        if a[i] != b[i] {
            return false;
        }
        i = i + 1;
    }
    assert(a@ =~= b@);
    true
}

/// String equality by content.
pub fn str_equals(a: &str, b: &str) -> (r: bool)
    ensures
        r == (a@ == b@),
{
    let x = chars_of(a);
    let y = chars_of(b);
    chars_equal(x.as_slice(), y.as_slice())
}

/// `str::trim_start_matches` with a string pattern: every leading repetition
/// of `p` is removed.
pub open spec fn trim_start_all(s: Seq<char>, p: Seq<char>) -> Seq<char>
    decreases s.len(),
{
    if p.len() > 0 && has_prefix(s, p) {
        trim_start_all(s.skip(p.len() as int), p)
    } else {
        s
    }
}

pub fn trim_start_matches(s: &str, p: &str) -> (r: String)
    ensures
        r@ == trim_start_all(s@, p@),
{
    let v = chars_of(s);
    let pv = chars_of(p);
    let n = v.len();
    let m = pv.len();
    let mut i: usize = 0;
    assert(v@.skip(0) =~= v@);
    if m > 0 {
        let mut go = m <= n && matches_at(v.as_slice(), pv.as_slice(), 0);
        while go
            invariant
                n == v@.len(),
                m == pv@.len(),
                pv@ == p@,
                m > 0,
                i <= n,
                go ==> i + m <= n && occurs_at(v@, p@, i as int),
                !go ==> !(i + m <= n && occurs_at(v@, p@, i as int)),
                trim_start_all(s@, p@) == trim_start_all(v@.skip(i as int), p@),
            decreases n - i,
        {
            assert(v@.skip(i as int).take(m as int) =~= v@.subrange(i as int, i + m));
            assert(v@.skip(i as int).skip(m as int) =~= v@.skip(i + m));
            assert(has_prefix(v@.skip(i as int), p@));
            assert(trim_start_all(v@.skip(i as int), p@) == trim_start_all(
                v@.skip(i as int).skip(p@.len() as int),
                p@,
            ));
            i = i + m;
            go = m <= n - i && matches_at(v.as_slice(), pv.as_slice(), i);
        }
        proof {
            let t = v@.skip(i as int);
            if has_prefix(t, p@) {
                assert(t.take(m as int) =~= v@.subrange(i as int, i + m));
            }
        }
    } else {
        assert(v@.skip(0) =~= v@);
    }
    assert(v@.skip(0) =~= v@);
    substring(v.as_slice(), i, n)
}

} // verus!

verus! {

/// `str::split` on one character: the pieces between occurrences of `c`,
/// empty pieces included.
pub open spec fn split_on(s: Seq<char>, c: char) -> Seq<Seq<char>>
    decreases s.len(),
{
    if s.len() == 0 {
        seq![Seq::empty()]
    } else {
        let parts = split_on(s.drop_last(), c);
        if s.last() == c {
            parts.push(Seq::empty())
        } else {
            parts.update(parts.len() - 1, parts.last().push(s.last()))
        }
    }
}

pub proof fn lemma_split_on_nonempty(s: Seq<char>, c: char)
    ensures
        split_on(s, c).len() >= 1,
    decreases s.len(),
{
    if s.len() > 0 {
        lemma_split_on_nonempty(s.drop_last(), c);
    }
}

/// The pieces of `s` between occurrences of `c`.
pub fn split_chars(v: &[char], c: char) -> (parts: Vec<Vec<char>>)
    ensures
        parts@.len() == split_on(v@, c).len(),
        forall|k: int| 0 <= k < parts@.len() ==> #[trigger] parts@[k]@ == split_on(v@, c)[k],
{
    let mut parts: Vec<Vec<char>> = Vec::new();
    let mut cur: Vec<char> = Vec::new();
    let n = v.len();
    let mut i: usize = 0;
    assert(v@.take(0) =~= Seq::<char>::empty());
    while i < n
        invariant
            n == v@.len(),
            i <= n,
            parts@.len() + 1 == split_on(v@.take(i as int), c).len(),
            forall|k: int| 0 <= k < parts@.len() ==> #[trigger] parts@[k]@ == split_on(v@.take(i as int), c)[k],
            cur@ == split_on(v@.take(i as int), c).last(),
        decreases n - i,
    {
        proof {
            lemma_split_on_nonempty(v@.take(i as int), c);
            assert(v@.take(i + 1).drop_last() =~= v@.take(i as int));
            assert(v@.take(i + 1).last() == v@[i as int]);
        }
        if v[i] == c {
            parts.push(cur);
            cur = Vec::new();
        } else {
            cur.push(v[i]);
        }
        i = i + 1;
    }
    assert(v@.take(n as int) =~= v@);
    proof {
        lemma_split_on_nonempty(v@, c);
    }
    parts.push(cur);
    parts
}

/// ASCII letters and digits.
pub open spec fn is_ascii_alnum(c: char) -> bool {
    ('a' <= c <= 'z') || ('A' <= c <= 'Z') || ('0' <= c <= '9')
}

pub fn ascii_alnum(c: char) -> (b: bool)
    ensures
        b == is_ascii_alnum(c),
{
    ('a' <= c && c <= 'z') || ('A' <= c && c <= 'Z') || ('0' <= c && c <= '9')
}

/// ASCII letters and digits, as bytes.
pub open spec fn is_ascii_alnum_byte(b: u8) -> bool {
    (97 <= b <= 122) || (65 <= b <= 90) || (48 <= b <= 57)
}

} // verus!

verus! {

/// Lexicographic order of strings by code point, which is the order of
/// their UTF-8 bytes and so the order `String`'s `Ord` uses.
pub open spec fn lex_lt(a: Seq<char>, b: Seq<char>) -> bool
    decreases a.len(),
{
    if a.len() == 0 {
        b.len() > 0
    } else if b.len() == 0 {
        false
    } else if a[0] < b[0] {
        true
    } else if a[0] == b[0] {
        lex_lt(a.drop_first(), b.drop_first())
    } else {
        false
    }
}

pub proof fn lemma_lex_irreflexive(a: Seq<char>)
    ensures
        !lex_lt(a, a),
    decreases a.len(),
{
    if a.len() > 0 {
        lemma_lex_irreflexive(a.drop_first());
    }
}

pub proof fn lemma_lex_asymmetric(a: Seq<char>, b: Seq<char>)
    ensures
        lex_lt(a, b) ==> !lex_lt(b, a),
    decreases a.len(),
{
    if a.len() > 0 && b.len() > 0 && a[0] == b[0] {
        lemma_lex_asymmetric(a.drop_first(), b.drop_first());
    }
}

pub proof fn lemma_lex_transitive(a: Seq<char>, b: Seq<char>, c: Seq<char>)
    requires
        lex_lt(a, b),
        lex_lt(b, c),
    ensures
        lex_lt(a, c),
    decreases a.len(),
{
    if a.len() > 0 && b.len() > 0 && c.len() > 0 && a[0] == b[0] && b[0] == c[0] {
        lemma_lex_transitive(a.drop_first(), b.drop_first(), c.drop_first());
    }
}

pub proof fn lemma_lex_total(a: Seq<char>, b: Seq<char>)
    ensures
        a == b || lex_lt(a, b) || lex_lt(b, a),
    decreases a.len(),
{
    if a.len() > 0 && b.len() > 0 {
        if a[0] == b[0] {
            lemma_lex_total(a.drop_first(), b.drop_first());
            if a.drop_first() == b.drop_first() {
                assert(a =~= seq![a[0]] + a.drop_first());
                assert(b =~= seq![b[0]] + b.drop_first());
            }
        }
    } else if a.len() == 0 && b.len() == 0 {
        assert(a =~= b);
    }
}

/// Whether `a` sorts strictly before `b`.
pub fn lex_less(a: &[char], b: &[char]) -> (r: bool)
    ensures
        r == lex_lt(a@, b@),
{
    let n = a.len();
    let m = b.len();
    let mut i: usize = 0;
    assert(a@.skip(0) =~= a@);
    assert(b@.skip(0) =~= b@);
    while i < n && i < m && a[i] == b[i]
        invariant
            n == a@.len(),
            m == b@.len(),
            i <= n,
            i <= m,
            forall|j: int| 0 <= j < i ==> a@[j] == b@[j],
            lex_lt(a@, b@) == lex_lt(a@.skip(i as int), b@.skip(i as int)),
        decreases n - i,
    {
        proof {
            let x = a@.skip(i as int);
            let y = b@.skip(i as int);
            assert(x.drop_first() =~= a@.skip(i + 1));
            assert(y.drop_first() =~= b@.skip(i + 1));
        }
        i = i + 1;
    }
    if i == n {
        i < m
    } else if i == m {
        false
    } else {
        a[i] < b[i]
    }
}

} // verus!

verus! {

/// The views of a list of strings.
pub open spec fn texts(v: Seq<String>) -> Seq<Seq<char>> {
    v.map_values(|s: String| s@)
}

/// `parts.join(sep)`.
pub open spec fn join(parts: Seq<Seq<char>>, sep: Seq<char>) -> Seq<char>
    decreases parts.len(),
{
    if parts.len() == 0 {
        Seq::empty()
    } else if parts.len() == 1 {
        parts[0]
    } else {
        join(parts.drop_last(), sep) + sep + parts.last()
    }
}

/// `parts.join(sep)` on owned strings.
pub fn join_texts(parts: &Vec<String>, sep: &str) -> (s: String)
    ensures
        s@ == join(texts(parts@), sep@),
{
    let mut s = String::new();
    let n = parts.len();
    let mut i: usize = 0;
    while i < n
        invariant
            n == parts@.len(),
            i <= n,
            s@ == join(texts(parts@).take(i as int), sep@),
        decreases n - i,
    {
        proof {
            let t = texts(parts@).take(i + 1);
            assert(t.drop_last() =~= texts(parts@).take(i as int));
            assert(t.last() == parts@[i as int]@);
        }
        if i > 0 {
            push_str(&mut s, sep);
        }
        push_str(&mut s, parts[i].as_str());
        i = i + 1;
    }
    assert(texts(parts@).take(n as int) =~= texts(parts@));
    s
}

/// Whether `t` is one of `list`.
pub fn contains_text(list: &Vec<String>, t: &str) -> (b: bool)
    ensures
        b == texts(list@).contains(t@),
{
    let n = list.len();
    let mut i: usize = 0;
    while i < n
        invariant
            n == list@.len(),
            i <= n,
            forall|j: int| 0 <= j < i ==> list@[j]@ != t@,
        decreases n - i,
    {
        if str_equals(list[i].as_str(), t) {
            assert(texts(list@)[i as int] == t@);
            return true;
        }
        i = i + 1;
    }
    proof {
        if texts(list@).contains(t@) {
            let j = choose|j: int| 0 <= j < texts(list@).len() && texts(list@)[j] == t@;
            assert(list@[j]@ == t@);
        }
    }
    false
}

/// `s.trim().is_empty()` on a string.
pub fn str_is_blank(s: &str) -> (b: bool)
    ensures
        b == blank(s@),
{
    let v = chars_of(s);
    is_blank(v.as_slice())
}

} // verus!

verus! {

/// `str::split` with a non-empty string separator.
pub open spec fn split_str(s: Seq<char>, sep: Seq<char>) -> Seq<Seq<char>>
    decreases s.len(),
{
    if sep.len() == 0 {
        seq![s]
    } else {
        match find(s, sep) {
            Some(i) => {
                proof {
                    lemma_find_some(s, sep, i);
                }
                seq![s.take(i)] + split_str(s.skip(i + sep.len()), sep)
            },
            None => seq![s],
        }
    }
}

pub proof fn lemma_split_str_nonempty(s: Seq<char>, sep: Seq<char>)
    ensures
        split_str(s, sep).len() >= 1,
{
    if sep.len() > 0 {
        if let Some(i) = find(s, sep) {
            lemma_find_some(s, sep, i);
        }
    }
}

/// The pieces of `v` between occurrences of the non-empty `sep`.
pub fn split_text(v: &[char], sep: &[char]) -> (parts: Vec<Vec<char>>)
    requires
        sep@.len() > 0,
    ensures
        parts@.len() == split_str(v@, sep@).len(),
        forall|k: int| 0 <= k < parts@.len() ==> #[trigger] parts@[k]@ == split_str(v@, sep@)[k],
{
    let mut parts: Vec<Vec<char>> = Vec::new();
    let mut rest: Vec<char> = slice_vec(v, 0, v.len());
    assert(rest@ =~= v@);
    let ghost done: Seq<Seq<char>> = Seq::empty();
    loop
        invariant
            sep@.len() > 0,
            parts@.len() == done.len(),
            forall|k: int| 0 <= k < parts@.len() ==> #[trigger] parts@[k]@ == done[k],
            done + split_str(rest@, sep@) == split_str(v@, sep@),
        decreases rest@.len(),
    {
        match find_slice(rest.as_slice(), sep) {
            Some(i) => {
                proof {
                    lemma_find_some(rest@, sep@, i as int);
                }
                let rl = rest.len();
                let m = sep.len();
                assert(i + m <= rl);
                let head = slice_vec(rest.as_slice(), 0, i);
                let tail = slice_vec(rest.as_slice(), i + m, rl);
                assert(head@ =~= rest@.take(i as int));
                assert(tail@ =~= rest@.skip(i + sep@.len()));
                proof {
                    assert(done.push(head@) + split_str(tail@, sep@) =~= done + split_str(rest@, sep@));
                    done = done.push(head@);
                }
                parts.push(head);
                rest = tail;
            },
            None => {
                proof {
                    assert(done.push(rest@) =~= done + split_str(rest@, sep@));
                    done = done.push(rest@);
                }
                parts.push(rest);
                return parts;
            },
        }
    }
}

/// `str::split_whitespace`: the maximal runs of non-whitespace characters.
pub open spec fn ws_tokens(s: Seq<char>) -> Seq<Seq<char>>
    decreases s.len(),
{
    if s.len() == 0 {
        Seq::empty()
    } else {
        let prev = ws_tokens(s.drop_last());
        let c = s.last();
        if is_ws(c) {
            prev
        } else if s.len() >= 2 && !is_ws(s[s.len() - 2]) && prev.len() > 0 {
            prev.update(prev.len() - 1, prev.last().push(c))
        } else {
            prev.push(seq![c])
        }
    }
}

/// The whitespace-separated words of `v`.
pub fn split_whitespace(v: &[char]) -> (words: Vec<Vec<char>>)
    ensures
        words@.len() == ws_tokens(v@).len(),
        forall|k: int| 0 <= k < words@.len() ==> #[trigger] words@[k]@ == ws_tokens(v@)[k],
{
    let mut words: Vec<Vec<char>> = Vec::new();
    let n = v.len();
    let mut i: usize = 0;
    while i < n
        invariant
            n == v@.len(),
            i <= n,
            words@.len() == ws_tokens(v@.take(i as int)).len(),
            forall|k: int| 0 <= k < words@.len() ==> #[trigger] words@[k]@ == ws_tokens(v@.take(i as int))[k],
        decreases n - i,
    {
        let ghost t = v@.take(i + 1);
        proof {
            assert(t.drop_last() =~= v@.take(i as int));
            assert(t.last() == v@[i as int]);
            if i >= 1 {
                assert(t[t.len() - 2] == v@[i - 1]);
            }
        }
        let c = v[i];
        if !is_whitespace(c) {
            if i >= 1 && !is_whitespace(v[i - 1]) && words.len() > 0 {
                let last = words.len() - 1;
                let mut w = words[last].clone();
                w.push(c);
                let ghost before = words@;
                words.set(last, w);
                assert forall|k: int| 0 <= k < words@.len() implies #[trigger] words@[k]@ == ws_tokens(t)[k] by {
                    if k != last {
                        assert(words@[k] == before[k]);
                    }
                }
            } else {
                words.push(vec![c]);
                assert(words@[words@.len() - 1]@ =~= seq![c]);
            }
        }
        i = i + 1;
    }
    assert(v@.take(n as int) =~= v@);
    words
}

/// ASCII upper-case letters lowered, every other character kept.
pub open spec fn ascii_lower(c: char) -> char {
    if 'A' <= c <= 'Z' {
        ((c as u32) + 32) as char
    } else {
        c
    }
}

/// `str::to_ascii_lowercase`.
pub open spec fn ascii_lowercase(s: Seq<char>) -> Seq<char> {
    s.map_values(|c: char| ascii_lower(c))
}

pub fn to_ascii_lowercase(v: &[char]) -> (s: String)
    ensures
        s@ == ascii_lowercase(v@),
{
    let mut s = String::new();
    let n = v.len();
    let mut i: usize = 0;
    while i < n
        invariant
            n == v@.len(),
            i <= n,
            s@ == ascii_lowercase(v@.take(i as int)),
        decreases n - i,
    {
        let c = v[i];
        let l = if 'A' <= c && c <= 'Z' {
            ((c as u32) + 32) as u8 as char
        } else {
            c
        };
        s.push(l);
        assert(s@ =~= ascii_lowercase(v@.take(i + 1)));
        i = i + 1;
    }
    assert(v@.take(n as int) =~= v@);
    s
}

/// `str::eq_ignore_ascii_case`.
pub open spec fn eq_ignore_ascii_case(a: Seq<char>, b: Seq<char>) -> bool {
    ascii_lowercase(a) == ascii_lowercase(b)
}

} // verus!

verus! {

/// A copy of `b[from..to]`.
pub fn byte_slice(b: &[u8], from: usize, to: usize) -> (r: Vec<u8>)
    requires
        from <= to <= b@.len(),
    ensures
        r@ == b@.subrange(from as int, to as int),
{
    let mut r: Vec<u8> = Vec::new();
    let mut i: usize = from;
    while i < to
        invariant
            from <= i <= to,
            to <= b@.len(),
            r@ == b@.subrange(from as int, i as int),
        decreases to - i,
    {
        r.push(b[i]);
        assert(r@ =~= b@.subrange(from as int, i + 1));
        i = i + 1;
    }
    r
}

} // verus!

verus! {

/// Strictly increasing in code-point order, so without repetitions.
pub open spec fn strictly_sorted(s: Seq<Seq<char>>) -> bool {
    forall|i: int, j: int| 0 <= i < j < s.len() ==> lex_lt(#[trigger] s[i], #[trigger] s[j])
}

/// Adds `s` to a sorted list of distinct strings, keeping it sorted and
/// distinct (`sort` followed by `dedup`, one string at a time).
pub fn insert_sorted(v: &mut Vec<String>, s: String)
    requires
        strictly_sorted(texts(old(v)@)),
    ensures
        strictly_sorted(texts(final(v)@)),
        forall|x: Seq<char>| #[trigger] texts(final(v)@).contains(x) <==> (texts(old(v)@).contains(x) || x == s@),
{
    let ghost t = texts(v@);
    let sv = chars_of(s.as_str());
    let n = v.len();
    let mut i: usize = 0;
    while i < n
        invariant
            n == v@.len(),
            t == texts(v@),
            sv@ == s@,
            i <= n,
            forall|j: int| 0 <= j < i ==> lex_lt(#[trigger] t[j], s@),
        ensures
            i <= n,
            forall|j: int| 0 <= j < i ==> lex_lt(#[trigger] t[j], s@),
            i < n ==> !lex_lt(t[i as int], s@),
        decreases n - i,
    {
        let cur = chars_of(v[i].as_str());
        if !lex_less(cur.as_slice(), sv.as_slice()) {
            break;
        }
        i = i + 1;
    }
    if i < n && str_equals(v[i].as_str(), s.as_str()) {
        assert forall|x: Seq<char>| #[trigger] texts(v@).contains(x) <==> (t.contains(x) || x == s@) by {
            if x == s@ {
                assert(t[i as int] == x);
            }
        }
        return;
    }
    proof {
        if i < n {
            lemma_lex_total(t[i as int], s@);
        }
    }
    v.insert(i, s);
    let ghost u = texts(v@);
    assert(u =~= t.insert(i as int, sv@));
    assert forall|a: int, b: int| 0 <= a < b < u.len() implies lex_lt(#[trigger] u[a], #[trigger] u[b]) by {
        if b < i {
            assert(u[a] == t[a] && u[b] == t[b]);
        } else if b == i {
            assert(u[a] == t[a]);
        } else if a < i {
            assert(u[a] == t[a] && u[b] == t[b - 1]);
            assert(lex_lt(t[a], s@));
            lemma_lex_total(t[i as int], s@);
            if b - 1 > i {
                lemma_lex_transitive(s@, t[i as int], t[b - 1]);
            }
            lemma_lex_transitive(t[a], s@, t[b - 1]);
        } else if a == i {
            assert(u[b] == t[b - 1]);
            lemma_lex_total(t[i as int], s@);
            if b - 1 > i {
                lemma_lex_transitive(s@, t[i as int], t[b - 1]);
            }
        } else {
            assert(u[a] == t[a - 1] && u[b] == t[b - 1]);
        }
    }
    assert forall|x: Seq<char>| #[trigger] u.contains(x) <==> (t.contains(x) || x == s@) by {
        if u.contains(x) {
            let k = choose|k: int| 0 <= k < u.len() && u[k] == x;
            if k < i {
                assert(t[k] == x);
            } else if k > i {
                assert(t[k - 1] == x);
            }
        }
        if t.contains(x) {
            let k = choose|k: int| 0 <= k < t.len() && t[k] == x;
            if k < i {
                assert(u[k] == x);
            } else {
                assert(u[k + 1] == x);
            }
        }
        if x == s@ {
            assert(u[i as int] == x);
        }
    }
}

} // verus!
