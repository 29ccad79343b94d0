//! Character-level text operations, each with the mathematical meaning that
//! the corresponding `str` method documents.
use vstd::prelude::*;

verus! {

/// The Unicode `White_Space` property, as `char::is_whitespace` documents it.
pub open spec fn is_ws(c: char) -> bool {
    let u = c as u32;
    ||| 0x9 <= u <= 0xd
    ||| u == 0x20
    ||| u == 0x85
    ||| u == 0xa0
    ||| u == 0x1680
    ||| 0x2000 <= u <= 0x200a
    ||| u == 0x2028
    ||| u == 0x2029
    ||| u == 0x202f
    ||| u == 0x205f
    ||| u == 0x3000
}

pub fn is_whitespace(c: char) -> (b: bool)
    ensures
        b == is_ws(c),
{
    let u = c as u32;
    (0x9 <= u && u <= 0xd) || u == 0x20 || u == 0x85 || u == 0xa0 || u == 0x1680 || (0x2000
        <= u && u <= 0x200a) || u == 0x2028 || u == 0x2029 || u == 0x202f || u == 0x205f || u
        == 0x3000
}

/// `s` without its leading white space (`str::trim_start`).
pub open spec fn trim_start(s: Seq<char>) -> Seq<char>
    decreases s.len(),
{
    if s.len() > 0 && is_ws(s[0]) {
        trim_start(s.drop_first())
    } else {
        s
    }
}

/// `s` without its trailing white space (`str::trim_end`).
pub open spec fn trim_end(s: Seq<char>) -> Seq<char>
    decreases s.len(),
{
    if s.len() > 0 && is_ws(s.last()) {
        trim_end(s.drop_last())
    } else {
        s
    }
}

/// `s` without leading and trailing white space (`str::trim`).
pub open spec fn trim(s: Seq<char>) -> Seq<char> {
    trim_end(trim_start(s))
}

/// The text of an optional string.
pub open spec fn opt_view(o: Option<&str>) -> Option<Seq<char>> {
    match o {
        Some(s) => Some(s@),
        None => None,
    }
}

/// `p` occurs in `s` at position `i`.
pub open spec fn occurs_at(s: Seq<char>, p: Seq<char>, i: int) -> bool {
    0 <= i && i + p.len() <= s.len() && s.subrange(i, i + p.len()) == p
}

/// `str::starts_with` with a string pattern.
pub open spec fn starts_with(s: Seq<char>, p: Seq<char>) -> bool {
    occurs_at(s, p, 0)
}

/// `str::ends_with` with a string pattern.
pub open spec fn ends_with(s: Seq<char>, p: Seq<char>) -> bool {
    occurs_at(s, p, s.len() - p.len())
}

/// `str::contains` with a string pattern.
pub open spec fn contains(s: Seq<char>, p: Seq<char>) -> bool {
    exists|i: int| occurs_at(s, p, i)
}

/// Calls `String::push`: `c` is appended to `s` and nothing else changes.
#[verifier::external_body]
fn push_char(s: &mut String, c: char)
    ensures
        final(s)@ == old(s)@.push(c),
{
    s.push(c);
}

/// The characters of `s`, in order.
pub fn chars_of(s: &str) -> (v: Vec<char>)
    ensures
        v@ == s@,
{
    let mut v: Vec<char> = Vec::new();
    for c in it: s.chars()
        invariant
            v@ == it.seq().take(it.index() as int),
    {
        v.push(c);
    }
    v
}

/// The string made of the characters `v[from..to]`.
pub fn string_of_range(v: &Vec<char>, from: usize, to: usize) -> (s: String)
    requires
        from <= to <= v.len(),
    ensures
        s@ == v@.subrange(from as int, to as int),
{
    let mut s = String::new();
    let mut i = from;
    while i < to
        invariant
            from <= i <= to <= v.len(),
            s@ == v@.subrange(from as int, i as int),
        decreases to - i,
    {
        push_char(&mut s, v[i]);
        assert(v@.subrange(from as int, i + 1) == v@.subrange(from as int, i as int).push(
            v@[i as int],
        ));
        i += 1;
    }
    s
}

/// The string made of the characters of `v`.
pub fn string_of(v: &Vec<char>) -> (s: String)
    ensures
        s@ == v@,
{
    let s = string_of_range(v, 0, v.len());
    assert(v@.subrange(0, v@.len() as int) == v@);
    s
}

/// The characters `v[from..to]`.
pub fn chars_range(v: &Vec<char>, from: usize, to: usize) -> (r: Vec<char>)
    requires
        from <= to <= v.len(),
    ensures
        r@ == v@.subrange(from as int, to as int),
{
    let mut r: Vec<char> = Vec::new();
    let mut i = from;
    while i < to
        invariant
            from <= i <= to <= v.len(),
            r@ == v@.subrange(from as int, i as int),
        decreases to - i,
    {
        r.push(v[i]);
        assert(v@.subrange(from as int, i + 1) == v@.subrange(from as int, i as int).push(
            v@[i as int],
        ));
        i += 1;
    }
    r
}

/// The bounds of `v` once its leading and trailing white space is left out.
pub fn trim_bounds(v: &Vec<char>) -> (r: (usize, usize))
    ensures
        r.0 <= r.1 <= v.len(),
        v@.subrange(r.0 as int, r.1 as int) == trim(v@),
        trim_start(v@) == v@.subrange(r.0 as int, v.len() as int),
{
    let n = v.len();
    let mut a: usize = 0;
    assert(v@.subrange(0, n as int) == v@);
    while a < n && is_whitespace(v[a])
        invariant
            a <= n == v.len(),
            trim_start(v@) == trim_start(v@.subrange(a as int, n as int)),
        decreases n - a,
    {
        assert(v@.subrange(a as int, n as int).drop_first() == v@.subrange(a + 1, n as int));
        a += 1;
    }
    let mut b: usize = n;
    while b > a && is_whitespace(v[b - 1])
        invariant
            a <= b <= n == v.len(),
            trim_start(v@) == v@.subrange(a as int, n as int),
            trim(v@) == trim_end(v@.subrange(a as int, b as int)),
        decreases b - a,
    {
        assert(v@.subrange(a as int, b as int).drop_last() == v@.subrange(a as int, b - 1));
        b -= 1;
    }
    (a, b)
}

/// `str::trim` on characters.
pub fn trim_chars(v: &Vec<char>) -> (r: Vec<char>)
    ensures
        r@ == trim(v@),
{
    let (a, b) = trim_bounds(v);
    chars_range(v, a, b)
}

/// `str::trim`, as an owned string.
pub fn trim_str(s: &str) -> (r: String)
    ensures
        r@ == trim(s@),
{
    let v = chars_of(s);
    let (a, b) = trim_bounds(&v);
    string_of_range(&v, a, b)
}

/// `s` is empty or white space alone.
pub fn is_blank(s: &str) -> (b: bool)
    ensures
        b == (trim(s@).len() == 0),
{
    let v = chars_of(s);
    let (a, b) = trim_bounds(&v);
    a == b
}

/// Whether `p` occurs in `v` at `i`.
pub fn chars_occur_at(v: &Vec<char>, p: &Vec<char>, i: usize) -> (b: bool)
    ensures
        b == occurs_at(v@, p@, i as int),
{
    if p.len() > v.len() || i > v.len() - p.len() {
        return false;
    }
    let mut k: usize = 0;
    while k < p.len()
        invariant
            i + p.len() <= v.len(),
            k <= p.len(),
            forall|j: int| 0 <= j < k ==> v@[i + j] == p@[j],
        decreases p.len() - k,
    {
        if v[i + k] != p[k] {
            assert(v@.subrange(i as int, i + p.len())[k as int] != p@[k as int]);
            return false;
        }
        k += 1;
    }
    assert(v@.subrange(i as int, i + p.len()) =~= p@);
    true
}

/// `str::starts_with` on characters.
pub fn chars_start_with(v: &Vec<char>, p: &Vec<char>) -> (b: bool)
    ensures
        b == starts_with(v@, p@),
{
    chars_occur_at(v, p, 0)
}

/// `str::ends_with` on characters.
pub fn chars_end_with(v: &Vec<char>, p: &Vec<char>) -> (b: bool)
    ensures
        b == ends_with(v@, p@),
{
    if p.len() > v.len() {
        false
    } else {
        chars_occur_at(v, p, v.len() - p.len())
    }
}

/// `str::contains` on characters.
pub fn chars_contain(v: &Vec<char>, p: &Vec<char>) -> (b: bool)
    ensures
        b == contains(v@, p@),
{
    if p.len() > v.len() {
        return false;
    }
    if p.len() == 0 {
        assert(v@.subrange(0, 0) =~= p@);
        assert(occurs_at(v@, p@, 0));
        return true;
    }
    let end = v.len() - p.len() + 1;
    let mut i: usize = 0;
    while i < end
        invariant
            end == v.len() - p.len() + 1,
            0 < p.len() <= v.len(),
            i <= end,
            forall|j: int| 0 <= j < i ==> !occurs_at(v@, p@, j),
        decreases end - i,
    {
        if chars_occur_at(v, p, i) {
            return true;
        }
        i += 1;
    }
    false
}

/// `str::contains` with a string pattern.
pub fn str_contains(s: &str, p: &str) -> (b: bool)
    ensures
        b == contains(s@, p@),
{
    chars_contain(&chars_of(s), &chars_of(p))
}

/// `str::starts_with` with a string pattern.
pub fn str_starts_with(s: &str, p: &str) -> (b: bool)
    ensures
        b == starts_with(s@, p@),
{
    chars_start_with(&chars_of(s), &chars_of(p))
}

/// `str::ends_with` with a string pattern.
pub fn str_ends_with(s: &str, p: &str) -> (b: bool)
    ensures
        b == ends_with(s@, p@),
{
    chars_end_with(&chars_of(s), &chars_of(p))
}


/// The position of the first `c` in `s`, or `s.len()` where there is none.
pub open spec fn index_of(s: Seq<char>, c: char) -> nat
    decreases s.len(),
{
    if s.len() == 0 {
        0
    } else if s[0] == c {
        0
    } else {
        1 + index_of(s.drop_first(), c)
    }
}

pub proof fn lemma_index_of(s: Seq<char>, c: char, k: int)
    requires
        0 <= k <= s.len(),
        forall|j: int| 0 <= j < k ==> s[j] != c,
        k == s.len() || s[k] == c,
    ensures
        index_of(s, c) == k,
    decreases k,
{
    if k > 0 {
        lemma_index_of(s.drop_first(), c, k - 1);
    }
}

pub proof fn lemma_index_of_bound(s: Seq<char>, c: char)
    ensures
        index_of(s, c) <= s.len(),
        index_of(s, c) < s.len() ==> s[index_of(s, c) as int] == c,
        forall|j: int| 0 <= j < index_of(s, c) ==> s[j] != c,
    decreases s.len(),
{
    if s.len() > 0 && s[0] != c {
        lemma_index_of_bound(s.drop_first(), c);
        assert forall|j: int| 0 <= j < index_of(s, c) implies s[j] != c by {
            if j > 0 {
                assert(s[j] == s.drop_first()[j - 1]);
            }
        }
    }
}

/// `l` without one trailing carriage return.
pub open spec fn strip_cr(l: Seq<char>) -> Seq<char> {
    if l.len() > 0 && l.last() == '\r' {
        l.drop_last()
    } else {
        l
    }
}

/// The lines of `s` as `str::lines` yields them: split after each `'\n'`,
/// with the `'\n'` and one `'\r'` before it left out; a final line ending
/// yields no empty line after it.
pub open spec fn lines(s: Seq<char>) -> Seq<Seq<char>>
    decreases s.len(),
{
    if s.len() == 0 {
        seq![]
    } else {
        let k = index_of(s, '\n');
        if k >= s.len() {
            seq![s]
        } else {
            seq![strip_cr(s.subrange(0, k as int))] + lines(s.subrange(k as int + 1, s.len() as int))
        }
    }
}

/// The characters of each vector.
pub open spec fn char_views(v: Seq<Vec<char>>) -> Seq<Seq<char>> {
    v.map_values(|x: Vec<char>| x@)
}

/// The characters of each string.
pub open spec fn string_views(v: Seq<String>) -> Seq<Seq<char>> {
    v.map_values(|x: String| x@)
}

/// `str::lines` on characters.
pub fn lines_of(v: &Vec<char>) -> (r: Vec<Vec<char>>)
    ensures
        char_views(r@) == lines(v@),
{
    let n = v.len();
    let mut out: Vec<Vec<char>> = Vec::new();
    let mut start: usize = 0;
    assert(v@.subrange(0, n as int) == v@);
    while start < n
        invariant
            start <= n == v.len(),
            lines(v@) == char_views(out@) + lines(v@.subrange(start as int, n as int)),
        decreases n - start,
    {
        let ghost rest = v@.subrange(start as int, n as int);
        let mut i = start;
        while i < n && v[i] != '\n'
            invariant
                start <= i <= n == v.len(),
                forall|j: int| start <= j < i ==> v@[j] != '\n',
            decreases n - i,
        {
            i += 1;
        }
        proof {
            lemma_index_of(rest, '\n', i - start);
        }
        let ghost old_out = out@;
        if i == n {
            let line = chars_range(v, start, n);
            out.push(line);
            assert(char_views(out@) == char_views(old_out).push(rest));
            assert(v@.subrange(n as int, n as int) =~= Seq::<char>::empty());
            start = n;
        } else {
            let mut line = chars_range(v, start, i);
            if line.len() > 0 && line[line.len() - 1] == '\r' {
                line.pop();
            }
            out.push(line);
            assert(rest.subrange(0, i - start) == v@.subrange(start as int, i as int));
            assert(rest.subrange(i - start + 1, rest.len() as int) == v@.subrange(i + 1, n as int));
            assert(char_views(out@) == char_views(old_out).push(
                strip_cr(v@.subrange(start as int, i as int)),
            ));
            start = i + 1;
        }
    }
    assert(lines(v@.subrange(n as int, n as int)) == Seq::<Seq<char>>::empty());
    out
}

/// The items of `list` with `sep` between each two (`[String]::join`).
pub open spec fn join(list: Seq<Seq<char>>, sep: Seq<char>) -> Seq<char>
    decreases list.len(),
{
    if list.len() == 0 {
        seq![]
    } else if list.len() == 1 {
        list[0]
    } else {
        join(list.drop_last(), sep) + sep + list.last()
    }
}

/// `[String]::join` on character vectors.
pub fn join_chars(list: &Vec<Vec<char>>, sep: &Vec<char>) -> (r: Vec<char>)
    ensures
        r@ == join(char_views(list@), sep@),
{
    let mut r: Vec<char> = Vec::new();
    let mut i: usize = 0;
    while i < list.len()
        invariant
            i <= list.len(),
            r@ == join(char_views(list@).take(i as int), sep@),
        decreases list.len() - i,
    {
        if i > 0 {
            append_chars(&mut r, sep);
        }
        append_chars(&mut r, &list[i]);
        assert(char_views(list@).take(i + 1).drop_last() == char_views(list@).take(i as int));
        i += 1;
    }
    assert(char_views(list@).take(list.len() as int) == char_views(list@));
    r
}

/// `[String]::join`.
pub fn join_strings(list: &[String], sep: &str) -> (r: String)
    ensures
        r@ == join(string_views(list@), sep@),
{
    let mut r = String::new();
    let mut i: usize = 0;
    while i < list.len()
        invariant
            i <= list.len(),
            r@ == join(string_views(list@).take(i as int), sep@),
        decreases list.len() - i,
    {
        if i > 0 {
            r.append(sep);
        }
        r.append(list[i].as_str());
        assert(string_views(list@).take(i + 1).drop_last() == string_views(list@).take(i as int));
        i += 1;
    }
    assert(string_views(list@).take(list.len() as int) == string_views(list@));
    r
}

/// Appends the characters of `w` to `v`.
pub fn append_chars(v: &mut Vec<char>, w: &Vec<char>)
    ensures
        final(v)@ == old(v)@ + w@,
{
    let mut i: usize = 0;
    while i < w.len()
        invariant
            i <= w.len(),
            v@ == old(v)@ + w@.take(i as int),
        decreases w.len() - i,
    {
        v.push(w[i]);
        assert(w@.take(i + 1) == w@.take(i as int).push(w@[i as int]));
        i += 1;
    }
    assert(w@.take(w.len() as int) == w@);
}

/// `s` with every occurrence of `pat` taken out, left to right and without
/// overlap (`str::replace(pat, "")`).
pub open spec fn remove_all(s: Seq<char>, pat: Seq<char>) -> Seq<char>
    decreases s.len(),
{
    if s.len() == 0 {
        s
    } else if pat.len() > 0 && occurs_at(s, pat, 0) {
        remove_all(s.subrange(pat.len() as int, s.len() as int), pat)
    } else {
        seq![s[0]] + remove_all(s.drop_first(), pat)
    }
}

/// `str::replace(pat, "")` on characters.
pub fn remove_all_chars(v: &Vec<char>, pat: &Vec<char>) -> (r: Vec<char>)
    ensures
        r@ == remove_all(v@, pat@),
{
    let n = v.len();
    let mut r: Vec<char> = Vec::new();
    let mut i: usize = 0;
    assert(v@.subrange(0, n as int) == v@);
    while i < n
        invariant
            i <= n == v.len(),
            remove_all(v@, pat@) == r@ + remove_all(v@.subrange(i as int, n as int), pat@),
        decreases n - i,
    {
        let ghost rest = v@.subrange(i as int, n as int);
        if pat.len() > 0 && chars_occur_at(v, pat, i) {
            assert(rest.subrange(0, pat@.len() as int) == v@.subrange(i as int, i + pat@.len()));
            assert(rest.subrange(pat@.len() as int, rest.len() as int) == v@.subrange(
                i + pat@.len(),
                n as int,
            ));
            i += pat.len();
        } else {
            assert(!(pat@.len() > 0 && occurs_at(rest, pat@, 0))) by {
                if pat@.len() > 0 && occurs_at(rest, pat@, 0) {
                    assert(v@.subrange(i as int, i + pat@.len()) == rest.subrange(0, pat@.len() as int));
                }
            }
            assert(rest.drop_first() == v@.subrange(i + 1, n as int));
            r.push(v[i]);
            i += 1;
        }
    }
    r
}

/// `s` without its trailing `c`s (`str::trim_end_matches` with a `char`).
pub open spec fn trim_end_char(s: Seq<char>, c: char) -> Seq<char>
    decreases s.len(),
{
    if s.len() > 0 && s.last() == c {
        trim_end_char(s.drop_last(), c)
    } else {
        s
    }
}

/// `str::trim_end_matches` with a `char`, as an owned string.
pub fn trim_end_char_str(s: &str, c: char) -> (r: String)
    ensures
        r@ == trim_end_char(s@, c),
{
    let v = chars_of(s);
    let mut b = v.len();
    assert(v@.subrange(0, b as int) == v@);
    while b > 0 && v[b - 1] == c
        invariant
            b <= v.len(),
            trim_end_char(v@, c) == trim_end_char(v@.subrange(0, b as int), c),
        decreases b,
    {
        assert(v@.subrange(0, b as int).drop_last() == v@.subrange(0, b - 1));
        b -= 1;
    }
    string_of_range(&v, 0, b)
}

/// The lowercase form of `text`, as `str::to_lowercase` computes it.
pub uninterp spec fn lowercase(text: Seq<char>) -> Seq<char>;

/// Calls `str::to_lowercase`, whose result depends on `text` alone; what
/// Unicode's case mapping gives is not stated here.
#[verifier::external_body]
pub(crate) fn to_lowercase(text: &str) -> (r: String)
    ensures
        r@ == lowercase(text@),
{
    text.to_lowercase()
}

/// `c` with an ASCII capital letter made small (`char::to_ascii_lowercase`).
pub open spec fn ascii_lower(c: char) -> char {
    if 'A' <= c <= 'Z' {
        ((c as u32) + 32) as char
    } else {
        c
    }
}

/// `a` and `b` are equal up to the case of ASCII letters
/// (`str::eq_ignore_ascii_case`).
pub open spec fn eq_ignore_ascii_case(a: Seq<char>, b: Seq<char>) -> bool {
    a.len() == b.len() && forall|i: int| 0 <= i < a.len() ==> ascii_lower(a[i]) == ascii_lower(b[i])
}

fn ascii_lower_char(c: char) -> (r: char)
    ensures
        r == ascii_lower(c),
{
    if 'A' <= c && c <= 'Z' {
        ((c as u8) + 32) as char
    } else {
        c
    }
}

/// `str::eq_ignore_ascii_case`.
pub fn str_eq_ignore_ascii_case(a: &str, b: &str) -> (r: bool)
    ensures
        r == eq_ignore_ascii_case(a@, b@),
{
    let va = chars_of(a);
    let vb = chars_of(b);
    if va.len() != vb.len() {
        return false;
    }
    let mut i: usize = 0;
    while i < va.len()
        invariant
            i <= va.len() == vb.len(),
            va@ == a@,
            vb@ == b@,
            forall|j: int| 0 <= j < i ==> ascii_lower(va@[j]) == ascii_lower(vb@[j]),
        decreases va.len() - i,
    {
        if ascii_lower_char(va[i]) != ascii_lower_char(vb[i]) {
            assert(ascii_lower(a@[i as int]) != ascii_lower(b@[i as int]));
            return false;
        }
        i += 1;
    }
    true
}

/// The ASCII digit for `d < 10`.
pub open spec fn digit_char(d: nat) -> char {
    (d + 48) as char
}

/// The decimal form of `n`, without sign or leading zeros (`u64::to_string`).
pub open spec fn decimal(n: nat) -> Seq<char>
    decreases n,
{
    if n < 10 {
        seq![digit_char(n)]
    } else {
        decimal(n / 10).push(digit_char(n % 10))
    }
}

/// The decimal form of `n`.
pub fn decimal_string(n: u64) -> (s: String)
    ensures
        s@ == decimal(n as nat),
{
    let mut m = n;
    let mut tail: Vec<char> = Vec::new();
    while m >= 10
        invariant
            decimal(n as nat) == decimal(m as nat) + tail@,
        decreases m,
    {
        let d = m % 10;
        let c = ((d as u8) + 48) as char;
        let ghost old_tail = tail@;
        tail.insert(0, c);
        assert(decimal(m as nat) == decimal((m / 10) as nat).push(c));
        assert(decimal((m / 10) as nat).push(c) + old_tail =~= decimal((m / 10) as nat) + tail@);
        m = m / 10;
    }
    let mut out: Vec<char> = Vec::new();
    out.push(((m as u8) + 48) as char);
    append_chars(&mut out, &tail);
    string_of(&out)
}

/// An ASCII decimal digit.
pub open spec fn is_digit(c: char) -> bool {
    '0' <= c <= '9'
}

/// The number that the decimal digits `s` write.
pub open spec fn digits_value(s: Seq<char>) -> nat
    decreases s.len(),
{
    if s.len() == 0 {
        0
    } else {
        digits_value(s.drop_last()) * 10 + ((s.last() as u32) - 48) as nat
    }
}

/// The digits of a `u64` literal once an optional leading `'+'` is taken off.
pub open spec fn unsigned_digits(s: Seq<char>) -> Seq<char> {
    if s.len() > 0 && s[0] == '+' {
        s.drop_first()
    } else {
        s
    }
}

/// What `s.parse::<u64>().ok()` gives: an optional `'+'`, then one or more
/// ASCII digits whose value fits in a `u64`.
pub open spec fn parse_u64(s: Seq<char>) -> Option<u64> {
    let d = unsigned_digits(s);
    if d.len() == 0 || !(forall|i: int| 0 <= i < d.len() ==> is_digit(d[i])) {
        None
    } else if digits_value(d) > u64::MAX {
        None
    } else {
        Some(digits_value(d) as u64)
    }
}

proof fn lemma_digits_value_prefix(s: Seq<char>, k: int)
    requires
        0 <= k <= s.len(),
        forall|i: int| 0 <= i < s.len() ==> is_digit(s[i]),
    ensures
        digits_value(s.take(k)) <= digits_value(s),
    decreases s.len(),
{
    if k < s.len() {
        assert(s.drop_last().take(k) == s.take(k));
        lemma_digits_value_prefix(s.drop_last(), k);
    } else {
        assert(s.take(k) == s);
    }
}

/// `s.parse::<u64>().ok()`.
pub fn str_parse_u64(s: &str) -> (r: Option<u64>)
    ensures
        r == parse_u64(s@),
{
    let v = chars_of(s);
    let start: usize = if v.len() > 0 && v[0] == '+' { 1 } else { 0 };
    let ghost d = unsigned_digits(s@);
    assert(d == v@.subrange(start as int, v.len() as int));
    if start == v.len() {
        return None;
    }
    let mut i = start;
    while i < v.len()
        invariant
            start <= i <= v.len(),
            v@ == s@,
            d == v@.subrange(start as int, v.len() as int),
            d == unsigned_digits(s@),
            forall|j: int| start <= j < i ==> is_digit(v@[j]),
        decreases v.len() - i,
    {
        if !('0' <= v[i] && v[i] <= '9') {
            assert(!is_digit(d[i - start]));
            return None;
        }
        i += 1;
    }
    assert forall|j: int| 0 <= j < d.len() implies is_digit(d[j]) by {
        assert(d[j] == v@[start + j]);
    }
    let mut acc: u64 = 0;
    let mut k = start;
    assert(d.take(0) =~= Seq::<char>::empty());
    while k < v.len()
        invariant
            start <= k <= v.len(),
            v@ == s@,
            d == v@.subrange(start as int, v.len() as int),
            d == unsigned_digits(s@),
            forall|j: int| 0 <= j < d.len() ==> is_digit(d[j]),
            acc as nat == digits_value(d.take(k - start)),
        decreases v.len() - k,
    {
        assert(is_digit(d[k - start]) && d[k - start] == v@[k as int]);
        let dig = ((v[k] as u32) - 48) as u64;
        assert(d.take(k - start + 1).drop_last() == d.take(k - start));
        assert(d.take(k - start + 1).last() == v@[k as int]);
        match acc.checked_mul(10) {
            Some(t) => match t.checked_add(dig) {
                Some(u) => {
                    acc = u;
                },
                None => {
                    proof {
                        lemma_digits_value_prefix(d, k - start + 1);
                    }
                    return None;
                },
            },
            None => {
                proof {
                    lemma_digits_value_prefix(d, k - start + 1);
                }
                return None;
            },
        }
        k += 1;
    }
    assert(d.take(d.len() as int) == d);
    Some(acc)
}

/// Whether `a` and `b` hold the same characters.
pub fn chars_equal(a: &Vec<char>, b: &Vec<char>) -> (r: bool)
    ensures
        r == (a@ == b@),
{
    if a.len() != b.len() {
        return false;
    }
    let mut i: usize = 0;
    while i < a.len()
        invariant
            i <= a.len() == b.len(),
            forall|j: int| 0 <= j < i ==> a@[j] == b@[j],
        decreases a.len() - i,
    {
        if a[i] != b[i] {
            return false;
        }
        i += 1;
    }
    assert(a@ =~= b@);
    true
}

/// The lines of `s` (`str::lines`), as owned strings.
pub fn lines_strings(s: &str) -> (r: Vec<String>)
    ensures
        string_views(r@) == lines(s@),
{
    let ls = lines_of(&chars_of(s));
    let mut r: Vec<String> = Vec::new();
    let mut i: usize = 0;
    while i < ls.len()
        invariant
            i <= ls.len(),
            string_views(r@) == char_views(ls@).take(i as int),
        decreases ls.len() - i,
    {
        r.push(string_of(&ls[i]));
        assert(char_views(ls@).take(i + 1) == char_views(ls@).take(i as int).push(ls@[i as int]@));
        assert(string_views(r@) =~= char_views(ls@).take(i + 1));
        i += 1;
    }
    assert(char_views(ls@).take(ls.len() as int) == char_views(ls@));
    r
}

/// What `String::from_utf8_lossy` makes of `bytes`.
pub uninterp spec fn utf8_lossy(bytes: Seq<u8>) -> Seq<char>;

/// Calls `String::from_utf8_lossy`: its result depends on `bytes` alone,
/// and is the decoded text where `bytes` is valid UTF-8. What replaces
/// invalid sequences is not stated here.
#[verifier::external_body]
pub(crate) fn from_utf8_lossy(bytes: &[u8]) -> (r: String)
    ensures
        r@ == utf8_lossy(bytes@),
        vstd::utf8::valid_utf8(bytes@) ==> r@ == vstd::utf8::decode_utf8(bytes@),
{
    String::from_utf8_lossy(bytes).into_owned()
}

/// Whether `a` and `b` are the same text.
pub fn str_equal(a: &str, b: &str) -> (r: bool)
    ensures
        r == (a@ == b@),
{
    chars_equal(&chars_of(a), &chars_of(b))
}

/// `c` does not occur in `s`.
pub open spec fn lacks(s: Seq<char>, c: char) -> bool {
    forall|i: int| 0 <= i < s.len() ==> s[i] != c
}

/// What `trim_end` keeps is a prefix, and it does not end in white space.
pub proof fn lemma_trim_end(s: Seq<char>)
    ensures
        trim_end(s).len() <= s.len(),
        trim_end(s) == s.subrange(0, trim_end(s).len() as int),
        trim_end(s).len() > 0 ==> !is_ws(trim_end(s).last()),
        s.len() > 0 && !is_ws(s[0]) ==> trim_end(s).len() > 0,
    decreases s.len(),
{
    if s.len() > 0 && is_ws(s.last()) {
        lemma_trim_end(s.drop_last());
        assert(s.drop_last().subrange(0, trim_end(s).len() as int) == s.subrange(
            0,
            trim_end(s).len() as int,
        ));
        if s.len() > 1 {
            assert(s.drop_last()[0] == s[0]);
        }
    } else {
        assert(s.subrange(0, s.len() as int) == s);
    }
}

/// What `trim_start` keeps is a suffix, and it does not start with white
/// space.
pub proof fn lemma_trim_start(s: Seq<char>)
    ensures
        trim_start(s).len() <= s.len(),
        trim_start(s) == s.subrange(s.len() - trim_start(s).len(), s.len() as int),
        trim_start(s).len() > 0 ==> !is_ws(trim_start(s)[0]),
    decreases s.len(),
{
    if s.len() > 0 && is_ws(s[0]) {
        lemma_trim_start(s.drop_first());
        let t = trim_start(s);
        assert(s.drop_first().subrange(s.len() - 1 - t.len(), s.len() - 1) == s.subrange(
            s.len() - t.len(),
            s.len() as int,
        ));
    } else {
        assert(s.subrange(0, s.len() as int) == s);
    }
}

/// A trimmed text that is not empty neither starts nor ends with white
/// space, and holds only characters of the text.
pub proof fn lemma_trim(s: Seq<char>, c: char)
    ensures
        trim(s).len() > 0 ==> !is_ws(trim(s)[0]) && !is_ws(trim(s).last()),
        lacks(s, c) ==> lacks(trim(s), c),
        s.len() > 0 && !is_ws(s[0]) ==> trim(s).len() > 0,
{
    let a = trim_start(s);
    lemma_trim_start(s);
    lemma_trim_end(a);
    let t = trim_end(a);
    if t.len() > 0 {
        assert(t[0] == a[0]);
    }
    if lacks(s, c) {
        assert forall|i: int| 0 <= i < t.len() implies t[i] != c by {
            assert(t[i] == a[i]);
            assert(a[i] == s[s.len() - a.len() + i]);
        }
    }
    if s.len() > 0 && !is_ws(s[0]) {
        assert(a == s);
    }
}

/// Taking out a pattern brings in no character.
pub proof fn lemma_remove_all_lacks(s: Seq<char>, pat: Seq<char>, c: char)
    requires
        lacks(s, c),
    ensures
        lacks(remove_all(s, pat), c),
    decreases s.len(),
{
    if s.len() > 0 {
        if pat.len() > 0 && occurs_at(s, pat, 0) {
            let r = s.subrange(pat.len() as int, s.len() as int);
            assert forall|i: int| 0 <= i < r.len() implies r[i] != c by {
                assert(r[i] == s[pat.len() + i]);
            }
            lemma_remove_all_lacks(r, pat, c);
        } else {
            let r = s.drop_first();
            assert forall|i: int| 0 <= i < r.len() implies r[i] != c by {
                assert(r[i] == s[i + 1]);
            }
            lemma_remove_all_lacks(r, pat, c);
            let x = remove_all(s, pat);
            assert forall|i: int| 0 <= i < x.len() implies x[i] != c by {
                if i > 0 {
                    assert(x[i] == remove_all(r, pat)[i - 1]);
                }
            }
        }
    }
}

/// No line holds a line feed.
pub proof fn lemma_lines_lack_newline(s: Seq<char>)
    ensures
        forall|i: int| 0 <= i < lines(s).len() ==> lacks(#[trigger] lines(s)[i], '\n'),
    decreases s.len(),
{
    if s.len() > 0 {
        lemma_index_of_bound(s, '\n');
        let k = index_of(s, '\n') as int;
        if k < s.len() {
            let rest = s.subrange(k + 1, s.len() as int);
            lemma_lines_lack_newline(rest);
            let first = strip_cr(s.subrange(0, k));
            assert forall|i: int| 0 <= i < lines(s).len() implies lacks(#[trigger] lines(s)[i], '\n') by {
                if i == 0 {
                    assert(lines(s)[0] == first);
                    assert forall|j: int| 0 <= j < first.len() implies first[j] != '\n' by {
                        assert(first[j] == s[j]);
                    }
                } else {
                    assert(lines(s)[i] == lines(rest)[i - 1]);
                }
            }
        } else {
            assert(lines(s) == seq![s]);
            assert(lines(s)[0] == s);
        }
    }
}

/// A join of two or more items starts with the first item and a separator.
pub proof fn lemma_join_front_items(list: Seq<Seq<char>>, sep: Seq<char>)
    requires
        list.len() >= 2,
    ensures
        join(list, sep) == list[0] + sep + join(list.drop_first(), sep),
    decreases list.len(),
{
    if list.len() == 2 {
        assert(list.drop_last().len() == 1);
        assert(list.drop_first().len() == 1);
        assert(join(list.drop_first(), sep) == list[1]);
        assert(join(list.drop_last(), sep) == list[0]);
        assert(list.last() == list[1]);
    } else {
        let init = list.drop_last();
        lemma_join_front_items(init, sep);
        assert(init.drop_first() == list.drop_first().drop_last());
        assert(init[0] == list[0]);
        assert(list.drop_first().last() == list.last());
        let a = join(init.drop_first(), sep);
        assert(join(list.drop_first(), sep) == a + sep + list.last());
        assert(join(list, sep) == join(init, sep) + sep + list.last());
        assert(join(init, sep) == init[0] + sep + a);
        assert(list[0] + sep + (a + sep + list.last()) =~= (list[0] + sep + a) + sep + list.last());
    }
}

/// Lines that are not empty, hold no line feed and do not end with a
/// carriage return come back from their join.
pub proof fn lemma_lines_of_join(list: Seq<Seq<char>>)
    requires
        forall|i: int|
            0 <= i < list.len() ==> (#[trigger] list[i]).len() > 0 && lacks(list[i], '\n')
                && list[i].last() != '\r',
    ensures
        lines(join(list, "\n"@)) == list,
    decreases list.len(),
{
    reveal_strlit("\n");
    if list.len() == 0 {
        assert(lines(join(list, "\n"@)) =~= list);
    } else if list.len() == 1 {
        let l = list[0];
        assert(list[0].len() > 0 && lacks(list[0], '\n'));
        lemma_index_of(l, '\n', l.len() as int);
        assert(lines(l) == seq![l]);
        assert(lines(join(list, "\n"@)) =~= list);
    } else {
        let l = list[0];
        let rest = list.drop_first();
        assert(list[0].len() > 0 && lacks(list[0], '\n') && list[0].last() != '\r');
        assert forall|i: int|
            0 <= i < rest.len() implies (#[trigger] rest[i]).len() > 0 && lacks(rest[i], '\n')
            && rest[i].last() != '\r' by {
            assert(rest[i] == list[i + 1]);
        }
        lemma_lines_of_join(rest);
        lemma_join_front_items(list, "\n"@);
        let j = join(list, "\n"@);
        let jr = join(rest, "\n"@);
        assert(j == l + seq!['\n'] + jr);
        assert forall|i: int| 0 <= i < l.len() implies j[i] != '\n' by {
            assert(j[i] == l[i]);
        }
        assert(j[l.len() as int] == '\n');
        lemma_index_of(j, '\n', l.len() as int);
        assert(j.subrange(0, l.len() as int) == l);
        assert(j.subrange(l.len() as int + 1, j.len() as int) == jr);
        assert(strip_cr(l) == l);
        assert(lines(j) =~= seq![l] + rest);
    }
}

/// The pieces of `s` between the `c`s in it (`str::split` with a `char`):
/// one more piece than there are `c`s.
pub open spec fn split_on(s: Seq<char>, c: char) -> Seq<Seq<char>>
    decreases s.len(),
{
    let k = index_of(s, c);
    if k >= s.len() {
        seq![s]
    } else {
        seq![s.subrange(0, k as int)] + split_on(s.subrange(k as int + 1, s.len() as int), c)
    }
}

/// Items without a line feed come back from their join when it is split on
/// line feeds.
pub proof fn lemma_split_of_join(list: Seq<Seq<char>>)
    requires
        list.len() >= 1,
        forall|i: int| 0 <= i < list.len() ==> lacks(#[trigger] list[i], '\n'),
    ensures
        split_on(join(list, "\n"@), '\n') == list,
    decreases list.len(),
{
    reveal_strlit("\n");
    if list.len() == 1 {
        let l = list[0];
        assert(lacks(list[0], '\n'));
        lemma_index_of(l, '\n', l.len() as int);
        assert(split_on(join(list, "\n"@), '\n') =~= list);
    } else {
        let l = list[0];
        let rest = list.drop_first();
        assert(lacks(list[0], '\n'));
        assert forall|i: int| 0 <= i < rest.len() implies lacks(#[trigger] rest[i], '\n') by {
            assert(rest[i] == list[i + 1]);
        }
        lemma_split_of_join(rest);
        lemma_join_front_items(list, "\n"@);
        let j = join(list, "\n"@);
        let jr = join(rest, "\n"@);
        assert(j == l + seq!['\n'] + jr);
        assert forall|i: int| 0 <= i < l.len() implies j[i] != '\n' by {
            assert(j[i] == l[i]);
        }
        assert(j[l.len() as int] == '\n');
        lemma_index_of(j, '\n', l.len() as int);
        assert(j.subrange(0, l.len() as int) == l);
        assert(j.subrange(l.len() as int + 1, j.len() as int) == jr);
        assert(split_on(j, '\n') =~= seq![l] + rest);
    }
}

/// A piece of a text that lacks a pattern lacks it too.
pub proof fn lemma_subrange_lacks_pattern(s: Seq<char>, p: Seq<char>, a: int, b: int)
    requires
        !contains(s, p),
        0 <= a <= b <= s.len(),
    ensures
        !contains(s.subrange(a, b), p),
{
    let sub = s.subrange(a, b);
    if contains(sub, p) {
        let i = choose|i: int| occurs_at(sub, p, i);
        assert(s.subrange(a + i, a + i + p.len()) =~= sub.subrange(i, i + p.len()));
        assert(occurs_at(s, p, a + i));
    }
}

/// Trimming brings in no occurrence of a pattern.
pub proof fn lemma_trim_lacks_pattern(s: Seq<char>, p: Seq<char>)
    requires
        !contains(s, p),
    ensures
        !contains(trim(s), p),
{
    let a = trim_start(s);
    lemma_trim_start(s);
    lemma_trim_end(a);
    let t = trim_end(a);
    let start = s.len() - a.len();
    assert(t =~= s.subrange(start, start + t.len()));
    lemma_subrange_lacks_pattern(s, p, start, start + t.len());
}

/// Trimming twice is trimming once.
pub proof fn lemma_trim_idempotent(s: Seq<char>)
    ensures
        trim(trim(s)) == trim(s),
{
    let t = trim(s);
    lemma_trim(s, '\n');
    if t.len() == 0 {
        assert(trim_start(t) == t);
        assert(trim_end(t) == t);
    } else {
        assert(trim_start(t) == t);
        assert(trim_end(t) == t);
    }
}

/// Taking out a pattern that does not occur changes nothing.
pub proof fn lemma_remove_absent(s: Seq<char>, p: Seq<char>)
    requires
        !contains(s, p),
    ensures
        remove_all(s, p) == s,
    decreases s.len(),
{
    if s.len() > 0 {
        assert(!occurs_at(s, p, 0));
        lemma_subrange_lacks_pattern(s, p, 1, s.len() as int);
        assert(s.subrange(1, s.len() as int) == s.drop_first());
        lemma_remove_absent(s.drop_first(), p);
        assert(seq![s[0]] + s.drop_first() =~= s);
    }
}

/// The lines of a text that lacks a pattern lack it too.
pub proof fn lemma_lines_lack_pattern(s: Seq<char>, p: Seq<char>)
    requires
        !contains(s, p),
    ensures
        forall|i: int| 0 <= i < lines(s).len() ==> !contains(#[trigger] lines(s)[i], p),
    decreases s.len(),
{
    if s.len() > 0 {
        lemma_index_of_bound(s, '\n');
        let k = index_of(s, '\n') as int;
        if k < s.len() {
            let rest = s.subrange(k + 1, s.len() as int);
            lemma_subrange_lacks_pattern(s, p, k + 1, s.len() as int);
            lemma_lines_lack_pattern(rest, p);
            let head = s.subrange(0, k);
            let first = strip_cr(head);
            if head.len() > 0 && head.last() == '\r' {
                assert(first == s.subrange(0, k - 1));
                lemma_subrange_lacks_pattern(s, p, 0, k - 1);
            } else {
                lemma_subrange_lacks_pattern(s, p, 0, k);
            }
            assert forall|i: int| 0 <= i < lines(s).len() implies !contains(#[trigger] lines(s)[i], p) by {
                if i == 0 {
                    assert(lines(s)[0] == first);
                } else {
                    assert(lines(s)[i] == lines(rest)[i - 1]);
                }
            }
        } else {
            assert(lines(s)[0] == s);
        }
    }
}

} // verus!
