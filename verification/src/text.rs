//! Text helpers shared by the rule matcher, the dump sanitizer and the event
//! parser: character sequences of strings, Unicode `trim`, substring search,
//! lower-casing and byte-length truncation on character boundaries.
use vstd::prelude::*;
use vstd::string::StringSliceAdditionalSpecFns;
use vstd::utf8::*;

verus! {

broadcast use vstd::string::group_string_axioms;

/// The characters of `s`, in order.
pub fn chars_of(s: &str) -> (v: Vec<char>)
    ensures
        v@ == s@,
{
    let mut v: Vec<char> = Vec::new();
    for c in it: s.chars()
        invariant
            it.seq() == s@,
            v@ == it.seq().take(it.index()),
    {
        v.push(c);
    }
    v
}

/// `String::push`: appends one character.
#[verifier::external_body]
pub(crate) fn push_char(s: &mut String, c: char)
    ensures
        final(s)@ == old(s)@.push(c),
{
    s.push(c);
}

/// A `String` holding exactly the characters `cs[from..to]`.
pub fn string_from_range(cs: &[char], from: usize, to: usize) -> (s: String)
    requires
        from <= to <= cs@.len(),
    ensures
        s@ == cs@.subrange(from as int, to as int),
{
    let mut s = String::new();
    let mut i: usize = from;
    while i < to
        invariant
            from <= i <= to <= cs@.len(),
            s@ == cs@.subrange(from as int, i as int),
        decreases to - i,
    {
        push_char(&mut s, cs[i]);
        assert(cs@.subrange(from as int, i + 1) == cs@.subrange(from as int, i as int).push(
            cs@[i as int],
        ));
        i = i + 1;
    }
    s
}

/// A `String` holding exactly the characters `cs`.
pub fn string_from_chars(cs: &[char]) -> (s: String)
    ensures
        s@ == cs@,
{
    let s = string_from_range(cs, 0, cs.len());
    assert(cs@.subrange(0, cs@.len() as int) == cs@);
    s
}

/// Whether `a` and `b` hold the same characters.
pub fn same_text(a: &str, b: &str) -> (r: bool)
    ensures
        r == (a@ == b@),
{
    let x = chars_of(a);
    let y = chars_of(b);
    if x.len() != y.len() {
        assert(x@.len() != y@.len());
        return false;
    }
    let n = x.len();
    let mut i: usize = 0;
    while i < n
        invariant
            x@ == a@,
            y@ == b@,
            n == x@.len(),
            n == y@.len(),
            i <= n,
            forall|k: int| 0 <= k < i ==> x@[k] == y@[k],
        decreases n - i,
    {
        if x[i] != y[i] {
            assert(x@[i as int] != y@[i as int]);
            return false;
        }
        i = i + 1;
    }
    assert(x@ =~= y@);
    true
}

/// The Unicode `White_Space` property, which `char::is_whitespace` tests.
pub open spec fn is_white_space(c: char) -> bool {
    let u = c as u32;
    ||| 0x09 <= u <= 0x0D
    ||| u == 0x20
    ||| u == 0x85
    ||| u == 0xA0
    ||| u == 0x1680
    ||| 0x2000 <= u <= 0x200A
    ||| u == 0x2028
    ||| u == 0x2029
    ||| u == 0x202F
    ||| u == 0x205F
    ||| u == 0x3000
}

/// Whether `c` is Unicode white space.
pub fn white_space(c: char) -> (r: bool)
    ensures
        r == is_white_space(c),
{
    let u = c as u32;
    (0x09 <= u && u <= 0x0D) || u == 0x20 || u == 0x85 || u == 0xA0 || u == 0x1680 || (0x2000
        <= u && u <= 0x200A) || u == 0x2028 || u == 0x2029 || u == 0x202F || u == 0x205F || u
        == 0x3000
}

/// `s` without its leading white space.
pub open spec fn trim_start_chars(s: Seq<char>) -> Seq<char>
    decreases s.len(),
{
    if s.len() > 0 && is_white_space(s[0]) {
        trim_start_chars(s.drop_first())
    } else {
        s
    }
}

/// `s` without its trailing white space.
pub open spec fn trim_end_chars(s: Seq<char>) -> Seq<char>
    decreases s.len(),
{
    if s.len() > 0 && is_white_space(s.last()) {
        trim_end_chars(s.drop_last())
    } else {
        s
    }
}

/// `s` without leading and trailing white space, as `str::trim` gives it.
#[verifier::opaque]
pub open spec fn trim_chars(s: Seq<char>) -> Seq<char> {
    trim_end_chars(trim_start_chars(s))
}

/// The bounds `(i, j)` such that `cs[i..j]` is `cs` trimmed.
pub fn trim_bounds(cs: &[char]) -> (r: (usize, usize))
    ensures
        r.0 <= r.1 <= cs@.len(),
        cs@.subrange(r.0 as int, r.1 as int) == trim_chars(cs@),
{
    reveal(trim_chars);
    let n = cs.len();
    let mut i: usize = 0;
    assert(cs@.subrange(0, n as int) == cs@);
    while i < n && white_space(cs[i])
        invariant
            n == cs@.len(),
            i <= n,
            trim_start_chars(cs@) == trim_start_chars(cs@.subrange(i as int, n as int)),
        decreases n - i,
    {
        assert(cs@.subrange(i as int, n as int).drop_first() == cs@.subrange(i + 1, n as int));
        i = i + 1;
    }
    assert(trim_start_chars(cs@) == cs@.subrange(i as int, n as int));
    let mut j: usize = n;
    while j > i && white_space(cs[j - 1])
        invariant
            n == cs@.len(),
            i <= j <= n,
            trim_chars(cs@) == trim_end_chars(cs@.subrange(i as int, j as int)),
        decreases j,
    {
        assert(cs@.subrange(i as int, j as int).drop_last() == cs@.subrange(i as int, j - 1));
        j = j - 1;
    }
    (i, j)
}

/// `str::trim`: `s` without leading and trailing Unicode white space.
pub fn trim(s: &str) -> (r: String)
    ensures
        r@ == trim_chars(s@),
{
    let cs = chars_of(s);
    let (i, j) = trim_bounds(cs.as_slice());
    string_from_range(cs.as_slice(), i, j)
}

/// `needle` occurs in `hay` starting at position `i`.
pub open spec fn occurs_at(hay: Seq<char>, needle: Seq<char>, i: int) -> bool {
    &&& 0 <= i
    &&& i + needle.len() <= hay.len()
    &&& hay.subrange(i, i + needle.len()) == needle
}

/// `needle` occurs somewhere in `hay`, as `str::contains` finds it.
pub open spec fn contains_chars(hay: Seq<char>, needle: Seq<char>) -> bool {
    exists|i: int| occurs_at(hay, needle, i)
}

/// Whether `needle` occurs in `hay` at position `i`.
fn matches_at(hay: &[char], needle: &[char], i: usize) -> (r: bool)
    requires
        i + needle@.len() <= hay@.len(),
    ensures
        r == occurs_at(hay@, needle@, i as int),
{
    let m = needle.len();
    let n = hay.len();
    let mut k: usize = 0;
    while k < m
        invariant
            m == needle@.len(),
            n == hay@.len(),
            i + m <= n,
            k <= m,
            forall|t: int| 0 <= t < k ==> hay@[i + t] == needle@[t],
        decreases m - k,
    {
        if hay[i + k] != needle[k] {
            assert(hay@.subrange(i as int, i + m)[k as int] != needle@[k as int]);
            return false;
        }
        k = k + 1;
    }
    assert(hay@.subrange(i as int, i + m) =~= needle@);
    true
}

/// Whether `needle` occurs in `hay`.
pub fn contains(hay: &[char], needle: &[char]) -> (r: bool)
    ensures
        r == contains_chars(hay@, needle@),
{
    let n = hay.len();
    let m = needle.len();
    if m > n {
        assert forall|i: int| !occurs_at(hay@, needle@, i) by {}
        return false;
    }
    let last = n - m;
    let mut i: usize = 0;
    loop
        invariant
            n == hay@.len(),
            m == needle@.len(),
            last == n - m,
            i <= last,
            forall|t: int| 0 <= t < i ==> !occurs_at(hay@, needle@, t),
        ensures
            forall|t: int| 0 <= t <= last ==> !occurs_at(hay@, needle@, t),
        decreases last - i,
    {
        if matches_at(hay, needle, i) {
            return true;
        }
        if i == last {
            break;
        }
        i = i + 1;
    }
    assert forall|t: int| !occurs_at(hay@, needle@, t) by {
        if 0 <= t <= last {
        }
    }
    false
}

/// What `str::to_lowercase` gives for a string with these characters.
pub uninterp spec fn unicode_lowercase(s: Seq<char>) -> Seq<char>;

/// `str::to_lowercase`: the full Unicode lower-case mapping of `s`.
#[verifier::external_body]
pub(crate) fn to_lowercase(s: &str) -> (r: String)
    ensures
        r@ == unicode_lowercase(s@),
{
    s.to_lowercase()
}

/// The ASCII upper-case letters mapped to lower case, every other character
/// kept, as `str::to_ascii_lowercase` does.
pub open spec fn ascii_lowercase_char(c: char) -> char {
    if 'A' <= c <= 'Z' {
        ((c as u32) + 32) as char
    } else {
        c
    }
}

pub open spec fn ascii_lowercase_chars(s: Seq<char>) -> Seq<char> {
    s.map_values(|c: char| ascii_lowercase_char(c))
}

/// The largest character boundary of `bytes` at or below `n`.
pub open spec fn boundary_at_most(bytes: Seq<u8>, n: int) -> int
    decreases n,
{
    if n <= 0 {
        0
    } else if is_char_boundary(bytes, n) {
        n
    } else {
        boundary_at_most(bytes, n - 1)
    }
}

/// The characters of `s` whose UTF-8 encoding fits in `max` bytes when cut at
/// the last character boundary at or before `max`.
pub open spec fn cut_chars(s: Seq<char>, max: int) -> Seq<char> {
    let bytes = encode_utf8(s);
    if bytes.len() <= max {
        s
    } else {
        decode_utf8(bytes.subrange(0, boundary_at_most(bytes, max)))
    }
}

/// `s` cut to at most `max` bytes of UTF-8, at the last character boundary at
/// or before `max`; the flag tells whether anything was cut off.
pub fn cut_to_byte_len(s: &str, max: usize) -> (r: (&str, bool))
    ensures
        r.0@ == cut_chars(s@, max as int),
        r.1 == (s.spec_bytes().len() > max),
        s.spec_bytes().len() <= max ==> r.0@ == s@ && !r.1,
        s.spec_bytes().len() > max ==> {
            &&& r.1
            &&& r.0.spec_bytes() == s.spec_bytes().subrange(
                0,
                boundary_at_most(s.spec_bytes(), max as int),
            )
            &&& s@.subrange(0, r.0@.len() as int) == r.0@
        },
        r.0.spec_bytes().len() <= max,
{
    broadcast use group_utf8_lib;

    if s.as_bytes().len() <= max {
        return (s, false);
    }
    let ghost bytes = s.spec_bytes();
    let mut end: usize = max;
    while end > 0 && !s.is_char_boundary(end)
        invariant
            end <= max < bytes.len(),
            bytes == s.spec_bytes(),
            valid_utf8(bytes),
            boundary_at_most(bytes, max as int) == boundary_at_most(bytes, end as int),
        decreases end,
    {
        end = end - 1;
    }
    assert(is_char_boundary(bytes, end as int));
    let (head, tail) = s.split_at(end);
    proof {
        let p = bytes.subrange(0, end as int);
        let q = bytes.subrange(end as int, bytes.len() as int);
        assert(head@ == decode_utf8(p));
        assert(tail@ == decode_utf8(q));
        assert(s@ == decode_utf8(bytes));
        assert(s@ == head@ + tail@);
        assert(s@.subrange(0, head@.len() as int) =~= head@);
        assert(bytes == encode_utf8(s@));
    }
    (head, true)
}

/// `str::to_ascii_lowercase`: ASCII letters lower-cased, everything else kept.
pub fn ascii_lowercase(s: &str) -> (r: String)
    ensures
        r@ == ascii_lowercase_chars(s@),
{
    let cs = chars_of(s);
    let mut r = String::new();
    let n = cs.len();
    let mut i: usize = 0;
    while i < n
        invariant
            n == cs@.len(),
            i <= n,
            r@ == ascii_lowercase_chars(cs@.take(i as int)),
        decreases n - i,
    {
        let c = cs[i];
        let lower = if 'A' <= c && c <= 'Z' {
            let code = (c as u32 + 32) as u8;
            code as char
        } else {
            c
        };
        push_char(&mut r, lower);
        assert(ascii_lowercase_chars(cs@.take(i + 1)) =~= ascii_lowercase_chars(
            cs@.take(i as int),
        ).push(ascii_lowercase_char(c)));
        i = i + 1;
    }
    assert(cs@.take(n as int) == cs@);
    r
}

/// Appends the characters of `t`.
pub fn push_str(s: &mut String, t: &str)
    ensures
        final(s)@ == old(s)@ + t@,
{
    let cs = chars_of(t);
    let n = cs.len();
    let ghost start = s@;
    let mut i: usize = 0;
    while i < n
        invariant
            n == cs@.len(),
            i <= n,
            s@ == start + cs@.take(i as int),
        decreases n - i,
    {
        push_char(s, cs[i]);
        assert(cs@.take(i + 1) == cs@.take(i as int).push(cs@[i as int]));
        i = i + 1;
    }
    assert(cs@.take(n as int) == cs@);
}

/// `String::from_utf8_lossy` as a `String`: the text of `bytes`, with every
/// invalid sequence replaced by U+FFFD.
pub uninterp spec fn utf8_lossy(bytes: Seq<u8>) -> Seq<char>;

/// `String::from_utf8_lossy(bytes).into_owned()`: the decoded text when the
/// bytes are valid UTF-8; otherwise the text with each invalid sequence
/// replaced by U+FFFD.
#[verifier::external_body]
pub(crate) fn from_utf8_lossy(bytes: &[u8]) -> (r: String)
    ensures
        r@ == utf8_lossy(bytes@),
        valid_utf8(bytes@) ==> r@ == decode_utf8(bytes@),
{
    String::from_utf8_lossy(bytes).into_owned()
}

/// Trimming the front leaves a suffix of `s` that is empty or starts with a
/// character that is not white space.
pub proof fn lemma_trim_start_shape(s: Seq<char>)
    ensures
        exists|k: int| 0 <= k <= s.len() && trim_start_chars(s) == s.subrange(k, s.len() as int),
        trim_start_chars(s).len() == 0 || !is_white_space(trim_start_chars(s)[0]),
    decreases s.len(),
{
    if s.len() > 0 && is_white_space(s[0]) {
        lemma_trim_start_shape(s.drop_first());
        let k = choose|k: int|
            0 <= k <= s.drop_first().len() && trim_start_chars(s.drop_first())
                == s.drop_first().subrange(k, s.drop_first().len() as int);
        assert(s.drop_first().subrange(k, s.drop_first().len() as int) =~= s.subrange(
            k + 1,
            s.len() as int,
        ));
    } else {
        assert(s.subrange(0, s.len() as int) =~= s);
    }
}

/// Trimming the back leaves a prefix of `s` that is empty or ends with a
/// character that is not white space.
pub proof fn lemma_trim_end_shape(s: Seq<char>)
    ensures
        exists|k: int| 0 <= k <= s.len() && trim_end_chars(s) == s.subrange(0, k),
        trim_end_chars(s).len() == 0 || !is_white_space(trim_end_chars(s).last()),
    decreases s.len(),
{
    if s.len() > 0 && is_white_space(s.last()) {
        lemma_trim_end_shape(s.drop_last());
        let k = choose|k: int|
            0 <= k <= s.drop_last().len() && trim_end_chars(s.drop_last())
                == s.drop_last().subrange(0, k);
        assert(s.drop_last().subrange(0, k) =~= s.subrange(0, k));
    } else {
        assert(s.subrange(0, s.len() as int) =~= s);
    }
}

/// Trimming twice is trimming once.
pub proof fn lemma_trim_idempotent(s: Seq<char>)
    ensures
        trim_chars(trim_chars(s)) == trim_chars(s),
{
    reveal(trim_chars);
    let t = trim_start_chars(s);
    let u = trim_end_chars(t);
    lemma_trim_start_shape(s);
    lemma_trim_end_shape(t);
    if u.len() > 0 {
        let k = choose|k: int| 0 <= k <= t.len() && u == t.subrange(0, k);
        assert(u[0] == t[0]);
    }
    assert(trim_start_chars(u) == u);
    assert(trim_end_chars(u) == u);
}

/// The cut point of a byte-length truncation is the last character boundary
/// at or below the limit: it lies within `0..=n`, is a boundary, and no
/// position after it up to `n` is one.
pub proof fn lemma_boundary_at_most_is_last(bytes: Seq<u8>, n: int)
    requires
        valid_utf8(bytes),
    ensures
        0 <= boundary_at_most(bytes, n),
        n >= 0 ==> boundary_at_most(bytes, n) <= n,
        is_char_boundary(bytes, boundary_at_most(bytes, n)),
        forall|j: int| boundary_at_most(bytes, n) < j <= n ==> !is_char_boundary(bytes, j),
    decreases n,
{
    if n > 0 && !is_char_boundary(bytes, n) {
        lemma_boundary_at_most_is_last(bytes, n - 1);
    }
}

} // verus!
