//! Character-level text operations on the abstract view of strings
//! (`Seq<char>`): whitespace trimming, ASCII case folding, searching,
//! decimal formatting and decimal parsing.
use vstd::prelude::*;
use vstd::std_specs::iter::IteratorSpec;
use vstd::string::StringExecFns;

verus! {

broadcast use vstd::string::group_string_axioms;

// ---------------------------------------------------------------------------
// Character classes
// ---------------------------------------------------------------------------

/// The Unicode `White_Space` property, which `char::is_whitespace` tests.
pub open spec fn is_white_space(c: char) -> bool {
    let u = c as u32;
    ||| 0x09 <= u <= 0x0D
    ||| u == 0x20
    ||| u == 0x85
    ||| u == 0xA0
    ||| u == 0x1680
    ||| 0x2000 <= u <= 0x200A
    ||| u == 0x2028
    ||| u == 0x2029
    ||| u == 0x202F
    ||| u == 0x205F
    ||| u == 0x3000
}

/// The Unicode general category `Cc`, which `char::is_control` tests.
pub open spec fn is_control(c: char) -> bool {
    let u = c as u32;
    u <= 0x1F || (0x7F <= u <= 0x9F)
}

pub open spec fn is_ascii_digit(c: char) -> bool {
    '0' <= c <= '9'
}

pub open spec fn is_ascii_alphanumeric(c: char) -> bool {
    ('0' <= c <= '9') || ('A' <= c <= 'Z') || ('a' <= c <= 'z')
}

/// The code of `c` after ASCII lower-casing (other characters keep their code).
pub open spec fn ascii_fold(c: char) -> u32 {
    if 'A' <= c <= 'Z' {
        (c as u32 + 32) as u32
    } else {
        c as u32
    }
}

pub fn white_space(c: char) -> (b: bool)
    ensures
        b == is_white_space(c),
{
    let u = c as u32;
    (0x09 <= u && u <= 0x0D) || u == 0x20 || u == 0x85 || u == 0xA0 || u == 0x1680 || (0x2000
        <= u && u <= 0x200A) || u == 0x2028 || u == 0x2029 || u == 0x202F || u == 0x205F || u
        == 0x3000
}

pub fn control(c: char) -> (b: bool)
    ensures
        b == is_control(c),
{
    let u = c as u32;
    u <= 0x1F || (0x7F <= u && u <= 0x9F)
}

pub fn ascii_alphanumeric(c: char) -> (b: bool)
    ensures
        b == is_ascii_alphanumeric(c),
{
    ('0' <= c && c <= '9') || ('A' <= c && c <= 'Z') || ('a' <= c && c <= 'z')
}

pub fn fold_ascii(c: char) -> (u: u32)
    ensures
        u == ascii_fold(c),
{
    if 'A' <= c && c <= 'Z' {
        c as u32 + 32
    } else {
        c as u32
    }
}

// ---------------------------------------------------------------------------
// Building strings
// ---------------------------------------------------------------------------

/// The characters of `s`, in order.
pub fn chars_of(s: &str) -> (v: Vec<char>)
    ensures
        v@ == s@,
{
    let mut v: Vec<char> = Vec::new();
    for c in it: s.chars()
        invariant
            v@ == it.seq().take(it.index() as int),
            it.seq() == s@,
    {
        v.push(c);
    }
    v
}

/// Appends one character; calls `String::push`, whose documentation says it
/// appends the given char to the end of the string.
#[verifier::external_body]
pub(crate) fn push_char(s: &mut String, c: char)
    ensures
        final(s)@ == old(s)@.push(c),
{
    s.push(c);
}

/// Appends the characters `v[lo..hi]`.
pub fn push_chars(s: &mut String, v: &Vec<char>, lo: usize, hi: usize)
    requires
        lo <= hi <= v@.len(),
    ensures
        final(s)@ == old(s)@ + v@.subrange(lo as int, hi as int),
{
    let ghost start = s@;
    let mut i = lo;
    while i < hi
        invariant
            lo <= i <= hi <= v@.len(),
            s@ == start + v@.subrange(lo as int, i as int),
        decreases hi - i,
    {
        push_char(s, v[i]);
        i = i + 1;
        assert(v@.subrange(lo as int, i as int) == v@.subrange(lo as int, (i - 1) as int).push(
            v@[i - 1],
        ));
    }
}

/// A new string holding `v[lo..hi]`.
pub fn string_of(v: &Vec<char>, lo: usize, hi: usize) -> (s: String)
    requires
        lo <= hi <= v@.len(),
    ensures
        s@ == v@.subrange(lo as int, hi as int),
{
    let mut s = String::new();
    push_chars(&mut s, v, lo, hi);
    s
}

/// Appends the characters of `t`.
pub fn push_str(s: &mut String, t: &str)
    ensures
        final(s)@ == old(s)@ + t@,
{
    s.append(t);
}

/// A new string holding the characters of `t`.
pub fn owned(t: &str) -> (s: String)
    ensures
        s@ == t@,
{
    String::from_str(t)
}

/// A copy of an optional string.
pub fn copy_opt(o: &Option<String>) -> (r: Option<String>)
    ensures
        r == *o,
{
    match o {
        Some(s) => Some(s.clone()),
        None => None,
    }
}

/// Equality of the characters of two strings.
pub fn same_text(a: &str, b: &str) -> (r: bool)
    ensures
        r == (a@ == b@),
{
    let va = chars_of(a);
    let vb = chars_of(b);
    if va.len() != vb.len() {
        return false;
    }
    let mut i: usize = 0;
    while i < va.len()
        invariant
            va@ == a@,
            vb@ == b@,
            va.len() == vb.len(),
            i <= va.len(),
            forall|j: int| 0 <= j < i ==> va@[j] == vb@[j],
        decreases va.len() - i,
    {
        if va[i] != vb[i] {
            return false;
        }
        i = i + 1;
    }
    assert(va@ =~= vb@);
    true
}

// ---------------------------------------------------------------------------
// Trimming
// ---------------------------------------------------------------------------

pub open spec fn trim_start_ws(s: Seq<char>) -> Seq<char>
    decreases s.len(),
{
    if s.len() > 0 && is_white_space(s[0]) {
        trim_start_ws(s.drop_first())
    } else {
        s
    }
}

pub open spec fn trim_end_ws(s: Seq<char>) -> Seq<char>
    decreases s.len(),
{
    if s.len() > 0 && is_white_space(s.last()) {
        trim_end_ws(s.drop_last())
    } else {
        s
    }
}

/// What `str::trim` leaves: `s` without leading and trailing white space.
pub open spec fn trim(s: Seq<char>) -> Seq<char> {
    trim_end_ws(trim_start_ws(s))
}

/// `s` holds nothing but white space.
pub open spec fn is_blank(s: Seq<char>) -> bool {
    trim(s).len() == 0
}

pub open spec fn trim_start_char(s: Seq<char>, ch: char) -> Seq<char>
    decreases s.len(),
{
    if s.len() > 0 && s[0] == ch {
        trim_start_char(s.drop_first(), ch)
    } else {
        s
    }
}

pub open spec fn trim_end_char(s: Seq<char>, ch: char) -> Seq<char>
    decreases s.len(),
{
    if s.len() > 0 && s.last() == ch {
        trim_end_char(s.drop_last(), ch)
    } else {
        s
    }
}

/// What `str::trim_matches(ch)` leaves.
pub open spec fn trim_char(s: Seq<char>, ch: char) -> Seq<char> {
    trim_end_char(trim_start_char(s, ch), ch)
}

proof fn lemma_trim_start_ws_suffix(s: Seq<char>)
    ensures
        exists|j: int| 0 <= j <= s.len() && trim_start_ws(s) == #[trigger] s.subrange(j, s.len() as int),
        trim_start_ws(s).len() > 0 ==> !is_white_space(trim_start_ws(s)[0]),
    decreases s.len(),
{
    if s.len() > 0 && is_white_space(s[0]) {
        lemma_trim_start_ws_suffix(s.drop_first());
        let j = choose|j: int|
            0 <= j <= s.drop_first().len() && trim_start_ws(s.drop_first()) == #[trigger] s.drop_first().subrange(
                j,
                s.drop_first().len() as int,
            );
        assert(s.drop_first().subrange(j, s.drop_first().len() as int) =~= s.subrange(j + 1, s.len() as int));
    } else {
        assert(s.subrange(0, s.len() as int) =~= s);
    }
}

proof fn lemma_trim_end_ws_prefix(s: Seq<char>)
    ensures
        exists|j: int| 0 <= j <= s.len() && trim_end_ws(s) == #[trigger] s.subrange(0, j),
        trim_end_ws(s).len() > 0 ==> !is_white_space(trim_end_ws(s).last()),
    decreases s.len(),
{
    if s.len() > 0 && is_white_space(s.last()) {
        lemma_trim_end_ws_prefix(s.drop_last());
        let j = choose|j: int|
            0 <= j <= s.drop_last().len() && trim_end_ws(s.drop_last()) == #[trigger] s.drop_last().subrange(0, j);
        assert(s.drop_last().subrange(0, j) =~= s.subrange(0, j));
    } else {
        assert(s.subrange(0, s.len() as int) =~= s);
    }
}

proof fn lemma_trim_start_char_suffix(s: Seq<char>, ch: char)
    ensures
        exists|j: int| 0 <= j <= s.len() && trim_start_char(s, ch) == #[trigger] s.subrange(j, s.len() as int),
    decreases s.len(),
{
    if s.len() > 0 && s[0] == ch {
        lemma_trim_start_char_suffix(s.drop_first(), ch);
        let j = choose|j: int|
            0 <= j <= s.drop_first().len() && trim_start_char(s.drop_first(), ch) == #[trigger] s.drop_first().subrange(
                j,
                s.drop_first().len() as int,
            );
        assert(s.drop_first().subrange(j, s.drop_first().len() as int) =~= s.subrange(j + 1, s.len() as int));
    } else {
        assert(s.subrange(0, s.len() as int) =~= s);
    }
}

proof fn lemma_trim_end_char_prefix(s: Seq<char>, ch: char)
    ensures
        exists|j: int| 0 <= j <= s.len() && trim_end_char(s, ch) == #[trigger] s.subrange(0, j),
    decreases s.len(),
{
    if s.len() > 0 && s.last() == ch {
        lemma_trim_end_char_prefix(s.drop_last(), ch);
        let j = choose|j: int|
            0 <= j <= s.drop_last().len() && trim_end_char(s.drop_last(), ch) == #[trigger] s.drop_last().subrange(0, j);
        assert(s.drop_last().subrange(0, j) =~= s.subrange(0, j));
    } else {
        assert(s.subrange(0, s.len() as int) =~= s);
    }
}

/// Trimming white space keeps a stretch of the text.
pub proof fn lemma_trim_is_stretch(s: Seq<char>)
    ensures
        exists|a: int, b: int| 0 <= a <= b <= s.len() && trim(s) == #[trigger] s.subrange(a, b),
{
    lemma_trim_start_ws_suffix(s);
    let j = choose|j: int| 0 <= j <= s.len() && trim_start_ws(s) == #[trigger] s.subrange(j, s.len() as int);
    let t = trim_start_ws(s);
    lemma_trim_end_ws_prefix(t);
    let k = choose|k: int| 0 <= k <= t.len() && trim_end_ws(t) == #[trigger] t.subrange(0, k);
    assert(t.subrange(0, k) =~= s.subrange(j, j + k));
}

/// Trimming a character keeps a stretch of the text.
pub proof fn lemma_trim_char_is_stretch(s: Seq<char>, ch: char)
    ensures
        exists|a: int, b: int| 0 <= a <= b <= s.len() && trim_char(s, ch) == #[trigger] s.subrange(a, b),
{
    lemma_trim_start_char_suffix(s, ch);
    let j = choose|j: int| 0 <= j <= s.len() && trim_start_char(s, ch) == #[trigger] s.subrange(j, s.len() as int);
    let t = trim_start_char(s, ch);
    lemma_trim_end_char_prefix(t, ch);
    let k = choose|k: int| 0 <= k <= t.len() && trim_end_char(t, ch) == #[trigger] t.subrange(0, k);
    assert(t.subrange(0, k) =~= s.subrange(j, j + k));
}

proof fn lemma_trim_start_char_first(s: Seq<char>, ch: char)
    ensures
        trim_start_char(s, ch).len() > 0 ==> trim_start_char(s, ch)[0] != ch,
    decreases s.len(),
{
    if s.len() > 0 && s[0] == ch {
        lemma_trim_start_char_first(s.drop_first(), ch);
    }
}

/// After trimming a character from both ends, the text does not start with it.
pub proof fn lemma_trim_char_first(s: Seq<char>, ch: char)
    ensures
        trim_char(s, ch).len() > 0 ==> trim_char(s, ch)[0] != ch,
{
    let t = trim_start_char(s, ch);
    lemma_trim_start_char_first(s, ch);
    lemma_trim_end_char_prefix(t, ch);
    let k = choose|k: int| 0 <= k <= t.len() && trim_end_char(t, ch) == #[trigger] t.subrange(0, k);
    if trim_char(s, ch).len() > 0 {
        assert(trim_char(s, ch)[0] == t[0]);
    }
}

/// Trimmed text has no white space at either end, so trimming it again
/// changes nothing.
pub proof fn lemma_trim_idempotent(s: Seq<char>)
    ensures
        trim(trim(s)) == trim(s),
{
    let t = trim_start_ws(s);
    lemma_trim_start_ws_suffix(s);
    lemma_trim_end_ws_prefix(t);
    let u = trim_end_ws(t);
    let k = choose|k: int| 0 <= k <= t.len() && u == #[trigger] t.subrange(0, k);
    if u.len() > 0 {
        assert(u[0] == t[0]);
        assert(!is_white_space(u[0]));
        assert(trim_start_ws(u) == u);
        assert(!is_white_space(u.last()));
        assert(trim_end_ws(u) == u);
    } else {
        assert(trim_start_ws(u) == u);
        assert(trim_end_ws(u) == u);
    }
}

/// The bounds of `trim(v[lo..hi])` inside `v`.
pub fn trim_bounds(v: &Vec<char>, lo: usize, hi: usize) -> (r: (usize, usize))
    requires
        lo <= hi <= v@.len(),
    ensures
        lo <= r.0 <= r.1 <= hi,
        v@.subrange(r.0 as int, r.1 as int) == trim(v@.subrange(lo as int, hi as int)),
{
    let ghost s = v@.subrange(lo as int, hi as int);
    let mut i = lo;
    while i < hi && white_space(v[i])
        invariant
            lo <= i <= hi <= v@.len(),
            s == v@.subrange(lo as int, hi as int),
            trim_start_ws(s) == trim_start_ws(v@.subrange(i as int, hi as int)),
        decreases hi - i,
    {
        assert(v@.subrange(i as int, hi as int).drop_first() == v@.subrange(i + 1, hi as int));
        i = i + 1;
    }
    let mut j = hi;
    while j > i && white_space(v[j - 1])
        invariant
            lo <= i <= j <= hi <= v@.len(),
            trim_start_ws(s) == v@.subrange(i as int, hi as int),
            trim(s) == trim_end_ws(v@.subrange(i as int, j as int)),
        decreases j - i,
    {
        assert(v@.subrange(i as int, j as int).drop_last() == v@.subrange(i as int, j - 1));
        j = j - 1;
    }
    (i, j)
}

/// The bounds of `trim_char(v[lo..hi], ch)` inside `v`.
pub fn trim_char_bounds(v: &Vec<char>, lo: usize, hi: usize, ch: char) -> (r: (usize, usize))
    requires
        lo <= hi <= v@.len(),
    ensures
        lo <= r.0 <= r.1 <= hi,
        v@.subrange(r.0 as int, r.1 as int) == trim_char(v@.subrange(lo as int, hi as int), ch),
        v@.subrange(r.0 as int, hi as int) == trim_start_char(
            v@.subrange(lo as int, hi as int),
            ch,
        ),
{
    let ghost s = v@.subrange(lo as int, hi as int);
    let mut i = lo;
    while i < hi && v[i] == ch
        invariant
            lo <= i <= hi <= v@.len(),
            s == v@.subrange(lo as int, hi as int),
            trim_start_char(s, ch) == trim_start_char(v@.subrange(i as int, hi as int), ch),
        decreases hi - i,
    {
        assert(v@.subrange(i as int, hi as int).drop_first() == v@.subrange(i + 1, hi as int));
        i = i + 1;
    }
    let mut j = hi;
    while j > i && v[j - 1] == ch
        invariant
            lo <= i <= j <= hi <= v@.len(),
            trim_start_char(s, ch) == v@.subrange(i as int, hi as int),
            trim_char(s, ch) == trim_end_char(v@.subrange(i as int, j as int), ch),
        decreases j - i,
    {
        assert(v@.subrange(i as int, j as int).drop_last() == v@.subrange(i as int, j - 1));
        j = j - 1;
    }
    (i, j)
}

/// `str::trim`, as a new string.
pub fn trim_str(s: &str) -> (r: String)
    ensures
        r@ == trim(s@),
{
    let v = chars_of(s);
    let (a, b) = trim_bounds(&v, 0, v.len());
    assert(v@.subrange(0, v@.len() as int) == v@);
    string_of(&v, a, b)
}

/// Whether `s` holds nothing but white space.
pub fn blank(s: &str) -> (r: bool)
    ensures
        r == is_blank(s@),
{
    let v = chars_of(s);
    let (a, b) = trim_bounds(&v, 0, v.len());
    assert(v@.subrange(0, v@.len() as int) == v@);
    a == b
}

// ---------------------------------------------------------------------------
// Comparing and searching
// ---------------------------------------------------------------------------

/// What `str::eq_ignore_ascii_case` tests.
pub open spec fn eq_ignore_ascii_case(a: Seq<char>, b: Seq<char>) -> bool {
    &&& a.len() == b.len()
    &&& forall|i: int| 0 <= i < a.len() ==> ascii_fold(a[i]) == ascii_fold(b[i])
}

/// `n` occurs in `h` starting at position `i`.
pub open spec fn occurs_at(h: Seq<char>, n: Seq<char>, i: int) -> bool {
    0 <= i && i + n.len() <= h.len() && h.subrange(i, i + n.len()) == n
}

/// What `str::contains` tests for a string needle.
pub open spec fn contains_text(h: Seq<char>, n: Seq<char>) -> bool {
    exists|i: int| occurs_at(h, n, i)
}

/// What `str::ends_with` tests for a string suffix.
pub open spec fn ends_with_text(h: Seq<char>, n: Seq<char>) -> bool {
    n.len() <= h.len() && h.subrange(h.len() - n.len(), h.len() as int) == n
}

pub fn eq_ignore_case(a: &str, b: &str) -> (r: bool)
    ensures
        r == eq_ignore_ascii_case(a@, b@),
{
    let va = chars_of(a);
    let vb = chars_of(b);
    if va.len() != vb.len() {
        return false;
    }
    let mut i: usize = 0;
    while i < va.len()
        invariant
            va@ == a@,
            vb@ == b@,
            va.len() == vb.len(),
            i <= va.len(),
            forall|j: int| 0 <= j < i ==> ascii_fold(va@[j]) == ascii_fold(vb@[j]),
        decreases va.len() - i,
    {
        if fold_ascii(va[i]) != fold_ascii(vb[i]) {
            return false;
        }
        i = i + 1;
    }
    true
}

/// Whether `n` occurs in `h` at position `i`.
fn occurs_here(h: &Vec<char>, n: &Vec<char>, i: usize) -> (r: bool)
    requires
        i + n@.len() <= h@.len(),
    ensures
        r == occurs_at(h@, n@, i as int),
{
    let m = n.len();
    let mut k: usize = 0;
    while k < m
        invariant
            i + n@.len() <= h@.len(),
            m == n@.len(),
            k <= m,
            forall|j: int| 0 <= j < k ==> h@[i + j] == n@[j],
        decreases m - k,
    {
        let hl = h.len();
        assert(i + k < hl);
        let p: usize = i + k;
        if h[p] != n[k] {
            assert(h@.subrange(i as int, i + n@.len())[k as int] != n@[k as int]);
            return false;
        }
        k = k + 1;
    }
    assert(h@.subrange(i as int, i + n@.len()) =~= n@);
    true
}

pub fn contains(h: &str, n: &str) -> (r: bool)
    ensures
        r == contains_text(h@, n@),
{
    let vh = chars_of(h);
    let vn = chars_of(n);
    if vn.len() > vh.len() {
        assert forall|j: int| !occurs_at(h@, n@, j) by {}
        return false;
    }
    let last = vh.len() - vn.len();
    let mut i: usize = 0;
    loop
        invariant
            vh@ == h@,
            vn@ == n@,
            last == vh@.len() - vn@.len(),
            i <= last,
            forall|j: int| 0 <= j < i ==> !occurs_at(h@, n@, j),
        decreases last - i,
    {
        if occurs_here(&vh, &vn, i) {
            return true;
        }
        if i == last {
            assert forall|j: int| !occurs_at(h@, n@, j) by {
                if 0 <= j < i {
                } else if j == i {
                } else {
                }
            }
            return false;
        }
        i = i + 1;
    }
}

pub fn ends_with(h: &str, n: &str) -> (r: bool)
    ensures
        r == ends_with_text(h@, n@),
{
    let vh = chars_of(h);
    let vn = chars_of(n);
    if vn.len() > vh.len() {
        return false;
    }
    let r = occurs_here(&vh, &vn, vh.len() - vn.len());
    r
}

// ---------------------------------------------------------------------------
// Lower-casing
// ---------------------------------------------------------------------------

/// The result of `str::to_lowercase` on a string with these characters.
pub uninterp spec fn unicode_lowercase(s: Seq<char>) -> Seq<char>;

/// The ASCII lower case of `c`: `A`..`Z` become `a`..`z`, anything else stays.
pub open spec fn ascii_lower(c: char) -> char {
    if 'A' <= c <= 'Z' {
        ((c as u32) + 32) as char
    } else {
        c
    }
}

/// `s` holds only ASCII characters.
pub open spec fn is_ascii_text(s: Seq<char>) -> bool {
    forall|i: int| 0 <= i < s.len() ==> (s[i] as u32) < 128
}

/// Calls `str::to_lowercase`, which maps each character to its Unicode
/// lowercase form. The contract names the result and claims that it depends on
/// the characters of `s` alone. Of the mapping it states only the ASCII part,
/// which the Unicode lowercase mapping and the documentation's example show:
/// on ASCII text, `A`..`Z` become `a`..`z`, every other character stays, and
/// the length is kept.
#[verifier::external_body]
pub(crate) fn to_lowercase(s: &str) -> (r: String)
    ensures
        r@ == unicode_lowercase(s@),
        is_ascii_text(s@) ==> r@.len() == s@.len() && forall|i: int|
            0 <= i < s@.len() ==> r@[i] == ascii_lower(#[trigger] s@[i]),
{
    s.to_lowercase()
}

/// The lower case of a text as `str::to_lowercase` gives it: on ASCII text,
/// `A`..`Z` become `a`..`z` and everything else stays; on other text, what
/// the Unicode mapping gives.
pub open spec fn lower_text(s: Seq<char>) -> Seq<char> {
    if is_ascii_text(s) {
        s.map_values(|c: char| ascii_lower(c))
    } else {
        unicode_lowercase(s)
    }
}

/// `str::to_lowercase`, with the result described by `lower_text`.
pub fn lowercase(s: &str) -> (r: String)
    ensures
        r@ == lower_text(s@),
        r@ == unicode_lowercase(s@),
{
    let r = to_lowercase(s);
    proof {
        if is_ascii_text(s@) {
            assert(r@ =~= s@.map_values(|c: char| ascii_lower(c)));
        }
    }
    r
}

/// Two ASCII texts that are equal up to the case of their letters.
pub open spec fn same_up_to_ascii_case(a: Seq<char>, b: Seq<char>) -> bool {
    is_ascii_text(a) && is_ascii_text(b) && eq_ignore_ascii_case(a, b)
}

proof fn lemma_fold_is_lower(c: char)
    ensures
        (ascii_lower(c) as u32) == ascii_fold(c),
{
}

/// Lower-casing ignores ASCII case: two ASCII texts that differ only in the
/// case of their letters have the same lower case.
pub proof fn law_lower_ignores_ascii_case(a: Seq<char>, b: Seq<char>)
    requires
        same_up_to_ascii_case(a, b),
    ensures
        lower_text(a) == lower_text(b),
{
    assert forall|i: int| 0 <= i < a.len() implies ascii_lower(#[trigger] a[i]) == ascii_lower(b[i]) by {
        lemma_fold_is_lower(a[i]);
        lemma_fold_is_lower(b[i]);
        assert(ascii_fold(a[i]) == ascii_fold(b[i]));
    }
    assert(lower_text(a) =~= lower_text(b));
}

/// Texts equal up to ASCII case, joined, stay equal up to ASCII case.
pub proof fn lemma_same_case_concat(a: Seq<char>, b: Seq<char>, c: Seq<char>, d: Seq<char>)
    requires
        same_up_to_ascii_case(a, b),
        same_up_to_ascii_case(c, d),
    ensures
        same_up_to_ascii_case(a + c, b + d),
{
    assert forall|i: int| 0 <= i < (a + c).len() implies ascii_fold(#[trigger] (a + c)[i]) == ascii_fold(
        (b + d)[i],
    ) by {
        if i < a.len() {
            assert((a + c)[i] == a[i] && (b + d)[i] == b[i]);
        } else {
            assert((a + c)[i] == c[i - a.len()] && (b + d)[i] == d[i - a.len()]);
        }
    }
    assert forall|i: int| 0 <= i < (a + c).len() implies ((a + c)[i] as u32) < 128 by {
        if i < a.len() {
            assert((a + c)[i] == a[i]);
        } else {
            assert((a + c)[i] == c[i - a.len()]);
        }
    }
    assert forall|i: int| 0 <= i < (b + d).len() implies ((b + d)[i] as u32) < 128 by {
        if i < b.len() {
            assert((b + d)[i] == b[i]);
        } else {
            assert((b + d)[i] == d[i - b.len()]);
        }
    }
}

// ---------------------------------------------------------------------------
// Decimal numbers
// ---------------------------------------------------------------------------

pub open spec fn digit_char(d: int) -> char {
    if d == 0 {
        '0'
    } else if d == 1 {
        '1'
    } else if d == 2 {
        '2'
    } else if d == 3 {
        '3'
    } else if d == 4 {
        '4'
    } else if d == 5 {
        '5'
    } else if d == 6 {
        '6'
    } else if d == 7 {
        '7'
    } else if d == 8 {
        '8'
    } else {
        '9'
    }
}

/// The decimal digits of `n`, without leading zeros.
pub open spec fn decimal(n: nat) -> Seq<char>
    decreases n,
{
    if n < 10 {
        seq![digit_char(n as int)]
    } else {
        decimal(n / 10).push(digit_char((n % 10) as int))
    }
}

/// The decimal form of a number holds only digits.
pub proof fn lemma_decimal_digits(n: nat)
    ensures
        forall|i: int| 0 <= i < decimal(n).len() ==> is_ascii_digit(#[trigger] decimal(n)[i]),
    decreases n,
{
    if n >= 10 {
        lemma_decimal_digits(n / 10);
        let d = decimal(n / 10);
        assert forall|i: int| 0 <= i < decimal(n).len() implies is_ascii_digit(#[trigger] decimal(n)[i]) by {
            if i < d.len() {
                assert(decimal(n)[i] == d[i]);
            }
        }
    }
}

/// The decimal form of `i`, with a leading `-` when it is negative.
pub open spec fn decimal_signed(i: int) -> Seq<char> {
    if i < 0 {
        seq!['-'] + decimal((-i) as nat)
    } else {
        decimal(i as nat)
    }
}

fn digit(d: u128) -> (c: char)
    requires
        d < 10,
    ensures
        c == digit_char(d as int),
{
    if d == 0 {
        '0'
    } else if d == 1 {
        '1'
    } else if d == 2 {
        '2'
    } else if d == 3 {
        '3'
    } else if d == 4 {
        '4'
    } else if d == 5 {
        '5'
    } else if d == 6 {
        '6'
    } else if d == 7 {
        '7'
    } else if d == 8 {
        '8'
    } else {
        '9'
    }
}

/// Appends the decimal digits of `n`.
pub fn push_decimal(s: &mut String, n: u128)
    ensures
        final(s)@ == old(s)@ + decimal(n as nat),
    decreases n,
{
    if n >= 10 {
        push_decimal(s, n / 10);
    }
    push_char(s, digit(n % 10));
    assert(final(s)@ =~= old(s)@ + decimal(n as nat));
}

/// Appends the decimal form of `i`.
pub fn push_decimal_signed(s: &mut String, i: i128)
    requires
        i > i128::MIN,
    ensures
        final(s)@ == old(s)@ + decimal_signed(i as int),
{
    if i < 0 {
        push_char(s, '-');
        push_decimal(s, (-i) as u128);
        assert(final(s)@ =~= old(s)@ + decimal_signed(i as int));
    } else {
        push_decimal(s, i as u128);
    }
}

/// The decimal digits of `n`, as a new string (what `to_string` gives).
pub fn decimal_string(n: u128) -> (s: String)
    ensures
        s@ == decimal(n as nat),
{
    let mut s = String::new();
    push_decimal(&mut s, n);
    assert(s@ =~= decimal(n as nat));
    s
}

pub open spec fn digit_value(c: char) -> int {
    (c as int) - ('0' as int)
}

/// The value of a string of decimal digits.
pub open spec fn digits_value(s: Seq<char>) -> int
    decreases s.len(),
{
    if s.len() == 0 {
        0
    } else {
        digits_value(s.drop_last()) * 10 + digit_value(s.last())
    }
}

pub open spec fn all_digits(s: Seq<char>) -> bool {
    forall|i: int| 0 <= i < s.len() ==> is_ascii_digit(#[trigger] s[i])
}

/// The sign and digits of an integer text as `str::parse` reads it: one
/// optional leading `+`, or `-` where negative values are allowed, then the
/// digits.
pub open spec fn sign_and_digits(s: Seq<char>, signed: bool) -> (bool, Seq<char>) {
    if s.len() > 0 && s[0] == '+' {
        (false, s.drop_first())
    } else if signed && s.len() > 0 && s[0] == '-' {
        (true, s.drop_first())
    } else {
        (false, s)
    }
}

/// What `str::parse::<i64>` (signed) or `str::parse::<u64>` (unsigned) gives:
/// the value when the text is a sign and at least one ASCII digit and the value
/// lies in `lo..=hi`, else nothing.
pub open spec fn parse_integer(s: Seq<char>, signed: bool, lo: int, hi: int) -> Option<int> {
    let (neg, body) = sign_and_digits(s, signed);
    let v = if neg {
        -digits_value(body)
    } else {
        digits_value(body)
    };
    if body.len() > 0 && all_digits(body) && lo <= v <= hi {
        Some(v)
    } else {
        None
    }
}

proof fn lemma_digits_value_nonneg(s: Seq<char>)
    requires
        all_digits(s),
    ensures
        digits_value(s) >= 0,
    decreases s.len(),
{
    if s.len() > 0 {
        assert(is_ascii_digit(s[s.len() - 1]));
        lemma_digits_value_nonneg(s.drop_last());
    }
}

/// A longer string of digits is worth at least as much as its prefix.
proof fn lemma_digits_value_prefix(s: Seq<char>, k: int)
    requires
        all_digits(s),
        0 <= k <= s.len(),
    ensures
        digits_value(s.take(k)) <= digits_value(s),
    decreases s.len(),
{
    if k < s.len() {
        assert(s.take(k) == s.drop_last().take(k));
        assert(is_ascii_digit(s[s.len() - 1]));
        lemma_digits_value_nonneg(s.drop_last());
        lemma_digits_value_prefix(s.drop_last(), k);
    } else {
        assert(s.take(k) == s);
    }
}

/// Reads an integer the way `str::parse` does, giving its magnitude and
/// whether it is negative. `limit` bounds the magnitudes that are accepted.
fn parse_magnitude(v: &Vec<char>, signed: bool, limit: u128) -> (r: Option<(bool, u128)>)
    requires
        limit < u128::MAX / 10 - 10,
    ensures
        ({
            let (neg, body) = sign_and_digits(v@, signed);
            match r {
                Some((n, m)) => n == neg && body.len() > 0 && all_digits(body) && m
                    == digits_value(body) && m <= limit,
                None => !(body.len() > 0 && all_digits(body) && digits_value(body) <= limit),
            }
        }),
{
    let ghost sd = sign_and_digits(v@, signed);
    let ghost neg0 = sd.0;
    let ghost body = sd.1;
    let mut neg = false;
    let mut start: usize = 0;
    if v.len() > 0 && v[0] == '+' {
        start = 1;
    } else if signed && v.len() > 0 && v[0] == '-' {
        neg = true;
        start = 1;
    }
    assert(body == v@.subrange(start as int, v@.len() as int));
    if start >= v.len() {
        assert(body.len() == 0);
        return None;
    }
    let mut acc: u128 = 0;
    let mut i = start;
    while i < v.len()
        invariant
            start <= i <= v@.len(),
            body == v@.subrange(start as int, v@.len() as int),
            sd == sign_and_digits(v@, signed),
            body == sd.1,
            neg == neg0,
            neg0 == sd.0,
            limit < u128::MAX / 10 - 10,
            all_digits(body.take(i - start)),
            acc == digits_value(body.take(i - start)),
            acc <= limit,
        decreases v.len() - i,
    {
        let c = v[i];
        assert(body[i - start] == c);
        if !('0' <= c && c <= '9') {
            assert(!is_ascii_digit(body[i - start]));
            assert(!all_digits(body));
            return None;
        }
        let d = (c as u32 - '0' as u32) as u128;
        assert(body.take(i - start + 1).drop_last() == body.take(i - start));
        acc = acc * 10 + d;
        i = i + 1;
        assert(all_digits(body.take(i - start)));
        if acc > limit {
            proof {
                if all_digits(body) {
                    lemma_digits_value_prefix(body, i - start);
                }
            }
            return None;
        }
    }
    assert(body.take(i - start) == body);
    Some((neg, acc))
}

/// `str::parse::<i64>`.
pub fn parse_i64(s: &str) -> (r: Option<i64>)
    ensures
        match r {
            Some(x) => parse_integer(s@, true, i64::MIN as int, i64::MAX as int) == Some(x as int),
            None => parse_integer(s@, true, i64::MIN as int, i64::MAX as int) is None,
        },
{
    let v = chars_of(s);
    let limit: u128 = 0x8000_0000_0000_0000;
    match parse_magnitude(&v, true, limit) {
        Some((neg, m)) => {
            if neg {
                Some((0 - (m as i128)) as i64)
            } else if m <= 0x7FFF_FFFF_FFFF_FFFF {
                Some(m as i64)
            } else {
                None
            }
        },
        None => {
            proof {
                let (neg, body) = sign_and_digits(s@, true);
                if body.len() > 0 && all_digits(body) {
                    lemma_digits_value_nonneg(body);
                }
            }
            None
        },
    }
}

/// `str::parse::<u64>`.
pub fn parse_u64(s: &str) -> (r: Option<u64>)
    ensures
        match r {
            Some(x) => parse_integer(s@, false, 0, u64::MAX as int) == Some(x as int),
            None => parse_integer(s@, false, 0, u64::MAX as int) is None,
        },
{
    let v = chars_of(s);
    let limit: u128 = 0xFFFF_FFFF_FFFF_FFFF;
    match parse_magnitude(&v, false, limit) {
        Some((_neg, m)) => Some(m as u64),
        None => None,
    }
}

// ---------------------------------------------------------------------------
// Splitting at a character
// ---------------------------------------------------------------------------

/// The part of `s` before the first `c` (all of `s` when there is none): what
/// `s.split(c).next()` gives.
pub open spec fn before_first(s: Seq<char>, c: char) -> Seq<char>
    decreases s.len(),
{
    if s.len() == 0 || s[0] == c {
        Seq::empty()
    } else {
        seq![s[0]] + before_first(s.drop_first(), c)
    }
}

/// The part of `s` after the last `c` (all of `s` when there is none): what
/// `s.rsplit(c).next()` gives.
pub open spec fn after_last(s: Seq<char>, c: char) -> Seq<char>
    decreases s.len(),
{
    if s.len() == 0 || s.last() == c {
        Seq::empty()
    } else {
        after_last(s.drop_last(), c).push(s.last())
    }
}

/// The end of `before_first(v[lo..hi], c)` inside `v`.
pub fn before_first_end(v: &Vec<char>, lo: usize, hi: usize, c: char) -> (e: usize)
    requires
        lo <= hi <= v@.len(),
    ensures
        lo <= e <= hi,
        v@.subrange(lo as int, e as int) == before_first(v@.subrange(lo as int, hi as int), c),
{
    let mut i = lo;
    while i < hi && v[i] != c
        invariant
            lo <= i <= hi <= v@.len(),
            before_first(v@.subrange(lo as int, hi as int), c) == v@.subrange(lo as int, i as int)
                + before_first(v@.subrange(i as int, hi as int), c),
        decreases hi - i,
    {
        let ghost rest = v@.subrange(i as int, hi as int);
        assert(rest.drop_first() == v@.subrange(i + 1, hi as int));
        assert(v@.subrange(lo as int, i + 1) == v@.subrange(lo as int, i as int) + seq![v@[i as int]]);
        i = i + 1;
    }
    assert(before_first(v@.subrange(i as int, hi as int), c) == Seq::<char>::empty());
    assert(v@.subrange(lo as int, i as int) + Seq::<char>::empty() == v@.subrange(lo as int, i as int));
    i
}

/// The start of `after_last(v[lo..hi], c)` inside `v`.
pub fn after_last_start(v: &Vec<char>, lo: usize, hi: usize, c: char) -> (b: usize)
    requires
        lo <= hi <= v@.len(),
    ensures
        lo <= b <= hi,
        v@.subrange(b as int, hi as int) == after_last(v@.subrange(lo as int, hi as int), c),
{
    let mut j = hi;
    while j > lo && v[j - 1] != c
        invariant
            lo <= j <= hi <= v@.len(),
            after_last(v@.subrange(lo as int, hi as int), c) == after_last(
                v@.subrange(lo as int, j as int),
                c,
            ) + v@.subrange(j as int, hi as int),
        decreases j - lo,
    {
        let ghost rest = v@.subrange(lo as int, j as int);
        assert(rest.drop_last() == v@.subrange(lo as int, j - 1));
        assert(v@.subrange(j - 1, hi as int) == seq![v@[j - 1]] + v@.subrange(j as int, hi as int));
        assert(after_last(rest, c) == after_last(rest.drop_last(), c).push(rest.last()));
        assert(after_last(rest.drop_last(), c).push(rest.last()) + v@.subrange(j as int, hi as int)
            == after_last(rest.drop_last(), c) + v@.subrange(j - 1, hi as int));
        j = j - 1;
    }
    assert(after_last(v@.subrange(lo as int, j as int), c) == Seq::<char>::empty());
    assert(Seq::<char>::empty() + v@.subrange(j as int, hi as int) == v@.subrange(j as int, hi as int));
    j
}


// ---------------------------------------------------------------------------
// Ordering of texts
// ---------------------------------------------------------------------------

/// `a` sorts before `b`: character by character by code point, a proper
/// prefix first. This is the order of `str`'s `Ord`, since UTF-8 keeps the
/// order of code points.
pub open spec fn text_less(a: Seq<char>, b: Seq<char>) -> bool
    decreases a.len(),
{
    if a.len() == 0 {
        b.len() > 0
    } else if b.len() == 0 {
        false
    } else if a[0] != b[0] {
        a[0] < b[0]
    } else {
        text_less(a.drop_first(), b.drop_first())
    }
}

/// No text sorts before itself, and of two texts at most one sorts first.
pub proof fn lemma_text_less_asymmetric(a: Seq<char>, b: Seq<char>)
    ensures
        text_less(a, b) ==> !text_less(b, a),
    decreases a.len(),
{
    if a.len() > 0 && b.len() > 0 && a[0] == b[0] {
        lemma_text_less_asymmetric(a.drop_first(), b.drop_first());
    }
}

/// The order of texts is transitive.
pub proof fn lemma_text_less_transitive(a: Seq<char>, b: Seq<char>, c: Seq<char>)
    requires
        text_less(a, b),
        text_less(b, c),
    ensures
        text_less(a, c),
    decreases a.len(),
{
    if a.len() > 0 && b.len() > 0 && c.len() > 0 && a[0] == b[0] && b[0] == c[0] {
        lemma_text_less_transitive(a.drop_first(), b.drop_first(), c.drop_first());
    }
}

/// Of two different texts one sorts before the other.
pub proof fn lemma_text_less_total(a: Seq<char>, b: Seq<char>)
    ensures
        a != b ==> text_less(a, b) || text_less(b, a),
    decreases a.len(),
{
    if a.len() == 0 && b.len() == 0 {
        assert(a =~= b);
    } else if a.len() > 0 && b.len() > 0 && a[0] == b[0] {
        lemma_text_less_total(a.drop_first(), b.drop_first());
        if a.drop_first() == b.drop_first() {
            assert(a =~= b) by {
                assert forall|i: int| 0 <= i < a.len() implies a[i] == b[i] by {
                    if i > 0 {
                        assert(a[i] == a.drop_first()[i - 1]);
                        assert(b[i] == b.drop_first()[i - 1]);
                    }
                }
            }
        }
    } else if a.len() > 0 && b.len() > 0 {
    }
}

/// Whether `a` sorts before `b`.
pub fn less_text(a: &str, b: &str) -> (r: bool)
    ensures
        r == text_less(a@, b@),
{
    let va = chars_of(a);
    let vb = chars_of(b);
    let mut i: usize = 0;
    assert(a@.skip(0) =~= a@);
    assert(b@.skip(0) =~= b@);
    while i < va.len() && i < vb.len() && va[i] == vb[i]
        invariant
            va@ == a@,
            vb@ == b@,
            i <= va@.len(),
            i <= vb@.len(),
            text_less(a@, b@) == text_less(a@.skip(i as int), b@.skip(i as int)),
        decreases va.len() - i,
    {
        assert(a@.skip(i + 1) == a@.skip(i as int).drop_first());
        assert(b@.skip(i + 1) == b@.skip(i as int).drop_first());
        i = i + 1;
    }
    let ghost sa = a@.skip(i as int);
    let ghost sb = b@.skip(i as int);
    if i == va.len() {
        i < vb.len()
    } else if i == vb.len() {
        false
    } else {
        assert(sa[0] == va@[i as int]);
        assert(sb[0] == vb@[i as int]);
        va[i] < vb[i]
    }
}


// ---------------------------------------------------------------------------
// Hiding a secret in a text
// ---------------------------------------------------------------------------

/// `s` with each occurrence of `key`, found from the left, replaced by `***`.
pub open spec fn masked(s: Seq<char>, key: Seq<char>) -> Seq<char>
    decreases s.len(),
{
    if s.len() == 0 || key.len() == 0 {
        s
    } else if occurs_at(s, key, 0) {
        "***"@ + masked(s.skip(key.len() as int), key)
    } else {
        seq![s[0]] + masked(s.drop_first(), key)
    }
}

/// `m` with the secret `key` hidden: unchanged when it does not hold the key,
/// else with each occurrence replaced by `***`, and empty in the rare case
/// that the replacement still holds the key.
pub open spec fn redacted(m: Seq<char>, key: Seq<char>) -> Seq<char> {
    if key.len() == 0 || !contains_text(m, key) {
        m
    } else if contains_text(masked(m, key), key) {
        Seq::empty()
    } else {
        masked(m, key)
    }
}

/// A text with a secret hidden holds no occurrence of the secret, and a text
/// without the secret is left as it is.
pub proof fn law_redacted_hides_key(m: Seq<char>, key: Seq<char>)
    ensures
        key.len() > 0 ==> !contains_text(redacted(m, key), key),
        !contains_text(m, key) ==> redacted(m, key) == m,
{
    if key.len() > 0 && contains_text(m, key) && contains_text(masked(m, key), key) {
        let e = Seq::<char>::empty();
        assert forall|i: int| !occurs_at(e, key, i) by {}
    }
}

/// `m` with the secret `key` hidden.
pub fn redact(m: &str, key: &str) -> (r: String)
    ensures
        r@ == redacted(m@, key@),
{
    let kv = chars_of(key);
    if kv.len() == 0 || !contains(m, key) {
        return owned(m);
    }
    let hv = chars_of(m);
    let n = hv.len();
    let k = kv.len();
    let mut out = String::new();
    let mut i: usize = 0;
    assert(m@.skip(0) =~= m@);
    while i < n
        invariant
            hv@ == m@,
            kv@ == key@,
            n == hv@.len(),
            k == kv@.len(),
            k > 0,
            i <= n,
            masked(m@, key@) == out@ + masked(m@.skip(i as int), key@),
        decreases n - i,
    {
        let ghost rest = m@.skip(i as int);
        assert(rest.len() > 0);
        let here = if k <= n - i {
            occurs_here(&hv, &kv, i)
        } else {
            false
        };
        proof {
            if k <= n - i {
                assert(rest.subrange(0, k as int) =~= m@.subrange(i as int, i + k));
            }
            assert(here == occurs_at(rest, key@, 0));
        }
        if here {
            let ghost before = out@;
            push_str(&mut out, "***");
            assert(rest.skip(k as int) =~= m@.skip(i + k));
            i = i + k;
            assert(out@ + masked(m@.skip(i as int), key@) =~= before + ("***"@ + masked(
                m@.skip(i as int),
                key@,
            )));
        } else {
            let ghost before = out@;
            push_char(&mut out, hv[i]);
            assert(rest.drop_first() =~= m@.skip(i + 1));
            assert(rest[0] == m@[i as int]);
            i = i + 1;
            assert(out@ + masked(m@.skip(i as int), key@) =~= before + (seq![rest[0]] + masked(
                m@.skip(i as int),
                key@,
            )));
        }
    }
    assert(m@.skip(n as int) =~= Seq::<char>::empty());
    assert(out@ =~= masked(m@, key@));
    if contains(out.as_str(), key) {
        String::new()
    } else {
        out
    }
}

} // verus!
