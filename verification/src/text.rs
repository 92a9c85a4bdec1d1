//! Character-level text operations on `Seq<char>` models of strings: trimming, substring
//! search, UTF-8 widths and decimal rendering, together with the few std conversions the
//! library relies on.
use vstd::prelude::*;

verus! {

// ---------------------------------------------------------------------------------------------
// Names for std conversions whose results take pages to state.
// ---------------------------------------------------------------------------------------------
/// The characters that `char::to_lowercase` yields for `c` (the Unicode lowercase mapping).
pub uninterp spec fn char_lowercase(c: char) -> Seq<char>;

/// The string that `str::to_lowercase` returns for `s`.
pub uninterp spec fn str_lowercase(s: Seq<char>) -> Seq<char>;

/// The string that `String::from_utf8_lossy` returns for the bytes `b`.
pub uninterp spec fn utf8_lossy(b: Seq<u8>) -> Seq<char>;

/// The string that `String::from_utf16_lossy` returns for the code units `u`.
pub uninterp spec fn utf16_lossy(u: Seq<u16>) -> Seq<char>;

/// Trusted: `String::push` appends one character.
#[verifier::external_body]
pub(crate) fn push_char(s: &mut String, c: char)
    ensures
        final(s)@ == old(s)@.push(c),
{
    s.push(c);
}

/// Trusted: `char::to_lowercase`, collected; its result is named `char_lowercase`. In the
/// Unicode mapping it follows, an ASCII capital letter lowers to the letter 32 code points
/// later and any other ASCII character has no lowercase mapping, so it yields itself.
#[verifier::external_body]
pub(crate) fn lowercase_char(c: char) -> (res: Vec<char>)
    ensures
        res@ == char_lowercase(c),
        'A' <= c <= 'Z' ==> res@ == seq![((c as u32) + 32) as char],
        (c as u32) < 128 && !('A' <= c <= 'Z') ==> res@ == seq![c],
{
    c.to_lowercase().collect()
}

/// Trusted: `str::to_lowercase`; its result is named `str_lowercase`.
#[verifier::external_body]
pub(crate) fn lowercase_str(s: &str) -> (res: String)
    ensures
        res@ == str_lowercase(s@),
{
    s.to_lowercase()
}

/// Trusted: `String::from_utf8_lossy`, owned; its result is named `utf8_lossy`. As its
/// documentation says, bytes that are valid UTF-8 decode to the text they encode; how invalid
/// sequences are replaced is left to the name.
#[verifier::external_body]
pub(crate) fn from_utf8_lossy(b: &[u8]) -> (res: String)
    ensures
        res@ == utf8_lossy(b@),
        vstd::utf8::valid_utf8(b@) ==> res@ == vstd::utf8::decode_utf8(b@),
{
    String::from_utf8_lossy(b).into_owned()
}

/// Trusted: `String::from_utf16_lossy`; its result is named `utf16_lossy`.
#[verifier::external_body]
pub(crate) fn from_utf16_lossy(u: &[u16]) -> (res: String)
    ensures
        res@ == utf16_lossy(u@),
{
    String::from_utf16_lossy(u)
}

// ---------------------------------------------------------------------------------------------
// Conversions between strings and character vectors.
// ---------------------------------------------------------------------------------------------
/// The characters of `s`, in order.
pub fn to_chars(s: &str) -> (v: Vec<char>)
    ensures
        v@ == s@,
{
    let mut v: Vec<char> = Vec::new();
    for c in it: s.chars()
        invariant
            v@ == it.seq().take(it.index() as int),
            it.seq() == s@,
    {
        v.push(c);
    }
    v
}

/// The string made of the characters `v`.
pub fn from_chars(v: &[char]) -> (s: String)
    ensures
        s@ == v@,
{
    let mut s = String::new();
    let mut i: usize = 0;
    while i < v.len()
        invariant
            i <= v@.len(),
            s@ == v@.take(i as int),
        decreases v@.len() - i,
    {
        push_char(&mut s, v[i]);
        assert(v@.take(i + 1) =~= v@.take(i as int).push(v@[i as int]));
        i += 1;
    }
    assert(v@.take(v@.len() as int) =~= v@);
    s
}

/// The string made of the characters `v[from..to]`.
pub fn from_char_range(v: &[char], from: usize, to: usize) -> (s: String)
    requires
        from <= to <= v@.len(),
    ensures
        s@ == v@.subrange(from as int, to as int),
{
    let mut s = String::new();
    let mut i: usize = from;
    while i < to
        invariant
            from <= i <= to <= v@.len(),
            s@ == v@.subrange(from as int, i as int),
        decreases to - i,
    {
        push_char(&mut s, v[i]);
        assert(v@.subrange(from as int, i + 1) =~= v@.subrange(from as int, i as int).push(
            v@[i as int],
        ));
        i += 1;
    }
    s
}

/// A copy of `s`.
pub fn copy_str(s: &str) -> (r: String)
    ensures
        r@ == s@,
{
    let v = to_chars(s);
    from_chars(&v)
}

/// Whether two character slices are equal.
pub fn chars_equal(a: &[char], b: &[char]) -> (r: bool)
    ensures
        r == (a@ == b@),
{
    if a.len() != b.len() {
        return false;
    }
    let mut i: usize = 0;
    while i < a.len()
        invariant
            a@.len() == b@.len(),
            i <= a@.len(),
            forall|j: int| 0 <= j < i ==> a@[j] == b@[j],
        decreases a@.len() - i,
    {
        if a[i] != b[i] {
            return false;
        }
        i += 1;
    }
    assert(a@ =~= b@);
    true
}

/// Whether two strings hold the same characters.
pub fn str_equal(a: &str, b: &str) -> (r: bool)
    ensures
        r == (a@ == b@),
{
    let va = to_chars(a);
    let vb = to_chars(b);
    chars_equal(&va, &vb)
}

// ---------------------------------------------------------------------------------------------
// White space and trimming.
// ---------------------------------------------------------------------------------------------
/// The Unicode `White_Space` property, which `char::is_whitespace` and `str::trim` use.
pub open spec fn is_ws(c: char) -> bool {
    let u = c as u32;
    ||| 0x9 <= u <= 0xD
    ||| u == 0x20
    ||| u == 0x85
    ||| u == 0xA0
    ||| u == 0x1680
    ||| 0x2000 <= u <= 0x200A
    ||| u == 0x2028
    ||| u == 0x2029
    ||| u == 0x202F
    ||| u == 0x205F
    ||| u == 0x3000
}

/// Whether `c` is white space in the sense of `char::is_whitespace`.
pub fn is_whitespace(c: char) -> (b: bool)
    ensures
        b == is_ws(c),
{
    let u = c as u32;
    (0x9 <= u && u <= 0xD) || u == 0x20 || u == 0x85 || u == 0xA0 || u == 0x1680 || (0x2000 <= u
        && u <= 0x200A) || u == 0x2028 || u == 0x2029 || u == 0x202F || u == 0x205F || u == 0x3000
}

/// `s` without its leading white space.
pub open spec fn trim_start(s: Seq<char>) -> Seq<char>
    decreases s.len(),
{
    if s.len() > 0 && is_ws(s[0]) {
        trim_start(s.drop_first())
    } else {
        s
    }
}

/// `s` without its trailing white space.
pub open spec fn trim_end(s: Seq<char>) -> Seq<char>
    decreases s.len(),
{
    if s.len() > 0 && is_ws(s.last()) {
        trim_end(s.drop_last())
    } else {
        s
    }
}

/// `s` without leading and trailing white space, as `str::trim` returns it.
pub open spec fn trim(s: Seq<char>) -> Seq<char> {
    trim_end(trim_start(s))
}

/// Whether `s` holds nothing but white space.
pub open spec fn is_blank(s: Seq<char>) -> bool {
    trim(s).len() == 0
}

proof fn lemma_trim_start_skip(s: Seq<char>, i: int)
    requires
        0 <= i <= s.len(),
        forall|j: int| 0 <= j < i ==> is_ws(#[trigger] s[j]),
    ensures
        trim_start(s) == trim_start(s.subrange(i, s.len() as int)),
    decreases i,
{
    if i > 0 {
        assert(s.drop_first().subrange(i - 1, s.drop_first().len() as int) =~= s.subrange(
            i,
            s.len() as int,
        ));
        lemma_trim_start_skip(s.drop_first(), i - 1);
    } else {
        assert(s.subrange(0, s.len() as int) =~= s);
    }
}

proof fn lemma_trim_end_cut(s: Seq<char>, k: int)
    requires
        0 <= k <= s.len(),
        forall|j: int| k <= j < s.len() ==> is_ws(#[trigger] s[j]),
    ensures
        trim_end(s) == trim_end(s.subrange(0, k)),
    decreases s.len() - k,
{
    if k < s.len() {
        assert(s.drop_last().subrange(0, k) =~= s.subrange(0, k));
        lemma_trim_end_cut(s.drop_last(), k);
    } else {
        assert(s.subrange(0, k) =~= s);
    }
}

/// Bounds `(a, b)` with `s[a..b]` the trimmed text of `s`.
pub fn trim_bounds(s: &[char]) -> (r: (usize, usize))
    ensures
        r.0 <= r.1 <= s@.len(),
        s@.subrange(r.0 as int, r.1 as int) == trim(s@),
{
    let mut a: usize = 0;
    while a < s.len() && is_whitespace(s[a])
        invariant
            a <= s@.len(),
            forall|j: int| 0 <= j < a ==> is_ws(#[trigger] s@[j]),
        decreases s@.len() - a,
    {
        a += 1;
    }
    proof {
        lemma_trim_start_skip(s@, a as int);
    }
    let ghost t = s@.subrange(a as int, s@.len() as int);
    assert(trim_start(t) == t);
    let mut b: usize = s.len();
    while b > a && is_whitespace(s[b - 1])
        invariant
            a <= b <= s@.len(),
            forall|j: int| b <= j < s@.len() ==> is_ws(#[trigger] s@[j]),
        decreases b,
    {
        b -= 1;
    }
    proof {
        let k = b - a;
        assert forall|j: int| k <= j < t.len() implies is_ws(#[trigger] t[j]) by {
            assert(t[j] == s@[j + a]);
        }
        lemma_trim_end_cut(t, k);
        let u = t.subrange(0, k);
        assert(u =~= s@.subrange(a as int, b as int));
        if u.len() > 0 {
            assert(!is_ws(u.last()));
        }
        assert(trim_end(u) == u);
    }
    (a, b)
}

/// The trimmed text of `s`, as a new string.
pub fn trim_string(s: &str) -> (r: String)
    ensures
        r@ == trim(s@),
{
    let v = to_chars(s);
    let (a, b) = trim_bounds(&v);
    from_char_range(&v, a, b)
}

/// Whether `s` is empty after trimming.
pub fn blank(s: &str) -> (r: bool)
    ensures
        r == is_blank(s@),
{
    let v = to_chars(s);
    let (a, b) = trim_bounds(&v);
    a == b
}

// ---------------------------------------------------------------------------------------------
// Substring search.
// ---------------------------------------------------------------------------------------------
/// `n` occurs in `h` starting at position `i`.
pub open spec fn occurs_at(h: Seq<char>, n: Seq<char>, i: int) -> bool {
    0 <= i && i + n.len() <= h.len() && h.subrange(i, i + n.len()) == n
}

/// The first position at or after `i` where `n` occurs in `h`.
pub open spec fn find_from(h: Seq<char>, n: Seq<char>, i: int) -> Option<int>
    decreases h.len() + 1 - i,
{
    if i < 0 || i + n.len() > h.len() {
        None
    } else if occurs_at(h, n, i) {
        Some(i)
    } else {
        find_from(h, n, i + 1)
    }
}

/// The first position where `n` occurs in `h`, as `str::find` gives it (counted in characters).
pub open spec fn find(h: Seq<char>, n: Seq<char>) -> Option<int> {
    find_from(h, n, 0)
}

/// `n` occurs somewhere in `h`.
pub open spec fn contains(h: Seq<char>, n: Seq<char>) -> bool {
    find(h, n) is Some
}

/// `h` begins with `n`.
pub open spec fn starts_with(h: Seq<char>, n: Seq<char>) -> bool {
    n.len() <= h.len() && h.take(n.len() as int) == n
}

/// What `find_from` returns: its position holds an occurrence and no earlier one exists.
pub proof fn lemma_find_from(h: Seq<char>, n: Seq<char>, i: int)
    requires
        0 <= i,
    ensures
        find_from(h, n, i) matches Some(k) ==> i <= k && occurs_at(h, n, k) && forall|j: int|
            i <= j < k ==> !occurs_at(h, n, j),
        find_from(h, n, i) is None ==> forall|j: int| i <= j ==> !occurs_at(h, n, j),
    decreases h.len() + 1 - i,
{
    if i + n.len() > h.len() {
    } else if occurs_at(h, n, i) {
    } else {
        lemma_find_from(h, n, i + 1);
    }
}

/// Whether `n` occurs in `h` at position `i`.
pub fn matches_at(h: &[char], n: &[char], i: usize) -> (r: bool)
    ensures
        r == occurs_at(h@, n@, i as int),
{
    let hl = h.len();
    assert(hl == h@.len());
    if i > hl || n.len() > hl - i {
        return false;
    }
    let mut j: usize = 0;
    while j < n.len()
        invariant
            hl == h@.len(),
            i + n@.len() <= h@.len(),
            j <= n@.len(),
            forall|k: int| 0 <= k < j ==> h@[i + k] == n@[k],
        decreases n@.len() - j,
    {
        assert(i + j < h@.len());
        if h[i + j] != n[j] {
            assert(h@.subrange(i as int, i + n@.len())[j as int] != n@[j as int]);
            return false;
        }
        j += 1;
    }
    assert(h@.subrange(i as int, i + n@.len()) =~= n@);
    true
}

/// The first position at or after `from` where `n` occurs in `h`.
pub fn find_chars(h: &[char], n: &[char], from: usize) -> (r: Option<usize>)
    ensures
        r matches Some(k) ==> find_from(h@, n@, from as int) == Some(k as int),
        r matches Some(k) ==> from <= k && k + n@.len() <= h@.len() && occurs_at(h@, n@, k as int),
        r is None ==> find_from(h@, n@, from as int) is None,
{
    proof {
        lemma_find_from(h@, n@, from as int);
    }
    if n.len() > h.len() {
        proof {
            lemma_find_from(h@, n@, from as int);
            if find_from(h@, n@, from as int) is Some {
                assert(false);
            }
        }
        return None;
    }
    let last = h.len() - n.len();
    let mut i = from;
    while i <= last
        invariant
            last + n@.len() == h@.len(),
            from <= i,
            find_from(h@, n@, from as int) == find_from(h@, n@, i as int),
        decreases last + 1 - i,
    {
        if matches_at(h, n, i) {
            return Some(i);
        }
        if i == last {
            assert(find_from(h@, n@, i + 1) is None);
            return None;
        }
        i += 1;
    }
    None
}

/// Whether the text `h` contains the text `n`.
pub fn contains_str(h: &str, n: &str) -> (r: bool)
    ensures
        r == contains(h@, n@),
{
    let hv = to_chars(h);
    let nv = to_chars(n);
    find_chars(&hv, &nv, 0).is_some()
}

/// Whether the text `h` begins with the text `n`.
pub fn starts_with_chars(h: &[char], n: &[char]) -> (r: bool)
    ensures
        r == starts_with(h@, n@),
{
    let r = matches_at(h, n, 0);
    proof {
        if n@.len() <= h@.len() {
            assert(h@.subrange(0, n@.len() as int) == h@.take(n@.len() as int));
        }
    }
    r
}

// ---------------------------------------------------------------------------------------------
// UTF-8 widths and byte offsets.
// ---------------------------------------------------------------------------------------------
/// Number of bytes that the UTF-8 encoding of `c` occupies (`char::len_utf8`).
pub open spec fn utf8_width(c: char) -> nat {
    if (c as u32) < 0x80 {
        1
    } else if (c as u32) < 0x800 {
        2
    } else if (c as u32) < 0x10000 {
        3
    } else {
        4
    }
}

/// Number of bytes that the UTF-8 encoding of `s` occupies.
pub open spec fn byte_len(s: Seq<char>) -> nat
    decreases s.len(),
{
    if s.len() == 0 {
        0
    } else {
        byte_len(s.drop_last()) + utf8_width(s.last())
    }
}

/// Byte offset at which the character at position `i` of `s` starts.
pub open spec fn byte_offset(s: Seq<char>, i: int) -> nat {
    byte_len(s.take(i))
}

/// UTF-8 width of `c`.
pub fn char_width(c: char) -> (w: usize)
    ensures
        w == utf8_width(c),
{
    let u = c as u32;
    if u < 0x80 {
        1
    } else if u < 0x800 {
        2
    } else if u < 0x10000 {
        3
    } else {
        4
    }
}

/// Byte offsets grow with the character position.
pub proof fn lemma_byte_len_mono(s: Seq<char>, i: int, j: int)
    requires
        0 <= i <= j <= s.len(),
    ensures
        byte_len(s.take(i)) <= byte_len(s.take(j)),
        j - i <= byte_len(s.take(j)) - byte_len(s.take(i)) <= 4 * (j - i),
    decreases j - i,
{
    if i < j {
        lemma_byte_len_mono(s, i, j - 1);
        assert(s.take(j).drop_last() =~= s.take(j - 1));
    }
}

/// The byte offsets of every character position of `v`, plus the total length at the end.
pub fn byte_offsets(v: &[char]) -> (r: Vec<usize>)
    requires
        byte_len(v@) <= usize::MAX,
    ensures
        r@.len() == v@.len() + 1,
        forall|i: int| 0 <= i <= v@.len() ==> r@[i] == byte_offset(v@, i),
{
    let mut r: Vec<usize> = Vec::new();
    let mut total: usize = 0;
    r.push(0);
    assert(v@.take(0) =~= Seq::<char>::empty());
    let mut i: usize = 0;
    while i < v.len()
        invariant
            byte_len(v@) <= usize::MAX,
            i <= v@.len(),
            r@.len() == i + 1,
            total == byte_offset(v@, i as int),
            forall|k: int| 0 <= k <= i ==> r@[k] == byte_offset(v@, k),
        decreases v@.len() - i,
    {
        proof {
            lemma_byte_len_mono(v@, i + 1, v@.len() as int);
            assert(v@.take(v@.len() as int) =~= v@);
            assert(v@.take(i + 1).drop_last() =~= v@.take(i as int));
        }
        total = total + char_width(v[i]);
        r.push(total);
        i += 1;
    }
    r
}

/// The byte length of `s` counts the widths of its characters from the front too.
pub proof fn lemma_byte_len_first(s: Seq<char>)
    requires
        s.len() > 0,
    ensures
        byte_len(s) == utf8_width(s[0]) + byte_len(s.drop_first()),
    decreases s.len(),
{
    if s.len() == 1 {
        assert(s.drop_last() =~= Seq::<char>::empty());
        assert(s.drop_first() =~= Seq::<char>::empty());
    } else {
        lemma_byte_len_first(s.drop_last());
        assert(s.drop_last().drop_first() =~= s.drop_first().drop_last());
    }
}

/// The UTF-8 encoding of `c` has `utf8_width(c)` bytes.
pub proof fn lemma_scalar_len(c: char)
    ensures
        vstd::utf8::encode_scalar(c as u32).len() == utf8_width(c),
{
    let u = c as u32;
    assert(u <= 0xD7FF || (0xE000 <= u && u <= 0x10FFFF));
}

/// The UTF-8 encoding of `s` has `byte_len(s)` bytes.
pub proof fn lemma_encode_len(s: Seq<char>)
    ensures
        vstd::utf8::encode_utf8(s).len() == byte_len(s),
    decreases s.len(),
{
    if s.len() > 0 {
        lemma_encode_len(s.drop_first());
        lemma_byte_len_first(s);
        lemma_scalar_len(s[0]);
    }
}

/// The number of bytes of the UTF-8 text `s` (`str::len`), which is `byte_len(s@)`.
pub fn str_byte_len(s: &str) -> (n: usize)
    ensures
        n == byte_len(s@),
{
    let b = s.as_bytes();
    proof {
        lemma_encode_len(s@);
    }
    b.len()
}

/// Whether byte position `b` of the UTF-8 encoding of `s` is a character boundary.
pub open spec fn char_boundary(s: Seq<char>, b: int) -> bool {
    exists|k: int| 0 <= k <= s.len() && #[trigger] byte_offset(s, k) == b
}

/// The byte offset of character position `i` of `v`.
pub fn offset_of(v: &[char], i: usize) -> (r: usize)
    requires
        i <= v@.len(),
        byte_len(v@) <= usize::MAX,
    ensures
        r == byte_offset(v@, i as int),
{
    let mut total: usize = 0;
    let mut k: usize = 0;
    assert(v@.take(0) =~= Seq::<char>::empty());
    while k < i
        invariant
            byte_len(v@) <= usize::MAX,
            k <= i <= v@.len(),
            total == byte_offset(v@, k as int),
        decreases i - k,
    {
        proof {
            lemma_byte_len_mono(v@, k + 1, v@.len() as int);
            assert(v@.take(v@.len() as int) =~= v@);
            assert(v@.take(k + 1).drop_last() =~= v@.take(k as int));
        }
        total = total + char_width(v[k]);
        k += 1;
    }
    total
}

// ---------------------------------------------------------------------------------------------
// Decimal rendering.
// ---------------------------------------------------------------------------------------------
/// The decimal digit for `d < 10`.
pub open spec fn digit_char(d: nat) -> char {
    if d == 0 {
        '0'
    } else if d == 1 {
        '1'
    } else if d == 2 {
        '2'
    } else if d == 3 {
        '3'
    } else if d == 4 {
        '4'
    } else if d == 5 {
        '5'
    } else if d == 6 {
        '6'
    } else if d == 7 {
        '7'
    } else if d == 8 {
        '8'
    } else {
        '9'
    }
}

/// The decimal text of `n`, as `u64::to_string` writes it.
pub open spec fn decimal(n: nat) -> Seq<char>
    decreases n,
{
    if n < 10 {
        seq![digit_char(n)]
    } else {
        decimal(n / 10).push(digit_char(n % 10))
    }
}

fn digit(d: u64) -> (c: char)
    requires
        d < 10,
    ensures
        c == digit_char(d as nat),
{
    if d == 0 {
        '0'
    } else if d == 1 {
        '1'
    } else if d == 2 {
        '2'
    } else if d == 3 {
        '3'
    } else if d == 4 {
        '4'
    } else if d == 5 {
        '5'
    } else if d == 6 {
        '6'
    } else if d == 7 {
        '7'
    } else if d == 8 {
        '8'
    } else {
        '9'
    }
}

/// The decimal text of `n`.
pub fn u64_to_decimal(n: u64) -> (s: String)
    ensures
        s@ == decimal(n as nat),
    decreases n,
{
    if n < 10 {
        let mut s = String::new();
        push_char(&mut s, digit(n));
        assert(s@ =~= seq![digit_char(n as nat)]);
        s
    } else {
        let mut s = u64_to_decimal(n / 10);
        push_char(&mut s, digit(n % 10));
        s
    }
}

/// The decimal text of `n`, with a minus sign when it is negative, as `i64::to_string`
/// writes it.
pub open spec fn signed_decimal(n: int) -> Seq<char> {
    if n < 0 {
        seq!['-'] + decimal((-n) as nat)
    } else {
        decimal(n as nat)
    }
}

/// The decimal text of `n`, with a minus sign when it is negative.
pub fn i64_to_decimal(n: i64) -> (s: String)
    ensures
        s@ == signed_decimal(n as int),
{
    if n >= 0 {
        u64_to_decimal(n as u64)
    } else {
        let magnitude: u64 = if n == i64::MIN {
            9223372036854775808u64
        } else {
            (-n) as u64
        };
        let digits = u64_to_decimal(magnitude);
        let d = to_chars(digits.as_str());
        let mut s = String::new();
        push_char(&mut s, '-');
        let mut i: usize = 0;
        while i < d.len()
            invariant
                i <= d@.len(),
                s@ == seq!['-'] + d@.take(i as int),
            decreases d@.len() - i,
        {
            push_char(&mut s, d[i]);
            assert(d@.take(i + 1) =~= d@.take(i as int).push(d@[i as int]));
            assert(seq!['-'] + d@.take(i + 1) =~= (seq!['-'] + d@.take(i as int)).push(d@[i as int]));
            i += 1;
        }
        assert(d@.take(d@.len() as int) =~= d@);
        s
    }
}

// ---------------------------------------------------------------------------------------------
// Byte ranges.
// ---------------------------------------------------------------------------------------------
/// `x` clamped to at most `len`.
pub open spec fn clamp(x: usize, len: int) -> int {
    if x as int <= len {
        x as int
    } else {
        len
    }
}

/// Whether both ends of `x`, clamped to the end of `t`, are character boundaries of `t`.
pub open spec fn on_boundaries(t: Seq<char>, x: (usize, usize)) -> bool {
    char_boundary(t, clamp(x.0, byte_len(t) as int)) && char_boundary(
        t,
        clamp(x.1, byte_len(t) as int),
    )
}

/// Whether every range, clamped to the end of `t`, has both ends on character boundaries.
pub open spec fn ranges_on_boundaries(t: Seq<char>, rs: Seq<(usize, usize)>) -> bool {
    forall|i: int| 0 <= i < rs.len() ==> on_boundaries(t, #[trigger] rs[i])
}

/// Whether every range starts no later than it ends.
pub open spec fn ordered_ranges(rs: Seq<(usize, usize)>) -> bool {
    forall|i: int| 0 <= i < rs.len() ==> (#[trigger] rs[i]).0 <= rs[i].1
}

/// Whether every range starts no later than it ends.
pub fn ranges_ordered(rs: &[(usize, usize)]) -> (r: bool)
    ensures
        r == ordered_ranges(rs@),
{
    let mut i: usize = 0;
    while i < rs.len()
        invariant
            i <= rs@.len(),
            forall|j: int| 0 <= j < i ==> (#[trigger] rs@[j]).0 <= rs@[j].1,
        decreases rs@.len() - i,
    {
        if rs[i].0 > rs[i].1 {
            return false;
        }
        i += 1;
    }
    true
}

// ---------------------------------------------------------------------------------------------
// Float syntax.
// ---------------------------------------------------------------------------------------------
/// An ASCII decimal digit.
pub open spec fn is_digit(c: char) -> bool {
    '0' <= c <= '9'
}

/// Whether `c` is `w` up to the case of an ASCII letter (`w` being lower case).
pub open spec fn same_letter(c: char, w: char) -> bool {
    c == w || ('A' <= c <= 'Z' && (c as u32) + 32 == (w as u32))
}

/// Whether `s` is `word` up to the case of ASCII letters (`word` being lower case).
pub open spec fn eq_ignore_ascii_case(s: Seq<char>, word: Seq<char>) -> bool {
    s.len() == word.len() && forall|i: int| 0 <= i < s.len() ==> same_letter(#[trigger] s[i], word[i])
}

/// Digits with at most one '.', and at least one digit: `Digit+`, `Digit+ '.' Digit*` or
/// `Digit* '.' Digit+`.
pub open spec fn is_mantissa(m: Seq<char>) -> bool {
    &&& forall|i: int| 0 <= i < m.len() ==> is_digit(#[trigger] m[i]) || m[i] == '.'
    &&& forall|i: int, j: int|
        #![trigger m[i], m[j]]
        0 <= i < j < m.len() && m[i] == '.' ==> m[j] != '.'
    &&& exists|i: int| 0 <= i < m.len() && is_digit(#[trigger] m[i])
}

/// `x` without a leading sign.
pub open spec fn strip_sign(x: Seq<char>) -> Seq<char> {
    if x.len() > 0 && (x[0] == '+' || x[0] == '-') {
        x.drop_first()
    } else {
        x
    }
}

/// Whether every character of `y` is a digit.
pub open spec fn all_digits(y: Seq<char>) -> bool {
    forall|i: int| 0 <= i < y.len() ==> is_digit(#[trigger] y[i])
}

/// An optional sign followed by at least one digit.
pub open spec fn is_exponent(x: Seq<char>) -> bool {
    strip_sign(x).len() > 0 && all_digits(strip_sign(x))
}

/// The position of the first exponent marker `e` or `E`.
pub open spec fn exp_pos(b: Seq<char>) -> Option<int> {
    if exists|i: int| 0 <= i < b.len() && (b[i] == 'e' || b[i] == 'E') {
        Some(
            choose|i: int|
                0 <= i < b.len() && (b[i] == 'e' || b[i] == 'E') && forall|j: int|
                    0 <= j < i ==> b[j] != 'e' && b[j] != 'E',
        )
    } else {
        None
    }
}

/// The text that `f32::from_str` accepts: an optional sign, then `inf`, `infinity` or `nan`
/// in any case, or a mantissa with an optional exponent.
pub open spec fn is_float_text(s: Seq<char>) -> bool {
    let b = strip_sign(s);
    ||| eq_ignore_ascii_case(b, "inf"@)
    ||| eq_ignore_ascii_case(b, "infinity"@)
    ||| eq_ignore_ascii_case(b, "nan"@)
    ||| match exp_pos(b) {
        Some(e) => is_mantissa(b.take(e)) && is_exponent(b.skip(e + 1)),
        None => is_mantissa(b),
    }
}

fn word_ignore_case(s: &[char], word: &str) -> (r: bool)
    ensures
        r == eq_ignore_ascii_case(s@, word@),
{
    let w = to_chars(word);
    if s.len() != w.len() {
        return false;
    }
    let mut i: usize = 0;
    while i < s.len()
        invariant
            s@.len() == w@.len(),
            w@ == word@,
            i <= s@.len(),
            forall|j: int| 0 <= j < i ==> same_letter(#[trigger] s@[j], w@[j]),
        decreases s@.len() - i,
    {
        let c = s[i];
        let d = w[i];
        if !(c == d || ('A' <= c && c <= 'Z' && (c as u32) + 32 == (d as u32))) {
            return false;
        }
        i += 1;
    }
    true
}

fn check_mantissa(b: &[char], from: usize, to: usize) -> (r: bool)
    requires
        from <= to <= b@.len(),
    ensures
        r == is_mantissa(b@.subrange(from as int, to as int)),
{
    let ghost m = b@.subrange(from as int, to as int);
    let mut i = from;
    let mut dots: usize = 0;
    let mut digits: bool = false;
    while i < to
        invariant
            from <= i <= to <= b@.len(),
            m == b@.subrange(from as int, to as int),
            dots <= 1,
            forall|k: int| 0 <= k < i - from ==> is_digit(#[trigger] m[k]) || m[k] == '.',
            dots == 0 ==> forall|k: int| 0 <= k < i - from ==> #[trigger] m[k] != '.',
            dots == 1 ==> exists|k: int| 0 <= k < i - from && #[trigger] m[k] == '.',
            dots == 1 ==> forall|k: int, l: int|
                #![trigger m[k], m[l]]
                0 <= k < l < i - from && m[k] == '.' ==> m[l] != '.',
            digits == exists|k: int| 0 <= k < i - from && is_digit(#[trigger] m[k]),
        decreases to - i,
    {
        let c = b[i];
        assert(m[i - from] == c);
        if c == '.' {
            if dots == 1 {
                let ghost k = choose|k: int| 0 <= k < i - from && #[trigger] m[k] == '.';
                assert(m[i - from] == '.');
                return false;
            }
            dots = 1;
        } else if !('0' <= c && c <= '9') {
            return false;
        } else {
            digits = true;
        }
        i += 1;
    }
    digits
}

fn check_exponent(b: &[char], from: usize) -> (r: bool)
    requires
        from <= b@.len(),
    ensures
        r == is_exponent(b@.skip(from as int)),
{
    let ghost x = b@.skip(from as int);
    let mut i = from;
    if i < b.len() && (b[i] == '+' || b[i] == '-') {
        i += 1;
    }
    let ghost y = b@.skip(i as int);
    assert(y =~= strip_sign(x));
    if i >= b.len() {
        return false;
    }
    let start = i;
    while i < b.len()
        invariant
            start <= i <= b@.len(),
            y == b@.skip(start as int),
            y.len() > 0,
            x == b@.skip(from as int),
            y == strip_sign(x),
            forall|k: int| 0 <= k < i - start ==> is_digit(#[trigger] y[k]),
        decreases b@.len() - i,
    {
        assert(y[i - start] == b@[i as int]);
        if !('0' <= b[i] && b[i] <= '9') {
            assert(!is_digit(y[i - start]));
            return false;
        }
        i += 1;
    }
    true
}

/// Whether `f32::from_str` accepts `s`.
pub fn is_float(s: &str) -> (r: bool)
    ensures
        r == is_float_text(s@),
{
    let v = to_chars(s);
    let mut from: usize = 0;
    if v.len() > 0 && (v[0] == '+' || v[0] == '-') {
        from = 1;
    }
    let b = slice_from(&v, from);
    assert(b@ =~= strip_sign(s@));
    if word_ignore_case(&b, "inf") || word_ignore_case(&b, "infinity") || word_ignore_case(
        &b,
        "nan",
    ) {
        return true;
    }
    let mut e: usize = 0;
    while e < b.len() && b[e] != 'e' && b[e] != 'E'
        invariant
            e <= b@.len(),
            forall|j: int| 0 <= j < e ==> b@[j] != 'e' && b@[j] != 'E',
        decreases b@.len() - e,
    {
        e += 1;
    }
    if e < b.len() {
        assert(exp_pos(b@) == Some(e as int)) by {
            let k = choose|i: int|
                0 <= i < b@.len() && (b@[i] == 'e' || b@[i] == 'E') && forall|j: int|
                    0 <= j < i ==> b@[j] != 'e' && b@[j] != 'E';
            if k < e {
            } else if k > e {
                assert(b@[e as int] == 'e' || b@[e as int] == 'E');
            }
        }
        assert(b@.take(e as int) =~= b@.subrange(0, e as int));
        check_mantissa(&b, 0, e) && check_exponent(&b, e + 1)
    } else {
        assert(b@.subrange(0, b@.len() as int) =~= b@);
        check_mantissa(&b, 0, b.len())
    }
}

/// The characters of `v` from position `from` on.
pub fn slice_from(v: &[char], from: usize) -> (r: Vec<char>)
    requires
        from <= v@.len(),
    ensures
        r@ == v@.skip(from as int),
{
    let mut r: Vec<char> = Vec::new();
    let mut i = from;
    while i < v.len()
        invariant
            from <= i <= v@.len(),
            r@ == v@.subrange(from as int, i as int),
        decreases v@.len() - i,
    {
        r.push(v[i]);
        assert(v@.subrange(from as int, i + 1) =~= v@.subrange(from as int, i as int).push(
            v@[i as int],
        ));
        i += 1;
    }
    assert(v@.subrange(from as int, v@.len() as int) =~= v@.skip(from as int));
    r
}

/// The characters of `v` in positions `from..to`.
pub fn slice_range(v: &[char], from: usize, to: usize) -> (r: Vec<char>)
    requires
        from <= to <= v@.len(),
    ensures
        r@ == v@.subrange(from as int, to as int),
{
    let mut r: Vec<char> = Vec::new();
    let mut i = from;
    while i < to
        invariant
            from <= i <= to <= v@.len(),
            r@ == v@.subrange(from as int, i as int),
        decreases to - i,
    {
        r.push(v[i]);
        assert(v@.subrange(from as int, i + 1) =~= v@.subrange(from as int, i as int).push(
            v@[i as int],
        ));
        i += 1;
    }
    r
}

} // verus!
