//! Character-level helpers shared by the string-processing parts of the library.

use vstd::prelude::*;

verus! {

/// The characters of a string slice, in order.
pub fn chars_of(s: &str) -> (res: Vec<char>)
    ensures
        res@ == s@,
{
    let mut res: Vec<char> = Vec::new();
    for c in it: s.chars()
        invariant
            res@ == it.seq().take(it.index() as int),
            it.seq() == s@,
    {
        res.push(c);
    }
    res
}

/// Builds a `String` holding exactly the given characters (`String::from_iter`).
#[verifier::external_body]
pub(crate) fn string_from_chars(chars: &[char]) -> (res: String)
    ensures
        res@ == chars@,
{
    String::from_iter(chars.iter())
}


/// Unicode `White_Space` property, the set that `char::is_whitespace` tests.
pub open spec fn is_unicode_whitespace(c: char) -> bool {
    let u = c as u32;
    ||| 0x9 <= u <= 0xD
    ||| u == 0x20
    ||| u == 0x85
    ||| u == 0xA0
    ||| u == 0x1680
    ||| 0x2000 <= u <= 0x200A
    ||| u == 0x2028
    ||| u == 0x2029
    ||| u == 0x202F
    ||| u == 0x205F
    ||| u == 0x3000
}

/// `char::is_whitespace`.
pub fn is_whitespace(c: char) -> (res: bool)
    ensures
        res == is_unicode_whitespace(c),
{
    let u = c as u32;
    (0x9 <= u && u <= 0xD) || u == 0x20 || u == 0x85 || u == 0xA0 || u == 0x1680 || (0x2000 <= u
        && u <= 0x200A) || u == 0x2028 || u == 0x2029 || u == 0x202F || u == 0x205F || u == 0x3000
}

pub open spec fn is_ascii_digit(c: char) -> bool {
    '0' <= c <= '9'
}

pub open spec fn ascii_lower(c: char) -> char {
    if 'A' <= c <= 'Z' {
        ((c as u32) + 32) as char
    } else {
        c
    }
}

/// `char::to_ascii_lowercase`.
pub fn to_ascii_lower(c: char) -> (res: char)
    ensures
        res == ascii_lower(c),
{
    if 'A' <= c && c <= 'Z' {
        let u: u32 = (c as u32) + 32;
        assert(0x61 <= u <= 0x7A);
        char_from_ascii(u as u8)
    } else {
        c
    }
}

/// The character of an ASCII code.
pub fn char_from_ascii(b: u8) -> (res: char)
    requires
        b < 128,
    ensures
        res == (b as u32) as char,
        res as u32 == b as u32,
{
    b as char
}

/// Drops leading characters that satisfy `char::is_whitespace`.
pub open spec fn trim_start(s: Seq<char>) -> Seq<char>
    decreases s.len(),
{
    if s.len() > 0 && is_unicode_whitespace(s[0]) {
        trim_start(s.drop_first())
    } else {
        s
    }
}

/// Drops trailing characters that satisfy `char::is_whitespace`.
pub open spec fn trim_end(s: Seq<char>) -> Seq<char>
    decreases s.len(),
{
    if s.len() > 0 && is_unicode_whitespace(s.last()) {
        trim_end(s.drop_last())
    } else {
        s
    }
}

/// `str::trim`.
pub open spec fn trim(s: Seq<char>) -> Seq<char> {
    trim_end(trim_start(s))
}

proof fn lemma_trim_start_skip(s: Seq<char>, i: int)
    requires
        0 <= i <= s.len(),
        forall|j: int| 0 <= j < i ==> is_unicode_whitespace(#[trigger] s[j]),
    ensures
        trim_start(s) == trim_start(s.subrange(i, s.len() as int)),
    decreases i,
{
    if i > 0 {
        assert(s.drop_first().subrange(i - 1, s.drop_first().len() as int) =~= s.subrange(
            i,
            s.len() as int,
        ));
        lemma_trim_start_skip(s.drop_first(), i - 1);
    } else {
        assert(s.subrange(0, s.len() as int) =~= s);
    }
}

proof fn lemma_trim_end_take(s: Seq<char>, k: int)
    requires
        0 <= k <= s.len(),
        forall|j: int| k <= j < s.len() ==> is_unicode_whitespace(#[trigger] s[j]),
    ensures
        trim_end(s) == trim_end(s.subrange(0, k)),
    decreases s.len() - k,
{
    if k < s.len() {
        assert(s.drop_last().subrange(0, k) =~= s.subrange(0, k));
        lemma_trim_end_take(s.drop_last(), k);
    } else {
        assert(s.subrange(0, k) =~= s);
    }
}

/// `str::trim` on a character vector.
pub fn trim_chars(s: &Vec<char>) -> (res: Vec<char>)
    ensures
        res@ == trim(s@),
{
    let n = s.len();
    let mut start: usize = 0;
    while start < n && is_whitespace(s[start])
        invariant
            n == s@.len(),
            start <= n,
            forall|j: int| 0 <= j < start ==> is_unicode_whitespace(#[trigger] s@[j]),
        decreases n - start,
    {
        start += 1;
    }
    proof {
        lemma_trim_start_skip(s@, start as int);
    }
    let ghost rest = s@.subrange(start as int, n as int);
    assert(trim_start(rest) == rest);
    let mut end: usize = n;
    while end > start && is_whitespace(s[end - 1])
        invariant
            n == s@.len(),
            start <= end <= n,
            forall|j: int| end <= j < n ==> is_unicode_whitespace(#[trigger] s@[j]),
        decreases end,
    {
        end -= 1;
    }
    proof {
        assert forall|j: int| end - start <= j < rest.len() implies is_unicode_whitespace(
            #[trigger] rest[j],
        ) by {
            assert(rest[j] == s@[start + j]);
        }
        lemma_trim_end_take(rest, end - start);
        let core = rest.subrange(0, end - start);
        if core.len() > 0 {
            assert(core.last() == s@[end - 1]);
        }
        assert(trim_end(core) == core);
        assert(core =~= s@.subrange(start as int, end as int));
    }
    let mut res: Vec<char> = Vec::new();
    let mut i = start;
    while i < end
        invariant
            n == s@.len(),
            start <= i <= end <= n,
            res@ =~= s@.subrange(start as int, i as int),
        decreases end - i,
    {
        res.push(s[i]);
        i += 1;
    }
    res
}


/// Whether two character vectors hold the same characters.
pub fn chars_eq(a: &Vec<char>, b: &Vec<char>) -> (res: bool)
    ensures
        res == (a@ == b@),
{
    if a.len() != b.len() {
        return false;
    }
    let n = a.len();
    let mut i: usize = 0;
    while i < n
        invariant
            n == a@.len() == b@.len(),
            i <= n,
            forall|j: int| 0 <= j < i ==> a@[j] == b@[j],
        decreases n - i,
    {
        if a[i] != b[i] {
            return false;
        }
        i += 1;
    }
    assert(a@ =~= b@);
    true
}

/// Whether a string slice holds exactly the given characters.
pub fn str_is(s: &str, expected: &str) -> (res: bool)
    ensures
        res == (s@ == expected@),
{
    chars_eq(&chars_of(s), &chars_of(expected))
}

/// `s.to_ascii_lowercase()` on characters.
pub open spec fn lower_all(s: Seq<char>) -> Seq<char> {
    s.map_values(|c: char| ascii_lower(c))
}

/// `str::to_ascii_lowercase` on a character vector.
pub fn lower_chars(s: &Vec<char>) -> (res: Vec<char>)
    ensures
        res@ == lower_all(s@),
{
    let mut res: Vec<char> = Vec::new();
    let n = s.len();
    let mut i: usize = 0;
    while i < n
        invariant
            n == s@.len(),
            i <= n,
            res@ =~= lower_all(s@.subrange(0, i as int)),
        decreases n - i,
    {
        res.push(to_ascii_lower(s[i]));
        i += 1;
    }
    assert(s@.subrange(0, n as int) =~= s@);
    res
}

/// The characters after the last `sep`, or all of `s` when `sep` does not occur
/// (the first item of `s.rsplit(sep)`).
pub open spec fn after_last(s: Seq<char>, sep: char) -> Seq<char>
    decreases s.len(),
{
    if s.len() == 0 {
        s
    } else if s.last() == sep {
        Seq::empty()
    } else {
        after_last(s.drop_last(), sep).push(s.last())
    }
}

proof fn lemma_after_last_suffix(s: Seq<char>, sep: char, k: int)
    requires
        0 <= k <= s.len(),
        forall|j: int| k <= j < s.len() ==> s[j] != sep,
        k == 0 || s[k - 1] == sep,
    ensures
        after_last(s, sep) == s.subrange(k, s.len() as int),
    decreases s.len(),
{
    if s.len() == 0 {
    } else if k == s.len() {
    } else {
        lemma_after_last_suffix(s.drop_last(), sep, k);
        assert(s.drop_last().subrange(k, s.len() - 1).push(s.last()) =~= s.subrange(
            k,
            s.len() as int,
        ));
    }
}

/// `s.rsplit(sep).next()`: the characters after the last separator.
pub fn chars_after_last(s: &Vec<char>, sep: char) -> (res: Vec<char>)
    ensures
        res@ == after_last(s@, sep),
{
    let n = s.len();
    let mut k: usize = n;
    while k > 0 && s[k - 1] != sep
        invariant
            n == s@.len(),
            k <= n,
            forall|j: int| k <= j < n ==> s@[j] != sep,
        decreases k,
    {
        k -= 1;
    }
    proof {
        lemma_after_last_suffix(s@, sep, k as int);
    }
    let mut res: Vec<char> = Vec::new();
    let mut i = k;
    while i < n
        invariant
            n == s@.len(),
            k <= i <= n,
            res@ =~= s@.subrange(k as int, i as int),
        decreases n - i,
    {
        res.push(s[i]);
        i += 1;
    }
    res
}

/// Number of bytes the UTF-8 encoding of `c` occupies.
pub open spec fn utf8_width(c: char) -> nat {
    let u = c as u32;
    if u < 0x80 {
        1
    } else if u < 0x800 {
        2
    } else if u < 0x10000 {
        3
    } else {
        4
    }
}

/// Length in bytes of the UTF-8 encoding of `s` (what `str::len` returns).
pub open spec fn utf8_len(s: Seq<char>) -> nat
    decreases s.len(),
{
    if s.len() == 0 {
        0
    } else {
        utf8_width(s[0]) + utf8_len(s.drop_first())
    }
}

/// `c.len_utf8()`.
pub fn char_width(c: char) -> (res: usize)
    ensures
        res == utf8_width(c),
        1 <= res <= 4,
{
    let u = c as u32;
    if u < 0x80 {
        1
    } else if u < 0x800 {
        2
    } else if u < 0x10000 {
        3
    } else {
        4
    }
}

proof fn lemma_utf8_len_suffix_step(s: Seq<char>, i: int)
    requires
        0 < i <= s.len(),
    ensures
        utf8_len(s.subrange(i - 1, s.len() as int)) == utf8_width(s[i - 1]) + utf8_len(
            s.subrange(i, s.len() as int),
        ),
{
    let t = s.subrange(i - 1, s.len() as int);
    assert(t.drop_first() =~= s.subrange(i, s.len() as int));
}

proof fn lemma_utf8_len_bound(s: Seq<char>)
    ensures
        s.len() <= utf8_len(s) <= 4 * s.len(),
    decreases s.len(),
{
    if s.len() > 0 {
        lemma_utf8_len_bound(s.drop_first());
    }
}

/// Whether `str::len` of these characters exceeds `limit`.
pub fn utf8_len_exceeds(s: &Vec<char>, limit: usize) -> (res: bool)
    ensures
        res == (utf8_len(s@) > limit),
{
    let n = s.len();
    let mut acc: u128 = 0;
    let mut i: usize = n;
    assert(s@.subrange(n as int, n as int).len() == 0);
    while i > 0
        invariant
            n == s@.len(),
            i <= n,
            acc == utf8_len(s@.subrange(i as int, n as int)),
        decreases i,
    {
        proof {
            lemma_utf8_len_suffix_step(s@, i as int);
            lemma_utf8_len_bound(s@.subrange(i as int, n as int));
        }
        let w = char_width(s[i - 1]);
        acc = acc + w as u128;
        i -= 1;
    }
    assert(s@.subrange(0, n as int) =~= s@);
    acc > limit as u128
}

/// Whether byte offset `utf8_len(s) - b` of the UTF-8 encoding of `s` falls on a
/// character boundary, i.e. whether the last `b` bytes are whole characters.
pub open spec fn tail_boundary(s: Seq<char>, b: int) -> bool
    decreases s.len(),
{
    if b <= 0 {
        b == 0
    } else if s.len() == 0 {
        false
    } else if utf8_width(s.last()) > b {
        false
    } else {
        tail_boundary(s.drop_last(), b - utf8_width(s.last()))
    }
}

/// Whether the last `b` bytes of the UTF-8 encoding of `s` are whole characters.
pub fn has_tail_boundary(s: &Vec<char>, b: usize) -> (res: bool)
    ensures
        res == tail_boundary(s@, b as int),
{
    let n = s.len();
    let mut i: usize = n;
    let mut rem: usize = b;
    assert(s@.subrange(0, n as int) =~= s@);
    while rem > 0
        invariant
            n == s@.len(),
            i <= n,
            tail_boundary(s@, b as int) == tail_boundary(s@.subrange(0, i as int), rem as int),
        decreases i,
    {
        if i == 0 {
            return false;
        }
        let w = char_width(s[i - 1]);
        if w > rem {
            return false;
        }
        proof {
            let t = s@.subrange(0, i as int);
            assert(t.last() == s@[i - 1]);
            assert(t.drop_last() =~= s@.subrange(0, i - 1));
        }
        rem -= w;
        i -= 1;
    }
    true
}


/// `a` followed by `b`.
pub fn concat2(a: &str, b: &str) -> (res: String)
    ensures
        res@ == a@ + b@,
{
    let mut s = String::from_str(a);
    s.append(b);
    s
}

/// `a`, `b` and `c` in sequence.
pub fn concat3(a: &str, b: &str, c: &str) -> (res: String)
    ensures
        res@ == a@ + b@ + c@,
{
    let mut s = String::from_str(a);
    s.append(b);
    s.append(c);
    s
}

/// What `format!("{:?}", s)` prints for a string: `s` quoted, with the escapes
/// of `str::escape_debug`.
pub uninterp spec fn str_debug(s: Seq<char>) -> Seq<char>;

/// Renders a string as `{:?}` does (std `<str as Debug>::fmt`).
#[verifier::external_body]
pub(crate) fn debug_str(s: &str) -> (res: String)
    ensures
        res@ == str_debug(s@),
{
    format!("{s:?}")
}

/// What `format!("{:?}", v)` prints for a list of strings: each item as
/// `{:?}` prints it, separated by `, `, in square brackets.
pub open spec fn strings_debug(items: Seq<Seq<char>>) -> Seq<char> {
    seq!['['] + join_with(items.map_values(|x: Seq<char>| str_debug(x)), seq![',', ' ']) + seq![']']
}

/// Renders a vector of strings as `{:?}` does (std `<Vec<String> as Debug>::fmt`,
/// a debug list).
#[verifier::external_body]
pub(crate) fn debug_strings(items: &Vec<String>) -> (res: String)
    ensures
        res@ == strings_debug(strings_view(items@)),
{
    format!("{items:?}")
}

/// Appends one character to a string (`String::push`).
#[verifier::external_body]
pub(crate) fn push_char(s: &mut String, c: char)
    ensures
        final(s)@ == old(s)@.push(c),
{
    s.push(c)
}

/// The ASCII digit for a value below ten.
pub open spec fn digit_char(d: int) -> char {
    ((d + 48) as u32) as char
}

/// Decimal digits of `n`, as `n.to_string()` prints them.
pub open spec fn decimal(n: nat) -> Seq<char>
    decreases n,
{
    if n < 10 {
        seq![digit_char(n as int)]
    } else {
        decimal(n / 10).push(digit_char((n % 10) as int))
    }
}

/// `n.to_string()` for an unsigned integer.
pub fn decimal_string(n: u64) -> (res: String)
    ensures
        res@ == decimal(n as nat),
    decreases n,
{
    let d = (n % 10) as u8;
    let c = char_from_ascii(d + 48);
    if n < 10 {
        let mut s = String::new();
        push_char(&mut s, c);
        assert(s@ =~= seq![digit_char(n as int)]);
        s
    } else {
        let mut s = decimal_string(n / 10);
        push_char(&mut s, c);
        s
    }
}

/// `n.to_string()` for a 128-bit unsigned integer.
pub fn decimal_string_u128(n: u128) -> (res: String)
    ensures
        res@ == decimal(n as nat),
    decreases n,
{
    let d = (n % 10) as u8;
    let c = char_from_ascii(d + 48);
    if n < 10 {
        let mut s = String::new();
        push_char(&mut s, c);
        assert(s@ =~= seq![digit_char(n as int)]);
        s
    } else {
        let mut s = decimal_string_u128(n / 10);
        push_char(&mut s, c);
        s
    }
}

/// Lowercase hexadecimal digit for a value below sixteen.
pub open spec fn hex_digit(d: int) -> char {
    if d < 10 {
        ((d + 48) as u32) as char
    } else {
        ((d + 87) as u32) as char
    }
}

/// A byte as two lowercase hexadecimal digits (`format!("{b:02x}")`).
pub open spec fn hex_byte(b: u8) -> Seq<char> {
    seq![hex_digit((b / 16) as int), hex_digit((b % 16) as int)]
}

/// Lowercase hexadecimal rendering of a byte sequence.
pub open spec fn hex_bytes(bytes: Seq<u8>) -> Seq<char>
    decreases bytes.len(),
{
    if bytes.len() == 0 {
        Seq::empty()
    } else {
        hex_bytes(bytes.drop_last()) + hex_byte(bytes.last())
    }
}

fn hex_digit_char(d: u8) -> (res: char)
    requires
        d < 16,
    ensures
        res == hex_digit(d as int),
{
    if d < 10 {
        char_from_ascii(d + 48)
    } else {
        char_from_ascii(d + 87)
    }
}

/// Appends the lowercase hexadecimal form of `bytes[..count]` to `out`.
pub fn push_hex(out: &mut String, bytes: &Vec<u8>, count: usize)
    requires
        count <= bytes@.len(),
    ensures
        final(out)@ == old(out)@ + hex_bytes(bytes@.subrange(0, count as int)),
{
    let mut i: usize = 0;
    while i < count
        invariant
            count <= bytes@.len(),
            i <= count,
            out@ == old(out)@ + hex_bytes(bytes@.subrange(0, i as int)),
        decreases count - i,
    {
        let b = bytes[i];
        proof {
            let t = bytes@.subrange(0, i + 1);
            assert(t.drop_last() =~= bytes@.subrange(0, i as int));
            assert(t.last() == b);
        }
        push_char(out, hex_digit_char(b / 16));
        push_char(out, hex_digit_char(b % 16));
        assert(out@ =~= old(out)@ + hex_bytes(bytes@.subrange(0, i + 1)));
        i += 1;
    }
}

pub open spec fn opt_string_view(s: Option<String>) -> Option<Seq<char>> {
    match s {
        Some(v) => Some(v@),
        None => None,
    }
}

pub open spec fn opt_str_view(s: Option<&str>) -> Option<Seq<char>> {
    match s {
        Some(v) => Some(v@),
        None => None,
    }
}


/// The views of a vector of strings.
pub open spec fn strings_view(v: Seq<String>) -> Seq<Seq<char>> {
    v.map_values(|s: String| s@)
}

/// `parts.join(sep)`.
pub open spec fn join_with(parts: Seq<Seq<char>>, sep: Seq<char>) -> Seq<char>
    decreases parts.len(),
{
    if parts.len() == 0 {
        Seq::empty()
    } else if parts.len() == 1 {
        parts[0]
    } else {
        join_with(parts.drop_last(), sep) + sep + parts.last()
    }
}

/// `parts.join(sep)` on owned strings.
pub fn join_strings(parts: &Vec<String>, sep: &str) -> (res: String)
    ensures
        res@ == join_with(strings_view(parts@), sep@),
{
    let n = parts.len();
    if n == 0 {
        return String::new();
    }
    let mut res = parts[0].clone();
    assert(strings_view(parts@).subrange(0, 1) =~= seq![parts@[0]@]);
    let mut i: usize = 1;
    while i < n
        invariant
            n == parts@.len(),
            1 <= i <= n,
            res@ == join_with(strings_view(parts@).subrange(0, i as int), sep@),
        decreases n - i,
    {
        res.append(sep);
        res.append(parts[i].as_str());
        proof {
            let t = strings_view(parts@).subrange(0, i + 1);
            assert(t.drop_last() =~= strings_view(parts@).subrange(0, i as int));
        }
        i += 1;
    }
    assert(strings_view(parts@).subrange(0, n as int) =~= strings_view(parts@));
    res
}

/// Lexicographic order of character sequences (the order of `str`, since
/// UTF-8 preserves the order of code points).
pub open spec fn chars_le(a: Seq<char>, b: Seq<char>) -> bool
    decreases a.len(),
{
    if a.len() == 0 {
        true
    } else if b.len() == 0 {
        false
    } else if a[0] != b[0] {
        (a[0] as int) < (b[0] as int)
    } else {
        chars_le(a.drop_first(), b.drop_first())
    }
}

/// The order of character sequences is total.
pub proof fn lemma_chars_le_total(a: Seq<char>, b: Seq<char>)
    ensures
        chars_le(a, b) || chars_le(b, a),
    decreases a.len(),
{
    if a.len() > 0 && b.len() > 0 {
        if a[0] == b[0] {
            lemma_chars_le_total(a.drop_first(), b.drop_first());
        } else {
            assert((a[0] as int) != (b[0] as int));
        }
    }
}

/// The order of character sequences is antisymmetric.
pub proof fn lemma_chars_le_antisymmetric(a: Seq<char>, b: Seq<char>)
    requires
        chars_le(a, b),
        chars_le(b, a),
    ensures
        a == b,
    decreases a.len(),
{
    if a.len() > 0 && b.len() > 0 {
        lemma_chars_le_antisymmetric(a.drop_first(), b.drop_first());
        assert(a =~= seq![a[0]] + a.drop_first());
        assert(b =~= seq![b[0]] + b.drop_first());
    }
}

/// The order of character sequences is transitive.
pub proof fn lemma_chars_le_transitive(a: Seq<char>, b: Seq<char>, c: Seq<char>)
    requires
        chars_le(a, b),
        chars_le(b, c),
    ensures
        chars_le(a, c),
    decreases a.len(),
{
    if a.len() > 0 && b.len() > 0 && c.len() > 0 && a[0] == b[0] && b[0] == c[0] {
        lemma_chars_le_transitive(a.drop_first(), b.drop_first(), c.drop_first());
    }
}

/// Whether `a` sorts before or equal to `b`.
pub fn str_le(a: &str, b: &str) -> (res: bool)
    ensures
        res == chars_le(a@, b@),
{
    let x = chars_of(a);
    let y = chars_of(b);
    let mut i: usize = 0;
    assert(x@.skip(0) =~= x@);
    assert(y@.skip(0) =~= y@);
    loop
        invariant
            x@ == a@,
            y@ == b@,
            i <= x@.len(),
            i <= y@.len(),
            chars_le(a@, b@) == chars_le(x@.skip(i as int), y@.skip(i as int)),
        decreases x@.len() - i,
    {
        if i == x.len() {
            return true;
        }
        if i == y.len() {
            return false;
        }
        let (c, d) = (x[i], y[i]);
        assert(x@.skip(i as int)[0] == c && y@.skip(i as int)[0] == d);
        if c != d {
            return c < d;
        }
        assert(x@.skip(i as int).drop_first() =~= x@.skip(i + 1));
        assert(y@.skip(i as int).drop_first() =~= y@.skip(i + 1));
        i += 1;
    }
}

/// Inserts `x` before the first element of `s` that is not below it.
pub open spec fn insert_sorted(x: Seq<char>, s: Seq<Seq<char>>) -> Seq<Seq<char>>
    decreases s.len(),
{
    if s.len() == 0 {
        seq![x]
    } else if chars_le(x, s[0]) {
        seq![x] + s
    } else {
        seq![s[0]] + insert_sorted(x, s.drop_first())
    }
}

/// `s` in ascending lexicographic order (insertion order among equal items).
pub open spec fn sort_strings(s: Seq<Seq<char>>) -> Seq<Seq<char>>
    decreases s.len(),
{
    if s.len() == 0 {
        Seq::empty()
    } else {
        insert_sorted(s.last(), sort_strings(s.drop_last()))
    }
}

proof fn lemma_insert_sorted_at(x: Seq<char>, s: Seq<Seq<char>>, k: int)
    requires
        0 <= k <= s.len(),
        forall|j: int| 0 <= j < k ==> !chars_le(x, #[trigger] s[j]),
        k == s.len() || chars_le(x, s[k]),
    ensures
        insert_sorted(x, s) == s.insert(k, x),
    decreases s.len(),
{
    if s.len() == 0 {
        assert(s.insert(0, x) =~= seq![x]);
    } else if k == 0 {
        assert(s.insert(0, x) =~= seq![x] + s);
    } else {
        assert forall|j: int| 0 <= j < k - 1 implies !chars_le(x, #[trigger] s.drop_first()[j]) by {
            assert(s.drop_first()[j] == s[j + 1]);
        }
        lemma_insert_sorted_at(x, s.drop_first(), k - 1);
        assert(seq![s[0]] + s.drop_first().insert(k - 1, x) =~= s.insert(k, x));
    }
}

/// Sorts strings ascending in the order of `str`.
pub fn sort_string_vec(items: Vec<String>) -> (res: Vec<String>)
    ensures
        strings_view(res@) == sort_strings(strings_view(items@)),
{
    let n = items.len();
    let mut sorted: Vec<String> = Vec::new();
    let mut i: usize = 0;
    while i < n
        invariant
            n == items@.len(),
            i <= n,
            strings_view(sorted@) == sort_strings(strings_view(items@).subrange(0, i as int)),
        decreases n - i,
    {
        let x = items[i].clone();
        let m = sorted.len();
        let mut k: usize = 0;
        while k < m && !str_le(x.as_str(), sorted[k].as_str())
            invariant
                m == sorted@.len(),
                k <= m,
                forall|j: int| 0 <= j < k ==> !chars_le(x@, #[trigger] strings_view(sorted@)[j]),
            decreases m - k,
        {
            k += 1;
        }
        proof {
            lemma_insert_sorted_at(x@, strings_view(sorted@), k as int);
            let t = strings_view(items@).subrange(0, i + 1);
            assert(t.drop_last() =~= strings_view(items@).subrange(0, i as int));
            assert(t.last() == x@);
        }
        let ghost before = sorted@;
        sorted.insert(k, x);
        assert(strings_view(sorted@) =~= strings_view(before).insert(k as int, x@));
        i += 1;
    }
    assert(strings_view(items@).subrange(0, n as int) =~= strings_view(items@));
    sorted
}

}
