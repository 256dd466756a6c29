//! Small text helpers shared by the modules: the decimal rendering of
//! integers and string building with stated results.

use vstd::prelude::*;
use vstd::string::StringExecFns;

verus! {

/// The ASCII digit for `d` (for `d < 10`).
pub open spec fn digit_char(d: nat) -> char {
    (48 + d) as char
}

/// The decimal digits of `n`, most significant first, without leading zeros.
pub open spec fn decimal(n: nat) -> Seq<char>
    decreases n,
{
    if n < 10 {
        seq![digit_char(n)]
    } else {
        decimal(n / 10).push(digit_char(n % 10))
    }
}

/// Appends the decimal digits of `n` to `out`.
fn push_decimal(out: &mut Vec<char>, n: u128)
    ensures
        final(out)@ == old(out)@ + decimal(n as nat),
    decreases n,
{
    if n >= 10 {
        push_decimal(out, n / 10);
    }
    let d: u8 = (n % 10) as u8;
    out.push((48u8 + d) as char);
    proof {
        if n < 10 {
            assert(decimal(n as nat) =~= seq![digit_char(n as nat)]);
        }
    }
    assert(final(out)@ =~= old(out)@ + decimal(n as nat));
}

/// The decimal text of a `u128`.
pub fn u128_to_string(n: u128) -> (s: String)
    ensures
        s@ == decimal(n as nat),
{
    let mut v: Vec<char> = Vec::new();
    push_decimal(&mut v, n);
    assert(v@ =~= decimal(n as nat));
    string_from_chars(&v)
}

/// The decimal text of a `u64`.
pub fn u64_to_string(n: u64) -> (s: String)
    ensures
        s@ == decimal(n as nat),
{
    u128_to_string(n as u128)
}

/// The decimal text of a `usize`.
pub fn usize_to_string(n: usize) -> (s: String)
    ensures
        s@ == decimal(n as nat),
{
    u128_to_string(n as u128)
}

/// Appends one character through std's `String::push`.
/// Claimed: the string grows by exactly that character.
#[verifier::external_body]
pub fn push_char(s: &mut String, c: char)
    ensures
        final(s)@ == old(s)@.push(c),
{
    s.push(c);
}

/// Collects the characters of a string slice through std's `chars().collect()`.
/// Claimed: the vector holds the characters of the slice, in order.
#[verifier::external_body]
pub fn chars_of(s: &str) -> (v: Vec<char>)
    ensures
        v@ == s@,
{
    s.chars().collect()
}

/// Builds a `String` from a vector of characters through std's `iter().collect()`.
/// Claimed: the string holds exactly those characters.
#[verifier::external_body]
pub fn string_from_chars(v: &Vec<char>) -> (s: String)
    ensures
        s@ == v@,
{
    v.iter().collect()
}

/// A copy of a byte vector.
pub fn copy_bytes(v: &Vec<u8>) -> (r: Vec<u8>)
    ensures
        r@ == v@,
{
    let mut r: Vec<u8> = Vec::new();
    let mut i: usize = 0;
    while i < v.len()
        invariant
            i <= v.len(),
            r@ == v@.subrange(0, i as int),
        decreases v.len() - i,
    {
        r.push(v[i]);
        i = i + 1;
    }
    assert(r@ =~= v@);
    r
}

/// `a` followed by `b`.
pub fn concat2(a: &str, b: &str) -> (s: String)
    ensures
        s@ == a@ + b@,
{
    let mut s = String::from_str(a);
    s.append(b);
    s
}

/// `a`, then `b`, then `c`.
pub fn concat3(a: &str, b: &str, c: &str) -> (s: String)
    ensures
        s@ == a@ + b@ + c@,
{
    let mut s = String::from_str(a);
    s.append(b);
    s.append(c);
    s
}

/// Character-wise equality of two string slices.
pub fn str_equal(a: &str, b: &str) -> (r: bool)
    ensures
        r == (a@ == b@),
{
    let x = chars_of(a);
    let y = chars_of(b);
    if x.len() != y.len() {
        return false;
    }
    let mut i: usize = 0;
    while i < x.len()
        invariant
            x@ == a@,
            y@ == b@,
            x.len() == y.len(),
            i <= x.len(),
            forall|j: int| 0 <= j < i ==> x@[j] == y@[j],
        decreases x.len() - i,
    {
        if x[i] != y[i] {
            return false;
        }
        i = i + 1;
    }
    assert(x@ =~= y@);
    true
}


/// `p` occurs in `s` at position `i`.
pub open spec fn occurs_at(s: Seq<char>, p: Seq<char>, i: int) -> bool {
    0 <= i && i + p.len() <= s.len() && s.subrange(i, i + p.len()) == p
}

/// `p` is a prefix of `s`.
pub open spec fn has_prefix(s: Seq<char>, p: Seq<char>) -> bool {
    occurs_at(s, p, 0)
}

/// `p` occurs somewhere in `s`.
pub open spec fn contains_text(s: Seq<char>, p: Seq<char>) -> bool {
    exists|i: int| occurs_at(s, p, i)
}

/// `i` is the first position where `p` occurs in `s`.
pub open spec fn first_occurrence(s: Seq<char>, p: Seq<char>, i: int) -> bool {
    occurs_at(s, p, i) && forall|j: int| 0 <= j < i ==> !occurs_at(s, p, j)
}

/// `s` without the leading characters that satisfy `drop`.
pub open spec fn strip_start(s: Seq<char>, drop: spec_fn(char) -> bool) -> Seq<char>
    decreases s.len(),
{
    if s.len() > 0 && drop(s[0]) {
        strip_start(s.drop_first(), drop)
    } else {
        s
    }
}

/// `s` without the trailing characters that satisfy `drop`.
pub open spec fn strip_end(s: Seq<char>, drop: spec_fn(char) -> bool) -> Seq<char>
    decreases s.len(),
{
    if s.len() > 0 && drop(s.last()) {
        strip_end(s.drop_last(), drop)
    } else {
        s
    }
}

/// `s` without the leading and trailing characters that satisfy `drop`.
pub open spec fn strip_both(s: Seq<char>, drop: spec_fn(char) -> bool) -> Seq<char> {
    strip_end(strip_start(s, drop), drop)
}

/// Whether `p` occurs in `s` at position `i`.
pub fn matches_at(s: &Vec<char>, p: &Vec<char>, i: usize) -> (r: bool)
    ensures
        r == occurs_at(s@, p@, i as int),
{
    if i > s.len() || p.len() > s.len() - i {
        return false;
    }
    let mut k: usize = 0;
    while k < p.len()
        invariant
            i + p.len() <= s.len(),
            i + p@.len() <= s@.len(),
            k <= p@.len(),
            forall|j: int| 0 <= j < k ==> s@[i + j] == p@[j],
        decreases p.len() - k,
    {
        if s[i + k] != p[k] {
            assert(s@.subrange(i as int, i + p@.len())[k as int] != p@[k as int]);
            return false;
        }
        k = k + 1;
    }
    assert(s@.subrange(i as int, i + p@.len()) =~= p@);
    true
}

/// The first position where `p` occurs in `s`, if any.
pub fn find_text(s: &Vec<char>, p: &Vec<char>) -> (r: Option<usize>)
    ensures
        match r {
            Some(i) => first_occurrence(s@, p@, i as int),
            None => !contains_text(s@, p@),
        },
{
    if p.len() > s.len() {
        return None;
    }
    let last = s.len() - p.len();
    let mut i: usize = 0;
    loop
        invariant
            last == s@.len() - p@.len(),
            i <= last,
            forall|j: int| 0 <= j < i ==> !occurs_at(s@, p@, j),
        decreases last - i,
    {
        let found = matches_at(s, p, i);
        if found {
            return Some(i);
        }
        if i >= last {
            assert forall|j: int| !occurs_at(s@, p@, j) by {
                if 0 <= j && j < i {
                } else if j == i {
                } else if j > last {
                }
            }
            return None;
        }
        i = i + 1;
    }
}

/// Whether `p` occurs in `s`.
pub fn contains_chars(s: &Vec<char>, p: &str) -> (r: bool)
    ensures
        r == contains_text(s@, p@),
{
    let pv = chars_of(p);
    match find_text(s, &pv) {
        Some(i) => true,
        None => false,
    }
}

/// Whether `s` starts with `p`.
pub fn starts_with_chars(s: &Vec<char>, p: &str) -> (r: bool)
    ensures
        r == has_prefix(s@, p@),
{
    let pv = chars_of(p);
    matches_at(s, &pv, 0)
}

/// `s[from..to]` as a vector.
pub fn slice_chars(s: &Vec<char>, from: usize, to: usize) -> (r: Vec<char>)
    requires
        from <= to <= s@.len(),
    ensures
        r@ == s@.subrange(from as int, to as int),
{
    let mut v: Vec<char> = Vec::new();
    let mut i: usize = from;
    while i < to
        invariant
            from <= i <= to <= s@.len(),
            v@ == s@.subrange(from as int, i as int),
        decreases to - i,
    {
        v.push(s[i]);
        i = i + 1;
        assert(v@ =~= s@.subrange(from as int, i as int));
    }
    v
}
/// The UTF-8 encoding of a text.
pub uninterp spec fn utf8_encoding(s: Seq<char>) -> Seq<u8>;

/// The UTF-8 bytes of a text, through `String::into_bytes`; the contract
/// names the encoding and claims nothing more.
#[verifier::external_body]
pub(crate) fn utf8_bytes(s: String) -> (r: Vec<u8>)
    ensures
        r@ == utf8_encoding(s@),
{
    s.into_bytes()
}

/// The text whose UTF-8 encoding the bytes are, through
/// `String::from_utf8`: it succeeds exactly where some text has that
/// encoding, and no other text has it; the error is the decoder's message,
/// whose words are not stated.
#[verifier::external_body]
pub(crate) fn utf8_text(bytes: Vec<u8>) -> (r: Result<String, String>)
    ensures
        match r {
            Ok(s) => utf8_encoding(s@) == bytes@ && forall|t: Seq<char>| #[trigger] utf8_encoding(t) == bytes@ ==> t == s@,
            Err(_) => forall|t: Seq<char>| utf8_encoding(t) != bytes@,
        },
{
    String::from_utf8(bytes).map_err(|e| e.to_string())
}

/// The number of bytes of a character in UTF-8: one below U+0080, two
/// below U+0800, three below U+10000, four above.
pub open spec fn char_utf8_len(c: char) -> nat {
    if (c as u32) < 0x80 {
        1
    } else if (c as u32) < 0x800 {
        2
    } else if (c as u32) < 0x10000 {
        3
    } else {
        4
    }
}

/// The number of bytes of a text in UTF-8.
pub open spec fn utf8_len(s: Seq<char>) -> nat
    decreases s.len(),
{
    if s.len() == 0 {
        0
    } else {
        utf8_len(s.drop_last()) + char_utf8_len(s.last())
    }
}

/// Byte `w` of the text's UTF-8 encoding starts a character or ends the
/// text.
pub open spec fn is_byte_boundary(s: Seq<char>, w: nat) -> bool {
    exists|k: int| 0 <= k <= s.len() && #[trigger] utf8_len(s.take(k)) == w
}

/// The characters of the first `w` bytes of the text, where byte `w` is a
/// boundary.
pub open spec fn cut_bytes(s: Seq<char>, w: nat) -> Seq<char> {
    s.take(choose|k: int| 0 <= k <= s.len() && #[trigger] utf8_len(s.take(k)) == w)
}

/// Longer prefixes take more bytes.
pub proof fn lemma_utf8_len_grows(s: Seq<char>, j: int, k: int)
    requires
        0 <= j <= k <= s.len(),
    ensures
        utf8_len(s.take(j)) + (k - j) <= utf8_len(s.take(k)),
    decreases k - j,
{
    if j < k {
        lemma_utf8_len_grows(s, j, k - 1);
        assert(s.take(k).drop_last() =~= s.take(k - 1));
    }
}

/// The bytes of a character in UTF-8.
pub fn char_len_utf8(c: char) -> (r: usize)
    ensures
        r == char_utf8_len(c),
        1 <= r <= 4,
{
    let v = c as u32;
    if v < 0x80 {
        1
    } else if v < 0x800 {
        2
    } else if v < 0x10000 {
        3
    } else {
        4
    }
}

/// The longest prefix of the characters that fits in `w` bytes: its length
/// and its number of bytes.
pub fn prefix_within_bytes(s: &Vec<char>, w: usize) -> (r: (usize, usize))
    ensures
        r.0 <= s@.len(),
        r.1 == utf8_len(s@.take(r.0 as int)),
        r.1 <= w,
        r.0 < s@.len() ==> r.1 + char_utf8_len(s@[r.0 as int]) > w,
{
    let mut i: usize = 0;
    let mut bytes: usize = 0;
    assert(s@.take(0) =~= Seq::<char>::empty());
    while i < s.len()
        invariant
            i <= s@.len(),
            bytes == utf8_len(s@.take(i as int)),
            bytes <= w,
        decreases s.len() - i,
    {
        let n = char_len_utf8(s[i]);
        if w - bytes < n {
            return (i, bytes);
        }
        assert(s@.take(i + 1).drop_last() =~= s@.take(i as int));
        bytes = bytes + n;
        i = i + 1;
    }
    (i, bytes)
}

/// The characters of the first `w` bytes of `s`, where byte `w` is a
/// boundary (as `&s[..w]` takes them).
pub fn cut_to_bytes(s: &str, w: usize) -> (r: String)
    requires
        is_byte_boundary(s@, w as nat),
    ensures
        r@ == cut_bytes(s@, w as nat),
{
    let cs = chars_of(s);
    let (k, bytes) = prefix_within_bytes(&cs, w);
    proof {
        let j = choose|j: int| 0 <= j <= s@.len() && #[trigger] utf8_len(s@.take(j)) == w;
        if j > k {
            lemma_utf8_len_grows(s@, k + 1, j);
            assert(s@.take(k + 1).drop_last() =~= s@.take(k as int));
        } else if j < k {
            lemma_utf8_len_grows(s@, j, k as int);
        }
        assert(j == k);
    }
    let mut v: Vec<char> = Vec::new();
    let mut i: usize = 0;
    while i < k
        invariant
            k <= cs@.len(),
            i <= k,
            v@ == cs@.take(i as int),
        decreases k - i,
    {
        v.push(cs[i]);
        i = i + 1;
        assert(v@ =~= cs@.take(i as int));
    }
    string_from_chars(&v)
}

/// What `char::escape_debug` yields for a character.
pub uninterp spec fn char_escape_debug(c: char) -> Seq<char>;

/// The characters of `char::escape_debug` (std). Claimed, as its
/// documentation gives them: printable ASCII other than the quotes and the
/// backslash stands for itself; tab, carriage return, line feed, the two
/// quotes and the backslash become their backslash escapes. What other
/// characters become is named only.
#[verifier::external_body]
pub fn escape_debug_char(c: char) -> (r: String)
    ensures
        r@ == char_escape_debug(c),
        0x20 <= (c as u32) <= 0x7e && c != '"' && c != '\'' && c != '\\' ==> r@ == seq![c],
        c == '\\' ==> r@ == seq!['\\', '\\'],
        c == '"' ==> r@ == seq!['\\', '"'],
        c == '\'' ==> r@ == seq!['\\', '\''],
        c == '\n' ==> r@ == seq!['\\', 'n'],
        c == '\r' ==> r@ == seq!['\\', 'r'],
        c == '\t' ==> r@ == seq!['\\', 't'],
{
    c.escape_debug().collect()
}

/// The escaped characters of a text as `str`'s `Debug` writes them: each
/// as `char::escape_debug` gives it, but the single quote, which stays.
pub open spec fn escaped_chars(s: Seq<char>) -> Seq<char>
    decreases s.len(),
{
    if s.len() == 0 {
        Seq::empty()
    } else {
        escaped_chars(s.drop_last()) + if s.last() == '\'' {
            seq!['\'']
        } else {
            char_escape_debug(s.last())
        }
    }
}

/// A text as `str`'s `Debug` writes it: quoted and escaped.
pub open spec fn debug_str(s: Seq<char>) -> Seq<char> {
    seq!['"'] + escaped_chars(s) + seq!['"']
}

/// `s` quoted and escaped as `Debug` writes a string.
pub fn debug_str_text(s: &str) -> (r: String)
    ensures
        r@ == debug_str(s@),
{
    let cs = chars_of(s);
    let mut out = String::from_str("\"");
    proof {
        reveal_strlit("\"");
        assert(cs@.take(0) =~= Seq::<char>::empty());
    }
    assert(out@ =~= seq!['"'] + escaped_chars(cs@.take(0)));
    let mut i: usize = 0;
    while i < cs.len()
        invariant
            cs@ == s@,
            i <= cs@.len(),
            out@ == seq!['"'] + escaped_chars(cs@.take(i as int)),
        decreases cs.len() - i,
    {
        let c = cs[i];
        proof {
            assert(cs@.take(i + 1).drop_last() =~= cs@.take(i as int));
            assert(cs@.take(i + 1).last() == c);
        }
        if c == '\'' {
            push_char(&mut out, '\'');
            assert(out@ =~= seq!['"'] + escaped_chars(cs@.take(i + 1)));
        } else {
            let e = escape_debug_char(c);
            let ghost before = out@;
            out.append(e.as_str());
            assert(out@ =~= seq!['"'] + escaped_chars(cs@.take(i + 1)));
        }
        i = i + 1;
    }
    assert(cs@.take(i as int) =~= s@);
    push_char(&mut out, '"');
    out
}

/// The decimal text of an integer, with a minus sign when negative.
pub open spec fn signed_decimal(n: int) -> Seq<char> {
    if n < 0 {
        seq!['-'] + decimal((-n) as nat)
    } else {
        decimal(n as nat)
    }
}

/// An `i64` in decimal, with a minus sign when negative.
pub fn i64_text(n: i64) -> (r: String)
    ensures
        r@ == signed_decimal(n as int),
{
    if n < 0 {
        let m: u64 = (0i128 - (n as i128)) as u64;
        let d = u64_to_string(m);
        let mut out = String::from_str("-");
        proof {
            reveal_strlit("-");
        }
        out.append(d.as_str());
        out
    } else {
        u64_to_string(n as u64)
    }
}

/// Bytes as `Debug` writes a list of them: `[1, 2, 3]`.
pub open spec fn byte_list(b: Seq<u8>) -> Seq<char> {
    seq!['['] + byte_items(b) + seq![']']
}

/// The bytes in decimal, separated by a comma and a space.
pub open spec fn byte_items(b: Seq<u8>) -> Seq<char>
    decreases b.len(),
{
    if b.len() == 0 {
        Seq::empty()
    } else if b.len() == 1 {
        decimal(b[0] as nat)
    } else {
        byte_items(b.drop_last()) + ", "@ + decimal(b.last() as nat)
    }
}

/// Bytes as `Debug` writes a list of them.
pub fn byte_list_text(b: &Vec<u8>) -> (r: String)
    ensures
        r@ == byte_list(b@),
{
    let mut out = String::from_str("[");
    proof {
        reveal_strlit("[");
        reveal_strlit(", ");
        assert(b@.take(0) =~= Seq::<u8>::empty());
    }
    assert(out@ =~= seq!['['] + byte_items(b@.take(0)));
    let mut i: usize = 0;
    while i < b.len()
        invariant
            i <= b@.len(),
            out@ == seq!['['] + byte_items(b@.take(i as int)),
        decreases b.len() - i,
    {
        proof {
            assert(b@.take(i + 1).drop_last() =~= b@.take(i as int));
            assert(b@.take(i + 1).last() == b@[i as int]);
        }
        if i > 0 {
            out.append(", ");
        }
        let d = u64_to_string(b[i] as u64);
        out.append(d.as_str());
        proof {
            if i == 0 {
                assert(b@.take(1) =~= seq![b@[0]]);
            }
        }
        assert(out@ =~= seq!['['] + byte_items(b@.take(i + 1)));
        i = i + 1;
    }
    assert(b@.take(i as int) =~= b@);
    push_char(&mut out, ']');
    assert(out@ =~= byte_list(b@));
    out
}

/// The lowercase hexadecimal digit for `d` (for `d < 16`).
pub open spec fn hex_digit(d: nat) -> char {
    if d < 10 {
        (48 + d) as char
    } else {
        (87 + d) as char
    }
}

/// The lowercase hexadecimal digits of `n`, most significant first,
/// without leading zeros.
pub open spec fn hex(n: nat) -> Seq<char>
    decreases n,
{
    if n < 16 {
        seq![hex_digit(n)]
    } else {
        hex(n / 16).push(hex_digit(n % 16))
    }
}

/// Appends the lowercase hexadecimal digits of `n` to `out`.
fn push_hex(out: &mut Vec<char>, n: u64)
    ensures
        final(out)@ == old(out)@ + hex(n as nat),
    decreases n,
{
    if n >= 16 {
        push_hex(out, n / 16);
    }
    let d: u8 = (n % 16) as u8;
    let c: char = if d < 10 { (48u8 + d) as char } else { (87u8 + d) as char };
    out.push(c);
    proof {
        if n < 16 {
            assert(hex(n as nat) =~= seq![hex_digit(n as nat)]);
        }
    }
    assert(final(out)@ =~= old(out)@ + hex(n as nat));
}

/// The lowercase hexadecimal text of a `u64`.
pub fn u64_hex_text(n: u64) -> (s: String)
    ensures
        s@ == hex(n as nat),
{
    let mut v: Vec<char> = Vec::new();
    push_hex(&mut v, n);
    assert(v@ =~= hex(n as nat));
    string_from_chars(&v)
}

} // verus!
