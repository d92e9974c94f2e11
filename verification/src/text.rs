//! Text as a sequence of characters: comparison, ordering, decimal rendering
//! and the ASCII predicates that identifiers are checked with.

use vstd::prelude::*;
#[allow(unused_imports)]
use vstd::utf8::*;

verus! {

broadcast use vstd::string::group_string_axioms;

/// `String::push` appends one character.
pub assume_specification[ std::string::String::push ](s: &mut std::string::String, c: char)
    ensures
        final(s)@ == old(s)@.push(c),
;

/// Strict lexicographic order by code point, which is also the byte order of
/// the UTF-8 encodings.
pub open spec fn lex_lt(a: Seq<char>, b: Seq<char>) -> bool
    decreases a.len(),
{
    if b.len() == 0 {
        false
    } else if a.len() == 0 {
        true
    } else if a[0] == b[0] {
        lex_lt(a.drop_first(), b.drop_first())
    } else {
        a[0] < b[0]
    }
}

/// Lexicographic order: `a` is not after `b`.
pub open spec fn lex_le(a: Seq<char>, b: Seq<char>) -> bool {
    !lex_lt(b, a)
}

pub proof fn lex_lt_irreflexive(a: Seq<char>)
    ensures
        !lex_lt(a, a),
    decreases a.len(),
{
    if a.len() > 0 {
        lex_lt_irreflexive(a.drop_first());
    }
}

pub proof fn lex_lt_transitive(a: Seq<char>, b: Seq<char>, c: Seq<char>)
    requires
        lex_lt(a, b),
        lex_lt(b, c),
    ensures
        lex_lt(a, c),
    decreases a.len(),
{
    if a.len() > 0 && b.len() > 0 && c.len() > 0 && a[0] == b[0] && b[0] == c[0] {
        lex_lt_transitive(a.drop_first(), b.drop_first(), c.drop_first());
    }
}

/// Of two texts one comes first, or they are the same.
pub proof fn lex_lt_total(a: Seq<char>, b: Seq<char>)
    ensures
        lex_lt(a, b) || a == b || lex_lt(b, a),
    decreases a.len(),
{
    if a.len() == 0 || b.len() == 0 {
        assert(a.len() == 0 && b.len() == 0 ==> a =~= b);
    } else if a[0] == b[0] {
        lex_lt_total(a.drop_first(), b.drop_first());
        if a.drop_first() == b.drop_first() {
            assert(a =~= seq![a[0]] + a.drop_first());
            assert(b =~= seq![b[0]] + b.drop_first());
        }
    }
}

pub proof fn lex_lt_asymmetric(a: Seq<char>, b: Seq<char>)
    requires
        lex_lt(a, b),
    ensures
        !lex_lt(b, a),
{
    if lex_lt(b, a) {
        lex_lt_transitive(a, b, a);
        lex_lt_irreflexive(a);
    }
}

pub proof fn lex_le_transitive(a: Seq<char>, b: Seq<char>, c: Seq<char>)
    requires
        lex_le(a, b),
        lex_le(b, c),
    ensures
        lex_le(a, c),
{
    lex_lt_total(a, b);
    lex_lt_total(b, c);
    if lex_lt(c, a) {
        if lex_lt(a, b) {
            lex_lt_transitive(c, a, b);
        }
    }
}

proof fn utf8_injective(a: Seq<char>, b: Seq<char>)
    requires
        encode_utf8(a) == encode_utf8(b),
    ensures
        a == b,
{
    encode_utf8_decode_utf8(a);
    encode_utf8_decode_utf8(b);
}

/// Do the two texts hold the same characters?
pub fn text_eq(a: &str, b: &str) -> (r: bool)
    ensures
        r == (a@ == b@),
{
    let x = a.as_bytes();
    let y = b.as_bytes();
    if x.len() != y.len() {
        return false;
    }
    let mut i: usize = 0;
    while i < x.len()
        invariant
            x@.len() == y@.len(),
            x@ == encode_utf8(a@),
            y@ == encode_utf8(b@),
            0 <= i <= x@.len(),
            forall|j: int| 0 <= j < i ==> x@[j] == y@[j],
        decreases x@.len() - i,
    {
        if x[i] != y[i] {
            return false;
        }
        i += 1;
    }
    proof {
        assert(x@ =~= y@);
        utf8_injective(a@, b@);
    }
    true
}

/// The characters of a text.
pub fn chars_of(s: &str) -> (r: Vec<char>)
    ensures
        r@ == s@,
{
    let mut out: Vec<char> = Vec::new();
    for c in it: s.chars()
        invariant
            out@ == it.seq().take(it.index()),
            it.seq() == s@,
    {
        out.push(c);
    }
    out
}

/// The text made of the given characters.
pub fn text_of(cs: &Vec<char>) -> (r: String)
    ensures
        r@ == cs@,
{
    let mut out = String::new();
    let mut i: usize = 0;
    while i < cs.len()
        invariant
            0 <= i <= cs@.len(),
            out@ == cs@.take(i as int),
        decreases cs@.len() - i,
    {
        out.push(cs[i]);
        i += 1;
    }
    out
}

/// The characters from `from` up to `to`.
pub fn text_range(cs: &Vec<char>, from: usize, to: usize) -> (r: String)
    requires
        from <= to <= cs@.len(),
    ensures
        r@ == cs@.subrange(from as int, to as int),
{
    let mut out = String::new();
    let mut i: usize = from;
    while i < to
        invariant
            from <= i <= to <= cs@.len(),
            out@ == cs@.subrange(from as int, i as int),
        decreases to - i,
    {
        out.push(cs[i]);
        i += 1;
    }
    out
}

proof fn lex_lt_common_prefix(a: Seq<char>, b: Seq<char>, n: int)
    requires
        0 <= n <= a.len(),
        n <= b.len(),
        a.take(n) == b.take(n),
    ensures
        lex_lt(a, b) == lex_lt(a.skip(n), b.skip(n)),
    decreases n,
{
    if n == 0 {
        assert(a.skip(0) =~= a);
        assert(b.skip(0) =~= b);
    } else {
        assert(a[0] == a.take(n)[0]);
        assert(b[0] == b.take(n)[0]);
        let (x, y) = (a.drop_first(), b.drop_first());
        assert forall|i: int| 0 <= i < n - 1 implies #[trigger] x.take(n - 1)[i] == y.take(n - 1)[i] by {
            assert(x.take(n - 1)[i] == a.take(n)[i + 1]);
            assert(y.take(n - 1)[i] == b.take(n)[i + 1]);
        }
        assert(x.take(n - 1) =~= y.take(n - 1));
        lex_lt_common_prefix(x, y, n - 1);
        assert(x.skip(n - 1) =~= a.skip(n));
        assert(y.skip(n - 1) =~= b.skip(n));
    }
}

/// Does `a` come strictly before `b`?
pub fn text_lt(a: &str, b: &str) -> (r: bool)
    ensures
        r == lex_lt(a@, b@),
{
    let x = chars_of(a);
    let y = chars_of(b);
    let mut i: usize = 0;
    while i < x.len() && i < y.len()
        invariant
            x@ == a@,
            y@ == b@,
            0 <= i <= x@.len(),
            i <= y@.len(),
            forall|j: int| 0 <= j < i ==> x@[j] == y@[j],
        decreases x@.len() - i,
    {
        if x[i] != y[i] {
            proof {
                assert(a@.take(i as int) =~= b@.take(i as int));
                lex_lt_common_prefix(a@, b@, i as int);
            }
            return x[i] < y[i];
        }
        i += 1;
    }
    proof {
        assert(a@.take(i as int) =~= b@.take(i as int));
        lex_lt_common_prefix(a@, b@, i as int);
    }
    i < y.len()
}

/// The decimal digit of a number below ten.
pub open spec fn digit_char(d: nat) -> char {
    if d == 0 {
        '0'
    } else if d == 1 {
        '1'
    } else if d == 2 {
        '2'
    } else if d == 3 {
        '3'
    } else if d == 4 {
        '4'
    } else if d == 5 {
        '5'
    } else if d == 6 {
        '6'
    } else if d == 7 {
        '7'
    } else if d == 8 {
        '8'
    } else {
        '9'
    }
}

fn digit(d: u64) -> (r: char)
    requires
        d < 10,
    ensures
        r == digit_char(d as nat),
{
    match d {
        0 => '0',
        1 => '1',
        2 => '2',
        3 => '3',
        4 => '4',
        5 => '5',
        6 => '6',
        7 => '7',
        8 => '8',
        _ => '9',
    }
}

/// A number in decimal notation, without leading zeros.
pub open spec fn nat_text(n: nat) -> Seq<char>
    decreases n,
{
    if n < 10 {
        seq![digit_char(n)]
    } else {
        nat_text(n / 10).push(digit_char(n % 10))
    }
}

/// A signed number in decimal notation.
pub open spec fn int_text(i: int) -> Seq<char> {
    if i < 0 {
        "-"@ + nat_text((-i) as nat)
    } else {
        nat_text(i as nat)
    }
}

/// Decimal notation of an unsigned number.
pub fn u64_text(n: u64) -> (r: String)
    ensures
        r@ == nat_text(n as nat),
    decreases n,
{
    if n < 10 {
        let mut s = String::new();
        s.push(digit(n));
        assert(s@ =~= nat_text(n as nat));
        s
    } else {
        let mut s = u64_text(n / 10);
        s.push(digit(n % 10));
        s
    }
}

/// Decimal notation of a size.
pub fn usize_text(n: usize) -> (r: String)
    ensures
        r@ == nat_text(n as nat),
{
    u64_text(n as u64)
}

/// Decimal notation of a signed number.
pub fn i64_text(i: i64) -> (r: String)
    ensures
        r@ == int_text(i as int),
{
    if i < 0 {
        let magnitude: u64 = if i == i64::MIN {
            0x8000_0000_0000_0000u64
        } else {
            (-i) as u64
        };
        let mut s = "-".to_owned();
        s.append(u64_text(magnitude).as_str());
        s
    } else {
        u64_text(i as u64)
    }
}

pub open spec fn is_digit(c: char) -> bool {
    '0' <= c <= '9'
}

pub open spec fn is_upper(c: char) -> bool {
    'A' <= c <= 'Z'
}

pub open spec fn is_lower(c: char) -> bool {
    'a' <= c <= 'z'
}

/// A letter, digit or underscore of ASCII.
pub open spec fn is_word(c: char) -> bool {
    is_digit(c) || is_upper(c) || is_lower(c) || c == '_'
}

/// A character that an identifier may start with.
pub open spec fn is_word_start(c: char) -> bool {
    is_upper(c) || is_lower(c) || c == '_'
}

pub fn digit_of(c: char) -> (r: bool)
    ensures
        r == is_digit(c),
{
    '0' <= c && c <= '9'
}

pub fn word_char(c: char) -> (r: bool)
    ensures
        r == is_word(c),
{
    ('0' <= c && c <= '9') || ('A' <= c && c <= 'Z') || ('a' <= c && c <= 'z') || c == '_'
}

/// An identifier: `[A-Za-z_][A-Za-z0-9_]*`.
pub open spec fn is_identifier(s: Seq<char>) -> bool {
    &&& s.len() > 0
    &&& is_word_start(s[0])
    &&& forall|i: int| 0 <= i < s.len() ==> #[trigger] is_word(s[i])
}

/// Is the text an identifier?
pub fn identifier(s: &str) -> (r: bool)
    ensures
        r == is_identifier(s@),
{
    let cs = chars_of(s);
    if cs.len() == 0 || digit_of(cs[0]) {
        return false;
    }
    let mut i: usize = 0;
    while i < cs.len()
        invariant
            cs@ == s@,
            cs@.len() > 0,
            !is_digit(cs@[0]),
            0 <= i <= cs@.len(),
            forall|j: int| 0 <= j < i ==> #[trigger] is_word(cs@[j]),
        decreases cs@.len() - i,
    {
        if !word_char(cs[i]) {
            assert(!is_word(s@[i as int]));
            return false;
        }
        i += 1;
    }
    assert(is_word(cs@[0]));
    true
}

/// An ASCII letter in lower case; any other character as it is.
pub open spec fn lower_char(c: char) -> char {
    if is_upper(c) {
        ((c as u8) + 32) as u8 as char
    } else {
        c
    }
}

/// An ASCII letter in upper case; any other character as it is.
pub open spec fn upper_char(c: char) -> char {
    if is_lower(c) {
        ((c as u8) - 32) as u8 as char
    } else {
        c
    }
}

/// ASCII letters in lower case.
pub open spec fn ascii_lower(s: Seq<char>) -> Seq<char> {
    s.map_values(|c: char| lower_char(c))
}

/// ASCII letters in upper case.
pub open spec fn ascii_upper(s: Seq<char>) -> Seq<char> {
    s.map_values(|c: char| upper_char(c))
}

fn to_lower_char(c: char) -> (r: char)
    ensures
        r == lower_char(c),
{
    if 'A' <= c && c <= 'Z' {
        ((c as u8) + 32) as char
    } else {
        c
    }
}

fn to_upper_char(c: char) -> (r: char)
    ensures
        r == upper_char(c),
{
    if 'a' <= c && c <= 'z' {
        ((c as u8) - 32) as char
    } else {
        c
    }
}

/// The text with ASCII letters in lower case.
pub fn to_ascii_lower(s: &str) -> (r: String)
    ensures
        r@ == ascii_lower(s@),
{
    let cs = chars_of(s);
    let mut out = String::new();
    let mut i: usize = 0;
    while i < cs.len()
        invariant
            cs@ == s@,
            0 <= i <= cs@.len(),
            out@ == ascii_lower(s@).take(i as int),
        decreases cs@.len() - i,
    {
        out.push(to_lower_char(cs[i]));
        i += 1;
        assert(out@ =~= ascii_lower(s@).take(i as int));
    }
    out
}

/// The text with ASCII letters in upper case.
pub fn to_ascii_upper(s: &str) -> (r: String)
    ensures
        r@ == ascii_upper(s@),
{
    let cs = chars_of(s);
    let mut out = String::new();
    let mut i: usize = 0;
    while i < cs.len()
        invariant
            cs@ == s@,
            0 <= i <= cs@.len(),
            out@ == ascii_upper(s@).take(i as int),
        decreases cs@.len() - i,
    {
        out.push(to_upper_char(cs[i]));
        i += 1;
        assert(out@ =~= ascii_upper(s@).take(i as int));
    }
    out
}

/// Do the texts agree when the case of ASCII letters is ignored?
pub fn text_eq_ignore_case(a: &str, b: &str) -> (r: bool)
    ensures
        r == (ascii_lower(a@) == ascii_lower(b@)),
{
    let x = to_ascii_lower(a);
    let y = to_ascii_lower(b);
    text_eq(x.as_str(), y.as_str())
}

/// The text in lower case, by the Unicode mappings.
pub uninterp spec fn lowercase(s: Seq<char>) -> Seq<char>;

/// `str::to_lowercase`. The result follows the Unicode tables of std, so it has
/// a name only.
#[verifier::external_body]
pub(crate) fn to_lowercase(s: &str) -> (r: String)
    ensures
        r@ == lowercase(s@),
{
    s.to_lowercase()
}

/// Does the text hold no character?
pub fn is_empty_text(s: &str) -> (r: bool)
    ensures
        r == (s@.len() == 0),
{
    proof {
        reveal_strlit("");
        if s@.len() == 0 {
            assert(s@ =~= ""@);
        }
    }
    text_eq(s, "")
}

/// Is `part` found inside `whole`?
pub open spec fn has_substring(whole: Seq<char>, part: Seq<char>) -> bool {
    exists|i: int| #[trigger] occurs_at(whole, part, i)
}

/// Does `part` stand in `whole` from position `i` on?
pub open spec fn occurs_at(whole: Seq<char>, part: Seq<char>, i: int) -> bool {
    0 <= i && i + part.len() <= whole.len() && whole.subrange(i, i + part.len()) == part
}

fn occurs_here(whole: &Vec<char>, part: &Vec<char>, i: usize) -> (r: bool)
    requires
        i <= whole@.len(),
    ensures
        r == occurs_at(whole@, part@, i as int),
{
    if part.len() > whole.len() - i {
        return false;
    }
    let n: usize = whole.len();
    let mut j: usize = 0;
    while j < part.len()
        invariant
            i + part@.len() <= n == whole@.len(),
            0 <= j <= part@.len(),
            forall|m: int| 0 <= m < j ==> whole@[i + m] == part@[m],
        decreases part@.len() - j,
    {
        if whole[i + j] != part[j] {
            assert(whole@.subrange(i as int, i + part@.len())[j as int] != part@[j as int]);
            return false;
        }
        j += 1;
    }
    assert(whole@.subrange(i as int, i + part@.len()) =~= part@);
    true
}

/// Is `part` found inside `whole`?
pub fn text_contains(whole: &str, part: &str) -> (r: bool)
    ensures
        r == has_substring(whole@, part@),
{
    let w = chars_of(whole);
    let p = chars_of(part);
    if p.len() > w.len() {
        return false;
    }
    let last: usize = w.len() - p.len();
    let mut i: usize = 0;
    loop
        invariant
            w@ == whole@,
            p@ == part@,
            last == w@.len() - p@.len(),
            0 <= i <= last,
            forall|k: int| 0 <= k < i ==> !#[trigger] occurs_at(whole@, part@, k),
        decreases last - i,
    {
        if occurs_here(&w, &p, i) {
            return true;
        }
        if i == last {
            return false;
        }
        i += 1;
    }
}

/// Does the text start with `p`?
pub open spec fn has_prefix(s: Seq<char>, p: Seq<char>) -> bool {
    occurs_at(s, p, 0)
}

/// Does the text end with `p`?
pub open spec fn has_suffix(s: Seq<char>, p: Seq<char>) -> bool {
    occurs_at(s, p, s.len() - p.len())
}

pub fn text_starts_with(s: &str, p: &str) -> (r: bool)
    ensures
        r == has_prefix(s@, p@),
{
    occurs_here(&chars_of(s), &chars_of(p), 0)
}

pub fn text_ends_with(s: &str, p: &str) -> (r: bool)
    ensures
        r == has_suffix(s@, p@),
{
    let x = chars_of(s);
    let y = chars_of(p);
    y.len() <= x.len() && occurs_here(&x, &y, x.len() - y.len())
}

/// The text behind a prefix.
pub fn text_after(s: &str, prefix: &str) -> (r: Option<String>)
    ensures
        r.deep_view() == (if has_prefix(s@, prefix@) {
            Some(s@.skip(prefix@.len() as int))
        } else {
            None
        }),
{
    if !text_starts_with(s, prefix) {
        return None;
    }
    let cs = chars_of(s);
    let from = chars_of(prefix).len();
    assert(s@.skip(prefix@.len() as int) =~= s@.subrange(prefix@.len() as int, s@.len() as int));
    Some(text_range(&cs, from, cs.len()))
}

/// The Unicode property `White_Space`.
pub open spec fn is_white(c: char) -> bool {
    ||| '\u{9}' <= c <= '\u{d}'
    ||| c == ' '
    ||| c == '\u{85}'
    ||| c == '\u{a0}'
    ||| c == '\u{1680}'
    ||| '\u{2000}' <= c <= '\u{200a}'
    ||| c == '\u{2028}'
    ||| c == '\u{2029}'
    ||| c == '\u{202f}'
    ||| c == '\u{205f}'
    ||| c == '\u{3000}'
}

pub fn white_char(c: char) -> (r: bool)
    ensures
        r == is_white(c),
{
    ('\u{9}' <= c && c <= '\u{d}') || c == ' ' || c == '\u{85}' || c == '\u{a0}' || c
        == '\u{1680}' || ('\u{2000}' <= c && c <= '\u{200a}') || c == '\u{2028}' || c
        == '\u{2029}' || c == '\u{202f}' || c == '\u{205f}' || c == '\u{3000}'
}

/// `s` without white space in front.
pub open spec fn trimmed_front(s: Seq<char>) -> Seq<char>
    decreases s.len(),
{
    if s.len() > 0 && is_white(s[0]) {
        trimmed_front(s.drop_first())
    } else {
        s
    }
}

/// `s` without white space at the end.
pub open spec fn trimmed_back(s: Seq<char>) -> Seq<char>
    decreases s.len(),
{
    if s.len() > 0 && is_white(s.last()) {
        trimmed_back(s.drop_last())
    } else {
        s
    }
}

/// `s` without white space at either end.
pub open spec fn trimmed(s: Seq<char>) -> Seq<char> {
    trimmed_back(trimmed_front(s))
}

proof fn trimmed_front_at(s: Seq<char>, n: int)
    requires
        0 <= n <= s.len(),
        n < s.len() ==> !is_white(s[n]),
        forall|i: int| 0 <= i < n ==> is_white(#[trigger] s[i]),
    ensures
        trimmed_front(s) == s.skip(n),
    decreases n,
{
    if n == 0 {
        assert(s.skip(0) =~= s);
    } else {
        assert(is_white(s[0]));
        assert forall|i: int| 0 <= i < n - 1 implies is_white(#[trigger] s.drop_first()[i]) by {
            assert(is_white(s[i + 1]));
        }
        trimmed_front_at(s.drop_first(), n - 1);
        assert(s.drop_first().skip(n - 1) =~= s.skip(n));
    }
}

proof fn trimmed_back_at(s: Seq<char>, n: int)
    requires
        0 <= n <= s.len(),
        n > 0 ==> !is_white(s[n - 1]),
        forall|i: int| n <= i < s.len() ==> is_white(#[trigger] s[i]),
    ensures
        trimmed_back(s) == s.take(n),
    decreases s.len() - n,
{
    if n == s.len() {
        assert(s.take(n) =~= s);
    } else {
        assert(is_white(s[s.len() - 1]));
        trimmed_back_at(s.drop_last(), n);
        assert(s.drop_last().take(n) =~= s.take(n));
    }
}

/// The text without white space at either end.
pub fn trim(s: &str) -> (r: String)
    ensures
        r@ == trimmed(s@),
{
    let cs = chars_of(s);
    let ghost u = s@;
    let mut from: usize = 0;
    while from < cs.len() && white_char(cs[from])
        invariant
            cs@ == u,
            0 <= from <= u.len(),
            forall|j: int| 0 <= j < from ==> is_white(#[trigger] u[j]),
        decreases u.len() - from,
    {
        from += 1;
    }
    proof {
        trimmed_front_at(u, from as int);
    }
    let ghost f = u.skip(from as int);
    let mut to: usize = cs.len();
    while to > from && white_char(cs[to - 1])
        invariant
            cs@ == u,
            f == u.skip(from as int),
            from <= to <= u.len(),
            forall|j: int| to - from <= j < f.len() ==> is_white(#[trigger] f[j]),
        decreases to,
    {
        assert(f[to - from - 1] == u[to - 1]);
        to -= 1;
    }
    proof {
        if to > from {
            assert(f[to - from - 1] == u[to - 1]);
        }
        trimmed_back_at(f, to - from);
        assert(f.take(to - from) =~= u.subrange(from as int, to as int));
    }
    text_range(&cs, from, to)
}

/// The number that decimal digits write.
pub open spec fn digits_value(s: Seq<char>) -> nat
    decreases s.len(),
{
    if s.len() == 0 {
        0
    } else {
        digits_value(s.drop_last()) * 10 + (s.last() as nat - '0' as nat) as nat
    }
}

/// Only decimal digits, and at least one.
pub open spec fn all_digits(s: Seq<char>) -> bool {
    s.len() > 0 && forall|i: int| 0 <= i < s.len() ==> #[trigger] is_digit(s[i])
}

/// The integer that a text writes: an optional sign, then decimal digits.
pub open spec fn integer_of(s: Seq<char>) -> Option<int> {
    if s.len() > 0 && s[0] == '-' {
        if all_digits(s.drop_first()) {
            Some(-(digits_value(s.drop_first()) as int))
        } else {
            None
        }
    } else {
        let body = if s.len() > 0 && s[0] == '+' {
            s.drop_first()
        } else {
            s
        };
        if all_digits(body) {
            Some(digits_value(body) as int)
        } else {
            None
        }
    }
}

/// The 64-bit integer that a text writes.
pub open spec fn i64_of(s: Seq<char>) -> Option<i64> {
    match integer_of(s) {
        Some(i) => if i64::MIN <= i <= i64::MAX {
            Some(i as i64)
        } else {
            None
        },
        None => None,
    }
}

proof fn written_digits(n: nat)
    ensures
        all_digits(nat_text(n)),
        digits_value(nat_text(n)) == n,
    decreases n,
{
    let t = nat_text(n);
    let d = n % 10;
    assert(digit_char(d) as nat - '0' as nat == d);
    if n < 10 {
        assert(t.drop_last() =~= Seq::empty());
        assert(digits_value(t.drop_last()) == 0);
    } else {
        let rest = nat_text(n / 10);
        written_digits(n / 10);
        assert(t.drop_last() =~= rest);
        assert forall|i: int| 0 <= i < t.len() implies #[trigger] is_digit(t[i]) by {
            if i < rest.len() {
                assert(is_digit(rest[i]));
            }
        }
    }
}

/// An integer is read back from the text that writes it.
pub proof fn law_written_integers_are_read(i: i64)
    ensures
        i64_of(int_text(i as int)) == Some(i),
{
    reveal_strlit("-");
    if i < 0 {
        written_digits((-i) as nat);
        assert(int_text(i as int).drop_first() =~= nat_text((-i) as nat));
    } else {
        written_digits(i as nat);
        assert(is_digit(nat_text(i as nat)[0]));
    }
}

proof fn digits_value_grows(s: Seq<char>, n: int)
    requires
        0 <= n <= s.len(),
    ensures
        digits_value(s.take(n)) <= digits_value(s),
    decreases s.len() - n,
{
    if n == s.len() {
        assert(s.take(n) =~= s);
    } else {
        digits_value_grows(s, n + 1);
        assert(s.take(n + 1).drop_last() =~= s.take(n));
    }
}

/// The number that the digits from `from` on write, where it is at most 2^63.
fn digits_from(cs: &Vec<char>, from: usize) -> (r: Option<u64>)
    requires
        from <= cs@.len(),
    ensures
        match r {
            Some(n) => all_digits(cs@.skip(from as int)) && n == digits_value(cs@.skip(from as int))
                && n <= 0x8000_0000_0000_0000u64,
            None => !all_digits(cs@.skip(from as int)) || digits_value(cs@.skip(from as int))
                > 0x8000_0000_0000_0000u64,
        },
{
    let ghost body = cs@.skip(from as int);
    if from == cs.len() {
        return None;
    }
    let mut acc: u64 = 0;
    let mut i: usize = from;
    let mut too_big: bool = false;
    while i < cs.len()
        invariant
            body == cs@.skip(from as int),
            from <= i <= cs@.len(),
            forall|j: int| 0 <= j < i - from ==> is_digit(#[trigger] body[j]),
            !too_big ==> acc == digits_value(body.take(i - from)),
            acc <= 0x8000_0000_0000_0000u64,
            too_big ==> digits_value(body) > 0x8000_0000_0000_0000u64,
        decreases cs@.len() - i,
    {
        let c = cs[i];
        assert(body[i - from] == c);
        if !digit_of(c) {
            assert(!all_digits(body));
            return None;
        }
        if !too_big {
            let d: u64 = (c as u64) - ('0' as u64);
            proof {
                assert(body.take(i - from + 1).drop_last() =~= body.take(i - from));
                assert(body.take(i - from + 1).last() == c);
                assert(digits_value(body.take(i - from + 1)) == acc * 10 + d);
                digits_value_grows(body, i - from + 1);
            }
            if acc > 0x0ccc_cccc_cccc_ccccu64 || acc * 10 + d > 0x8000_0000_0000_0000u64 {
                too_big = true;
            } else {
                acc = acc * 10 + d;
            }
        }
        i += 1;
    }
    assert(body.take(i - from) =~= body);
    if too_big {
        None
    } else {
        Some(acc)
    }
}

/// Read a 64-bit integer: an optional sign, then decimal digits.
pub fn parse_i64(s: &str) -> (r: Option<i64>)
    ensures
        r == i64_of(s@),
{
    let cs = chars_of(s);
    if cs.len() > 0 && cs[0] == '-' {
        assert(cs@.skip(1) =~= s@.drop_first());
        match digits_from(&cs, 1) {
            None => None,
            Some(n) => if n == 0x8000_0000_0000_0000u64 {
                Some(i64::MIN)
            } else {
                Some(-(n as i64))
            },
        }
    } else {
        let from: usize = if cs.len() > 0 && cs[0] == '+' {
            1
        } else {
            0
        };
        proof {
            assert(cs@.skip(0) =~= s@);
            if from == 1 {
                assert(cs@.skip(1) =~= s@.drop_first());
            }
        }
        match digits_from(&cs, from) {
            None => None,
            Some(n) => if n == 0x8000_0000_0000_0000u64 {
                None
            } else {
                Some(n as i64)
            },
        }
    }
}

proof fn nat_text_is_digits(n: nat)
    ensures
        nat_text(n).len() > 0,
        forall|i: int| 0 <= i < nat_text(n).len() ==> #[trigger] is_digit(nat_text(n)[i]),
    decreases n,
{
    if n >= 10 {
        nat_text_is_digits(n / 10);
        let t = nat_text(n);
        assert(t == nat_text(n / 10).push(digit_char(n % 10)));
        assert(is_digit(digit_char(n % 10)));
        assert forall|i: int| 0 <= i < t.len() implies #[trigger] is_digit(t[i]) by {
            if i < t.len() - 1 {
                assert(t[i] == nat_text(n / 10)[i]);
            }
        }
    } else {
        assert(is_digit(digit_char(n)));
    }
}

/// There is no white space at the ends of a written integer, so that trimming leaves it.
pub proof fn written_integer_has_no_white(i: int)
    ensures
        trimmed(int_text(i)) == int_text(i),
{
    reveal_strlit("-");
    let n = if i < 0 {
        (-i) as nat
    } else {
        i as nat
    };
    nat_text_is_digits(n);
    let t = int_text(i);
    let d = nat_text(n);
    assert(is_digit(d[d.len() - 1]));
    assert(is_digit(d[0]));
    assert(t.last() == d.last());
    assert(t[0] == '-' || t[0] == d[0]);
}

/// Trimming takes white space away at the two ends, and nothing else: what is left neither starts
/// nor ends with any.
pub proof fn law_trimming_takes_white_only(s: Seq<char>) -> (ends: (Seq<char>, Seq<char>))
    ensures
        s == ends.0 + trimmed(s) + ends.1,
        forall|i: int| 0 <= i < ends.0.len() ==> is_white(#[trigger] ends.0[i]),
        forall|i: int| 0 <= i < ends.1.len() ==> is_white(#[trigger] ends.1[i]),
        trimmed(s).len() > 0 ==> !is_white(trimmed(s)[0]) && !is_white(trimmed(s).last()),
{
    let a = front_is_white(s);
    let f = trimmed_front(s);
    let b = back_is_white(f);
    assert(s =~= a + trimmed(s) + b);
    if trimmed(s).len() > 0 {
        assert(trimmed(s)[0] == f[0]);
    }
    (a, b)
}

proof fn front_is_white(s: Seq<char>) -> (a: Seq<char>)
    ensures
        s == a + trimmed_front(s),
        forall|i: int| 0 <= i < a.len() ==> is_white(#[trigger] a[i]),
        trimmed_front(s).len() > 0 ==> !is_white(trimmed_front(s)[0]),
    decreases s.len(),
{
    if s.len() > 0 && is_white(s[0]) {
        let rest = front_is_white(s.drop_first());
        let a = seq![s[0]] + rest;
        assert forall|i: int| 0 <= i < a.len() implies is_white(#[trigger] a[i]) by {
            if i > 0 {
                assert(a[i] == rest[i - 1]);
            }
        }
        assert(s =~= seq![s[0]] + s.drop_first());
        assert(seq![s[0]] + (rest + trimmed_front(s)) =~= a + trimmed_front(s));
        a
    } else {
        let a = Seq::<char>::empty();
        assert(s =~= a + s);
        a
    }
}

proof fn back_is_white(s: Seq<char>) -> (b: Seq<char>)
    ensures
        s == trimmed_back(s) + b,
        forall|i: int| 0 <= i < b.len() ==> is_white(#[trigger] b[i]),
        trimmed_back(s).len() > 0 ==> !is_white(trimmed_back(s).last()),
    decreases s.len(),
{
    if s.len() > 0 && is_white(s.last()) {
        let rest = back_is_white(s.drop_last());
        let b = rest.push(s.last());
        assert(s =~= s.drop_last().push(s.last()));
        assert((trimmed_back(s) + rest).push(s.last()) =~= trimmed_back(s) + b);
        b
    } else {
        let b = Seq::<char>::empty();
        assert(s =~= s + b);
        b
    }
}

/// Texts compare like words in a dictionary: at the first place where they differ, by the
/// character there, and a text comes before its extensions.
pub proof fn law_texts_compare_like_words(a: Seq<char>, b: Seq<char>)
    ensures
        lex_lt(a, b) <==> exists|k: int| #[trigger] first_differs_at(a, b, k),
    decreases a.len(),
{
    if a.len() > 0 && b.len() > 0 && a[0] == b[0] {
        let (x, y) = (a.drop_first(), b.drop_first());
        law_texts_compare_like_words(x, y);
        if exists|k: int| #[trigger] first_differs_at(x, y, k) {
            let k = choose|k: int| #[trigger] first_differs_at(x, y, k);
            assert forall|i: int| 0 <= i < k + 1 implies #[trigger] a[i] == b[i] by {
                if i > 0 {
                    assert(x[i - 1] == y[i - 1]);
                }
            }
            assert(first_differs_at(a, b, k + 1));
        }
        if exists|k: int| #[trigger] first_differs_at(a, b, k) {
            let k = choose|k: int| #[trigger] first_differs_at(a, b, k);
            assert forall|i: int| 0 <= i < k - 1 implies #[trigger] x[i] == y[i] by {
                assert(a[i + 1] == b[i + 1]);
            }
            assert(first_differs_at(x, y, k - 1));
        }
    } else if lex_lt(a, b) {
        assert(first_differs_at(a, b, 0));
    } else if exists|k: int| #[trigger] first_differs_at(a, b, k) {
        let k = choose|k: int| #[trigger] first_differs_at(a, b, k);
        if k > 0 {
            assert(a[0] == b[0]);
        }
    }
}

/// Do two texts agree up to a place, where the first ends or has the lesser character?
pub open spec fn first_differs_at(a: Seq<char>, b: Seq<char>, k: int) -> bool {
    &&& 0 <= k <= a.len()
    &&& k < b.len()
    &&& forall|i: int| 0 <= i < k ==> #[trigger] a[i] == b[i]
    &&& k < a.len() ==> a[k] < b[k]
}

/// An identifier is made of Latin letters, digits and underscores, and does not start with a digit.
pub proof fn law_identifiers_are_made_of_words(s: Seq<char>)
    ensures
        is_identifier(s) <==> s.len() > 0 && !('0' <= s[0] <= '9') && forall|i: int|
            0 <= i < s.len() ==> {
                let c = #[trigger] s[i];
                ('a' <= c <= 'z') || ('A' <= c <= 'Z') || ('0' <= c <= '9') || c == '_'
            },
{
    if is_identifier(s) {
        assert forall|i: int| 0 <= i < s.len() implies {
            let c = #[trigger] s[i];
            ('a' <= c <= 'z') || ('A' <= c <= 'Z') || ('0' <= c <= '9') || c == '_'
        } by {
            assert(is_word(s[i]));
        }
    }
}

/// Latin letters have the same place in the alphabet in upper and lower case; nothing else changes.
pub proof fn law_cases_keep_the_letter(s: Seq<char>, i: int)
    requires
        0 <= i < s.len(),
    ensures
        ascii_lower(s).len() == s.len() && ascii_upper(s).len() == s.len(),
        'A' <= s[i] <= 'Z' ==> ascii_lower(s)[i] as int - 'a' as int == s[i] as int - 'A' as int,
        !('A' <= s[i] <= 'Z') ==> ascii_lower(s)[i] == s[i],
        'a' <= s[i] <= 'z' ==> ascii_upper(s)[i] as int - 'A' as int == s[i] as int - 'a' as int,
        !('a' <= s[i] <= 'z') ==> ascii_upper(s)[i] == s[i],
{
}

} // verus!
