//! Text: trimming, searching, numerals, and the few renderings that the standard library does.

use vstd::prelude::*;
use vstd::string::*;
use vstd::utf8::{decode_utf8, is_ascii_chars, valid_utf8};

verus! {

// ---- models ---------------------------------------------------------------------------

/// The Unicode `White_Space` property.
pub open spec fn is_white(c: char) -> bool {
    ||| '\u{9}' <= c <= '\u{d}'
    ||| c == '\u{20}'
    ||| c == '\u{85}'
    ||| c == '\u{a0}'
    ||| c == '\u{1680}'
    ||| '\u{2000}' <= c <= '\u{200a}'
    ||| c == '\u{2028}'
    ||| c == '\u{2029}'
    ||| c == '\u{202f}'
    ||| c == '\u{205f}'
    ||| c == '\u{3000}'
}

/// `s` without its leading white space.
pub open spec fn trimmed_start(s: Seq<char>) -> Seq<char>
    decreases s.len(),
{
    if s.len() > 0 && is_white(s[0]) {
        trimmed_start(s.skip(1))
    } else {
        s
    }
}

/// `s` without its trailing white space.
pub open spec fn trimmed_end(s: Seq<char>) -> Seq<char>
    decreases s.len(),
{
    if s.len() > 0 && is_white(s.last()) {
        trimmed_end(s.drop_last())
    } else {
        s
    }
}

/// `s` without white space at either end.
pub open spec fn trimmed(s: Seq<char>) -> Seq<char> {
    trimmed_end(trimmed_start(s))
}

/// `s` without the occurrences of `c` at its end.
pub open spec fn without_trailing(s: Seq<char>, c: char) -> Seq<char>
    decreases s.len(),
{
    if s.len() > 0 && s.last() == c {
        without_trailing(s.drop_last(), c)
    } else {
        s
    }
}

/// Where `c` first occurs in `s`; `s.len()` if it does not.
pub open spec fn first_at(s: Seq<char>, c: char) -> int
    decreases s.len(),
{
    if s.len() == 0 || s[0] == c {
        0
    } else {
        first_at(s.skip(1), c) + 1
    }
}

/// Where `${` first occurs in `s`; `s.len()` if it does not.
pub open spec fn marker_at(s: Seq<char>) -> int
    decreases s.len(),
{
    if s.len() == 0 || (s.len() >= 2 && s[0] == '$' && s[1] == '{') {
        0
    } else {
        marker_at(s.skip(1)) + 1
    }
}

/// How many characters stand in `s` before its first white space.
pub open spec fn word_len(s: Seq<char>) -> int
    decreases s.len(),
{
    if s.len() == 0 || is_white(s[0]) {
        0
    } else {
        word_len(s.skip(1)) + 1
    }
}

/// Does `s` begin with the characters `0x`?
pub open spec fn has_0x(s: Seq<char>) -> bool {
    s.len() >= 2 && s[0] == '0' && s[1] == 'x'
}

/// `s` without one leading `0x`, if it has one.
pub open spec fn without_0x(s: Seq<char>) -> Seq<char> {
    if has_0x(s) {
        s.skip(2)
    } else {
        s
    }
}

/// `s` without any leading `0x`.
pub open spec fn without_all_0x(s: Seq<char>) -> Seq<char>
    decreases s.len(),
{
    if has_0x(s) {
        without_all_0x(s.skip(2))
    } else {
        s
    }
}

/// The digit that stands for `d`, in a base of at most sixteen.
pub open spec fn digit_char(d: nat) -> char {
    if d < 10 {
        (48 + d) as char
    } else {
        (87 + d) as char
    }
}

/// `n` in the given base, without leading zeros.
pub open spec fn numeral(n: nat, base: nat) -> Seq<char>
    decreases n,
{
    if base < 2 || n < base {
        seq![digit_char(n)]
    } else {
        proof {
            vstd::arithmetic::div_mod::lemma_div_decreases(n as int, base as int);
        }
        numeral(n / base, base).push(digit_char(n % base))
    }
}

/// `n` in base ten.
pub open spec fn decimal_text(n: nat) -> Seq<char> {
    numeral(n, 10)
}

/// The value of a hexadecimal digit.
pub open spec fn hex_digit(c: char) -> Option<nat> {
    if '0' <= c <= '9' {
        Some((c as nat - 48) as nat)
    } else if 'a' <= c <= 'f' {
        Some((c as nat - 87) as nat)
    } else if 'A' <= c <= 'F' {
        Some((c as nat - 55) as nat)
    } else {
        None
    }
}

/// The hexadecimal digits `s` read after those that gave `acc`: the number, or what is wrong at
/// the first place where something is.
pub open spec fn hex_number_from(acc: nat, s: Seq<char>, max: nat) -> Result<nat, Seq<char>>
    decreases s.len(),
{
    if s.len() == 0 {
        Ok(acc)
    } else {
        match hex_digit(s[0]) {
            None => Err("invalid digit found in string"@),
            Some(d) => if acc * 16 + d > max {
                Err("number too large to fit in target type"@)
            } else {
                hex_number_from(acc * 16 + d, s.skip(1), max)
            },
        }
    }
}

/// `s` as a hexadecimal number of at most `max`; one leading `+` is allowed.
pub open spec fn hex_number(s: Seq<char>, max: nat) -> Result<nat, Seq<char>> {
    if s.len() == 0 {
        Err("cannot parse integer from empty string"@)
    } else if s.len() > 1 && s[0] == '+' {
        hex_number_from(0, s.skip(1), max)
    } else {
        hex_number_from(0, s, max)
    }
}

/// The texts that a vector of strings holds.
pub open spec fn texts(v: Seq<String>) -> Seq<Seq<char>> {
    v.map_values(|s: String| s@)
}

/// `parts` one after the other, with `sep` between them.
pub open spec fn joined(parts: Seq<Seq<char>>, sep: Seq<char>) -> Seq<char>
    decreases parts.len(),
{
    if parts.len() == 0 {
        Seq::empty()
    } else if parts.len() == 1 {
        parts[0]
    } else {
        joined(parts.drop_last(), sep) + sep + parts.last()
    }
}

// ---- what the standard library renders ------------------------------------------------

/// What the `{:?}` formatting of the string `s` writes: `s` in quotes, with escapes.
pub uninterp spec fn quoted_text(s: Seq<char>) -> Seq<char>;

/// What the `{:?}` formatting of the character `c` writes.
pub uninterp spec fn quoted_char_text(c: char) -> Seq<char>;

/// An ASCII character in lower case.
pub open spec fn ascii_lower(c: char) -> char {
    if 'A' <= c <= 'Z' {
        (c as u32 + 32) as char
    } else {
        c
    }
}

/// A text that is not all ASCII in lower case, as Unicode maps it.
pub uninterp spec fn unicode_lower_case(s: Seq<char>) -> Seq<char>;

/// `s` in lower case.
pub open spec fn lower_case(s: Seq<char>) -> Seq<char> {
    if is_ascii_chars(s) {
        s.map_values(|c: char| ascii_lower(c))
    } else {
        unicode_lower_case(s)
    }
}

/// The text of bytes that are not UTF-8, with a replacement character wherever they are malformed.
pub uninterp spec fn repaired_text(b: Seq<u8>) -> Seq<char>;

/// The text that `b` spells in UTF-8, with a replacement character wherever it is malformed.
pub open spec fn lossy_text(b: Seq<u8>) -> Seq<char> {
    if valid_utf8(b) {
        decode_utf8(b)
    } else {
        repaired_text(b)
    }
}

/// `String::push`: the character goes to the end.
pub assume_specification[ String::push ](s: &mut String, c: char)
    ensures
        final(s)@ == old(s)@.push(c),
;

/// `str`'s `Debug` formatting. What it writes depends on `s` alone.
#[verifier::external_body]
pub(crate) fn quoted(s: &str) -> (r: String)
    ensures
        r@ == quoted_text(s@),
{
    format!("{:?}", s)
}

/// `char`'s `Debug` formatting. What it writes depends on `c` alone.
#[verifier::external_body]
pub(crate) fn quoted_char(c: char) -> (r: String)
    ensures
        r@ == quoted_char_text(c),
{
    format!("{:?}", c)
}

/// `str::to_lowercase`. The result depends on `s` alone; of ASCII text, the letters `A` to `Z` become
/// `a` to `z` and nothing else changes.
#[verifier::external_body]
pub(crate) fn lowercase(s: &str) -> (r: String)
    ensures
        is_ascii_chars(s@) ==> r@ == s@.map_values(|c: char| ascii_lower(c)),
        !is_ascii_chars(s@) ==> r@ == unicode_lower_case(s@),
{
    s.to_lowercase()
}

/// `String::from_utf8_lossy`. The result depends on the bytes alone, and valid UTF-8 comes back
/// as the text that it encodes.
#[verifier::external_body]
pub(crate) fn from_utf8_lossy(b: &[u8]) -> (r: String)
    ensures
        valid_utf8(b@) ==> r@ == decode_utf8(b@),
        !valid_utf8(b@) ==> r@ == repaired_text(b@),
{
    String::from_utf8_lossy(b).into_owned()
}

// ---- comparison and slices ------------------------------------------------------------

/// The characters of `s`, one by one.
pub fn chars_of(s: &str) -> (v: Vec<char>)
    ensures
        v@ == s@,
{
    let mut v: Vec<char> = Vec::new();
    for c in it: s.chars()
        invariant
            v@ == it.seq().take(it.index() as int),
            it.seq() == s@,
    {
        v.push(c);
    }
    v
}

/// Are the two texts the same?
pub fn same(a: &str, b: &str) -> (r: bool)
    ensures
        r == (a@ == b@),
{
    a.to_owned() == b.to_owned()
}

/// Has `c` the `White_Space` property?
pub fn is_whitespace(c: char) -> (r: bool)
    ensures
        r == is_white(c),
{
    ('\u{9}' <= c && c <= '\u{d}') || c == '\u{20}' || c == '\u{85}' || c == '\u{a0}' || c
        == '\u{1680}' || ('\u{2000}' <= c && c <= '\u{200a}') || c == '\u{2028}' || c == '\u{2029}'
        || c == '\u{202f}' || c == '\u{205f}' || c == '\u{3000}'
}

/// `s` without white space at either end.
pub fn trim(s: &str) -> (r: &str)
    ensures
        r@ == trimmed(s@),
{
    let cs = chars_of(s);
    let n: usize = cs.len();
    let mut i: usize = 0;
    assert(s@.skip(0) =~= s@);
    while i < n && is_whitespace(cs[i])
        invariant
            i <= n,
            n == cs@.len(),
            cs@ == s@,
            trimmed_start(s@) == trimmed_start(s@.skip(i as int)),
        decreases n - i,
    {
        assert(s@.skip(i as int).skip(1) =~= s@.skip(i + 1));
        i += 1;
    }
    let mut j: usize = n;
    let ghost front = s@.skip(i as int);
    assert(s@.subrange(i as int, n as int) =~= front);
    assert(trimmed_start(s@) == front);
    while j > i && is_whitespace(cs[j - 1])
        invariant
            i <= j <= n,
            n == cs@.len(),
            cs@ == s@,
            trimmed_end(front) == trimmed_end(s@.subrange(i as int, j as int)),
        decreases j - i,
    {
        assert(s@.subrange(i as int, j as int).drop_last() =~= s@.subrange(i as int, j - 1));
        j -= 1;
    }
    assert(trimmed_end(front) == s@.subrange(i as int, j as int));
    s.substring_char(i, j)
}

/// `s` without its leading white space.
pub fn trim_start(s: &str) -> (r: &str)
    ensures
        r@ == trimmed_start(s@),
{
    let cs = chars_of(s);
    let n: usize = cs.len();
    let mut i: usize = 0;
    assert(s@.skip(0) =~= s@);
    while i < n && is_whitespace(cs[i])
        invariant
            i <= n,
            n == cs@.len(),
            cs@ == s@,
            trimmed_start(s@) == trimmed_start(s@.skip(i as int)),
        decreases n - i,
    {
        assert(s@.skip(i as int).skip(1) =~= s@.skip(i + 1));
        i += 1;
    }
    assert(s@.subrange(i as int, n as int) =~= s@.skip(i as int));
    s.substring_char(i, n)
}

/// `s` without the occurrences of `c` at its end.
pub fn trim_end_matches(s: &str, c: char) -> (r: &str)
    ensures
        r@ == without_trailing(s@, c),
{
    let cs = chars_of(s);
    let mut j: usize = cs.len();
    assert(s@.subrange(0, j as int) =~= s@);
    while j > 0 && cs[j - 1] == c
        invariant
            j <= cs@.len(),
            cs@ == s@,
            without_trailing(s@, c) == without_trailing(s@.subrange(0, j as int), c),
        decreases j,
    {
        assert(s@.subrange(0, j as int).drop_last() =~= s@.subrange(0, j - 1));
        j -= 1;
    }
    s.substring_char(0, j)
}

/// The part of `s` before its first `c`, and the part behind it; `None` if `s` has no `c`.
pub fn split_once(s: &str, c: char) -> (r: Option<(&str, &str)>)
    ensures
        match r {
            Some((head, tail)) => {
                &&& 0 <= first_at(s@, c) < s@.len()
                &&& head@ == s@.take(first_at(s@, c))
                &&& tail@ == s@.skip(first_at(s@, c) + 1)
            },
            None => first_at(s@, c) == s@.len(),
        },
{
    let cs = chars_of(s);
    let n: usize = cs.len();
    let mut i: usize = 0;
    assert(s@.skip(0) =~= s@);
    while i < n && cs[i] != c
        invariant
            i <= n,
            n == cs@.len(),
            cs@ == s@,
            first_at(s@, c) == first_at(s@.skip(i as int), c) + i,
        decreases n - i,
    {
        assert(s@.skip(i as int).skip(1) =~= s@.skip(i + 1));
        i += 1;
    }
    if i == n {
        None
    } else {
        assert(s@.subrange(0, i as int) =~= s@.take(i as int));
        assert(s@.subrange(i + 1, n as int) =~= s@.skip(i + 1));
        Some((s.substring_char(0, i), s.substring_char(i + 1, n)))
    }
}

/// The part of `s` before its first `${`, and the part behind it; `None` if `s` has none.
pub fn split_marker(s: &str) -> (r: Option<(&str, &str)>)
    ensures
        match r {
            Some((head, tail)) => {
                &&& 0 <= marker_at(s@) <= s@.len() - 2
                &&& head@ == s@.take(marker_at(s@))
                &&& tail@ == s@.skip(marker_at(s@) + 2)
            },
            None => marker_at(s@) == s@.len(),
        },
{
    let cs = chars_of(s);
    let n: usize = cs.len();
    let mut i: usize = 0;
    assert(s@.skip(0) =~= s@);
    while i < n && !(n - i >= 2 && cs[i] == '$' && cs[i + 1] == '{')
        invariant
            i <= n,
            n == cs@.len(),
            cs@ == s@,
            marker_at(s@) == marker_at(s@.skip(i as int)) + i,
        decreases n - i,
    {
        assert(s@.skip(i as int).skip(1) =~= s@.skip(i + 1));
        i += 1;
    }
    if i == n {
        None
    } else {
        assert(s@.subrange(0, i as int) =~= s@.take(i as int));
        assert(s@.subrange(i + 2, n as int) =~= s@.skip(i + 2));
        Some((s.substring_char(0, i), s.substring_char(i + 2, n)))
    }
}

/// The first word of `s`, which is all of `s` before its first white space, and what follows it.
pub fn split_word(s: &str) -> (r: (&str, &str))
    ensures
        word_len(s@) <= s@.len(),
        r.0@ == s@.take(word_len(s@)),
        r.1@ == s@.skip(word_len(s@)),
{
    let cs = chars_of(s);
    let n: usize = cs.len();
    let mut i: usize = 0;
    assert(s@.skip(0) =~= s@);
    while i < n && !is_whitespace(cs[i])
        invariant
            i <= n,
            n == cs@.len(),
            cs@ == s@,
            word_len(s@) == word_len(s@.skip(i as int)) + i,
        decreases n - i,
    {
        assert(s@.skip(i as int).skip(1) =~= s@.skip(i + 1));
        i += 1;
    }
    assert(s@.subrange(0, i as int) =~= s@.take(i as int));
    assert(s@.subrange(i as int, n as int) =~= s@.skip(i as int));
    (s.substring_char(0, i), s.substring_char(i, n))
}

/// Does `s` begin with `prefix`?
pub fn starts_with(s: &str, prefix: &str) -> (r: bool)
    ensures
        r == prefix@.is_prefix_of(s@),
{
    let n: usize = prefix.unicode_len();
    if s.unicode_len() < n {
        return false;
    }
    assert(s@.subrange(0, n as int) =~= s@.take(n as int));
    let r = same(s.substring_char(0, n), prefix);
    if r {
        assert(prefix@ =~= s@.subrange(0, prefix@.len() as int));
    }
    r
}

/// `s` without one leading `0x`, if it has one.
pub fn strip_0x(s: &str) -> (r: &str)
    ensures
        r@ == without_0x(s@),
{
    let n: usize = s.unicode_len();
    if n >= 2 && s.get_char(0) == '0' && s.get_char(1) == 'x' {
        assert(s@.subrange(2, n as int) =~= s@.skip(2));
        s.substring_char(2, n)
    } else {
        s
    }
}

/// `s` without any leading `0x`.
pub fn strip_all_0x(s: &str) -> (r: &str)
    ensures
        r@ == without_all_0x(s@),
{
    let cs = chars_of(s);
    let n: usize = cs.len();
    let mut i: usize = 0;
    assert(s@.skip(0) =~= s@);
    while i < n && n - i >= 2 && cs[i] == '0' && cs[i + 1] == 'x'
        invariant
            i <= n,
            n == cs@.len(),
            cs@ == s@,
            without_all_0x(s@) == without_all_0x(s@.skip(i as int)),
        decreases n - i,
    {
        assert(s@.skip(i as int).skip(2) =~= s@.skip(i + 2));
        i += 2;
    }
    assert(!has_0x(s@.skip(i as int)));
    assert(s@.subrange(i as int, n as int) =~= s@.skip(i as int));
    s.substring_char(i, n)
}

// ---- numerals -------------------------------------------------------------------------

fn digit(d: u8) -> (c: char)
    requires
        d < 16,
    ensures
        c == digit_char(d as nat),
{
    if d < 10 {
        (48 + d) as char
    } else {
        (87 + d) as char
    }
}

/// `n` in base ten.
pub fn decimal(n: u128) -> (r: String)
    ensures
        r@ == decimal_text(n as nat),
    decreases n,
{
    if n < 10 {
        let mut r = String::new();
        r.push(digit(n as u8));
        assert(r@ =~= seq![digit_char(n as nat)]);
        r
    } else {
        let mut r = decimal(n / 10);
        r.push(digit((n % 10) as u8));
        r
    }
}

/// `n` in base sixteen.
pub fn hexadecimal(n: u64) -> (r: String)
    ensures
        r@ == numeral(n as nat, 16),
    decreases n,
{
    if n < 16 {
        let mut r = String::new();
        r.push(digit(n as u8));
        assert(r@ =~= seq![digit_char(n as nat)]);
        r
    } else {
        let mut r = hexadecimal(n / 16);
        r.push(digit((n % 16) as u8));
        r
    }
}

fn hex_value(c: char) -> (r: Option<u8>)
    ensures
        match r {
            Some(d) => hex_digit(c) == Some(d as nat) && d < 16,
            None => hex_digit(c) is None,
        },
{
    if '0' <= c && c <= '9' {
        Some((c as u32 - 48) as u8)
    } else if 'a' <= c && c <= 'f' {
        Some((c as u32 - 87) as u8)
    } else if 'A' <= c && c <= 'F' {
        Some((c as u32 - 55) as u8)
    } else {
        None
    }
}

/// `s` as a hexadecimal number of at most `max`; one leading `+` is allowed.
pub fn parse_hex(s: &str, max: u128) -> (r: Result<u128, String>)
    requires
        max >= 16,
    ensures
        match r {
            Ok(v) => hex_number(s@, max as nat) == Ok::<nat, Seq<char>>(v as nat) && v <= max,
            Err(e) => hex_number(s@, max as nat) == Err::<nat, Seq<char>>(e@),
        },
{
    let cs = chars_of(s);
    let n: usize = cs.len();
    if n == 0 {
        return Err("cannot parse integer from empty string".to_owned());
    }
    let mut i: usize = if n > 1 && cs[0] == '+' { 1 } else { 0 };
    let mut acc: u128 = 0;
    assert(s@.skip(0) =~= s@);
    while i < n
        invariant
            i <= n,
            n == cs@.len(),
            cs@ == s@,
            max >= 16,
            acc <= max,
            hex_number(s@, max as nat) == hex_number_from(acc as nat, s@.skip(i as int), max as nat),
        decreases n - i,
    {
        assert(s@.skip(i as int).skip(1) =~= s@.skip(i + 1));
        match hex_value(cs[i]) {
            None => {
                return Err("invalid digit found in string".to_owned());
            },
            Some(d) => {
                if acc > (max - d as u128) / 16 {
                    return Err("number too large to fit in target type".to_owned());
                }
                acc = acc * 16 + d as u128;
            },
        }
        i += 1;
    }
    Ok(acc)
}

// ---- composition ----------------------------------------------------------------------

/// `parts` one after the other, with `sep` between them.
pub fn join(parts: &[String], sep: &str) -> (r: String)
    ensures
        r@ == joined(texts(parts@), sep@),
{
    let mut r = String::new();
    let mut i: usize = 0;
    assert(texts(parts@).take(0) =~= Seq::<Seq<char>>::empty());
    while i < parts.len()
        invariant
            i <= parts@.len(),
            r@ == joined(texts(parts@).take(i as int), sep@),
        decreases parts@.len() - i,
    {
        let ghost all = texts(parts@);
        assert(all.take(i + 1).drop_last() =~= all.take(i as int));
        assert(all[i as int] == parts@[i as int]@);
        if i > 0 {
            r.append(sep);
            r.append(parts[i].as_str());
        } else {
            r.append(parts[i].as_str());
            assert(r@ =~= all[0]);
        }
        i += 1;
    }
    assert(texts(parts@).take(i as int) =~= texts(parts@));
    r
}

/// Is `s` one of `items`?
pub fn contains(items: &[String], s: &str) -> (r: bool)
    ensures
        r == texts(items@).contains(s@),
{
    let mut i: usize = 0;
    while i < items.len()
        invariant
            i <= items@.len(),
            forall|k: int| 0 <= k < i ==> texts(items@)[k] != s@,
        decreases items@.len() - i,
    {
        if same(items[i].as_str(), s) {
            assert(texts(items@)[i as int] == s@);
            return true;
        }
        i += 1;
    }
    false
}

// ---- laws -----------------------------------------------------------------------------

proof fn lemma_trimmed_start_push(p: Seq<char>, c: char)
    requires
        is_white(c),
    ensures
        trimmed_start(p).len() > 0 ==> trimmed_start(p.push(c)) == trimmed_start(p).push(c),
        trimmed_start(p).len() == 0 ==> trimmed_start(p.push(c)).len() == 0,
    decreases p.len(),
{
    if p.len() > 0 && is_white(p[0]) {
        lemma_trimmed_start_push(p.skip(1), c);
        assert(p.push(c).skip(1) =~= p.skip(1).push(c));
    } else if p.len() == 0 {
        let e = Seq::<char>::empty();
        assert(p.push(c).skip(1) =~= e);
        assert(trimmed_start(e) == e);
    }
}

/// White space at either end does not change what is left after trimming.
pub proof fn lemma_trimmed_blank(p: Seq<char>, c: char)
    requires
        is_white(c),
    ensures
        trimmed(seq![c] + p) == trimmed(p),
        trimmed(p.push(c)) == trimmed(p),
{
    assert((seq![c] + p).skip(1) =~= p);
    lemma_trimmed_start_push(p, c);
    let q = trimmed_start(p);
    if q.len() > 0 {
        assert(q.push(c).drop_last() =~= q);
    } else {
        assert(trimmed_start(p.push(c)) =~= q);
    }
}

/// Is `s` white space throughout?
pub open spec fn all_white(s: Seq<char>) -> bool {
    forall|i: int| 0 <= i < s.len() ==> is_white(#[trigger] s[i])
}

/// Is `s` a word: not empty, and without white space?
pub open spec fn is_word(s: Seq<char>) -> bool {
    s.len() > 0 && forall|i: int| 0 <= i < s.len() ==> !is_white(#[trigger] s[i])
}

/// Of the ASCII characters, the space and those from tab to carriage return are white space.
pub proof fn law_ascii_white(c: char)
    requires
        c <= '\u{7f}',
    ensures
        is_white(c) <==> c == ' ' || '\t' <= c <= '\r',
{
}

/// White space in front of a text that does not begin with any is skipped.
pub proof fn lemma_white_skipped(a: Seq<char>, t: Seq<char>)
    requires
        all_white(a),
        t.len() == 0 || !is_white(t[0]),
    ensures
        trimmed_start(a + t) == t,
    decreases a.len(),
{
    let s = a + t;
    if a.len() > 0 {
        assert(is_white(a[0]));
        assert(s.skip(1) =~= a.skip(1) + t);
        assert forall|i: int| 0 <= i < a.skip(1).len() implies is_white(#[trigger] a.skip(1)[i]) by {
            assert(is_white(a[i + 1]));
        }
        lemma_white_skipped(a.skip(1), t);
    } else {
        assert(s =~= t);
    }
}

proof fn lemma_drop_white(t: Seq<char>, b: Seq<char>)
    requires
        all_white(b),
        t.len() == 0 || !is_white(t.last()),
    ensures
        trimmed_end(t + b) == t,
    decreases b.len(),
{
    let s = t + b;
    if b.len() > 0 {
        assert(is_white(b[b.len() - 1]));
        assert(s.last() == b.last());
        assert(s.drop_last() =~= t + b.drop_last());
        assert forall|i: int| 0 <= i < b.drop_last().len() implies is_white(
            #[trigger] b.drop_last()[i],
        ) by {
            assert(is_white(b[i]));
        }
        lemma_drop_white(t, b.drop_last());
    } else {
        assert(s =~= t);
    }
}

/// Trimming takes the white space from both ends and leaves what stands between: a text that is empty
/// or neither begins nor ends with white space.
pub proof fn law_trimmed(a: Seq<char>, t: Seq<char>, b: Seq<char>)
    requires
        all_white(a),
        all_white(b),
        t.len() == 0 || (!is_white(t[0]) && !is_white(t.last())),
    ensures
        trimmed(a + t + b) == t,
{
    assert(a + t + b =~= a + (t + b));
    if t.len() > 0 {
        assert((t + b)[0] == t[0]);
        lemma_white_skipped(a, t + b);
    } else {
        let ab = a + b;
        assert(a + (t + b) =~= ab + t);
        assert forall|i: int| 0 <= i < ab.len() implies is_white(#[trigger] ab[i]) by {
            if i < a.len() {
                assert(is_white(a[i]));
            } else {
                assert(is_white(b[i - a.len()]));
            }
        }
        lemma_white_skipped(ab, t);
    }
    if t.len() > 0 {
        lemma_drop_white(t, b);
    }
}

/// `trimmed_end` leaves a front part, which reaches at least to the last character that is no white
/// space.
pub proof fn lemma_trimmed_end_front(s: Seq<char>)
    ensures
        trimmed_end(s).is_prefix_of(s),
        forall|k: int| 0 <= k < s.len() && !is_white(#[trigger] s[k]) ==> k < trimmed_end(s).len(),
    decreases s.len(),
{
    if s.len() > 0 && is_white(s.last()) {
        let f = s.drop_last();
        lemma_trimmed_end_front(f);
        assert forall|k: int| 0 <= k < s.len() && !is_white(#[trigger] s[k]) implies k
            < trimmed_end(s).len() by {
            assert(f[k] == s[k]);
        }
        assert(trimmed_end(s) =~= s.take(trimmed_end(s).len() as int)) by {
            assert(trimmed_end(f) =~= f.take(trimmed_end(f).len() as int));
        }
    } else {
        assert(s =~= s.take(s.len() as int));
    }
}

/// A word reaches to the next white space, or to the end.
pub proof fn lemma_word_ends(w: Seq<char>, t: Seq<char>)
    requires
        forall|i: int| 0 <= i < w.len() ==> !is_white(#[trigger] w[i]),
        t.len() == 0 || is_white(t[0]),
    ensures
        word_len(w + t) == w.len(),
    decreases w.len(),
{
    let s = w + t;
    if w.len() > 0 {
        assert(!is_white(w[0]));
        assert(s.skip(1) =~= w.skip(1) + t);
        assert forall|i: int| 0 <= i < w.skip(1).len() implies !is_white(
            #[trigger] w.skip(1)[i],
        ) by {
            assert(!is_white(w[i + 1]));
        }
        lemma_word_ends(w.skip(1), t);
    } else {
        assert(s =~= t);
    }
}

/// All of the characters `c` at the end are taken off, and nothing else.
pub proof fn law_without_trailing(t: Seq<char>, n: nat, c: char)
    requires
        t.len() == 0 || t.last() != c,
    ensures
        without_trailing(t + Seq::new(n, |i: int| c), c) == t,
    decreases n,
{
    let tail = Seq::new(n, |i: int| c);
    let s = t + tail;
    if n > 0 {
        let shorter = Seq::new((n - 1) as nat, |i: int| c);
        assert(s.last() == c);
        assert(s.drop_last() =~= t + shorter);
        law_without_trailing(t, (n - 1) as nat, c);
    } else {
        assert(s =~= t);
    }
}

/// The number that decimal digits spell.
pub open spec fn decimal_value(d: Seq<char>) -> nat
    decreases d.len(),
{
    if d.len() == 0 {
        0
    } else {
        decimal_value(d.drop_last()) * 10 + (d.last() as nat - '0' as nat) as nat
    }
}

/// A number is written in base ten as digits that spell it, without a leading zero.
pub proof fn law_decimal(n: nat)
    ensures
        decimal_value(decimal_text(n)) == n,
        decimal_text(n).len() > 0,
        forall|i: int| 0 <= i < decimal_text(n).len() ==> '0' <= #[trigger] decimal_text(n)[i] <= '9',
        n > 0 ==> decimal_text(n)[0] != '0',
    decreases n,
{
    let d = decimal_text(n);
    if n < 10 {
        assert(d =~= seq![digit_char(n)]);
        assert(d.drop_last() =~= Seq::<char>::empty());
        assert(decimal_value(Seq::<char>::empty()) == 0);
    } else {
        law_decimal(n / 10);
        let front = decimal_text(n / 10);
        assert(d == front.push(digit_char(n % 10)));
        assert(d.drop_last() =~= front);
        assert((n / 10) * 10 + n % 10 == n);
        assert forall|i: int| 0 <= i < d.len() implies '0' <= #[trigger] d[i] <= '9' by {
            if i < front.len() {
                assert(d[i] == front[i]);
            }
        }
    }
}

/// Lower case changes the letters `A` to `Z` of an ASCII text into `a` to `z`, one for one, and
/// nothing else, so that two hexadecimal texts are the same in lower case exactly if their digits are.
pub proof fn law_lower_case(s: Seq<char>)
    requires
        is_ascii_chars(s),
    ensures
        lower_case(s).len() == s.len(),
        forall|i: int|
            0 <= i < s.len() ==> {
                &&& 'A' <= #[trigger] s[i] <= 'Z' ==> lower_case(s)[i] as nat - 'a' as nat
                    == s[i] as nat - 'A' as nat
                &&& !('A' <= s[i] <= 'Z') ==> lower_case(s)[i] == s[i]
                &&& hex_digit(lower_case(s)[i]) == hex_digit(s[i])
            },
{
    assert forall|i: int| 0 <= i < s.len() implies {
        &&& 'A' <= #[trigger] s[i] <= 'Z' ==> lower_case(s)[i] as nat - 'a' as nat == s[i] as nat
            - 'A' as nat
        &&& !('A' <= s[i] <= 'Z') ==> lower_case(s)[i] == s[i]
        &&& hex_digit(lower_case(s)[i]) == hex_digit(s[i])
    } by {
        assert(lower_case(s)[i] == ascii_lower(s[i]));
    }
}

/// Texts that are joined in two goes are the texts joined in one, with the separator between the two
/// halves; a single text is joined to itself, and none to the empty text.
pub proof fn law_joined(a: Seq<Seq<char>>, b: Seq<Seq<char>>, one: Seq<char>, sep: Seq<char>)
    ensures
        joined(Seq::empty(), sep) == Seq::<char>::empty(),
        joined(seq![one], sep) == one,
        a.len() > 0 && b.len() > 0 ==> joined(a + b, sep) == joined(a, sep) + sep + joined(b, sep),
    decreases b.len(),
{
    if a.len() > 0 && b.len() > 0 {
        let whole = a + b;
        assert(whole.last() == b.last());
        assert(whole.drop_last() =~= a + b.drop_last());
        if b.len() == 1 {
            assert(a + b.drop_last() =~= a);
            assert(joined(b, sep) == b[0]);
        } else {
            law_joined(a, b.drop_last(), one, sep);
            let x = joined(a, sep);
            let y = joined(b.drop_last(), sep);
            assert(x + sep + y + sep + b.last() =~= x + sep + (y + sep + b.last()));
        }
    }
}

/// White space is what Unicode says it is: 25 characters.
pub proof fn law_white(c: char)
    ensures
        is_white(c) <==> seq![
            0x9u32,
            0xa,
            0xb,
            0xc,
            0xd,
            0x20,
            0x85,
            0xa0,
            0x1680,
            0x2000,
            0x2001,
            0x2002,
            0x2003,
            0x2004,
            0x2005,
            0x2006,
            0x2007,
            0x2008,
            0x2009,
            0x200a,
            0x2028,
            0x2029,
            0x202f,
            0x205f,
            0x3000,
        ].contains(c as u32),
{
    let all = seq![
        0x9u32,
        0xa,
        0xb,
        0xc,
        0xd,
        0x20,
        0x85,
        0xa0,
        0x1680,
        0x2000,
        0x2001,
        0x2002,
        0x2003,
        0x2004,
        0x2005,
        0x2006,
        0x2007,
        0x2008,
        0x2009,
        0x200a,
        0x2028,
        0x2029,
        0x202f,
        0x205f,
        0x3000,
    ];
    let u = c as u32;
    if is_white(c) {
        let i: int = if u <= 0xd {
            u - 0x9
        } else if u == 0x20 {
            5
        } else if u == 0x85 {
            6
        } else if u == 0xa0 {
            7
        } else if u == 0x1680 {
            8
        } else if u <= 0x200a {
            9 + (u - 0x2000)
        } else if u == 0x2028 {
            20
        } else if u == 0x2029 {
            21
        } else if u == 0x202f {
            22
        } else if u == 0x205f {
            23
        } else {
            24
        };
        assert(all[i] == u);
    }
}

} // verus!
