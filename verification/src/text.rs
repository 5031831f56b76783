//! Verified text helpers: character-level string equality, blank-line
//! detection, naive delimiter splitting, line splitting, integer parsing and
//! ASCII uppercasing. Splitting is deliberately naive: no quoting or escaping
//! of delimiters and no multi-line fields.

use vstd::prelude::*;

verus! {

/// The views of a row of string slices, one character sequence per field.
pub open spec fn rows_view(v: Seq<&str>) -> Seq<Seq<char>> {
    v.map_values(|p: &str| p@)
}

/// Character-by-character string equality.
pub fn str_eq(a: &str, b: &str) -> (r: bool)
    ensures
        r == (a@ == b@),
{
    let an = a.unicode_len();
    let bn = b.unicode_len();
    if an != bn {
        return false;
    }
    let mut i: usize = 0;
    while i < an
        invariant
            an == a@.len(),
            bn == b@.len(),
            an == bn,
            i <= an,
            forall|j: int| 0 <= j < i ==> a@[j] == b@[j],
        decreases an - i,
    {
        if a.get_char(i) != b.get_char(i) {
            return false;
        }
        i += 1;
    }
    proof {
        assert(a@ =~= b@);
    }
    true
}

/// ASCII whitespace, as far as it can appear in one line of text.
pub open spec fn is_space(c: char) -> bool {
    c == ' ' || c == '\t' || c == '\r' || c == '\n'
}

/// A line is blank when every character is whitespace (so in particular when
/// it is empty).
pub open spec fn is_blank_spec(s: Seq<char>) -> bool {
    forall|i: int| 0 <= i < s.len() ==> is_space(s[i])
}

/// Whether a line is empty or consists of whitespace only.
pub fn is_blank(s: &str) -> (r: bool)
    ensures
        r == is_blank_spec(s@),
{
    let n = s.unicode_len();
    let mut i: usize = 0;
    while i < n
        invariant
            n == s@.len(),
            i <= n,
            forall|j: int| 0 <= j < i ==> is_space(s@[j]),
        decreases n - i,
    {
        let c = s.get_char(i);
        if !(c == ' ' || c == '\t' || c == '\r' || c == '\n') {
            return false;
        }
        i += 1;
    }
    true
}

/// The delimiter `d` occurs in `s` at position `i`.
pub open spec fn match_at(s: Seq<char>, d: Seq<char>, i: int) -> bool {
    &&& 0 <= i
    &&& i + d.len() <= s.len()
    &&& s.subrange(i, i + d.len() as int) == d
}

/// The first position at or after `i` where the non-empty delimiter `d`
/// occurs in `s`, if any.
pub open spec fn find_from(s: Seq<char>, d: Seq<char>, i: int) -> Option<int>
    decreases s.len() - i,
{
    if i < 0 || d.len() == 0 || i + d.len() > s.len() {
        None
    } else if match_at(s, d, i) {
        Some(i)
    } else {
        find_from(s, d, i + 1)
    }
}

/// What `find_from` returns: the least match position at or after `i`, or
/// nothing when no match lies at or after `i`.
pub proof fn lemma_find_from(s: Seq<char>, d: Seq<char>, i: int)
    requires
        0 <= i,
        d.len() > 0,
    ensures
        match find_from(s, d, i) {
            Some(j) => i <= j && match_at(s, d, j) && (forall|k: int|
                i <= k < j ==> !match_at(s, d, k)),
            None => forall|k: int| i <= k ==> !match_at(s, d, k),
        },
    decreases s.len() - i,
{
    if i + d.len() > s.len() {
    } else if match_at(s, d, i) {
    } else {
        lemma_find_from(s, d, i + 1);
    }
}

/// Splitting with an empty delimiter: an empty segment, then each character
/// as a segment of its own, then an empty segment.
pub open spec fn split_empty_delim(s: Seq<char>) -> Seq<Seq<char>> {
    seq![Seq::<char>::empty()] + Seq::new(s.len(), |i: int| seq![s[i]]) + seq![
        Seq::<char>::empty(),
    ]
}

/// Naive splitting of `s` on the delimiter `d`: segments between leftmost,
/// non-overlapping occurrences of `d`. A string without an occurrence of `d`
/// is a single segment, so the result is never empty.
pub open spec fn split_spec(s: Seq<char>, d: Seq<char>) -> Seq<Seq<char>>
    decreases s.len(),
        via split_spec_decreases
{
    if d.len() == 0 {
        split_empty_delim(s)
    } else {
        match find_from(s, d, 0) {
            None => seq![s],
            Some(i) => seq![s.subrange(0, i)] + split_spec(s.skip(i + d.len() as int), d),
        }
    }
}

#[via_fn]
proof fn split_spec_decreases(s: Seq<char>, d: Seq<char>) {
    if d.len() > 0 {
        lemma_find_from(s, d, 0);
    }
}

/// A match inside a suffix of `s` is a match in `s`, shifted.
proof fn lemma_match_at_skip(s: Seq<char>, d: Seq<char>, start: int, k: int)
    requires
        0 <= start <= s.len(),
        0 <= k,
    ensures
        match_at(s.skip(start), d, k) == match_at(s, d, start + k),
{
    if k + d.len() <= s.len() - start {
        assert(s.skip(start).subrange(k, k + d.len() as int) =~= s.subrange(
            start + k,
            start + k + d.len() as int,
        ));
    }
}

/// Whether `d` occurs in `s` at position `i`, checked character by character.
fn matches_at(s: &str, d: &str, i: usize, n: usize, dn: usize) -> (r: bool)
    requires
        n == s@.len(),
        dn == d@.len(),
        i + dn <= n,
    ensures
        r == match_at(s@, d@, i as int),
{
    let mut j: usize = 0;
    while j < dn
        invariant
            n == s@.len(),
            dn == d@.len(),
            i + dn <= n,
            j <= dn,
            forall|k: int| 0 <= k < j ==> s@[i + k] == d@[k],
        decreases dn - j,
    {
        if s.get_char(i + j) != d.get_char(j) {
            proof {
                assert(s@.subrange(i as int, (i + dn) as int)[j as int] == s@[i + j]);
            }
            return false;
        }
        j += 1;
    }
    proof {
        assert(s@.subrange(i as int, (i + dn) as int) =~= d@);
    }
    true
}

/// Split `s` on the delimiter `d`, naively: no quoting, no escaping.
pub fn split_str<'a>(s: &'a str, d: &str) -> (parts: Vec<&'a str>)
    ensures
        rows_view(parts@) == split_spec(s@, d@),
{
    let n = s.unicode_len();
    let dn = d.unicode_len();
    let mut parts: Vec<&'a str> = Vec::new();
    if dn == 0 {
        parts.push(s.substring_char(0, 0));
        let mut i: usize = 0;
        while i < n
            invariant
                n == s@.len(),
                i <= n,
                parts@.len() == i + 1,
                parts@[0]@ == Seq::<char>::empty(),
                forall|k: int| 1 <= k < i + 1 ==> (#[trigger] parts@[k])@ == seq![s@[k - 1]],
            decreases n - i,
        {
            parts.push(s.substring_char(i, i + 1));
            proof {
                assert(s@.subrange(i as int, i + 1) =~= seq![s@[i as int]]);
            }
            i += 1;
        }
        parts.push(s.substring_char(n, n));
        proof {
            assert forall|j: int| 0 <= j < n + 2 implies rows_view(parts@)[j]
                == split_empty_delim(s@)[j] by {
                if 1 <= j < n + 1 {
                    assert(parts@[j]@ == seq![s@[j - 1]]);
                    assert(split_empty_delim(s@)[j] == seq![s@[j - 1]]);
                }
            }
            assert(rows_view(parts@) =~= split_empty_delim(s@));
        }
        return parts;
    }
    if dn > n {
        parts.push(s);
        proof {
            assert(rows_view(parts@) =~= seq![s@]);
        }
        return parts;
    }
    proof {
        assert(s@.skip(0) =~= s@);
        assert(rows_view(parts@) + split_spec(s@, d@) =~= split_spec(s@, d@));
    }
    let mut start: usize = 0;
    let mut i: usize = 0;
    while i <= n - dn
        invariant
            n == s@.len(),
            dn == d@.len(),
            0 < dn <= n,
            start <= i <= n,
            forall|k: int| start <= k < i ==> !match_at(s@, d@, k),
            split_spec(s@, d@) == rows_view(parts@) + split_spec(s@.skip(start as int), d@),
        decreases n - i,
    {
        if matches_at(s, d, i, n, dn) {
            let seg = s.substring_char(start, i);
            proof {
                let t = s@.skip(start as int);
                assert forall|k: int| 0 <= k < i - start implies !match_at(t, d@, k) by {
                    lemma_match_at_skip(s@, d@, start as int, k);
                }
                lemma_match_at_skip(s@, d@, start as int, i - start);
                lemma_find_from(t, d@, 0);
                assert(find_from(t, d@, 0) == Some(i - start));
                assert(t.subrange(0, i - start) =~= s@.subrange(start as int, i as int));
                assert(t.skip(i - start + dn) =~= s@.skip(i + dn));
                assert(split_spec(t, d@) == seq![s@.subrange(start as int, i as int)]
                    + split_spec(s@.skip(i + dn), d@));
                assert(rows_view(parts@.push(seg)) =~= rows_view(parts@) + seq![
                    s@.subrange(start as int, i as int),
                ]);
                assert(rows_view(parts@) + split_spec(t, d@) =~= rows_view(parts@.push(seg))
                    + split_spec(s@.skip(i + dn), d@));
            }
            parts.push(seg);
            start = i + dn;
            i = start;
        } else {
            i += 1;
        }
    }
    let seg = s.substring_char(start, n);
    proof {
        let t = s@.skip(start as int);
        assert forall|k: int| 0 <= k implies !match_at(t, d@, k) by {
            if k + dn <= n - start {
                lemma_match_at_skip(s@, d@, start as int, k);
                assert(!match_at(s@, d@, start + k));
            }
        }
        lemma_find_from(t, d@, 0);
        assert(find_from(t, d@, 0) is None);
        assert(split_spec(t, d@) == seq![t]);
        assert(t =~= s@.subrange(start as int, n as int));
        assert(rows_view(parts@.push(seg)) =~= rows_view(parts@) + seq![t]);
    }
    parts.push(seg);
    parts
}

/// A single-character delimiter occurs at a position exactly when that
/// character stands there.
pub proof fn lemma_match_at_char(s: Seq<char>, c: char, i: int)
    requires
        0 <= i < s.len(),
    ensures
        match_at(s, seq![c], i) == (s[i] == c),
{
    assert(s.subrange(i, i + 1) =~= seq![s[i]]);
    if s[i] == c {
        assert(seq![s[i]] =~= seq![c]);
    } else {
        assert(s.subrange(i, i + 1)[0] == s[i]);
    }
}

/// A string in which the character does not occur is one whole segment.
pub proof fn lemma_split_char_none(s: Seq<char>, c: char)
    requires
        forall|i: int| 0 <= i < s.len() ==> s[i] != c,
    ensures
        split_spec(s, seq![c]) == seq![s],
{
    assert forall|k: int| 0 <= k implies !match_at(s, seq![c], k) by {
        if k < s.len() {
            lemma_match_at_char(s, c, k);
        }
    }
    lemma_find_from(s, seq![c], 0);
    assert(find_from(s, seq![c], 0) is None);
}

/// Splitting on a character cuts at its first occurrence: a prefix free of
/// the character, the character, and the rest.
pub proof fn lemma_split_char_concat(a: Seq<char>, c: char, b: Seq<char>)
    requires
        forall|i: int| 0 <= i < a.len() ==> a[i] != c,
    ensures
        split_spec(a + seq![c] + b, seq![c]) == seq![a] + split_spec(b, seq![c]),
{
    let s = a + seq![c] + b;
    assert(s[a.len() as int] == c);
    lemma_match_at_char(s, c, a.len() as int);
    assert forall|k: int| 0 <= k < a.len() implies !match_at(s, seq![c], k) by {
        lemma_match_at_char(s, c, k);
        assert(s[k] == a[k]);
    }
    lemma_find_from(s, seq![c], 0);
    match find_from(s, seq![c], 0) {
        None => {
            assert(match_at(s, seq![c], a.len() as int));
        },
        Some(j) => {
            assert(a.len() <= j);
            assert(j <= a.len());
            assert(s.subrange(0, j) =~= a);
            assert(s.skip(j + 1) =~= b);
        },
    }
}

/// One line with its trailing carriage return, if any, removed.
pub open spec fn strip_cr(line: Seq<char>) -> Seq<char> {
    if line.len() > 0 && line[line.len() - 1] == '\r' {
        line.drop_last()
    } else {
        line
    }
}

/// The lines of a text: segments between newline characters, a trailing
/// carriage return removed from each, a final newline not opening a further
/// empty line. An empty text has no lines.
pub open spec fn lines_spec(s: Seq<char>) -> Seq<Seq<char>> {
    if s.len() == 0 {
        Seq::empty()
    } else {
        let parts = split_spec(s, seq!['\n']);
        let kept = if s[s.len() - 1] == '\n' {
            parts.drop_last()
        } else {
            parts
        };
        kept.map_values(|l: Seq<char>| strip_cr(l))
    }
}

/// Split a text into its lines.
pub fn split_lines<'a>(s: &'a str) -> (ls: Vec<&'a str>)
    ensures
        rows_view(ls@) == lines_spec(s@),
{
    let n = s.unicode_len();
    if n == 0 {
        let ls: Vec<&'a str> = Vec::new();
        proof {
            assert(rows_view(ls@) =~= lines_spec(s@));
        }
        return ls;
    }
    let mut raw = split_str(s, "\n");
    proof {
        reveal_strlit("\n");
        assert("\n"@ =~= seq!['\n']);
        assert(split_spec(s@, "\n"@) == split_spec(s@, seq!['\n']));
        assert(split_spec(s@, seq!['\n']).len() > 0) by {
            lemma_find_from(s@, seq!['\n'], 0);
        }
    }
    if s.get_char(n - 1) == '\n' {
        raw.pop();
    }
    let ghost kept = rows_view(raw@);
    let mut ls: Vec<&'a str> = Vec::new();
    let mut i: usize = 0;
    while i < raw.len()
        invariant
            kept == rows_view(raw@),
            ls@.len() == i,
            i <= raw@.len(),
            forall|k: int| 0 <= k < i ==> #[trigger] ls@[k]@ == strip_cr(kept[k]),
        decreases raw@.len() - i,
    {
        let line = raw[i];
        let ln = line.unicode_len();
        if ln > 0 && line.get_char(ln - 1) == '\r' {
            let stripped = line.substring_char(0, ln - 1);
            proof {
                assert(line@.subrange(0, ln - 1) =~= strip_cr(line@));
            }
            ls.push(stripped);
        } else {
            ls.push(line);
        }
        i += 1;
    }
    proof {
        assert(rows_view(ls@) =~= kept.map_values(|l: Seq<char>| strip_cr(l)));
    }
    ls
}

/// An ASCII decimal digit.
pub open spec fn is_digit(c: char) -> bool {
    48 <= c as u32 <= 57
}

/// The numeric value of one decimal digit.
pub open spec fn digit_val(c: char) -> int {
    c as u32 - 48
}

/// Every character of `s` is a decimal digit.
pub open spec fn all_digits(s: Seq<char>) -> bool {
    forall|i: int| 0 <= i < s.len() ==> is_digit(s[i])
}

/// The number a digit string denotes, most significant digit first.
pub open spec fn digits_val(s: Seq<char>) -> int
    decreases s.len(),
{
    if s.len() == 0 {
        0
    } else {
        10 * digits_val(s.drop_last()) + digit_val(s.last())
    }
}

/// A digit string denotes a non-negative number.
pub proof fn lemma_digits_val_nonneg(s: Seq<char>)
    requires
        all_digits(s),
    ensures
        digits_val(s) >= 0,
    decreases s.len(),
{
    if s.len() > 0 {
        assert(all_digits(s.drop_last()));
        lemma_digits_val_nonneg(s.drop_last());
    }
}

/// Appending digits never shrinks the denoted number.
pub proof fn lemma_digits_val_mono(s: Seq<char>, j: int)
    requires
        0 <= j <= s.len(),
        all_digits(s),
    ensures
        digits_val(s.take(j)) <= digits_val(s),
    decreases s.len() - j,
{
    if j < s.len() {
        lemma_digits_val_mono(s, j + 1);
        assert(s.take(j + 1).drop_last() =~= s.take(j));
        assert(s.take(j + 1).last() == s[j]);
        assert(all_digits(s.take(j)));
        lemma_digits_val_nonneg(s.take(j));
    } else {
        assert(s.take(j) =~= s);
    }
}

/// What parsing a `u8` from text returns: the denoted number, for a non-empty
/// all-digit string (after an optional leading plus sign) denoting at most
/// 255; nothing otherwise.
pub open spec fn parse_u8_spec(s: Seq<char>) -> Option<u8> {
    let t = if s.len() > 0 && s[0] == '+' {
        s.skip(1)
    } else {
        s
    };
    if t.len() == 0 || !all_digits(t) || digits_val(t) > 255 {
        None
    } else {
        Some(digits_val(t) as u8)
    }
}

/// Parse a `u8` from its decimal textual representation.
pub fn parse_u8(s: &str) -> (r: Option<u8>)
    ensures
        r == parse_u8_spec(s@),
{
    let n = s.unicode_len();
    let mut i: usize = 0;
    if n > 0 && s.get_char(0) == '+' {
        i = 1;
    }
    let ghost off = i as int;
    let ghost t = if s@.len() > 0 && s@[0] == '+' {
        s@.skip(1)
    } else {
        s@
    };
    proof {
        assert(t =~= s@.skip(off));
    }
    if i >= n {
        return None;
    }
    let mut acc: u32 = 0;
    while i < n
        invariant
            n == s@.len(),
            off <= i <= n,
            0 <= off <= 1,
            t == s@.skip(off),
            t == (if s@.len() > 0 && s@[0] == '+' {
                s@.skip(1)
            } else {
                s@
            }),
            acc <= 255,
            all_digits(t.take(i - off)),
            acc == digits_val(t.take(i - off)),
        decreases n - i,
    {
        let c = s.get_char(i);
        let u = c as u32;
        if u < 48 || u > 57 {
            proof {
                assert(t[i - off] == s@[i as int]);
                assert(!is_digit(t[i - off]));
                assert(!all_digits(t));
            }
            return None;
        }
        let d = u - 48;
        proof {
            assert(t.take(i - off + 1).drop_last() =~= t.take(i - off));
            assert(t.take(i - off + 1).last() == t[i - off]);
            assert(t[i - off] == s@[i as int]);
        }
        acc = acc * 10 + d;
        i += 1;
        if acc > 255 {
            proof {
                if all_digits(t) {
                    lemma_digits_val_mono(t, i - off);
                }
            }
            return None;
        }
    }
    proof {
        assert(t.take(n - off) =~= t);
    }
    Some(acc as u8)
}

/// The ASCII uppercase of one character: a lowercase ASCII letter is mapped
/// to its uppercase form, every other character is unchanged.
pub open spec fn upper_char(c: char) -> char {
    if 97 <= c as u32 <= 122 {
        ((c as u32 - 32) as char)
    } else {
        c
    }
}

/// The ASCII uppercase of a character sequence.
pub open spec fn upper_seq(s: Seq<char>) -> Seq<char> {
    s.map_values(|c: char| upper_char(c))
}

/// Relies on std's `String::push`: appends exactly one character.
#[verifier::external_body]
fn push_char(s: &mut String, c: char)
    ensures
        final(s)@ == old(s)@.push(c),
{
    s.push(c);
}

/// The ASCII uppercase of one character.
fn upper_char_exec(c: char) -> (r: char)
    ensures
        r == upper_char(c),
{
    let u = c as u32;
    if 97 <= u && u <= 122 {
        ((u - 32) as u8) as char
    } else {
        c
    }
}

/// The ASCII uppercase of a string.
pub fn to_upper(s: &str) -> (r: String)
    ensures
        r@ == upper_seq(s@),
{
    let n = s.unicode_len();
    let mut out = String::new();
    let mut i: usize = 0;
    while i < n
        invariant
            n == s@.len(),
            i <= n,
            out@ == upper_seq(s@).take(i as int),
        decreases n - i,
    {
        let c = upper_char_exec(s.get_char(i));
        push_char(&mut out, c);
        proof {
            assert(upper_seq(s@).take(i + 1) =~= upper_seq(s@).take(i as int).push(
                upper_char(s@[i as int]),
            ));
        }
        i += 1;
    }
    proof {
        assert(upper_seq(s@).take(n as int) =~= upper_seq(s@));
    }
    out
}

} // verus!
