//! Small tools for text, stated over sequences of characters.

use vstd::prelude::*;
use vstd::std_specs::iter::IteratorSpec;
use vstd::string::*;

verus! {

/// The characters of `text`, one by one.
pub fn chars_of(text: &str) -> (chars: Vec<char>)
    ensures
        chars@ == text@,
{
    let mut chars: Vec<char> = Vec::new();
    for c in it: text.chars()
        invariant
            it.seq() == text@,
            chars@ == it.seq().take(it.index() as int),
    {
        chars.push(c);
        assert(chars@ =~= it.seq().take(it.index() + 1));
    }
    assert(chars@ =~= text@);
    chars
}

/// The characters from `from` up to `to` of `text`, as a string of their
/// own.
pub fn piece(text: &str, from: usize, to: usize) -> (part: String)
    requires
        from <= to <= text@.len(),
    ensures
        part@ == text@.subrange(from as int, to as int),
{
    String::from_str(text.substring_char(from, to))
}

/// Whether `c` is white space: one of the characters that Unicode gives the
/// property White_Space.
pub open spec fn is_space(c: char) -> bool {
    let n = c as u32;
    ||| 0x09 <= n <= 0x0d
    ||| n == 0x20
    ||| n == 0x85
    ||| n == 0xa0
    ||| n == 0x1680
    ||| 0x2000 <= n <= 0x200a
    ||| n == 0x2028
    ||| n == 0x2029
    ||| n == 0x202f
    ||| n == 0x205f
    ||| n == 0x3000
}

/// Whether `c` is white space.
pub fn is_whitespace(c: char) -> (space: bool)
    ensures
        space == is_space(c),
{
    let n = c as u32;
    (0x09 <= n && n <= 0x0d) || n == 0x20 || n == 0x85 || n == 0xa0 || n == 0x1680 || (0x2000 <= n && n
        <= 0x200a) || n == 0x2028 || n == 0x2029 || n == 0x202f || n == 0x205f || n == 0x3000
}

/// The first position at or after `from` that holds no white space; the
/// length where there is none.
pub open spec fn content_start(s: Seq<char>, from: int) -> int
    decreases s.len() - from,
{
    if 0 <= from < s.len() && is_space(s[from]) {
        content_start(s, from + 1)
    } else {
        from
    }
}

/// The position behind the last character before `to` that is no white
/// space, not below `low`.
pub open spec fn content_end(s: Seq<char>, low: int, to: int) -> int
    decreases to,
{
    if 0 <= low < to <= s.len() && is_space(s[to - 1]) {
        content_end(s, low, to - 1)
    } else {
        to
    }
}

/// `s` without the white space at its start and at its end.
pub open spec fn trimmed(s: Seq<char>) -> Seq<char> {
    let a = content_start(s, 0);
    s.subrange(a, content_end(s, a, s.len() as int))
}

/// Where the content of `chars` starts and ends: see [`trimmed`].
pub fn trim_bounds(chars: &Vec<char>) -> (bounds: (usize, usize))
    ensures
        bounds.0 == content_start(chars@, 0),
        bounds.1 == content_end(chars@, bounds.0 as int, chars@.len() as int),
        bounds.0 <= bounds.1 <= chars@.len(),
{
    let n = chars.len();
    let mut a: usize = 0;
    while a < n && is_whitespace(chars[a])
        invariant
            a <= n,
            n == chars@.len(),
            content_start(chars@, 0) == content_start(chars@, a as int),
        decreases n - a,
    {
        a = a + 1;
    }
    let mut b: usize = n;
    while b > a && is_whitespace(chars[b - 1])
        invariant
            a <= b <= n,
            n == chars@.len(),
            content_end(chars@, a as int, n as int) == content_end(chars@, a as int, b as int),
        decreases b,
    {
        b = b - 1;
    }
    (a, b)
}

/// `text` without the white space at its start and at its end.
pub fn trim(text: &str) -> (out: String)
    ensures
        out@ == trimmed(text@),
{
    let chars = chars_of(text);
    let (a, b) = trim_bounds(&chars);
    piece(text, a, b)
}

/// Whether `s` begins with `prefix`.
pub open spec fn has_prefix(s: Seq<char>, prefix: Seq<char>) -> bool {
    prefix.len() <= s.len() && s.take(prefix.len() as int) == prefix
}

/// Whether `chars` holds `pattern` from position `at` on.
pub open spec fn holds_at(s: Seq<char>, pattern: Seq<char>, at: int) -> bool {
    0 <= at && at + pattern.len() <= s.len() && s.subrange(at, at + pattern.len()) == pattern
}

/// Whether `chars` holds `pattern` from position `at` on.
pub fn matches_at(chars: &Vec<char>, pattern: &Vec<char>, at: usize) -> (found: bool)
    ensures
        found == holds_at(chars@, pattern@, at as int),
{
    let n = chars.len();
    let m = pattern.len();
    if at > n || m > n - at {
        return false;
    }
    let mut k: usize = 0;
    while k < m
        invariant
            k <= m,
            m == pattern@.len(),
            n == chars@.len(),
            at + m <= n,
            forall|j: int| 0 <= j < k ==> chars@[at + j] == pattern@[j],
        decreases m - k,
    {
        if chars[at + k] != pattern[k] {
            assert(chars@.subrange(at as int, at + m)[k as int] != pattern@[k as int]);
            return false;
        }
        k = k + 1;
    }
    assert(chars@.subrange(at as int, at + m) =~= pattern@);
    true
}

/// Whether `text` begins with `prefix`.
pub fn starts_with(text: &str, prefix: &str) -> (yes: bool)
    ensures
        yes == has_prefix(text@, prefix@),
{
    let chars = chars_of(text);
    let pattern = chars_of(prefix);
    let yes = matches_at(&chars, &pattern, 0);
    assert(text@.take(prefix@.len() as int) =~= text@.subrange(0, 0 + prefix@.len() as int));
    yes
}

/// Whether `s` ends with `suffix`.
pub open spec fn has_suffix(s: Seq<char>, suffix: Seq<char>) -> bool {
    suffix.len() <= s.len() && s.skip(s.len() - suffix.len()) == suffix
}

/// Whether `text` ends with `suffix`.
pub fn ends_with(text: &str, suffix: &str) -> (yes: bool)
    ensures
        yes == has_suffix(text@, suffix@),
{
    let chars = chars_of(text);
    let pattern = chars_of(suffix);
    if pattern.len() > chars.len() {
        return false;
    }
    let at = chars.len() - pattern.len();
    let yes = matches_at(&chars, &pattern, at);
    assert(text@.skip(at as int) =~= text@.subrange(at as int, at + suffix@.len() as int));
    yes
}

/// Whether `pattern` occurs somewhere in `s`.
pub open spec fn occurs_in(s: Seq<char>, pattern: Seq<char>) -> bool {
    exists|at: int| holds_at(s, pattern, at)
}

/// Whether `pattern` occurs somewhere in `text`.
pub fn contains(text: &str, pattern: &str) -> (yes: bool)
    ensures
        yes == occurs_in(text@, pattern@),
{
    let chars = chars_of(text);
    let wanted = chars_of(pattern);
    let n = chars.len();
    let mut at: usize = 0;
    while at <= n
        invariant
            at <= n + 1,
            n == chars@.len(),
            chars@ == text@,
            wanted@ == pattern@,
            forall|k: int| 0 <= k < at ==> !holds_at(chars@, wanted@, k),
        decreases n + 1 - at,
    {
        if matches_at(&chars, &wanted, at) {
            return true;
        }
        if at == n {
            assert forall|k: int| !holds_at(chars@, wanted@, k) by {
                if holds_at(chars@, wanted@, k) {
                    assert(k <= n);
                }
            }
            return false;
        }
        at = at + 1;
    }
    false
}

/// The first position at or after `from` that holds `c`; the length where
/// there is none.
pub open spec fn position_of_char(s: Seq<char>, c: char, from: int) -> int
    decreases s.len() - from,
{
    if 0 <= from < s.len() && s[from] != c {
        position_of_char(s, c, from + 1)
    } else {
        from
    }
}

pub proof fn lemma_position_of_char(s: Seq<char>, c: char, from: int)
    requires
        0 <= from <= s.len(),
    ensures
        from <= position_of_char(s, c, from) <= s.len(),
        position_of_char(s, c, from) < s.len() ==> s[position_of_char(s, c, from)] == c,
        forall|k: int| from <= k < position_of_char(s, c, from) ==> s[k] != c,
    decreases s.len() - from,
{
    if from < s.len() && s[from] != c {
        lemma_position_of_char(s, c, from + 1);
    }
}

/// The first position at or after `from` that holds `c`; the length where
/// there is none.
pub fn find_char(chars: &Vec<char>, c: char, from: usize) -> (at: usize)
    requires
        from <= chars@.len(),
    ensures
        at == position_of_char(chars@, c, from as int),
        from <= at <= chars@.len(),
{
    let n = chars.len();
    let mut at: usize = from;
    while at < n && chars[at] != c
        invariant
            from <= at <= n,
            n == chars@.len(),
            position_of_char(chars@, c, from as int) == position_of_char(chars@, c, at as int),
        decreases n - at,
    {
        at = at + 1;
    }
    at
}

/// A line without the carriage return that may end it.
pub open spec fn without_cr(line: Seq<char>) -> Seq<char> {
    if line.len() > 0 && line.last() == '\r' {
        line.drop_last()
    } else {
        line
    }
}

/// The lines of `s` from position `from` on. Lines end in a line feed, or
/// in a carriage return and a line feed; the last line needs no ending.
pub open spec fn lines_from(s: Seq<char>, from: int) -> Seq<Seq<char>>
    decreases s.len() - from,
{
    if from < 0 || from >= s.len() {
        Seq::empty()
    } else {
        let end = position_of_char(s, '\n', from);
        if from <= end < s.len() {
            seq![without_cr(s.subrange(from, end))] + lines_from(s, end + 1)
        } else {
            seq![s.subrange(from, s.len() as int)]
        }
    }
}

/// The lines of `s`.
pub open spec fn lines_of(s: Seq<char>) -> Seq<Seq<char>> {
    lines_from(s, 0)
}

/// The texts of a list of strings.
pub open spec fn texts(list: Seq<String>) -> Seq<Seq<char>> {
    list.map_values(|s: String| s@)
}

/// The lines of `text`.
pub fn lines(text: &str) -> (out: Vec<String>)
    ensures
        texts(out@) == lines_of(text@),
{
    let chars = chars_of(text);
    let n = chars.len();
    let mut out: Vec<String> = Vec::new();
    let mut at: usize = 0;
    assert(texts(out@) =~= Seq::<Seq<char>>::empty());
    assert(Seq::<Seq<char>>::empty() + lines_from(text@, 0) =~= lines_from(text@, 0));
    while at < n
        invariant
            at <= n,
            n == text@.len(),
            chars@ == text@,
            lines_of(text@) == texts(out@) + lines_from(text@, at as int),
        decreases n - at,
    {
        let ghost so_far = texts(out@);
        let end = find_char(&chars, '\n', at);
        proof {
            lemma_position_of_char(text@, '\n', at as int);
        }
        if end < n {
            let stop = if end > at && chars[end - 1] == '\r' {
                end - 1
            } else {
                end
            };
            let line = piece(text, at, stop);
            proof {
                let raw = text@.subrange(at as int, end as int);
                if end > at {
                    assert(raw.last() == text@[end - 1]);
                }
                assert(line@ =~= without_cr(raw));
            }
            let ghost l = line@;
            out.push(line);
            proof {
                assert(texts(out@) =~= so_far.push(l));
                assert(so_far + (seq![l] + lines_from(text@, end + 1)) =~= so_far.push(l) + lines_from(
                    text@,
                    end + 1,
                ));
            }
            at = end + 1;
        } else {
            let line = piece(text, at, n);
            let ghost l = line@;
            out.push(line);
            proof {
                assert(texts(out@) =~= so_far.push(l));
                assert(so_far + seq![l] =~= so_far.push(l));
                assert(so_far.push(l) + lines_from(text@, n as int) =~= so_far.push(l));
            }
            at = n;
        }
    }
    proof {
        assert(texts(out@) + lines_from(text@, n as int) =~= texts(out@));
    }
    out
}

/// The position behind the first word of `s` that begins at `from`: the
/// first position at or after `from` that holds white space, or the length.
pub open spec fn word_end(s: Seq<char>, from: int) -> int
    decreases s.len() - from,
{
    if 0 <= from < s.len() && !is_space(s[from]) {
        word_end(s, from + 1)
    } else {
        from
    }
}

/// The first word of `s`: what stands between the white space at its start
/// and the next white space. It is empty where `s` holds nothing else.
pub open spec fn first_word_of(s: Seq<char>) -> Seq<char> {
    let a = content_start(s, 0);
    s.subrange(a, word_end(s, a))
}

/// The first word of `text`, if it holds one.
pub fn first_word(text: &str) -> (word: Option<String>)
    ensures
        word is Some <==> first_word_of(text@).len() > 0,
        word matches Some(w) ==> w@ == first_word_of(text@),
{
    let chars = chars_of(text);
    let n = chars.len();
    let mut a: usize = 0;
    while a < n && is_whitespace(chars[a])
        invariant
            a <= n,
            n == chars@.len(),
            content_start(chars@, 0) == content_start(chars@, a as int),
        decreases n - a,
    {
        a = a + 1;
    }
    let mut b: usize = a;
    while b < n && !is_whitespace(chars[b])
        invariant
            a <= b <= n,
            n == chars@.len(),
            word_end(chars@, a as int) == word_end(chars@, b as int),
        decreases n - b,
    {
        b = b + 1;
    }
    if b > a {
        Some(piece(text, a, b))
    } else {
        None
    }
}

/// The character that stands for a digit.
pub open spec fn digit_char(d: int) -> char {
    if d == 0 {
        '0'
    } else if d == 1 {
        '1'
    } else if d == 2 {
        '2'
    } else if d == 3 {
        '3'
    } else if d == 4 {
        '4'
    } else if d == 5 {
        '5'
    } else if d == 6 {
        '6'
    } else if d == 7 {
        '7'
    } else if d == 8 {
        '8'
    } else {
        '9'
    }
}

/// `n` written in decimal digits.
pub open spec fn decimal(n: nat) -> Seq<char>
    decreases n,
{
    if n < 10 {
        seq![digit_char(n as int)]
    } else {
        decimal(n / 10).push(digit_char((n % 10) as int))
    }
}

/// The text of one digit.
fn digit_text(d: u64) -> (text: &'static str)
    requires
        d < 10,
    ensures
        text@ == seq![digit_char(d as int)],
{
    proof {
        reveal_strlit("0");
        reveal_strlit("1");
        reveal_strlit("2");
        reveal_strlit("3");
        reveal_strlit("4");
        reveal_strlit("5");
        reveal_strlit("6");
        reveal_strlit("7");
        reveal_strlit("8");
        reveal_strlit("9");
    }
    let text = if d == 0 {
        "0"
    } else if d == 1 {
        "1"
    } else if d == 2 {
        "2"
    } else if d == 3 {
        "3"
    } else if d == 4 {
        "4"
    } else if d == 5 {
        "5"
    } else if d == 6 {
        "6"
    } else if d == 7 {
        "7"
    } else if d == 8 {
        "8"
    } else {
        "9"
    };
    assert(text@ =~= seq![digit_char(d as int)]);
    text
}

/// Appends `n` in decimal digits.
pub fn push_decimal(out: &mut String, n: u64)
    ensures
        final(out)@ == old(out)@ + decimal(n as nat),
    decreases n,
{
    let ghost before = out@;
    if n >= 10 {
        push_decimal(out, n / 10);
    }
    out.append(digit_text(n % 10));
    proof {
        if n >= 10 {
            assert(out@ =~= before + decimal(n as nat));
        } else {
            assert(out@ =~= before + decimal(n as nat));
        }
    }
}

/// `n` in decimal digits.
pub fn to_decimal(n: u64) -> (text: String)
    ensures
        text@ == decimal(n as nat),
{
    let mut text = String::new();
    push_decimal(&mut text, n);
    assert(text@ =~= decimal(n as nat));
    text
}

/// Whether two texts are the same.
pub fn equal(a: &str, b: &str) -> (same: bool)
    ensures
        same == (a@ == b@),
{
    let x = chars_of(a);
    let y = chars_of(b);
    if x.len() != y.len() {
        return false;
    }
    let same = matches_at(&x, &y, 0);
    assert(x@.subrange(0, 0 + y@.len() as int) =~= x@);
    same
}

/// Whether `list` holds `text`.
pub fn list_contains(list: &Vec<String>, text: &str) -> (found: bool)
    ensures
        found == texts(list@).contains(text@),
{
    let mut i: usize = 0;
    while i < list.len()
        invariant
            i <= list.len(),
            forall|k: int| 0 <= k < i ==> texts(list@)[k] != text@,
        decreases list.len() - i,
    {
        if equal(list[i].as_str(), text) {
            assert(texts(list@)[i as int] == text@);
            return true;
        }
        i = i + 1;
    }
    false
}

} // verus!
