//! Character-level text utilities: lines, substring search, whitespace
//! splitting and decimal numbers, each specified over `Seq<char>`.

use vstd::prelude::*;
use vstd::string::StringExecFns;

verus! {

// ---------------------------------------------------------------------
// Conversions between `str`/`String` and character vectors
// ---------------------------------------------------------------------

/// The character sequences of a sequence of strings.
pub open spec fn string_views(v: Seq<String>) -> Seq<Seq<char>> {
    v.map_values(|s: String| s@)
}

/// The character sequences of a sequence of string slices.
pub open spec fn str_views(v: Seq<&str>) -> Seq<Seq<char>> {
    v.map_values(|s: &str| s@)
}

/// The character sequences of a sequence of character vectors.
pub open spec fn char_vec_views(v: Seq<Vec<char>>) -> Seq<Seq<char>> {
    v.map_values(|s: Vec<char>| s@)
}

/// Copies the characters of `s` into a vector.
pub fn chars_of(s: &str) -> (v: Vec<char>)
    ensures
        v@ == s@,
{
    let mut v: Vec<char> = Vec::new();
    for c in it: s.chars()
        invariant
            v@ == it.seq().take(it.index() as int),
            it.seq() == s@,
    {
        v.push(c);
    }
    v
}

/// `String::push`: appends one character.
#[verifier::external_body]
pub(crate) fn push_char(s: &mut String, c: char)
    ensures
        final(s)@ == old(s)@.push(c),
{
    s.push(c);
}

/// Appends a string slice to a string.
pub fn push_str(s: &mut String, t: &str)
    ensures
        final(s)@ == old(s)@ + t@,
{
    s.append(t);
}

/// Appends the characters of `cs` to `s`.
pub fn push_chars(s: &mut String, cs: &[char])
    ensures
        final(s)@ == old(s)@ + cs@,
{
    let ghost start = s@;
    let mut i: usize = 0;
    while i < cs.len()
        invariant
            i <= cs@.len(),
            s@ == start + cs@.subrange(0, i as int),
        decreases cs@.len() - i,
    {
        push_char(s, cs[i]);
        i = i + 1;
        assert(cs@.subrange(0, i as int) == cs@.subrange(0, i - 1 as int).push(cs@[i - 1]));
    }
    assert(cs@.subrange(0, cs@.len() as int) == cs@);
}

/// Builds a string holding the characters of `cs`.
pub fn string_of(cs: &[char]) -> (s: String)
    ensures
        s@ == cs@,
{
    let mut s = String::new();
    push_chars(&mut s, cs);
    s
}

/// Concatenation of a sequence of character sequences.
pub open spec fn concat(parts: Seq<Seq<char>>) -> Seq<char>
    decreases parts.len(),
{
    if parts.len() == 0 {
        Seq::empty()
    } else {
        concat(parts.drop_last()) + parts.last()
    }
}

/// The parts, each followed by `sep` (a line-oriented join: `"a\n" + "b\n"`).
pub open spec fn terminated(parts: Seq<Seq<char>>, sep: Seq<char>) -> Seq<char>
    decreases parts.len(),
{
    if parts.len() == 0 {
        Seq::empty()
    } else {
        terminated(parts.drop_last(), sep) + parts.last() + sep
    }
}

/// The parts with `sep` between consecutive ones, as `[&str]::join` does.
pub open spec fn joined(parts: Seq<Seq<char>>, sep: Seq<char>) -> Seq<char>
    decreases parts.len(),
{
    if parts.len() == 0 {
        Seq::empty()
    } else if parts.len() == 1 {
        parts[0]
    } else {
        joined(parts.drop_last(), sep) + sep + parts.last()
    }
}

/// Joins `parts` with `sep` between consecutive ones.
pub fn join_strings(parts: &[String], sep: &str) -> (r: String)
    ensures
        r@ == joined(string_views(parts@), sep@),
{
    let ghost views = string_views(parts@);
    let mut r = String::new();
    let mut i: usize = 0;
    while i < parts.len()
        invariant
            i <= parts@.len(),
            views == string_views(parts@),
            r@ == joined(views.subrange(0, i as int), sep@),
        decreases parts@.len() - i,
    {
        if i > 0 {
            push_str(&mut r, sep);
        }
        push_str(&mut r, parts[i].as_str());
        i = i + 1;
        assert(views.subrange(0, i as int).drop_last() == views.subrange(0, i - 1 as int));
    }
    assert(views.subrange(0, parts@.len() as int) == views);
    r
}

// ---------------------------------------------------------------------
// Scanning for a character
// ---------------------------------------------------------------------

/// The first index at or after `i` that holds `c`, or `s.len()` when none does.
pub open spec fn char_index_from(s: Seq<char>, c: char, i: nat) -> nat
    decreases s.len() - i,
{
    if i >= s.len() {
        s.len()
    } else if s[i as int] == c {
        i
    } else {
        char_index_from(s, c, i + 1)
    }
}

pub proof fn lemma_char_index_from(s: Seq<char>, c: char, i: nat)
    ensures
        i <= s.len() ==> i <= char_index_from(s, c, i) <= s.len(),
        i > s.len() ==> char_index_from(s, c, i) == s.len(),
        char_index_from(s, c, i) < s.len() ==> s[char_index_from(s, c, i) as int] == c,
        forall|j: int| i <= j < char_index_from(s, c, i) ==> s[j] != c,
    decreases s.len() - i,
{
    if i < s.len() && s[i as int] != c {
        lemma_char_index_from(s, c, i + 1);
    }
}

/// Index of the first `c` at or after `from`, or `s.len()`.
pub fn index_of_char(s: &[char], c: char, from: usize) -> (r: usize)
    requires
        from <= s@.len(),
    ensures
        r == char_index_from(s@, c, from as nat),
{
    let mut i = from;
    while i < s.len()
        invariant
            from <= i <= s@.len(),
            char_index_from(s@, c, i as nat) == char_index_from(s@, c, from as nat),
        decreases s@.len() - i,
    {
        if s[i] == c {
            return i;
        }
        i = i + 1;
    }
    i
}

// ---------------------------------------------------------------------
// Lines
// ---------------------------------------------------------------------

/// Removes one trailing carriage return.
pub open spec fn strip_cr(l: Seq<char>) -> Seq<char> {
    if l.len() > 0 && l.last() == '\r' {
        l.drop_last()
    } else {
        l
    }
}

/// The lines of `s` from index `p` on, as `str::lines` yields them: split at
/// `'\n'`, a `'\r'` before the `'\n'` dropped, and no empty last line after
/// a final line ending.
pub open spec fn lines_from(s: Seq<char>, p: nat) -> Seq<Seq<char>>
    decreases s.len() - p,
{
    if p >= s.len() {
        Seq::empty()
    } else {
        let e = char_index_from(s, '\n', p);
        proof {
            lemma_char_index_from(s, '\n', p);
        }
        if e < s.len() {
            seq![strip_cr(s.subrange(p as int, e as int))] + lines_from(s, e + 1)
        } else {
            seq![s.subrange(p as int, s.len() as int)]
        }
    }
}

/// The lines of `s` (`str::lines`).
pub open spec fn lines_of(s: Seq<char>) -> Seq<Seq<char>> {
    lines_from(s, 0)
}

/// Splits `s` into its lines, as `str::lines` does.
pub fn lines(s: &[char]) -> (r: Vec<Vec<char>>)
    ensures
        char_vec_views(r@) == lines_of(s@),
{
    let mut r: Vec<Vec<char>> = Vec::new();
    let mut p: usize = 0;
    while p < s.len()
        invariant
            p <= s@.len(),
            char_vec_views(r@) + lines_from(s@, p as nat) == lines_of(s@),
        decreases s@.len() - p,
    {
        let e = index_of_char(s, '\n', p);
        proof {
            lemma_char_index_from(s@, '\n', p as nat);
        }
        let mut line: Vec<char> = Vec::new();
        let mut k = p;
        while k < e
            invariant
                p <= k <= e <= s@.len(),
                line@ == s@.subrange(p as int, k as int),
            decreases e - k,
        {
            line.push(s[k]);
            k = k + 1;
        }
        let ghost prev = char_vec_views(r@);
        if e < s.len() {
            if line.len() > 0 && line[line.len() - 1] == '\r' {
                line.pop();
            }
            r.push(line);
            assert(char_vec_views(r@) == prev.push(
                strip_cr(s@.subrange(p as int, e as int)),
            ));
            p = e + 1;
        } else {
            r.push(line);
            assert(char_vec_views(r@) == prev.push(
                s@.subrange(p as int, s@.len() as int),
            ));
            p = e;
        }
    }
    assert(lines_from(s@, p as nat) == Seq::<Seq<char>>::empty());
    r
}

// ---------------------------------------------------------------------
// Substring search
// ---------------------------------------------------------------------

/// `pat` occurs in `s` starting at index `i`.
pub open spec fn occurs_at(s: Seq<char>, pat: Seq<char>, i: int) -> bool {
    0 <= i && i + pat.len() <= s.len() && s.subrange(i, i + pat.len()) == pat
}

/// The first occurrence of `pat` in `s` at or after `i`.
pub open spec fn find_from(s: Seq<char>, pat: Seq<char>, i: nat) -> Option<nat>
    decreases s.len() + 1 - i,
{
    if i + pat.len() > s.len() {
        None
    } else if occurs_at(s, pat, i as int) {
        Some(i)
    } else {
        find_from(s, pat, i + 1)
    }
}

/// The first occurrence of `pat` in `s` (`str::find`).
pub open spec fn find(s: Seq<char>, pat: Seq<char>) -> Option<nat> {
    find_from(s, pat, 0)
}

/// `s` contains `pat` (`str::contains`).
pub open spec fn contains(s: Seq<char>, pat: Seq<char>) -> bool {
    find(s, pat) is Some
}

/// `s` starts with `pat` (`str::starts_with`).
pub open spec fn starts_with(s: Seq<char>, pat: Seq<char>) -> bool {
    pat.len() <= s.len() && s.subrange(0, pat.len() as int) == pat
}

pub proof fn lemma_find_from(s: Seq<char>, pat: Seq<char>, i: nat)
    ensures
        find_from(s, pat, i) matches Some(k) ==> i <= k && occurs_at(s, pat, k as int),
        forall|j: int| i <= j && (find_from(s, pat, i) matches Some(k) ==> j < k) ==> !occurs_at(
            s,
            pat,
            j,
        ),
    decreases s.len() + 1 - i,
{
    if i + pat.len() <= s.len() && !occurs_at(s, pat, i as int) {
        lemma_find_from(s, pat, i + 1);
    }
}

/// A first occurrence is one with no occurrence before it.
pub proof fn lemma_find_is_first(s: Seq<char>, pat: Seq<char>)
    ensures
        find(s, pat) matches Some(k) ==> occurs_at(s, pat, k as int) && forall|j: int|
            0 <= j < k ==> !occurs_at(s, pat, j),
        find(s, pat) is None ==> forall|j: int| !occurs_at(s, pat, j),
{
    lemma_find_from(s, pat, 0);
}

/// Whether `pat` occurs in `s` at index `i`.
pub fn occurs_at_exec(s: &[char], pat: &[char], i: usize) -> (r: bool)
    ensures
        r == occurs_at(s@, pat@, i as int),
{
    let n = s.len();
    if i > n || pat.len() > n - i {
        return false;
    }
    let mut k: usize = 0;
    while k < pat.len()
        invariant
            k <= pat@.len(),
            i + pat@.len() <= s@.len(),
            s@.len() == n,
            forall|j: int| 0 <= j < k ==> s@[i + j] == pat@[j],
        decreases pat@.len() - k,
    {
        if s[i + k] != pat[k] {
            assert(s@.subrange(i as int, i + pat@.len())[k as int] != pat@[k as int]);
            return false;
        }
        k = k + 1;
    }
    assert(s@.subrange(i as int, i + pat@.len()) == pat@);
    true
}

/// The first occurrence of `pat` in `s` at or after `from` (`str::find`).
pub fn find_chars_from(s: &[char], pat: &[char], from: usize) -> (r: Option<usize>)
    ensures
        r matches Some(k) ==> find_from(s@, pat@, from as nat) == Some(k as nat),
        r is None ==> find_from(s@, pat@, from as nat) is None,
{
    let mut i = from;
    loop
        invariant
            from <= i,
            find_from(s@, pat@, i as nat) == find_from(s@, pat@, from as nat),
        decreases s@.len() + 1 - i,
    {
        if i > s.len() || pat.len() > s.len() - i {
            return None;
        }
        if occurs_at_exec(s, pat, i) {
            return Some(i);
        }
        assert(pat@.len() > 0) by {
            if pat@.len() == 0 {
                assert(s@.subrange(i as int, i as int) =~= pat@);
            }
        }
        i = i + 1;
    }
}

/// The first occurrence of `pat` in `s` (`str::find`).
pub fn find_chars(s: &[char], pat: &[char]) -> (r: Option<usize>)
    ensures
        r matches Some(k) ==> find(s@, pat@) == Some(k as nat),
        r is None ==> find(s@, pat@) is None,
{
    find_chars_from(s, pat, 0)
}

/// Whether `pat` occurs in `s` (`str::contains`).
pub fn contains_chars(s: &[char], pat: &[char]) -> (r: bool)
    ensures
        r == contains(s@, pat@),
{
    find_chars(s, pat).is_some()
}

/// Whether two character sequences are equal.
pub fn chars_eq(a: &[char], b: &[char]) -> (r: bool)
    ensures
        r == (a@ == b@),
{
    if a.len() != b.len() {
        return false;
    }
    let r = occurs_at_exec(a, b, 0);
    assert(a@.subrange(0, b@.len() as int) =~= a@);
    r
}

/// Whether two strings hold the same text.
pub fn str_eq(a: &str, b: &str) -> (r: bool)
    ensures
        r == (a@ == b@),
{
    let x = chars_of(a);
    let y = chars_of(b);
    chars_eq(x.as_slice(), y.as_slice())
}

/// Whether `s` starts with `pat` (`str::starts_with`).
pub fn starts_with_chars(s: &[char], pat: &[char]) -> (r: bool)
    ensures
        r == starts_with(s@, pat@),
{
    occurs_at_exec(s, pat, 0)
}

/// `s` ends with `pat` (`str::ends_with`).
pub open spec fn ends_with(s: Seq<char>, pat: Seq<char>) -> bool {
    pat.len() <= s.len() && s.subrange(s.len() - pat.len(), s.len() as int) == pat
}

/// Whether `s` ends with `pat` (`str::ends_with`).
pub fn ends_with_chars(s: &[char], pat: &[char]) -> (r: bool)
    ensures
        r == ends_with(s@, pat@),
{
    if pat.len() > s.len() {
        return false;
    }
    occurs_at_exec(s, pat, s.len() - pat.len())
}

/// Whether `pat` occurs in `s` (`str::contains`).
pub fn str_contains(s: &str, pat: &str) -> (r: bool)
    ensures
        r == contains(s@, pat@),
{
    let a = chars_of(s);
    let b = chars_of(pat);
    contains_chars(a.as_slice(), b.as_slice())
}

// ---------------------------------------------------------------------
// Replacing
// ---------------------------------------------------------------------

/// `s` from index `i` on with each occurrence of `from`, taken left to right
/// without overlap, replaced by `to` (`str::replace` for a non-empty `from`).
pub open spec fn replaced_from(s: Seq<char>, from: Seq<char>, to: Seq<char>, i: nat) -> Seq<char>
    recommends
        from.len() > 0,
    decreases s.len() + 1 - i,
{
    if i > s.len() {
        Seq::empty()
    } else {
        match find_from(s, from, i) {
            None => s.subrange(i as int, s.len() as int),
            Some(k) => {
                proof {
                    lemma_find_from(s, from, i);
                }
                if from.len() == 0 {
                    s.subrange(i as int, s.len() as int)
                } else {
                    s.subrange(i as int, k as int) + to + replaced_from(s, from, to, k + from.len())
                }
            },
        }
    }
}

/// `s` with each occurrence of `from` replaced by `to` (`str::replace`).
pub open spec fn replaced(s: Seq<char>, from: Seq<char>, to: Seq<char>) -> Seq<char> {
    replaced_from(s, from, to, 0)
}

/// Replaces each occurrence of `from`, left to right, by `to`.
pub fn replace_all(s: &[char], from: &[char], to: &[char]) -> (r: String)
    requires
        from@.len() > 0,
    ensures
        r@ == replaced(s@, from@, to@),
{
    let mut r = String::new();
    let mut i: usize = 0;
    loop
        invariant
            i <= s@.len(),
            from@.len() > 0,
            r@ + replaced_from(s@, from@, to@, i as nat) == replaced(s@, from@, to@),
        decreases s@.len() + 1 - i,
    {
        proof {
            lemma_find_from(s@, from@, i as nat);
        }
        match find_chars_from(s, from, i) {
            None => {
                let mut k = i;
                let ghost before = r@;
                while k < s.len()
                    invariant
                        i <= k <= s@.len(),
                        r@ == before + s@.subrange(i as int, k as int),
                    decreases s@.len() - k,
                {
                    push_char(&mut r, s[k]);
                    k = k + 1;
                    assert(s@.subrange(i as int, k as int) == s@.subrange(i as int, k - 1 as int).push(s@[k - 1]));
                }
                return r;
            },
            Some(found) => {
                let ghost before = r@;
                let mut k = i;
                while k < found
                    invariant
                        i <= k <= found,
                        found + from@.len() <= s@.len(),
                        r@ == before + s@.subrange(i as int, k as int),
                    decreases found - k,
                {
                    push_char(&mut r, s[k]);
                    k = k + 1;
                    assert(s@.subrange(i as int, k as int) == s@.subrange(i as int, k - 1 as int).push(s@[k - 1]));
                }
                push_chars(&mut r, to);
                let n = s.len();
                i = found + from.len();
                assert(r@ + replaced_from(s@, from@, to@, i as nat) == replaced(s@, from@, to@));
            },
        }
    }
}

/// Joins string slices with `sep` between consecutive ones (`[&str]::join`).
pub fn join_strs(parts: &[&str], sep: &str) -> (r: String)
    ensures
        r@ == joined(str_views(parts@), sep@),
{
    let ghost views = str_views(parts@);
    let mut r = String::new();
    let mut i: usize = 0;
    while i < parts.len()
        invariant
            i <= parts@.len(),
            views == str_views(parts@),
            r@ == joined(views.subrange(0, i as int), sep@),
        decreases parts@.len() - i,
    {
        if i > 0 {
            push_str(&mut r, sep);
        }
        push_str(&mut r, parts[i]);
        i = i + 1;
        assert(views.subrange(0, i as int).drop_last() == views.subrange(0, i - 1 as int));
    }
    assert(views.subrange(0, parts@.len() as int) == views);
    r
}

// ---------------------------------------------------------------------
// Whitespace
// ---------------------------------------------------------------------

/// Unicode `White_Space` (`char::is_whitespace`).
pub open spec fn is_ws(c: char) -> bool {
    let n = c as u32;
    (0x9 <= n && n <= 0xD) || n == 0x20 || n == 0x85 || n == 0xA0 || n == 0x1680 || (0x2000 <= n
        && n <= 0x200A) || n == 0x2028 || n == 0x2029 || n == 0x202F || n == 0x205F || n == 0x3000
}

/// Whether `c` is whitespace, as `char::is_whitespace` decides.
pub fn is_whitespace(c: char) -> (r: bool)
    ensures
        r == is_ws(c),
{
    let n = c as u32;
    (0x9 <= n && n <= 0xD) || n == 0x20 || n == 0x85 || n == 0xA0 || n == 0x1680 || (0x2000 <= n
        && n <= 0x200A) || n == 0x2028 || n == 0x2029 || n == 0x202F || n == 0x205F || n == 0x3000
}

/// The first index at or after `i` whose character is not whitespace, or `s.len()`.
pub open spec fn non_ws_from(s: Seq<char>, i: nat) -> nat
    decreases s.len() - i,
{
    if i >= s.len() {
        s.len()
    } else if !is_ws(s[i as int]) {
        i
    } else {
        non_ws_from(s, i + 1)
    }
}

/// The first index at or after `i` whose character is whitespace, or `s.len()`.
pub open spec fn ws_from(s: Seq<char>, i: nat) -> nat
    decreases s.len() - i,
{
    if i >= s.len() {
        s.len()
    } else if is_ws(s[i as int]) {
        i
    } else {
        ws_from(s, i + 1)
    }
}

pub proof fn lemma_ws_scans(s: Seq<char>, i: nat)
    ensures
        i <= s.len() ==> i <= non_ws_from(s, i) <= s.len() && i <= ws_from(s, i) <= s.len(),
        non_ws_from(s, i) < s.len() ==> !is_ws(s[non_ws_from(s, i) as int]),
        ws_from(s, i) < s.len() ==> is_ws(s[ws_from(s, i) as int]),
        forall|j: int| i <= j < non_ws_from(s, i) ==> is_ws(s[j]),
        forall|j: int| i <= j < ws_from(s, i) ==> !is_ws(s[j]),
    decreases s.len() - i,
{
    if i < s.len() {
        lemma_ws_scans(s, i + 1);
    }
}

/// The whitespace-separated words of `s` from index `i` on.
pub open spec fn words_from(s: Seq<char>, i: nat) -> Seq<Seq<char>>
    decreases s.len() - i,
{
    let a = non_ws_from(s, i);
    proof {
        lemma_ws_scans(s, i);
        lemma_ws_scans(s, a);
    }
    if a >= s.len() || i > s.len() {
        Seq::empty()
    } else {
        let b = ws_from(s, a);
        seq![s.subrange(a as int, b as int)] + words_from(s, b)
    }
}

/// The whitespace-separated words of `s` (`str::split_whitespace`).
pub open spec fn words(s: Seq<char>) -> Seq<Seq<char>> {
    words_from(s, 0)
}

/// Splits `s` at whitespace, as `str::split_whitespace` does.
pub fn split_words(s: &[char]) -> (r: Vec<Vec<char>>)
    ensures
        char_vec_views(r@) == words(s@),
{
    let mut r: Vec<Vec<char>> = Vec::new();
    let mut i: usize = 0;
    loop
        invariant
            i <= s@.len(),
            char_vec_views(r@) + words_from(s@, i as nat) == words(s@),
        decreases s@.len() - i,
    {
        proof {
            lemma_ws_scans(s@, i as nat);
        }
        let mut a = i;
        while a < s.len() && is_whitespace(s[a])
            invariant
                i <= a <= s@.len(),
                non_ws_from(s@, a as nat) == non_ws_from(s@, i as nat),
            decreases s@.len() - a,
        {
            a = a + 1;
        }
        if a >= s.len() {
            assert(words_from(s@, i as nat) == Seq::<Seq<char>>::empty());
            assert(char_vec_views(r@) == words(s@));
            return r;
        }
        proof {
            lemma_ws_scans(s@, a as nat);
        }
        let mut b = a;
        let mut word: Vec<char> = Vec::new();
        while b < s.len() && !is_whitespace(s[b])
            invariant
                a <= b <= s@.len(),
                ws_from(s@, b as nat) == ws_from(s@, a as nat),
                word@ == s@.subrange(a as int, b as int),
            decreases s@.len() - b,
        {
            word.push(s[b]);
            b = b + 1;
        }
        let ghost prev = char_vec_views(r@);
        r.push(word);
        assert(char_vec_views(r@) == prev.push(s@.subrange(a as int, b as int)));
        i = b;
    }
}

/// `s` without leading and trailing whitespace (`str::trim`).
pub open spec fn trimmed(s: Seq<char>) -> Seq<char> {
    let a = non_ws_from(s, 0);
    let b = trim_end_at(s, s.len());
    if a >= b {
        Seq::empty()
    } else {
        s.subrange(a as int, b as int)
    }
}

/// One past the last non-whitespace character before index `e`, or 0.
pub open spec fn trim_end_at(s: Seq<char>, e: nat) -> nat
    decreases e,
{
    if e == 0 || e > s.len() {
        0
    } else if !is_ws(s[e - 1]) {
        e
    } else {
        trim_end_at(s, (e - 1) as nat)
    }
}

pub proof fn lemma_trim_end_at(s: Seq<char>, e: nat)
    ensures
        e <= s.len() ==> trim_end_at(s, e) <= e,
        trim_end_at(s, e) > 0 ==> !is_ws(s[trim_end_at(s, e) - 1]),
        e <= s.len() ==> forall|j: int| trim_end_at(s, e) <= j < e ==> is_ws(s[j]),
    decreases e,
{
    if e > 0 && e <= s.len() && is_ws(s[e - 1]) {
        lemma_trim_end_at(s, (e - 1) as nat);
    }
}

/// Removes leading and trailing whitespace, as `str::trim` does.
pub fn trim_chars(s: &[char]) -> (r: Vec<char>)
    ensures
        r@ == trimmed(s@),
{
    let mut a: usize = 0;
    while a < s.len() && is_whitespace(s[a])
        invariant
            a <= s@.len(),
            non_ws_from(s@, a as nat) == non_ws_from(s@, 0),
        decreases s@.len() - a,
    {
        a = a + 1;
    }
    let mut b: usize = s.len();
    while b > 0 && is_whitespace(s[b - 1])
        invariant
            b <= s@.len(),
            trim_end_at(s@, b as nat) == trim_end_at(s@, s@.len()),
        decreases b,
    {
        b = b - 1;
    }
    let mut r: Vec<char> = Vec::new();
    if a < b {
        let mut k = a;
        while k < b
            invariant
                a <= k <= b <= s@.len(),
                r@ == s@.subrange(a as int, k as int),
            decreases b - k,
        {
            r.push(s[k]);
            k = k + 1;
        }
    }
    r
}

// ---------------------------------------------------------------------
// Decimal numbers
// ---------------------------------------------------------------------

/// An ASCII decimal digit.
pub open spec fn is_digit(c: char) -> bool {
    '0' <= c && c <= '9'
}

/// The value of a digit character.
pub open spec fn digit_value(c: char) -> int {
    c as int - '0' as int
}

/// The value of a sequence of decimal digits.
pub open spec fn digits_value(s: Seq<char>) -> int
    decreases s.len(),
{
    if s.len() == 0 {
        0
    } else {
        digits_value(s.drop_last()) * 10 + digit_value(s.last())
    }
}

/// Every character of `s` is a decimal digit.
pub open spec fn all_digits(s: Seq<char>) -> bool {
    forall|i: int| 0 <= i < s.len() ==> is_digit(#[trigger] s[i])
}

/// What `str::parse::<u32>` gives: an optional `+`, then at least one digit,
/// and a value that fits in `u32`.
pub open spec fn u32_of(s: Seq<char>) -> Option<u32> {
    let d = if s.len() > 0 && s[0] == '+' {
        s.drop_first()
    } else {
        s
    };
    if d.len() > 0 && all_digits(d) && digits_value(d) <= u32::MAX {
        Some(digits_value(d) as u32)
    } else {
        None
    }
}

proof fn lemma_digits_value_grows(s: Seq<char>, k: int)
    requires
        all_digits(s),
        0 <= k <= s.len(),
    ensures
        digits_value(s.subrange(0, k)) <= digits_value(s),
        0 <= digits_value(s.subrange(0, k)),
    decreases s.len() - k,
{
    assert(forall|i: int| 0 <= i < k ==> s.subrange(0, k)[i] == s[i]);
    lemma_digits_nonneg(s.subrange(0, k));
    if k < s.len() {
        lemma_digits_value_grows(s, k + 1);
        assert(s.subrange(0, k + 1).drop_last() == s.subrange(0, k));
        assert(is_digit(s[k]));
    } else {
        assert(s.subrange(0, k) == s);
    }
}

proof fn lemma_digits_nonneg(s: Seq<char>)
    requires
        all_digits(s),
    ensures
        0 <= digits_value(s),
    decreases s.len(),
{
    if s.len() > 0 {
        assert(all_digits(s.drop_last()));
        lemma_digits_nonneg(s.drop_last());
        assert(is_digit(s[s.len() - 1]));
    }
}

/// Parses an unsigned 32-bit decimal number, as `str::parse::<u32>` does.
pub fn parse_u32(s: &[char]) -> (r: Option<u32>)
    ensures
        r == u32_of(s@),
{
    let start: usize = if s.len() > 0 && s[0] == '+' {
        1
    } else {
        0
    };
    let ghost d = if s@.len() > 0 && s@[0] == '+' {
        s@.drop_first()
    } else {
        s@
    };
    assert(d == s@.subrange(start as int, s@.len() as int));
    if start >= s.len() {
        return None;
    }
    let mut k = start;
    while k < s.len()
        invariant
            start <= k <= s@.len(),
            d == s@.subrange(start as int, s@.len() as int),
            d == (if s@.len() > 0 && s@[0] == '+' {
                s@.drop_first()
            } else {
                s@
            }),
            forall|j: int| start <= j < k ==> is_digit(s@[j]),
        decreases s@.len() - k,
    {
        if !('0' <= s[k] && s[k] <= '9') {
            assert(d[k - start] == s@[k as int]);
            assert(!is_digit(d[k - start]));
            assert(!all_digits(d));
            return None;
        }
        k = k + 1;
    }
    assert(all_digits(d));
    let mut value: u64 = 0;
    let mut k = start;
    while k < s.len()
        invariant
            start <= k <= s@.len(),
            d == s@.subrange(start as int, s@.len() as int),
            d == (if s@.len() > 0 && s@[0] == '+' {
                s@.drop_first()
            } else {
                s@
            }),
            all_digits(d),
            value as int == digits_value(d.subrange(0, k - start)),
            value <= u32::MAX,
        decreases s@.len() - k,
    {
        assert(d[k - start] == s@[k as int]);
        assert(is_digit(d[k - start]));
        let code = s[k] as u32;
        assert(48 <= code <= 57);
        let digit = (code - 48) as u64;
        assert(d.subrange(0, k + 1 - start).drop_last() == d.subrange(0, k - start));
        value = value * 10 + digit;
        if value > 0xffff_ffff {
            proof {
                lemma_digits_value_grows(d, k + 1 - start);
            }
            assert(digits_value(d) > u32::MAX);
            return None;
        }
        k = k + 1;
    }
    assert(d.subrange(0, d.len() as int) == d);
    Some(value as u32)
}

/// A digit character for a value below ten.
pub open spec fn digit_char(n: nat) -> char {
    if n == 0 {
        '0'
    } else if n == 1 {
        '1'
    } else if n == 2 {
        '2'
    } else if n == 3 {
        '3'
    } else if n == 4 {
        '4'
    } else if n == 5 {
        '5'
    } else if n == 6 {
        '6'
    } else if n == 7 {
        '7'
    } else if n == 8 {
        '8'
    } else {
        '9'
    }
}

/// Decimal digits of `n`, without padding.
pub open spec fn decimal(n: nat) -> Seq<char>
    decreases n,
{
    if n < 10 {
        seq![digit_char(n)]
    } else {
        decimal(n / 10).push(digit_char(n % 10))
    }
}

/// `n` zero-padded to at least two digits (`{:02}`).
pub open spec fn zero_padded2(n: nat) -> Seq<char> {
    if n < 10 {
        seq!['0'] + decimal(n)
    } else {
        decimal(n)
    }
}

/// `n` space-padded to at least two characters (`{:2}`).
pub open spec fn space_padded2(n: nat) -> Seq<char> {
    if n < 10 {
        seq![' '] + decimal(n)
    } else {
        decimal(n)
    }
}

/// Appends the decimal digits of `n`.
pub fn push_decimal(s: &mut String, n: u32)
    ensures
        final(s)@ == old(s)@ + decimal(n as nat),
    decreases n,
{
    if n >= 10 {
        push_decimal(s, n / 10);
    }
    let c = char_of_digit(n % 10);
    push_char(s, c);
    assert(decimal(n as nat) == if n < 10 {
        seq![digit_char(n as nat)]
    } else {
        decimal((n / 10) as nat).push(digit_char((n % 10) as nat))
    });
}

fn char_of_digit(d: u32) -> (c: char)
    requires
        d < 10,
    ensures
        c == digit_char(d as nat),
{
    match d {
        0 => '0',
        1 => '1',
        2 => '2',
        3 => '3',
        4 => '4',
        5 => '5',
        6 => '6',
        7 => '7',
        8 => '8',
        _ => '9',
    }
}

/// Appends `n` zero-padded to two digits (`{:02}`).
pub fn push_zero_padded2(s: &mut String, n: u32)
    ensures
        final(s)@ == old(s)@ + zero_padded2(n as nat),
{
    if n < 10 {
        push_char(s, '0');
    }
    push_decimal(s, n);
}

/// Appends `n` space-padded to two characters (`{:2}`).
pub fn push_space_padded2(s: &mut String, n: u32)
    ensures
        final(s)@ == old(s)@ + space_padded2(n as nat),
{
    if n < 10 {
        push_char(s, ' ');
    }
    push_decimal(s, n);
}

} // verus!
