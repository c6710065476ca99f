use vstd::prelude::*;
use vstd::string::StrSliceExecFns;

verus! {

// Character classes used by the line grammar. The grammar is ASCII-oriented:
// whitespace is the ASCII whitespace set, word characters are ASCII
// alphanumerics and the underscore, digits are the ASCII decimal digits.

/// ASCII whitespace: space, tab, line feed, form feed, carriage return.
pub open spec fn is_ws(c: char) -> bool {
    c == ' ' || c == '\t' || c == '\n' || c == '\u{c}' || c == '\r'
}

/// ASCII decimal digit.
pub open spec fn is_digit(c: char) -> bool {
    48 <= c as u32 <= 57
}

/// Numeric value of an ASCII digit.
pub open spec fn dval(c: char) -> int {
    c as u32 - 48
}

/// Word character: ASCII letter, digit, or underscore.
pub open spec fn is_word(c: char) -> bool {
    (65 <= c as u32 <= 90) || (97 <= c as u32 <= 122) || is_digit(c) || c == '_'
}

pub fn ws_char(c: char) -> (r: bool)
    ensures
        r == is_ws(c),
{
    c == ' ' || c == '\t' || c == '\n' || c == '\u{c}' || c == '\r'
}

pub fn digit_char(c: char) -> (r: bool)
    ensures
        r == is_digit(c),
{
    let u = c as u32;
    48 <= u && u <= 57
}

pub fn word_char(c: char) -> (r: bool)
    ensures
        r == is_word(c),
{
    let u = c as u32;
    (65 <= u && u <= 90) || (97 <= u && u <= 122) || (48 <= u && u <= 57) || c == '_'
}

/// End of the maximal run of whitespace starting at `i`: the first index at
/// or after `i` holding a non-whitespace character, or the length.
pub open spec fn ws_end(s: Seq<char>, i: int) -> int
    decreases s.len() - i,
{
    if i < 0 || i >= s.len() {
        s.len() as int
    } else if is_ws(s[i]) {
        ws_end(s, i + 1)
    } else {
        i
    }
}

pub proof fn lemma_ws_end_is(s: Seq<char>, i: int, j: int)
    requires
        0 <= i <= j <= s.len(),
        forall|k: int| i <= k < j ==> is_ws(s[k]),
        j == s.len() || !is_ws(s[j]),
    ensures
        ws_end(s, i) == j,
    decreases j - i,
{
    if i < j {
        lemma_ws_end_is(s, i + 1, j);
    }
}

/// End of the maximal run of digits starting at `i`.
pub open spec fn digit_end(s: Seq<char>, i: int) -> int
    decreases s.len() - i,
{
    if i < 0 || i >= s.len() {
        s.len() as int
    } else if is_digit(s[i]) {
        digit_end(s, i + 1)
    } else {
        i
    }
}

pub proof fn lemma_digit_end_is(s: Seq<char>, i: int, j: int)
    requires
        0 <= i <= j <= s.len(),
        forall|k: int| i <= k < j ==> is_digit(s[k]),
        j == s.len() || !is_digit(s[j]),
    ensures
        digit_end(s, i) == j,
    decreases j - i,
{
    if i < j {
        lemma_digit_end_is(s, i + 1, j);
    }
}

pub proof fn lemma_digit_end_props(s: Seq<char>, i: int)
    requires
        0 <= i <= s.len(),
    ensures
        i <= digit_end(s, i) <= s.len(),
        forall|k: int| i <= k < digit_end(s, i) ==> is_digit(s[k]),
    decreases s.len() - i,
{
    if i < s.len() && is_digit(s[i]) {
        lemma_digit_end_props(s, i + 1);
    }
}

/// End of the maximal run of word characters starting at `i`.
pub open spec fn word_end(s: Seq<char>, i: int) -> int
    decreases s.len() - i,
{
    if i < 0 || i >= s.len() {
        s.len() as int
    } else if is_word(s[i]) {
        word_end(s, i + 1)
    } else {
        i
    }
}

pub proof fn lemma_word_end_is(s: Seq<char>, i: int, j: int)
    requires
        0 <= i <= j <= s.len(),
        forall|k: int| i <= k < j ==> is_word(s[k]),
        j == s.len() || !is_word(s[j]),
    ensures
        word_end(s, i) == j,
    decreases j - i,
{
    if i < j {
        lemma_word_end_is(s, i + 1, j);
    }
}

/// End of the maximal run of non-whitespace characters starting at `i`.
pub open spec fn nonws_end(s: Seq<char>, i: int) -> int
    decreases s.len() - i,
{
    if i < 0 || i >= s.len() {
        s.len() as int
    } else if !is_ws(s[i]) {
        nonws_end(s, i + 1)
    } else {
        i
    }
}

pub proof fn lemma_nonws_end_is(s: Seq<char>, i: int, j: int)
    requires
        0 <= i <= j <= s.len(),
        forall|k: int| i <= k < j ==> !is_ws(s[k]),
        j == s.len() || is_ws(s[j]),
    ensures
        nonws_end(s, i) == j,
    decreases j - i,
{
    if i < j {
        lemma_nonws_end_is(s, i + 1, j);
    }
}

#[verifier::loop_isolation(false)]
pub fn scan_ws(s: &str, from: usize) -> (r: usize)
    requires
        from <= s@.len(),
    ensures
        r == ws_end(s@, from as int),
        from <= r <= s@.len(),
{
    let n = s.unicode_len();
    let mut j = from;
    while j < n && ws_char(s.get_char(j))
        invariant
            from <= j <= n,
            forall|k: int| from <= k < j ==> is_ws(s@[k]),
        decreases n - j,
    {
        j = j + 1;
    }
    proof {
        lemma_ws_end_is(s@, from as int, j as int);
    }
    j
}

#[verifier::loop_isolation(false)]
pub fn scan_digits(s: &str, from: usize) -> (r: usize)
    requires
        from <= s@.len(),
    ensures
        r == digit_end(s@, from as int),
        from <= r <= s@.len(),
{
    let n = s.unicode_len();
    let mut j = from;
    while j < n && digit_char(s.get_char(j))
        invariant
            from <= j <= n,
            forall|k: int| from <= k < j ==> is_digit(s@[k]),
        decreases n - j,
    {
        j = j + 1;
    }
    proof {
        lemma_digit_end_is(s@, from as int, j as int);
    }
    j
}

#[verifier::loop_isolation(false)]
pub fn scan_word(s: &str, from: usize) -> (r: usize)
    requires
        from <= s@.len(),
    ensures
        r == word_end(s@, from as int),
        from <= r <= s@.len(),
{
    let n = s.unicode_len();
    let mut j = from;
    while j < n && word_char(s.get_char(j))
        invariant
            from <= j <= n,
            forall|k: int| from <= k < j ==> is_word(s@[k]),
        decreases n - j,
    {
        j = j + 1;
    }
    proof {
        lemma_word_end_is(s@, from as int, j as int);
    }
    j
}

#[verifier::loop_isolation(false)]
pub fn scan_nonws(s: &str, from: usize) -> (r: usize)
    requires
        from <= s@.len(),
    ensures
        r == nonws_end(s@, from as int),
        from <= r <= s@.len(),
{
    let n = s.unicode_len();
    let mut j = from;
    while j < n && !ws_char(s.get_char(j))
        invariant
            from <= j <= n,
            forall|k: int| from <= k < j ==> !is_ws(s@[k]),
        decreases n - j,
    {
        j = j + 1;
    }
    proof {
        lemma_nonws_end_is(s@, from as int, j as int);
    }
    j
}

} // verus!
