//! Text helpers shared by the registry and the dashboard.

use vstd::prelude::*;

verus! {

/// Whether two string slices hold the same characters.
pub(crate) fn str_eq(a: &str, b: &str) -> (r: bool)
    ensures
        r == (a@ == b@),
{
    let n = a.unicode_len();
    if n != b.unicode_len() {
        return false;
    }
    let mut i: usize = 0;
    while i < n
        invariant
            n == a@.len(),
            n == b@.len(),
            i <= n,
            forall|j: int| 0 <= j < i ==> a@[j] == b@[j],
        decreases n - i,
    {
        if a.get_char(i) != b.get_char(i) {
            return false;
        }
        i = i + 1;
    }
    assert(a@ =~= b@);
    true
}

/// A copy of an optional string.
pub fn clone_opt_string(s: &Option<String>) -> (r: Option<String>)
    ensures
        r == *s,
{
    match s {
        Some(v) => Some(v.clone()),
        None => None,
    }
}

/// The view of an optional string.
pub open spec fn opt_view(s: Option<String>) -> Option<Seq<char>> {
    match s {
        Some(v) => Some(v@),
        None => None,
    }
}


/// Whether `s` sorts before `t` as texts compare character by character: at
/// the first place where they differ `s` has the smaller character, or `s`
/// is a proper prefix of `t`.
pub open spec fn text_before(s: Seq<char>, t: Seq<char>) -> bool {
    ||| exists|i: int| 0 <= i < s.len() && i < t.len() && s.subrange(0, i) == t.subrange(0, i)
            && (s[i] as int) < (t[i] as int)
    ||| s.len() < t.len() && s == t.subrange(0, s.len() as int)
}

/// Of two texts of one length, at most one sorts before the other.
pub proof fn lemma_text_before_asymmetric(s: Seq<char>, t: Seq<char>)
    requires
        s.len() == t.len(),
        text_before(t, s),
    ensures
        !text_before(s, t),
{
    let i = choose|i: int| 0 <= i < t.len() && i < s.len() && t.subrange(0, i) == s.subrange(0, i)
        && (t[i] as int) < (s[i] as int);
    if text_before(s, t) {
        let j = choose|j: int| 0 <= j < s.len() && j < t.len() && s.subrange(0, j) == t.subrange(0, j)
            && (s[j] as int) < (t[j] as int);
        if i < j {
            assert(s.subrange(0, j)[i] == t.subrange(0, j)[i]);
        } else if j < i {
            assert(s.subrange(0, i)[j] == t.subrange(0, i)[j]);
        }
    }
}

/// Whether a character is white space in Unicode, as `char::is_whitespace`
/// and `str::trim` take it.
pub open spec fn is_white_space(c: char) -> bool {
    let u = c as u32;
    (0x9 <= u <= 0xD) || u == 0x20 || u == 0x85 || u == 0xA0 || u == 0x1680 || (0x2000 <= u <= 0x200A)
        || u == 0x2028 || u == 0x2029 || u == 0x202F || u == 0x205F || u == 0x3000
}

/// Whether a character is white space in Unicode.
pub fn char_is_white_space(c: char) -> (r: bool)
    ensures
        r == is_white_space(c),
{
    let u = c as u32;
    (0x9 <= u && u <= 0xD) || u == 0x20 || u == 0x85 || u == 0xA0 || u == 0x1680 || (0x2000 <= u && u <= 0x200A)
        || u == 0x2028 || u == 0x2029 || u == 0x202F || u == 0x205F || u == 0x3000
}

/// The number of white-space characters that `s` starts with.
pub open spec fn leading_white(s: Seq<char>) -> nat
    decreases s.len(),
{
    if s.len() > 0 && is_white_space(s[0]) {
        1 + leading_white(s.drop_first())
    } else {
        0
    }
}

/// The number of white-space characters that `s` ends with.
pub open spec fn trailing_white(s: Seq<char>) -> nat
    decreases s.len(),
{
    if s.len() > 0 && is_white_space(s.last()) {
        1 + trailing_white(s.drop_last())
    } else {
        0
    }
}

/// `s` without leading and trailing white space.
pub open spec fn trimmed(s: Seq<char>) -> Seq<char> {
    let lo = leading_white(s);
    if lo == s.len() {
        Seq::empty()
    } else {
        s.subrange(lo as int, s.len() - trailing_white(s))
    }
}

proof fn lemma_leading_white(s: Seq<char>, i: int)
    requires
        0 <= i <= s.len(),
        forall|j: int| 0 <= j < i ==> is_white_space(s[j]),
    ensures
        i < s.len() && !is_white_space(s[i]) ==> leading_white(s) == i,
        i == s.len() ==> leading_white(s) == s.len(),
    decreases i,
{
    if i > 0 {
        let t = s.drop_first();
        assert forall|j: int| 0 <= j < i - 1 implies is_white_space(t[j]) by {
            assert(t[j] == s[j + 1]);
        }
        lemma_leading_white(t, i - 1);
        if i < s.len() {
            assert(t[i - 1] == s[i]);
        }
    }
}

proof fn lemma_trailing_white(s: Seq<char>, k: int)
    requires
        0 <= k <= s.len(),
        forall|j: int| s.len() - k <= j < s.len() ==> is_white_space(s[j]),
    ensures
        k < s.len() && !is_white_space(s[s.len() - k - 1]) ==> trailing_white(s) == k,
        k == s.len() ==> trailing_white(s) == s.len(),
    decreases k,
{
    if k > 0 {
        let t = s.drop_last();
        assert forall|j: int| t.len() - (k - 1) <= j < t.len() implies is_white_space(t[j]) by {
            assert(t[j] == s[j]);
        }
        lemma_trailing_white(t, k - 1);
        if k < s.len() {
            assert(t[t.len() - (k - 1) - 1] == s[s.len() - k - 1]);
        }
    }
}

/// `s` without leading and trailing white space, as `str::trim` gives it.
pub fn trim_text(s: &str) -> (r: String)
    ensures
        r@ == trimmed(s@),
{
    let n = s.unicode_len();
    let mut lo: usize = 0;
    while lo < n && char_is_white_space(s.get_char(lo))
        invariant
            n == s@.len(),
            lo <= n,
            forall|j: int| 0 <= j < lo ==> is_white_space(s@[j]),
        decreases n - lo,
    {
        lo = lo + 1;
    }
    proof {
        lemma_leading_white(s@, lo as int);
    }
    if lo == n {
        return String::new();
    }
    let mut k: usize = 0;
    while k < n - lo && char_is_white_space(s.get_char(n - 1 - k))
        invariant
            n == s@.len(),
            lo < n,
            k <= n - lo,
            !is_white_space(s@[lo as int]),
            forall|j: int| n - k <= j < n ==> is_white_space(s@[j]),
        decreases n - lo - k,
    {
        k = k + 1;
    }
    proof {
        if k == n - lo {
            assert(is_white_space(s@[lo as int]));
        }
        lemma_trailing_white(s@, k as int);
    }
    String::from_str(s.substring_char(lo, n - k))
}

/// The text of `s` up to its first line feed.
pub open spec fn before_newline(s: Seq<char>) -> Seq<char>
    decreases s.len(),
{
    if s.len() == 0 {
        Seq::empty()
    } else if s[0] == '\n' {
        Seq::empty()
    } else {
        seq![s[0]] + before_newline(s.drop_first())
    }
}

proof fn lemma_before_newline(s: Seq<char>, i: int)
    requires
        0 <= i <= s.len(),
        forall|j: int| 0 <= j < i ==> s[j] != '\n',
        i == s.len() || s[i] == '\n',
    ensures
        before_newline(s) == s.subrange(0, i),
    decreases i,
{
    if i > 0 {
        let t = s.drop_first();
        assert forall|j: int| 0 <= j < i - 1 implies t[j] != '\n' by {
            assert(t[j] == s[j + 1]);
        }
        lemma_before_newline(t, i - 1);
        assert(seq![s[0]] + t.subrange(0, i - 1) =~= s.subrange(0, i));
    } else {
        assert(s.subrange(0, 0) =~= Seq::<char>::empty());
    }
}

/// The first line of a prompt without surrounding white space, or
/// `untitled agent` when it is blank.
pub open spec fn first_line_text(text: Seq<char>) -> Seq<char> {
    let line = trimmed(before_newline(text));
    if line.len() == 0 {
        "untitled agent"@
    } else {
        line
    }
}

/// The first line of a text, trimmed, or `untitled agent` when blank.
pub fn first_line(text: &str) -> (r: String)
    ensures
        r@ == first_line_text(text@),
{
    let n = text.unicode_len();
    let mut i: usize = 0;
    while i < n && text.get_char(i) != '\n'
        invariant
            n == text@.len(),
            i <= n,
            forall|j: int| 0 <= j < i ==> text@[j] != '\n',
        decreases n - i,
    {
        i = i + 1;
    }
    proof {
        lemma_before_newline(text@, i as int);
    }
    let line = trim_text(text.substring_char(0, i));
    if line.unicode_len() == 0 {
        String::from_str("untitled agent")
    } else {
        line
    }
}

/// The decimal digit of a value below ten.
pub open spec fn decimal_digit(n: nat) -> char {
    if n == 0 { '0' } else if n == 1 { '1' } else if n == 2 { '2' } else if n == 3 { '3' }
    else if n == 4 { '4' } else if n == 5 { '5' } else if n == 6 { '6' } else if n == 7 { '7' }
    else if n == 8 { '8' } else { '9' }
}

/// The decimal numeral of `n`, without leading zeros.
pub open spec fn decimal(n: nat) -> Seq<char>
    decreases n,
{
    if n < 10 {
        seq![decimal_digit(n)]
    } else {
        decimal(n / 10) + seq![decimal_digit(n % 10)]
    }
}

fn decimal_digit_str(n: u64) -> (r: &'static str)
    requires
        n < 10,
    ensures
        r@ == seq![decimal_digit(n as nat)],
{
    if n == 0 { proof { reveal_strlit("0"); } "0" }
    else if n == 1 { proof { reveal_strlit("1"); } "1" }
    else if n == 2 { proof { reveal_strlit("2"); } "2" }
    else if n == 3 { proof { reveal_strlit("3"); } "3" }
    else if n == 4 { proof { reveal_strlit("4"); } "4" }
    else if n == 5 { proof { reveal_strlit("5"); } "5" }
    else if n == 6 { proof { reveal_strlit("6"); } "6" }
    else if n == 7 { proof { reveal_strlit("7"); } "7" }
    else if n == 8 { proof { reveal_strlit("8"); } "8" }
    else { proof { reveal_strlit("9"); } "9" }
}

/// The decimal numeral of `n`.
pub fn decimal_text(n: u64) -> (r: String)
    ensures
        r@ == decimal(n as nat),
    decreases n,
{
    if n < 10 {
        String::from_str(decimal_digit_str(n))
    } else {
        let mut s = decimal_text(n / 10);
        s.append(decimal_digit_str(n % 10));
        s
    }
}

} // verus!
