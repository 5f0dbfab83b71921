//! Thread identifiers: 128-bit UUIDs written in their canonical hyphenated,
//! lower-case form.

use vstd::prelude::*;
use vstd::arithmetic::power::pow;
use crate::text::{lemma_text_before_asymmetric, text_before};

verus! {

/// What `uuid::Uuid::parse_str` gives for a string: the UUID's value as a
/// big-endian `u128`, or the text of its error.
pub uninterp spec fn uuid_parse_str(s: Seq<char>) -> Result<u128, Seq<char>>;

/// The lower-case hexadecimal digit of a value below sixteen.
pub open spec fn hex_digit(n: int) -> char {
    if n == 0 { '0' } else if n == 1 { '1' } else if n == 2 { '2' } else if n == 3 { '3' }
    else if n == 4 { '4' } else if n == 5 { '5' } else if n == 6 { '6' } else if n == 7 { '7' }
    else if n == 8 { '8' } else if n == 9 { '9' } else if n == 10 { 'a' } else if n == 11 { 'b' }
    else if n == 12 { 'c' } else if n == 13 { 'd' } else if n == 14 { 'e' } else { 'f' }
}

/// The `k`-th hexadecimal digit of `v`, counting from the most significant of
/// its 32 digits.
pub open spec fn uuid_nibble(v: u128, k: int) -> int {
    ((v as int) / pow(16, (31 - k) as nat)) % 16
}

/// Whether a hyphen precedes the `k`-th digit in the hyphenated form.
pub open spec fn hyphen_before(k: int) -> bool {
    k == 8 || k == 12 || k == 16 || k == 20
}

/// The first `k` digits of `v` in hyphenated form (groups of 8-4-4-4-12).
pub open spec fn hyphenated_prefix(v: u128, k: nat) -> Seq<char>
    decreases k,
{
    if k == 0 {
        Seq::empty()
    } else {
        let j = (k - 1) as nat;
        hyphenated_prefix(v, j) + (if hyphen_before(j as int) { seq!['-'] } else { Seq::empty() })
            + seq![hex_digit(uuid_nibble(v, j as int))]
    }
}

/// The canonical text of a UUID: `xxxxxxxx-xxxx-xxxx-xxxx-xxxxxxxxxxxx` in
/// lower-case hexadecimal.
pub open spec fn hyphenated_uuid(v: u128) -> Seq<char> {
    hyphenated_prefix(v, 32)
}

/// Calls `uuid::Uuid::parse_str`. Claims that the result is the value that
/// `uuid_parse_str` names, and, as the crate documents ("any of the formats
/// generated by this module ... are supported"), that the canonical
/// hyphenated text of a value parses back to that value. The text of the
/// error is left to the crate.
#[verifier::external_body]
fn parse_uuid_str(s: &str) -> (r: Result<u128, String>)
    ensures
        r is Ok ==> uuid_parse_str(s@) == Ok::<u128, Seq<char>>(r->Ok_0),
        r is Err ==> uuid_parse_str(s@) == Err::<u128, Seq<char>>(r->Err_0@),
        forall|v: u128| s@ == hyphenated_uuid(v) ==> (r is Ok && r->Ok_0 == v),
{
    match uuid::Uuid::parse_str(s) {
        Ok(u) => Ok(u.as_u128()),
        Err(e) => Err(e.to_string()),
    }
}

/// The identifier of a Codex thread.
#[derive(Clone, Copy, Debug, PartialEq, Eq, Hash, Structural)]
pub struct ThreadId {
    pub uuid: u128,
}

/// Why a text is not a thread id: the message of the UUID parser.
#[derive(Clone, Debug)]
pub struct ThreadIdError {
    pub message: String,
}

/// What `ThreadId::from_string` gives for a text.
pub open spec fn spec_parse_thread_id(s: Seq<char>) -> Result<ThreadId, Seq<char>> {
    match uuid_parse_str(s) {
        Ok(v) => Ok(ThreadId { uuid: v }),
        Err(e) => Err(e),
    }
}

fn hex_digit_str(n: u8) -> (r: &'static str)
    requires
        n < 16,
    ensures
        r@ == seq![hex_digit(n as int)],
{
    if n == 0 { proof { reveal_strlit("0"); } "0" }
    else if n == 1 { proof { reveal_strlit("1"); } "1" }
    else if n == 2 { proof { reveal_strlit("2"); } "2" }
    else if n == 3 { proof { reveal_strlit("3"); } "3" }
    else if n == 4 { proof { reveal_strlit("4"); } "4" }
    else if n == 5 { proof { reveal_strlit("5"); } "5" }
    else if n == 6 { proof { reveal_strlit("6"); } "6" }
    else if n == 7 { proof { reveal_strlit("7"); } "7" }
    else if n == 8 { proof { reveal_strlit("8"); } "8" }
    else if n == 9 { proof { reveal_strlit("9"); } "9" }
    else if n == 10 { proof { reveal_strlit("a"); } "a" }
    else if n == 11 { proof { reveal_strlit("b"); } "b" }
    else if n == 12 { proof { reveal_strlit("c"); } "c" }
    else if n == 13 { proof { reveal_strlit("d"); } "d" }
    else if n == 14 { proof { reveal_strlit("e"); } "e" }
    else { proof { reveal_strlit("f"); } "f" }
}

proof fn lemma_pow16_step(i: nat)
    ensures
        pow(16, i + 1) == pow(16, i) * 16,
        pow(16, i) > 0,
{
    vstd::arithmetic::power::lemma_pow_adds(16, i, 1);
    vstd::arithmetic::power::lemma_pow1(16);
    vstd::arithmetic::power::lemma_pow_positive(16, i);
}

impl ThreadId {
    /// Parses a thread id from any text that the UUID parser accepts.
    pub fn from_string(s: &str) -> (r: Result<ThreadId, ThreadIdError>)
        ensures
            r matches Ok(id) ==> spec_parse_thread_id(s@) == Ok::<ThreadId, Seq<char>>(id),
            r matches Err(e) ==> spec_parse_thread_id(s@) == Err::<ThreadId, Seq<char>>(e.message@),
            forall|v: u128| s@ == hyphenated_uuid(v) ==> r == Ok::<ThreadId, ThreadIdError>(ThreadId { uuid: v }),
    {
        match parse_uuid_str(s) {
            Ok(v) => Ok(ThreadId { uuid: v }),
            Err(message) => Err(ThreadIdError { message }),
        }
    }

    /// The canonical hyphenated lower-case text of the id.
    pub fn to_string(&self) -> (r: String)
        ensures
            r@ == hyphenated_uuid(self.uuid),
    {
        let v = self.uuid;
        let mut digits: Vec<u8> = Vec::new();
        let mut cur: u128 = v;
        let mut i: usize = 0;
        proof { vstd::arithmetic::power::lemma_pow0(16); }
        while i < 32
            invariant
                i <= 32,
                digits@.len() == i,
                cur as int == (v as int) / pow(16, i as nat),
                forall|j: int| 0 <= j < i ==> digits@[j] as int == ((v as int) / pow(16, j as nat)) % 16,
            decreases 32 - i,
        {
            proof {
                lemma_pow16_step(i as nat);
                vstd::arithmetic::div_mod::lemma_div_denominator(v as int, pow(16, i as nat), 16);
            }
            digits.push((cur % 16) as u8);
            cur = cur / 16;
            i = i + 1;
        }
        let mut out = String::new();
        let mut k: usize = 0;
        while k < 32
            invariant
                k <= 32,
                digits@.len() == 32,
                forall|j: int| 0 <= j < 32 ==> digits@[j] as int == ((v as int) / pow(16, j as nat)) % 16,
                out@ == hyphenated_prefix(v, k as nat),
            decreases 32 - k,
        {
            if k == 8 || k == 12 || k == 16 || k == 20 {
                proof { reveal_strlit("-"); }
                out.append("-");
            }
            let d = digits[31 - k];
            out.append(hex_digit_str(d));
            k = k + 1;
        }
        out
    }
}

/// The number of hyphens before the `n`-th digit.
pub open spec fn hyphens_before(n: int) -> int {
    (if n > 8 { 1int } else { 0int }) + (if n > 12 { 1int } else { 0int }) + (if n > 16 { 1int } else { 0int })
        + (if n > 20 { 1int } else { 0int })
}

proof fn lemma_prefix_digits(v: u128, n: nat)
    requires
        n <= 32,
    ensures
        hyphenated_prefix(v, n).len() == n + hyphens_before(n as int),
        forall|j: int| 0 <= j < n ==> #[trigger] hyphenated_prefix(v, n)[j + hyphens_before(j + 1)]
            == hex_digit(uuid_nibble(v, j)),
    decreases n,
{
    if n > 0 {
        let m = (n - 1) as nat;
        lemma_prefix_digits(v, m);
        let p = hyphenated_prefix(v, m);
        let h: Seq<char> = if hyphen_before(m as int) { seq!['-'] } else { Seq::empty() };
        let q = hyphenated_prefix(v, n);
        assert(q == p + h + seq![hex_digit(uuid_nibble(v, m as int))]);
        assert forall|j: int| 0 <= j < n implies #[trigger] q[j + hyphens_before(j + 1)] == hex_digit(uuid_nibble(v, j)) by {
            if j < m {
                assert(hyphenated_prefix(v, m)[j + hyphens_before(j + 1)] == hex_digit(uuid_nibble(v, j)));
                assert(q[j + hyphens_before(j + 1)] == p[j + hyphens_before(j + 1)]);
            }
        }
    }
}

proof fn lemma_hex_digit_injective(a: int, b: int)
    requires
        0 <= a < 16,
        0 <= b < 16,
        hex_digit(a) == hex_digit(b),
    ensures
        a == b,
{
}

/// The first `m` hexadecimal digits of `v`, as a number.
pub open spec fn uuid_top_digits(v: u128, m: nat) -> int {
    (v as int) / pow(16, (32 - m) as nat)
}

proof fn lemma_top_digits_step(v: u128, m: nat)
    requires
        m < 32,
    ensures
        uuid_top_digits(v, m + 1) == uuid_top_digits(v, m) * 16 + uuid_nibble(v, m as int),
{
    let e = (31 - m) as nat;
    lemma_pow16_step(e);
    let x = (v as int) / pow(16, e);
    vstd::arithmetic::div_mod::lemma_div_denominator(v as int, pow(16, e), 16);
    assert((32 - m) as nat == e + 1);
    assert(x == 16 * (x / 16) + x % 16);
}

proof fn lemma_top_digits_equal(a: u128, b: u128, m: nat)
    requires
        m <= 32,
        forall|j: int| 0 <= j < m ==> uuid_nibble(a, j) == uuid_nibble(b, j),
    ensures
        uuid_top_digits(a, m) == uuid_top_digits(b, m),
    decreases m,
{
    if m == 0 {
        reveal_with_fuel(pow, 33);
        assert(pow(16, 32) == 0x1_0000_0000_0000_0000_0000_0000_0000_0000int);
        vstd::arithmetic::div_mod::lemma_basic_div(a as int, pow(16, 32));
        vstd::arithmetic::div_mod::lemma_basic_div(b as int, pow(16, 32));
    } else {
        let k = (m - 1) as nat;
        lemma_top_digits_equal(a, b, k);
        lemma_top_digits_step(a, k);
        lemma_top_digits_step(b, k);
        assert(uuid_nibble(a, k as int) == uuid_nibble(b, k as int));
    }
}

/// Law: different thread ids have different canonical texts.
pub proof fn lemma_hyphenated_uuid_injective(a: u128, b: u128)
    requires
        hyphenated_uuid(a) == hyphenated_uuid(b),
    ensures
        a == b,
{
    lemma_prefix_digits(a, 32);
    lemma_prefix_digits(b, 32);
    assert forall|j: int| 0 <= j < 32 implies uuid_nibble(a, j) == uuid_nibble(b, j) by {
        assert(hyphenated_prefix(a, 32)[j + hyphens_before(j + 1)] == hex_digit(uuid_nibble(a, j)));
        assert(hyphenated_prefix(b, 32)[j + hyphens_before(j + 1)] == hex_digit(uuid_nibble(b, j)));
        vstd::arithmetic::power::lemma_pow_positive(16, (31 - j) as nat);
        lemma_hex_digit_injective(uuid_nibble(a, j), uuid_nibble(b, j));
    }
    lemma_top_digits_equal(a, b, 32);
    vstd::arithmetic::power::lemma_pow0(16);
    assert(uuid_top_digits(a, 32) == a as int);
    assert(uuid_top_digits(b, 32) == b as int);
}

proof fn lemma_hex_digit_code(n: int)
    requires
        0 <= n < 16,
    ensures
        hex_digit(n) as int == (if n < 10 { 48 + n } else { 87 + n }),
{
}

/// The canonical text of a prefix of digits begins the text of any longer
/// prefix.
proof fn lemma_prefix_extends(v: u128, n: nat, m: nat)
    requires
        n <= m,
    ensures
        hyphenated_prefix(v, n).len() <= hyphenated_prefix(v, m).len(),
        hyphenated_prefix(v, m).subrange(0, hyphenated_prefix(v, n).len() as int) == hyphenated_prefix(v, n),
    decreases m,
{
    if n < m {
        let k = (m - 1) as nat;
        lemma_prefix_extends(v, n, k);
        let p = hyphenated_prefix(v, k);
        let q = hyphenated_prefix(v, m);
        let h: Seq<char> = if hyphen_before(k as int) { seq!['-'] } else { Seq::empty() };
        assert(q == p + h + seq![hex_digit(uuid_nibble(v, k as int))]);
        let l = hyphenated_prefix(v, n).len() as int;
        assert(q.subrange(0, l) =~= p.subrange(0, l));
    } else {
        assert(hyphenated_prefix(v, m).subrange(0, hyphenated_prefix(v, m).len() as int)
            =~= hyphenated_prefix(v, m));
    }
}

/// Ids that agree on their first `k` digits agree on the text of them.
proof fn lemma_prefix_equal(a: u128, b: u128, k: nat)
    requires
        forall|j: int| 0 <= j < k ==> uuid_nibble(a, j) == uuid_nibble(b, j),
    ensures
        hyphenated_prefix(a, k) == hyphenated_prefix(b, k),
    decreases k,
{
    if k > 0 {
        lemma_prefix_equal(a, b, (k - 1) as nat);
        assert(uuid_nibble(a, k - 1) == uuid_nibble(b, k - 1));
    }
}

/// The first digit at or after `k` where two different ids differ, given
/// that they agree before `k`.
proof fn lemma_first_difference_from(a: u128, b: u128, k: nat) -> (r: nat)
    requires
        a != b,
        k <= 32,
        forall|j: int| 0 <= j < k ==> uuid_nibble(a, j) == uuid_nibble(b, j),
    ensures
        k <= r < 32,
        forall|j: int| 0 <= j < r ==> uuid_nibble(a, j) == uuid_nibble(b, j),
        uuid_nibble(a, r as int) != uuid_nibble(b, r as int),
    decreases 32 - k,
{
    if k == 32 {
        lemma_top_digits_equal(a, b, 32);
        vstd::arithmetic::power::lemma_pow0(16);
        assert(uuid_top_digits(a, 32) == a as int);
        assert(uuid_top_digits(b, 32) == b as int);
        assert(false);
        k
    } else if uuid_nibble(a, k as int) != uuid_nibble(b, k as int) {
        k
    } else {
        lemma_first_difference_from(a, b, k + 1)
    }
}

/// A smaller id has its canonical text sorted first.
proof fn lemma_smaller_id_sorts_first(a: u128, b: u128)
    requires
        a < b,
    ensures
        text_before(hyphenated_uuid(a), hyphenated_uuid(b)),
{
    let r = lemma_first_difference_from(a, b, 0);
    lemma_top_digits_equal(a, b, r);
    lemma_top_digits_step(a, r);
    lemma_top_digits_step(b, r);
    let e = (32 - (r + 1)) as nat;
    vstd::arithmetic::power::lemma_pow_positive(16, e);
    vstd::arithmetic::div_mod::lemma_div_is_ordered(a as int, b as int, pow(16, e));
    vstd::arithmetic::power::lemma_pow_positive(16, (31 - r) as nat);
    let na = uuid_nibble(a, r as int);
    let nb = uuid_nibble(b, r as int);
    assert(na < nb);
    lemma_hex_digit_code(na);
    lemma_hex_digit_code(nb);

    let sa = hyphenated_uuid(a);
    let sb = hyphenated_uuid(b);
    lemma_prefix_digits(a, 32);
    lemma_prefix_digits(b, 32);
    lemma_prefix_digits(a, r + 1);
    lemma_prefix_digits(b, r + 1);
    lemma_prefix_extends(a, r + 1, 32);
    lemma_prefix_extends(b, r + 1, 32);
    lemma_prefix_equal(a, b, r);
    let i = r + hyphens_before(r + 1int);
    let pa = hyphenated_prefix(a, r + 1);
    let pb = hyphenated_prefix(b, r + 1);
    let h: Seq<char> = if hyphen_before(r as int) { seq!['-'] } else { Seq::empty() };
    assert(pa == hyphenated_prefix(a, r) + h + seq![hex_digit(na)]);
    assert(pb == hyphenated_prefix(b, r) + h + seq![hex_digit(nb)]);
    assert(pa.len() == i + 1);
    assert(sa.subrange(0, i) =~= pa.subrange(0, i));
    assert(sb.subrange(0, i) =~= pb.subrange(0, i));
    assert(pa.subrange(0, i) =~= pb.subrange(0, i));
    assert(sa[i] == hex_digit(na)) by {
        assert(hyphenated_prefix(a, 32)[r + hyphens_before(r + 1int)] == hex_digit(uuid_nibble(a, r as int)));
    }
    assert(sb[i] == hex_digit(nb)) by {
        assert(hyphenated_prefix(b, 32)[r + hyphens_before(r + 1int)] == hex_digit(uuid_nibble(b, r as int)));
    }
    assert(0 <= i < sa.len() && i < sb.len() && sa.subrange(0, i) == sb.subrange(0, i)
        && (sa[i] as int) < (sb[i] as int));
}

/// Law: thread ids in numeric order are in the order of their canonical
/// texts: one id is below another exactly when its text sorts first.
pub proof fn law_id_order_is_text_order(a: u128, b: u128)
    ensures
        (a < b) == text_before(hyphenated_uuid(a), hyphenated_uuid(b)),
{
    lemma_prefix_digits(a, 32);
    lemma_prefix_digits(b, 32);
    if a < b {
        lemma_smaller_id_sorts_first(a, b);
    } else if b < a {
        lemma_smaller_id_sorts_first(b, a);
        lemma_text_before_asymmetric(hyphenated_uuid(a), hyphenated_uuid(b));
    }
}

/// Law: a thread id's canonical text parses back to the same id.
pub fn thread_id_text_round_trip(id: ThreadId) -> (r: Result<ThreadId, ThreadIdError>)
    ensures
        r == Ok::<ThreadId, ThreadIdError>(id),
{
    let text = id.to_string();
    ThreadId::from_string(text.as_str())
}

} // verus!
