//! Plain text: finding characters, decimal numbers, and the pieces of a string.

use vstd::prelude::*;

verus! {

/// A text that may be missing.
pub open spec fn optional_text(text: Option<String>) -> Option<Seq<char>> {
    match text {
        Some(t) => Some(t@),
        None => None,
    }
}

/// `index_of_first` is `Some(i)` as soon as `i` holds `x` and nothing before it does.
pub proof fn lemma_index_of_first<A>(s: Seq<A>, x: A, i: int)
    requires
        0 <= i < s.len(),
        s[i] == x,
        forall|j: int| 0 <= j < i ==> s[j] != x,
    ensures
        s.index_of_first(x) == Some(i),
{
    s.index_of_first_ensures(x);
    assert(s.contains(x));
}

/// `index_of_last` is `Some(i)` as soon as `i` holds `x` and nothing after it does.
pub proof fn lemma_index_of_last<A>(s: Seq<A>, x: A, i: int)
    requires
        0 <= i < s.len(),
        s[i] == x,
        forall|j: int| i < j < s.len() ==> s[j] != x,
    ensures
        s.index_of_last(x) == Some(i),
{
    s.index_of_last_ensures(x);
    assert(s.contains(x));
}

/// The position, in characters, of the first `c` in `s`.
pub fn find_char(s: &str, c: char) -> (found: Option<usize>)
    ensures
        match found {
            Some(i) => s@.index_of_first(c) == Some(i as int),
            None => s@.index_of_first(c) is None,
        },
{
    let n: usize = s.unicode_len();
    let mut i: usize = 0;
    for ch in it: s.chars()
        invariant
            n == s@.len(),
            it.seq() == s@,
            i == it.index(),
            forall|j: int| 0 <= j < i ==> s@[j] != c,
    {
        if ch == c {
            proof {
                lemma_index_of_first(s@, c, i as int);
            }
            return Some(i);
        }
        i = i + 1;
    }
    proof {
        s@.index_of_first_ensures(c);
    }
    None
}

/// The position, in characters, of the last `c` in `s`.
pub fn rfind_char(s: &str, c: char) -> (found: Option<usize>)
    ensures
        match found {
            Some(i) => s@.index_of_last(c) == Some(i as int),
            None => s@.index_of_last(c) is None,
        },
{
    let n: usize = s.unicode_len();
    let mut i: usize = 0;
    let mut last: Option<usize> = None;
    for ch in it: s.chars()
        invariant
            n == s@.len(),
            it.seq() == s@,
            i == it.index(),
            match last {
                Some(k) => k < i && s@[k as int] == c && forall|j: int| k < j < i ==> s@[j] != c,
                None => forall|j: int| 0 <= j < i ==> s@[j] != c,
            },
    {
        if ch == c {
            last = Some(i);
        }
        i = i + 1;
    }
    proof {
        match last {
            Some(k) => lemma_index_of_last(s@, c, k as int),
            None => s@.index_of_last_ensures(c),
        }
    }
    last
}

/// What is left of `s` once its leading `c`s are gone.
pub open spec fn trim_start(s: Seq<char>, c: char) -> Seq<char>
    decreases s.len(),
{
    if s.len() > 0 && s[0] == c {
        trim_start(s.drop_first(), c)
    } else {
        s
    }
}

/// What is left of `s` once every `a` and `b` at its end is gone.
pub open spec fn trim_end(s: Seq<char>, a: char, b: char) -> Seq<char>
    decreases s.len(),
{
    if s.len() > 0 && (s.last() == a || s.last() == b) {
        trim_end(s.drop_last(), a, b)
    } else {
        s
    }
}

/// Trimming stops at the first character that is not `c`.
pub proof fn lemma_trim_start(s: Seq<char>, c: char, k: int)
    requires
        0 <= k <= s.len(),
        forall|j: int| 0 <= j < k ==> s[j] == c,
        k < s.len() ==> s[k] != c,
    ensures
        trim_start(s, c) == s.skip(k),
    decreases k,
{
    if k == 0 {
        assert(s.skip(0) =~= s);
    } else {
        lemma_trim_start(s.drop_first(), c, k - 1);
        assert(s.drop_first().skip(k - 1) =~= s.skip(k));
    }
}

/// Trimming stops at the last character that is neither `a` nor `b`.
pub proof fn lemma_trim_end(s: Seq<char>, a: char, b: char, k: int)
    requires
        0 <= k <= s.len(),
        forall|j: int| k <= j < s.len() ==> s[j] == a || s[j] == b,
        k > 0 ==> s[k - 1] != a && s[k - 1] != b,
    ensures
        trim_end(s, a, b) == s.take(k),
    decreases s.len(),
{
    if k == s.len() {
        assert(s.take(k) =~= s);
    } else {
        lemma_trim_end(s.drop_last(), a, b, k);
        assert(s.drop_last().take(k) =~= s.take(k));
    }
}

/// Drops the leading `c`s of `s`.
pub fn trim_start_char<'a>(s: &'a str, c: char) -> (rest: &'a str)
    ensures
        rest@ == trim_start(s@, c),
{
    let n: usize = s.unicode_len();
    let mut k: usize = 0;
    for ch in it: s.chars()
        invariant
            n == s@.len(),
            it.seq() == s@,
            k == it.index(),
            forall|j: int| 0 <= j < k ==> s@[j] == c,
    {
        if ch != c {
            proof {
                lemma_trim_start(s@, c, k as int);
            }
            return s.substring_char(k, n);
        }
        k = k + 1;
    }
    proof {
        lemma_trim_start(s@, c, k as int);
    }
    s.substring_char(k, n)
}

/// Drops every `a` and `b` at the end of `s`.
pub fn trim_end_chars<'a>(s: &'a str, a: char, b: char) -> (rest: &'a str)
    ensures
        rest@ == trim_end(s@, a, b),
{
    let n: usize = s.unicode_len();
    let mut i: usize = 0;
    let mut k: usize = 0;
    for ch in it: s.chars()
        invariant
            n == s@.len(),
            it.seq() == s@,
            i == it.index(),
            k <= i,
            forall|j: int| k <= j < i ==> s@[j] == a || s@[j] == b,
            k > 0 ==> s@[k - 1] != a && s@[k - 1] != b,
    {
        i = i + 1;
        if ch != a && ch != b {
            k = i;
        }
    }
    proof {
        lemma_trim_end(s@, a, b, k as int);
    }
    s.substring_char(0, k)
}

/// One character, or the same ASCII letter in the other case.
pub open spec fn same_letter(a: char, b: char) -> bool {
    ||| a == b
    ||| 'A' <= a <= 'Z' && a as int + 32 == b as int
    ||| 'A' <= b <= 'Z' && b as int + 32 == a as int
}

/// Equality of two texts up to the case of ASCII letters.
pub open spec fn same_ignoring_case(a: Seq<char>, b: Seq<char>) -> bool {
    &&& a.len() == b.len()
    &&& forall|i: int| 0 <= i < a.len() ==> #[trigger] same_letter(a[i], b[i])
}

/// Compares two texts without regard to the case of ASCII letters.
pub fn eq_ignore_case(a: &str, b: &str) -> (equal: bool)
    ensures
        equal == same_ignoring_case(a@, b@),
{
    let n: usize = a.unicode_len();
    if n != b.unicode_len() {
        return false;
    }
    let mut i: usize = 0;
    while i < n
        invariant
            i <= n,
            n == a@.len(),
            n == b@.len(),
            forall|j: int| 0 <= j < i ==> #[trigger] same_letter(a@[j], b@[j]),
        decreases n - i,
    {
        let x = a.get_char(i);
        let y = b.get_char(i);
        let same = x == y || ('A' <= x && x <= 'Z' && x as u32 + 32 == y as u32) || ('A' <= y && y
            <= 'Z' && y as u32 + 32 == x as u32);
        if !same {
            assert(!same_letter(a@[i as int], b@[i as int]));
            return false;
        }
        i = i + 1;
    }
    true
}

/// The decimal digit `d`, for `d` below ten.
pub open spec fn digit_char(d: int) -> char {
    ('0' as int + d) as char
}

/// `n` in decimal, without leading zeros.
pub open spec fn decimal(n: nat) -> Seq<char>
    decreases n,
{
    if n < 10 {
        seq![digit_char(n as int)]
    } else {
        decimal(n / 10).push(digit_char((n % 10) as int))
    }
}

/// Whether `s` is one or more ASCII digits and nothing else.
pub open spec fn all_digits(s: Seq<char>) -> bool {
    &&& s.len() > 0
    &&& forall|i: int| 0 <= i < s.len() ==> '0' <= #[trigger] s[i] <= '9'
}

/// The number that a text of digits stands for.
pub open spec fn digits_value(s: Seq<char>) -> nat
    decreases s.len(),
{
    if s.len() == 0 {
        0
    } else {
        digits_value(s.drop_last()) * 10 + (s.last() as int - '0' as int) as nat
    }
}

/// A port number as it is written: digits, after an optional `+`, that stand
/// for a number below 65536. Leading zeros do no harm.
pub open spec fn port_value(s: Seq<char>) -> Option<u16> {
    let digits = if s.len() > 0 && s[0] == '+' {
        s.drop_first()
    } else {
        s
    };
    if all_digits(digits) && digits_value(digits) <= 65535 {
        Some(digits_value(digits) as u16)
    } else {
        None
    }
}

/// Why a text is no port number.
#[derive(Debug, Clone, Copy, PartialEq, Eq, Structural)]
pub enum PortFault {
    Empty,
    InvalidDigit,
    TooLarge,
}

impl PortFault {
    /// The fault in words.
    pub open spec fn text(self) -> Seq<char> {
        match self {
            PortFault::Empty => "cannot parse integer from empty string"@,
            PortFault::InvalidDigit => "invalid digit found in string"@,
            PortFault::TooLarge => "number too large to fit in target type"@,
        }
    }

    /// The fault in words.
    pub fn message(&self) -> (message: String)
        ensures
            message@ == self.text(),
    {
        let text: &str = match self {
            PortFault::Empty => "cannot parse integer from empty string",
            PortFault::InvalidDigit => "invalid digit found in string",
            PortFault::TooLarge => "number too large to fit in target type",
        };
        text.to_owned()
    }
}

/// The number of digits that `s` begins with.
pub open spec fn leading_digits(s: Seq<char>) -> int
    decreases s.len(),
{
    if s.len() > 0 && '0' <= s[0] <= '9' {
        1 + leading_digits(s.drop_first())
    } else {
        0
    }
}

/// What is wrong with a text that is no port number: it is empty, the digits
/// that it begins with are too many, or something else than a digit follows
/// them.
pub open spec fn port_fault(s: Seq<char>) -> PortFault {
    let digits = if s.len() > 0 && s[0] == '+' {
        s.drop_first()
    } else {
        s
    };
    if s.len() == 0 {
        PortFault::Empty
    } else if digits_value(digits.take(leading_digits(digits))) > 65535 {
        PortFault::TooLarge
    } else {
        PortFault::InvalidDigit
    }
}

proof fn lemma_leading_digits(s: Seq<char>, k: int)
    requires
        0 <= k <= s.len(),
        forall|i: int| 0 <= i < k ==> '0' <= #[trigger] s[i] <= '9',
    ensures
        k <= leading_digits(s) <= s.len(),
        k < s.len() && !('0' <= s[k] <= '9') ==> leading_digits(s) == k,
        forall|i: int| 0 <= i < leading_digits(s) ==> '0' <= #[trigger] s[i] <= '9',
    decreases s.len(),
{
    if s.len() > 0 && '0' <= s[0] <= '9' {
        let rest = s.drop_first();
        lemma_leading_digits(
            rest,
            if k > 0 {
                k - 1
            } else {
                0
            },
        );
        assert forall|i: int| 0 <= i < leading_digits(s) implies '0' <= #[trigger] s[i] <= '9' by {
            if i > 0 {
                assert('0' <= rest[i - 1] <= '9');
            }
        }
        assert(k > 0 && k < s.len() ==> rest[k - 1] == s[k]);
    }
}

proof fn lemma_digits_value_prefix(s: Seq<char>, k: int)
    requires
        0 <= k <= s.len(),
        forall|i: int| 0 <= i < s.len() ==> '0' <= #[trigger] s[i] <= '9',
    ensures
        digits_value(s.take(k)) <= digits_value(s),
    decreases s.len(),
{
    if k == s.len() {
        assert(s.take(k) =~= s);
    } else {
        lemma_digits_value_prefix(s.drop_last(), k);
        assert(s.drop_last().take(k) =~= s.take(k));
    }
}

/// Writing a number down and reading it back gives the number.
pub proof fn lemma_decimal_value(n: nat)
    ensures
        all_digits(decimal(n)),
        digits_value(decimal(n)) == n,
    decreases n,
{
    if n < 10 {
        assert(decimal(n).drop_last() =~= Seq::<char>::empty());
        assert(digits_value(decimal(n).drop_last()) == 0);
    } else {
        lemma_decimal_value(n / 10);
        assert(decimal(n).drop_last() =~= decimal(n / 10));
    }
}

/// A port that is written in decimal is read back as that port.
pub proof fn lemma_port_of_decimal(port: u16)
    ensures
        port_value(decimal(port as nat)) == Some(port),
{
    lemma_decimal_value(port as nat);
    assert('0' <= decimal(port as nat)[0] <= '9');
}

/// Reads a port number.
pub fn parse_port(s: &str) -> (port: Result<u16, PortFault>)
    ensures
        match port {
            Ok(p) => port_value(s@) == Some(p),
            Err(fault) => port_value(s@) is None && fault == port_fault(s@),
        },
{
    let n: usize = s.unicode_len();
    if n == 0 {
        return Err(PortFault::Empty);
    }
    let digits: &str = if s.get_char(0) == '+' {
        s.substring_char(1, n)
    } else {
        s
    };
    let ghost d = digits@;
    assert(s@[0] == '+' ==> d =~= s@.drop_first());
    let len: usize = digits.unicode_len();
    if len == 0 {
        assert(digits_value(d.take(0)) == 0);
        return Err(PortFault::InvalidDigit);
    }
    let mut value: u32 = 0;
    for ch in it: digits.chars()
        invariant
            n > 0,
            n == s@.len(),
            d == digits@,
            d == (if s@[0] == '+' {
                s@.drop_first()
            } else {
                s@
            }),
            it.seq() == d,
            value <= 65535,
            value == digits_value(d.take(it.index())),
            forall|j: int| 0 <= j < it.index() ==> '0' <= #[trigger] d[j] <= '9',
    {
        let ghost k = it.index();
        if ch < '0' || ch > '9' {
            assert(!('0' <= d[k] <= '9'));
            proof {
                lemma_leading_digits(d, k);
            }
            return Err(PortFault::InvalidDigit);
        }
        assert(d.take(k + 1).drop_last() =~= d.take(k));
        value = value * 10 + (ch as u32 - '0' as u32);
        if value > 65535 {
            proof {
                lemma_leading_digits(d, k + 1);
                let lead = d.take(leading_digits(d));
                assert(lead.take(k + 1) =~= d.take(k + 1));
                lemma_digits_value_prefix(lead, k + 1);
                if all_digits(d) {
                    lemma_digits_value_prefix(d, k + 1);
                }
            }
            return Err(PortFault::TooLarge);
        }
    }
    assert(d.take(d.len() as int) =~= d);
    Ok(value as u16)
}

fn digit_text(d: u64) -> (text: &'static str)
    requires
        d < 10,
    ensures
        text@ == seq![digit_char(d as int)],
{
    proof {
        reveal_strlit("0");
        reveal_strlit("1");
        reveal_strlit("2");
        reveal_strlit("3");
        reveal_strlit("4");
        reveal_strlit("5");
        reveal_strlit("6");
        reveal_strlit("7");
        reveal_strlit("8");
        reveal_strlit("9");
    }
    match d {
        0 => "0",
        1 => "1",
        2 => "2",
        3 => "3",
        4 => "4",
        5 => "5",
        6 => "6",
        7 => "7",
        8 => "8",
        _ => "9",
    }
}

/// Appends `n` in decimal to `out`.
pub fn push_decimal(out: &mut String, n: u64)
    ensures
        final(out)@ == old(out)@ + decimal(n as nat),
    decreases n,
{
    if n >= 10 {
        push_decimal(out, n / 10);
    }
    out.append(digit_text(n % 10));
}

/// Calls `std::str::from_utf8`: the bytes as text. It has an answer exactly
/// when the bytes are valid UTF-8, and the answer is the text that they encode.
#[verifier::external_body]
pub(crate) fn utf8_text<'a>(bytes: &'a [u8]) -> (text: Option<&'a str>)
    ensures
        match text {
            Some(t) => vstd::utf8::valid_utf8(bytes@) && t@ == vstd::utf8::decode_utf8(bytes@),
            None => !vstd::utf8::valid_utf8(bytes@),
        },
{
    std::str::from_utf8(bytes).ok()
}

/// Whether `pat` stands in `s` at position `i`.
pub open spec fn occurs_at(s: Seq<u8>, pat: Seq<u8>, i: int) -> bool {
    &&& 0 <= i
    &&& i + pat.len() <= s.len()
    &&& s.subrange(i, i + pat.len()) == pat
}

/// Whether `pat` stands in `s` at position `i` and nowhere before it.
pub open spec fn first_occurs_at(s: Seq<u8>, pat: Seq<u8>, i: int) -> bool {
    &&& occurs_at(s, pat, i)
    &&& forall|j: int| 0 <= j < i ==> !#[trigger] occurs_at(s, pat, j)
}

/// Where `pat` stands first in `s`, if it does.
pub open spec fn first_occurrence(s: Seq<u8>, pat: Seq<u8>) -> Option<int> {
    if exists|i: int| occurs_at(s, pat, i) {
        Some(choose|i: int| first_occurs_at(s, pat, i))
    } else {
        None
    }
}

proof fn lemma_some_first(s: Seq<u8>, pat: Seq<u8>, i: int) -> (k: int)
    requires
        occurs_at(s, pat, i),
    ensures
        first_occurs_at(s, pat, k),
    decreases i,
{
    if exists|j: int| 0 <= j < i && occurs_at(s, pat, j) {
        let j = choose|j: int| 0 <= j < i && occurs_at(s, pat, j);
        lemma_some_first(s, pat, j)
    } else {
        i
    }
}

/// `first_occurrence` names the first place, and misses none.
pub proof fn lemma_first_occurrence(s: Seq<u8>, pat: Seq<u8>)
    ensures
        match first_occurrence(s, pat) {
            Some(i) => first_occurs_at(s, pat, i),
            None => forall|i: int| !occurs_at(s, pat, i),
        },
{
    if exists|i: int| occurs_at(s, pat, i) {
        let i = choose|i: int| occurs_at(s, pat, i);
        let k = lemma_some_first(s, pat, i);
        assert(first_occurs_at(s, pat, k));
    }
}

/// `first_occurrence` is `Some(i)` as soon as `pat` stands at `i` and not before.
pub proof fn lemma_first_occurrence_is(s: Seq<u8>, pat: Seq<u8>, i: int)
    requires
        first_occurs_at(s, pat, i),
    ensures
        first_occurrence(s, pat) == Some(i),
{
    lemma_first_occurrence(s, pat);
    let k = first_occurrence(s, pat)->0;
    assert(occurs_at(s, pat, k));
    assert(occurs_at(s, pat, i));
}

fn matches_at(s: &[u8], pat: &[u8], i: usize) -> (matches: bool)
    requires
        i + pat@.len() <= s@.len(),
    ensures
        matches == occurs_at(s@, pat@, i as int),
{
    let n: usize = s.len();
    let mut k: usize = 0;
    while k < pat.len()
        invariant
            n == s@.len(),
            k <= pat@.len(),
            i + pat@.len() <= s@.len(),
            forall|j: int| 0 <= j < k ==> s@[i + j] == pat@[j],
        decreases pat@.len() - k,
    {
        if s[i + k] != pat[k] {
            assert(s@.subrange(i as int, i + pat@.len())[k as int] != pat@[k as int]);
            return false;
        }
        k = k + 1;
    }
    assert(s@.subrange(i as int, i + pat@.len()) =~= pat@);
    true
}

/// The first position at which `pat` stands in `s`.
pub fn find_bytes(s: &[u8], pat: &[u8]) -> (found: Option<usize>)
    ensures
        match found {
            Some(i) => first_occurs_at(s@, pat@, i as int) && first_occurrence(s@, pat@) == Some(
                i as int,
            ),
            None => first_occurrence(s@, pat@) is None,
        },
{
    if s.len() < pat.len() {
        return None;
    }
    let last: usize = s.len() - pat.len();
    let mut i: usize = 0;
    loop
        invariant
            i <= last,
            last + pat@.len() == s@.len(),
            forall|j: int| 0 <= j < i ==> !#[trigger] occurs_at(s@, pat@, j),
        decreases last - i,
    {
        if matches_at(s, pat, i) {
            proof {
                lemma_first_occurrence_is(s@, pat@, i as int);
            }
            return Some(i);
        }
        if i == last {
            return None;
        }
        i = i + 1;
    }
}

/// More bytes at the end do not move the first occurrence.
pub proof fn lemma_first_occurrence_stable(s: Seq<u8>, more: Seq<u8>, pat: Seq<u8>)
    requires
        first_occurrence(s, pat) is Some,
    ensures
        first_occurrence(s + more, pat) == first_occurrence(s, pat),
{
    lemma_first_occurrence(s, pat);
    let i = first_occurrence(s, pat)->0;
    let n = pat.len() as int;
    assert((s + more).subrange(i, i + n) =~= s.subrange(i, i + n));
    assert forall|j: int| 0 <= j < i implies !#[trigger] occurs_at(s + more, pat, j) by {
        assert((s + more).subrange(j, j + n) =~= s.subrange(j, j + n));
        assert(!occurs_at(s, pat, j));
    }
    lemma_first_occurrence_is(s + more, pat, i);
}

/// A text that is there is its characters, and one that is missing is nothing.
pub proof fn law_optional_text(text: Option<String>)
    ensures
        match text {
            Some(t) => optional_text(text) == Some(t@),
            None => optional_text(text) is None,
        },
{
}

proof fn lemma_digits_fold(s: Seq<char>)
    requires
        forall|i: int| 0 <= i < s.len() ==> '0' <= #[trigger] s[i] <= '9',
    ensures
        digits_value(s) == s.fold_left(
            0int,
            |n: int, c: char| n * 10 + (c as int - '0' as int),
        ),
    decreases s.len(),
{
    if s.len() > 0 {
        lemma_digits_fold(s.drop_last());
        assert('0' <= s[s.len() - 1] <= '9');
    }
}

/// Digits are read from the left: each makes ten times what was read before it,
/// and adds its distance from the character `0`. What comes to more than 65535
/// is no port, and a plus sign in front changes nothing.
pub proof fn law_port_reads_digits(s: Seq<char>)
    requires
        s.len() > 0,
        forall|i: int| 0 <= i < s.len() ==> '0' <= #[trigger] s[i] <= '9',
    ensures
        ({
            let read = s.fold_left(0int, |n: int, c: char| n * 10 + (c as int - '0' as int));
            &&& 0 <= read
            &&& port_value(s) == (if read <= 65535 {
                Some(read as u16)
            } else {
                None
            })
            &&& port_value(seq!['+'] + s) == port_value(s)
        }),
{
    lemma_digits_fold(s);
    assert('0' <= s[0] <= '9');
    assert((seq!['+'] + s).drop_first() =~= s);
}

proof fn lemma_sum_scaled(s: Seq<int>, k: int)
    ensures
        s.map_values(|n: int| n * k).fold_left(0int, |a: int, b: int| a + b) == s.fold_left(
            0int,
            |a: int, b: int| a + b,
        ) * k,
    decreases s.len(),
{
    let scaled = s.map_values(|n: int| n * k);
    if s.len() == 0 {
        assert(0int * k == 0) by (nonlinear_arith);
    } else {
        lemma_sum_scaled(s.drop_last(), k);
        assert(scaled.drop_last() =~= s.drop_last().map_values(|n: int| n * k));
        let rest = s.drop_last().fold_left(0int, |a: int, b: int| a + b);
        let last = s.last();
        assert(rest * k + last * k == (rest + last) * k) by (nonlinear_arith);
    }
}

proof fn lemma_digits_sum(s: Seq<char>)
    requires
        forall|i: int| 0 <= i < s.len() ==> '0' <= #[trigger] s[i] <= '9',
    ensures
        digits_value(s) == Seq::new(
            s.len(),
            |i: int|
                (s[i] as int - '0' as int) * vstd::arithmetic::power::pow(
                    10,
                    (s.len() - 1 - i) as nat,
                ),
        ).fold_left(0int, |a: int, b: int| a + b),
    decreases s.len(),
{
    let f = |i: int|
        (s[i] as int - '0' as int) * vstd::arithmetic::power::pow(10, (s.len() - 1 - i) as nat);
    let terms = Seq::new(s.len(), f);
    if s.len() > 0 {
        let t = s.drop_last();
        let g = |i: int|
            (t[i] as int - '0' as int) * vstd::arithmetic::power::pow(10, (t.len() - 1 - i) as nat);
        let before = Seq::new(t.len(), g);
        lemma_digits_sum(t);
        lemma_sum_scaled(before, 10);
        let scaled = before.map_values(|n: int| n * 10);
        assert forall|i: int| 0 <= i < t.len() implies terms[i] == scaled[i] by {
            let e = (t.len() - 1 - i) as nat;
            let d = s[i] as int - '0' as int;
            reveal(vstd::arithmetic::power::pow);
            assert(vstd::arithmetic::power::pow(10, e + 1) == 10
                * vstd::arithmetic::power::pow(10, e));
            let p = vstd::arithmetic::power::pow(10, e);
            assert(d * (10 * p) == (d * p) * 10) by (nonlinear_arith);
            assert((s.len() - 1 - i) as nat == e + 1);
        }
        assert(terms.drop_last() =~= scaled);
        reveal(vstd::arithmetic::power::pow);
        assert(vstd::arithmetic::power::pow(10, 0) == 1);
        assert(terms.last() == s.last() as int - '0' as int);
        assert('0' <= s[s.len() - 1] <= '9');
    }
}

/// A port is the sum of its digits, each times the power of ten that its place
/// stands for.
pub proof fn law_port_is_a_sum(s: Seq<char>)
    requires
        s.len() > 0,
        forall|i: int| 0 <= i < s.len() ==> '0' <= #[trigger] s[i] <= '9',
    ensures
        ({
            let sum = Seq::new(
                s.len(),
                |i: int|
                    (s[i] as int - '0' as int) * vstd::arithmetic::power::pow(
                        10,
                        (s.len() - 1 - i) as nat,
                    ),
            ).fold_left(0int, |a: int, b: int| a + b);
            &&& 0 <= sum
            &&& port_value(s) == (if sum <= 65535 {
                Some(sum as u16)
            } else {
                None
            })
        }),
{
    lemma_digits_sum(s);
    assert('0' <= s[0] <= '9');
}

/// A text that is a port is one or more digits and nothing else, but for a plus
/// sign in front.
pub proof fn law_port_is_digits(s: Seq<char>)
    requires
        port_value(s) is Some,
    ensures
        ({
            let digits = if s[0] == '+' {
                s.skip(1)
            } else {
                s
            };
            &&& digits.len() > 0
            &&& forall|i: int| 0 <= i < digits.len() ==> '0' <= #[trigger] digits[i] <= '9'
        }),
{
    assert(s.len() > 0 ==> s.drop_first() =~= s.skip(1));
}

/// What is wrong with a text that is no port. Nothing at all is empty. Digits
/// that come to more than 65535 are too large, whatever follows them. Digits
/// that do not, and then something else, hold an invalid digit, and so does a
/// plus sign with nothing behind it.
pub proof fn law_port_faults(digits: Seq<char>, more: Seq<char>)
    requires
        forall|i: int| 0 <= i < digits.len() ==> '0' <= #[trigger] digits[i] <= '9',
        more.len() > 0 ==> !('0' <= more[0] <= '9'),
    ensures
        ({
            let read = digits.fold_left(0int, |n: int, c: char| n * 10 + (c as int - '0' as int));
            &&& port_fault(Seq::empty()) == PortFault::Empty
            &&& port_fault(seq!['+']) == PortFault::InvalidDigit
            &&& read > 65535 ==> {
                &&& port_fault(digits + more) == PortFault::TooLarge
                &&& port_fault(seq!['+'] + digits + more) == PortFault::TooLarge
            }
            &&& read <= 65535 && more.len() > 0 ==> {
                &&& port_fault(seq!['+'] + digits + more) == PortFault::InvalidDigit
                &&& digits.len() > 0 || more[0] != '+' ==> port_fault(digits + more)
                    == PortFault::InvalidDigit
            }
        }),
{
    let all = digits + more;
    lemma_digits_fold(digits);
    lemma_leading_digits(all, digits.len() as int);
    assert(leading_digits(all) == digits.len()) by {
        if more.len() > 0 {
            assert(all[digits.len() as int] == more[0]);
        }
    }
    assert(all.take(digits.len() as int) =~= digits);
    assert((seq!['+'] + digits + more).drop_first() =~= all);
    if digits.len() > 0 {
        assert('0' <= digits[0] <= '9');
        assert(all[0] == digits[0]);
    }
    let plus = seq!['+'];
    assert(plus.drop_first() =~= Seq::<char>::empty());
    assert(digits_value(plus.drop_first().take(0)) == 0);
}

/// A number is written with the characters `0` to `9`, without a zero in front
/// of it, so that reading the characters from the left gives the number.
pub proof fn law_decimal(n: nat)
    ensures
        decimal(n).len() > 0,
        forall|i: int| 0 <= i < decimal(n).len() ==> '0' <= #[trigger] decimal(n)[i] <= '9',
        n > 0 ==> decimal(n)[0] != '0',
        n == 0 ==> decimal(n) == seq!['0'],
        decimal(n).fold_left(0int, |m: int, c: char| m * 10 + (c as int - '0' as int)) == n,
    decreases n,
{
    lemma_decimal_value(n);
    lemma_digits_fold(decimal(n));
    if n >= 10 {
        law_decimal(n / 10);
    }
}

/// Trimming takes away characters `c` at the front, all of them, and nothing
/// else.
pub proof fn law_trim_start(s: Seq<char>, c: char)
    ensures
        ({
            let rest = trim_start(s, c);
            let gone = s.len() - rest.len();
            &&& rest.len() <= s.len()
            &&& rest == s.skip(gone)
            &&& forall|i: int| 0 <= i < gone ==> s[i] == c
            &&& rest.len() > 0 ==> rest[0] != c
        }),
    decreases s.len(),
{
    if s.len() > 0 && s[0] == c {
        law_trim_start(s.drop_first(), c);
        let rest = trim_start(s, c);
        let gone = s.len() - rest.len();
        assert(s.drop_first().skip(gone - 1) =~= s.skip(gone));
        assert forall|i: int| 0 <= i < gone implies s[i] == c by {
            if i > 0 {
                assert(s.drop_first()[i - 1] == c);
            }
        }
    } else {
        assert(s.skip(0) =~= s);
    }
}

/// Trimming takes away characters `a` and `b` at the end, all of them, and
/// nothing else.
pub proof fn law_trim_end(s: Seq<char>, a: char, b: char)
    ensures
        ({
            let rest = trim_end(s, a, b);
            &&& rest.len() <= s.len()
            &&& rest == s.take(rest.len() as int)
            &&& forall|i: int| rest.len() <= i < s.len() ==> s[i] == a || s[i] == b
            &&& rest.len() > 0 ==> rest.last() != a && rest.last() != b
        }),
    decreases s.len(),
{
    let rest = trim_end(s, a, b);
    if s.len() > 0 && (s.last() == a || s.last() == b) {
        law_trim_end(s.drop_last(), a, b);
        assert(s.drop_last().take(rest.len() as int) =~= s.take(rest.len() as int));
        assert forall|i: int| rest.len() <= i < s.len() implies s[i] == a || s[i] == b by {
            if i < s.len() - 1 {
                assert(s.drop_last()[i] == s[i]);
            }
        }
    } else {
        assert(s.take(s.len() as int) =~= s);
    }
}

/// Two texts are the same up to case if they are equally long and each
/// character of one is that of the other, or differs from it as `a` does from
/// `A`, which is by 32, for the letters from `A` to `Z`.
pub proof fn law_same_ignoring_case(a: Seq<char>, b: Seq<char>)
    ensures
        same_ignoring_case(a, b) <==> a.len() == b.len() && forall|i: int|
            0 <= i < a.len() ==> (#[trigger] a[i] == b[i] || (65 <= a[i] as int <= 90 && b[i] as int
                == a[i] as int + 32) || (65 <= b[i] as int <= 90 && a[i] as int == b[i] as int
                + 32)),
{
    if same_ignoring_case(a, b) {
        assert forall|i: int| 0 <= i < a.len() implies (#[trigger] a[i] == b[i] || (65
            <= a[i] as int <= 90 && b[i] as int == a[i] as int + 32) || (65 <= b[i] as int <= 90
            && a[i] as int == b[i] as int + 32)) by {
            assert(same_letter(a[i], b[i]));
        }
    }
}

/// The first occurrence is a place at which the pattern stands, byte for byte,
/// and at no place before it does it stand. Where there is none, it stands
/// nowhere.
pub proof fn law_first_occurrence(s: Seq<u8>, pat: Seq<u8>, j: int)
    ensures
        match first_occurrence(s, pat) {
            Some(i) => {
                &&& 0 <= i <= s.len() - pat.len()
                &&& forall|k: int| 0 <= k < pat.len() ==> s[i + k] == #[trigger] pat[k]
                &&& 0 <= j < i ==> exists|k: int|
                    0 <= k < pat.len() && s[j + k] != #[trigger] pat[k]
            },
            None => 0 <= j <= s.len() - pat.len() ==> exists|k: int|
                0 <= k < pat.len() && s[j + k] != #[trigger] pat[k],
        },
{
    lemma_first_occurrence(s, pat);
    let n = pat.len() as int;
    if let Some(i) = first_occurrence(s, pat) {
        assert(occurs_at(s, pat, i));
        assert forall|k: int| 0 <= k < n implies s[i + k] == #[trigger] pat[k] by {
            assert(s.subrange(i, i + n)[k] == pat[k]);
        }
    }
    if 0 <= j <= s.len() - n && !occurs_at(s, pat, j) {
        if forall|k: int| 0 <= k < n ==> s[j + k] == #[trigger] pat[k] {
            assert(s.subrange(j, j + n) =~= pat);
        }
    }
}

} // verus!
