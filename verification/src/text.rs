//! Text: comparing, searching, splitting, and decimal numbers.

use vstd::prelude::*;
use vstd::string::*;
use vstd::utf8::*;

verus! {

/// Whether `needle` is a run of consecutive characters of `hay`.
pub open spec fn occurs_in(needle: Seq<char>, hay: Seq<char>) -> bool {
    exists|i: int|
        0 <= i <= hay.len() - needle.len() && #[trigger] hay.subrange(i, i + needle.len())
            == needle
}

/// The character of a decimal digit.
pub open spec fn digit_char(d: nat) -> char {
    (48 + d) as char
}

/// Whether every character is a decimal digit.
pub open spec fn all_digits(s: Seq<char>) -> bool {
    forall|i: int| 0 <= i < s.len() ==> '0' <= #[trigger] s[i] <= '9'
}

/// The number that a run of decimal digits spells.
pub open spec fn digits_value(s: Seq<char>) -> nat
    decreases s.len(),
{
    if s.len() == 0 {
        0
    } else {
        (digits_value(s.drop_last()) * 10 + (s.last() as int - 48)) as nat
    }
}

/// The shortest decimal text of a number.
pub open spec fn decimal_text(n: nat) -> Seq<char>
    decreases n,
{
    if n < 10 {
        seq![digit_char(n)]
    } else {
        decimal_text(n / 10).push(digit_char(n % 10))
    }
}

/// What a text means as an unsigned number of at most `max`: an optional plus sign and then
/// one or more decimal digits, nothing else.
pub open spec fn unsigned_value(s: Seq<char>, max: nat) -> Option<nat> {
    let body = if s.len() > 0 && s[0] == '+' {
        s.drop_first()
    } else {
        s
    };
    if body.len() > 0 && all_digits(body) && digits_value(body) <= max {
        Some(digits_value(body))
    } else {
        None
    }
}

/// Unicode white space.
pub open spec fn is_white_space(c: char) -> bool {
    let u = c as u32;
    ||| 0x9 <= u <= 0xd
    ||| u == 0x20
    ||| u == 0x85
    ||| u == 0xa0
    ||| u == 0x1680
    ||| 0x2000 <= u <= 0x200a
    ||| u == 0x2028
    ||| u == 0x2029
    ||| u == 0x202f
    ||| u == 0x205f
    ||| u == 0x3000
}

/// A text without the white space at its two ends.
pub open spec fn trimmed(s: Seq<char>) -> Seq<char>
    decreases s.len(),
{
    if s.len() == 0 {
        s
    } else if is_white_space(s[0]) {
        trimmed(s.drop_first())
    } else if is_white_space(s.last()) {
        trimmed(s.drop_last())
    } else {
        s
    }
}

/// The position of the first `c`, if there is one.
pub open spec fn first_index(s: Seq<char>, c: char) -> Option<int> {
    if exists|i: int| is_first_index(s, c, i) {
        Some(choose|i: int| is_first_index(s, c, i))
    } else {
        None
    }
}

/// Whether `c` stands at `i` and nowhere before.
pub open spec fn is_first_index(s: Seq<char>, c: char, i: int) -> bool {
    &&& 0 <= i < s.len()
    &&& s[i] == c
    &&& forall|j: int| 0 <= j < i ==> s[j] != c
}

/// The two parts of a text in which `c` stands exactly once.
pub open spec fn split_in_two(s: Seq<char>, c: char) -> Option<(Seq<char>, Seq<char>)> {
    match first_index(s, c) {
        Some(i) => if first_index(s.skip(i + 1), c) is None {
            Some((s.take(i), s.skip(i + 1)))
        } else {
            None
        },
        None => None,
    }
}

/// `host:port`.
pub open spec fn joined_address(host: Seq<char>, port: u16) -> Seq<char> {
    host.push(':') + decimal_text(port as nat)
}

/// Only one position can be the first.
pub proof fn lemma_first_index(s: Seq<char>, c: char, i: int)
    requires
        is_first_index(s, c, i),
    ensures
        first_index(s, c) == Some(i),
{
    let k = choose|k: int| is_first_index(s, c, k);
    assert(is_first_index(s, c, k));
    if k < i {
        assert(s[k] != c);
    }
    if i < k {
        assert(s[i] != c);
    }
}

/// A text without `c` has no first position of it.
pub proof fn lemma_no_index(s: Seq<char>, c: char)
    requires
        forall|j: int| 0 <= j < s.len() ==> s[j] != c,
    ensures
        first_index(s, c) is None,
{
}

/// The decimal text of a number is one or more digits, and spells that number.
pub proof fn lemma_decimal_text(n: nat)
    ensures
        decimal_text(n).len() > 0,
        all_digits(decimal_text(n)),
        digits_value(decimal_text(n)) == n,
    decreases n,
{
    if n < 10 {
        let s = decimal_text(n);
        assert(s =~= seq![digit_char(n)]);
        assert(s.drop_last() =~= Seq::<char>::empty());
        assert(digits_value(s.drop_last()) == 0);
        assert(s.last() as int == 48 + n);
    } else {
        lemma_decimal_text(n / 10);
        let s = decimal_text(n);
        assert(s.drop_last() =~= decimal_text(n / 10));
        assert(s.last() as int == 48 + n % 10);
    }
}

/// Reading the decimal text of a number gives the number back.
pub proof fn lemma_decimal_read(n: nat, max: nat)
    requires
        n <= max,
    ensures
        unsigned_value(decimal_text(n), max) == Some(n),
{
    lemma_decimal_text(n);
    assert('0' <= decimal_text(n)[0]);
}

/// `host:port` comes apart again into the host and the port, for every host without a colon.
pub proof fn law_joined_address_splits(host: Seq<char>, port: u16)
    requires
        forall|j: int| 0 <= j < host.len() ==> host[j] != ':',
    ensures
        split_in_two(joined_address(host, port), ':') == Some(
            (host, decimal_text(port as nat)),
        ),
        unsigned_value(decimal_text(port as nat), u16::MAX as nat) == Some(port as nat),
{
    let s = joined_address(host, port);
    let d = decimal_text(port as nat);
    lemma_decimal_text(port as nat);
    lemma_decimal_read(port as nat, u16::MAX as nat);
    assert(is_first_index(s, ':', host.len() as int));
    lemma_first_index(s, ':', host.len() as int);
    assert(s.take(host.len() as int) =~= host);
    assert(s.skip(host.len() as int + 1) =~= d);
    assert forall|j: int| 0 <= j < d.len() implies d[j] != ':' by {
        assert('0' <= d[j] <= '9');
    }
    lemma_no_index(d, ':');
}

/// Whether two texts are the same.
pub fn same_text(a: &str, b: &str) -> (r: bool)
    ensures
        r == (a@ == b@),
{
    let x: &[u8] = a.as_bytes();
    let y: &[u8] = b.as_bytes();
    proof {
        encode_utf8_decode_utf8(a@);
        encode_utf8_decode_utf8(b@);
    }
    if x.len() != y.len() {
        return false;
    }
    let n: usize = x.len();
    let mut i: usize = 0;
    while i < n
        invariant
            i <= n,
            n == x@.len(),
            n == y@.len(),
            x@ == encode_utf8(a@),
            y@ == encode_utf8(b@),
            forall|j: int| 0 <= j < i ==> x@[j] == y@[j],
        decreases n - i,
    {
        if x[i] != y[i] {
            return false;
        }
        i = i + 1;
    }
    assert(x@ =~= y@);
    true
}

/// The characters of a text.
pub fn characters(s: &str) -> (r: Vec<char>)
    ensures
        r@ == s@,
{
    let mut out: Vec<char> = Vec::new();
    for c in it: s.chars()
        invariant
            out@ == it.seq().take(it.index() as int),
            it.seq() == s@,
    {
        out.push(c);
        assert(it.seq().take(it.index() + 1) =~= it.seq().take(it.index() as int).push(c));
    }
    assert(out@ =~= s@);
    out
}

/// The position of the first `c` at or after `from`, counted from `from`.
fn find_from(v: &Vec<char>, from: usize, c: char) -> (r: Option<usize>)
    requires
        from <= v@.len(),
    ensures
        match r {
            Some(i) => first_index(v@.skip(from as int), c) == Some(i as int) && from + i
                < v@.len(),
            None => first_index(v@.skip(from as int), c) is None,
        },
{
    let ghost tail = v@.skip(from as int);
    let mut i: usize = from;
    while i < v.len()
        invariant
            from <= i <= v@.len(),
            tail == v@.skip(from as int),
            forall|j: int| 0 <= j < i - from ==> tail[j] != c,
        decreases v@.len() - i,
    {
        if v[i] == c {
            proof {
                assert(tail[i - from] == c);
                lemma_first_index(tail, c, i - from);
            }
            return Some(i - from);
        }
        assert(tail[i - from] != c);
        i = i + 1;
    }
    proof {
        lemma_no_index(tail, c);
    }
    None
}

/// The text before the first colon and the text behind it, if there is a colon.
pub fn split_first_colon(s: &str) -> (r: Option<(String, String)>)
    ensures
        match r {
            Some(p) => first_index(s@, ':') matches Some(i) && p.0@ == s@.take(i) && p.1@
                == s@.skip(i + 1),
            None => first_index(s@, ':') is None,
        },
{
    let v: Vec<char> = characters(s);
    let n: usize = v.len();
    assert(v@.skip(0) =~= v@);
    match find_from(&v, 0, ':') {
        Some(i) => {
            proof {
                assert(is_first_index(s@, ':', choose|k: int| is_first_index(s@, ':', k)));
                assert(s@.subrange(0, i as int) =~= s@.take(i as int));
                assert(s@.subrange(i + 1, s@.len() as int) =~= s@.skip(i + 1));
            }
            Some((s.substring_char(0, i).to_string(), s.substring_char(i + 1, n).to_string()))
        },
        None => None,
    }
}

/// The two parts of a text in which `c` stands exactly once.
pub fn split_two(s: &str, c: char) -> (r: Option<(String, String)>)
    ensures
        match r {
            Some(p) => split_in_two(s@, c) == Some((p.0@, p.1@)),
            None => split_in_two(s@, c) is None,
        },
{
    let v: Vec<char> = characters(s);
    let n: usize = v.len();
    assert(v@.skip(0) =~= v@);
    match find_from(&v, 0, c) {
        Some(i) => match find_from(&v, i + 1, c) {
            Some(_) => None,
            None => {
                proof {
                    assert(s@.subrange(0, i as int) =~= s@.take(i as int));
                    assert(s@.subrange(i + 1, s@.len() as int) =~= s@.skip(i + 1));
                }
                Some((s.substring_char(0, i).to_string(), s.substring_char(i + 1, n).to_string()))
            },
        },
        None => None,
    }
}

/// `host:port`.
pub fn join_address(host: &str, port: u16) -> (r: String)
    ensures
        r@ == joined_address(host@, port),
{
    proof {
        reveal_strlit(":");
    }
    let mut out: String = host.to_string();
    out.append(":");
    let digits: String = decimal(port as u64);
    out.append(digits.as_str());
    assert(out@ =~= joined_address(host@, port));
    out
}

/// `str::contains` with a text as its pattern: whether the pattern occurs somewhere.
#[verifier::external_body]
pub(crate) fn contains_text(hay: &str, needle: &str) -> (r: bool)
    ensures
        r == occurs_in(needle@, hay@),
{
    hay.contains(needle)
}

/// `str::trim`: the text without the white space at its two ends.
#[verifier::external_body]
pub(crate) fn trim_text(s: &str) -> (r: &str)
    ensures
        r@ == trimmed(s@),
{
    s.trim()
}

/// `u16::from_str`: an optional plus sign and decimal digits, up to 65535.
#[verifier::external_body]
pub(crate) fn parse_u16(s: &str) -> (r: Option<u16>)
    ensures
        r is Some == unsigned_value(s@, u16::MAX as nat) is Some,
        r matches Some(n) ==> unsigned_value(s@, u16::MAX as nat) == Some(n as nat),
{
    s.parse::<u16>().ok()
}

/// `usize::from_str`: an optional plus sign and decimal digits, up to the largest `usize`.
#[verifier::external_body]
pub(crate) fn parse_usize(s: &str) -> (r: Option<usize>)
    ensures
        r is Some == unsigned_value(s@, usize::MAX as nat) is Some,
        r matches Some(n) ==> unsigned_value(s@, usize::MAX as nat) == Some(n as nat),
{
    s.parse::<usize>().ok()
}

/// `u64::to_string`: the decimal text of a number.
#[verifier::external_body]
pub(crate) fn decimal(n: u64) -> (r: String)
    ensures
        r@ == decimal_text(n as nat),
{
    n.to_string()
}

/// The words in which the error of `str::from_utf8` says where bytes stop being UTF-8.
pub uninterp spec fn utf8_error(b: Seq<u8>) -> Seq<char>;

/// `str::from_utf8`: the text that well-formed UTF-8 bytes spell. For others, the error in the
/// words of the standard library, which depend on the bytes alone; what they are is left
/// unsaid.
#[verifier::external_body]
pub(crate) fn text_of_utf8(b: &[u8]) -> (r: Result<String, String>)
    ensures
        r is Ok == valid_utf8(b@),
        r matches Ok(s) ==> s@ == decode_utf8(b@),
        r matches Err(e) ==> e@ == utf8_error(b@),
{
    match std::str::from_utf8(b) {
        Ok(s) => Ok(s.to_string()),
        Err(e) => Err(e.to_string()),
    }
}

/// `String::from_utf8`: the text that well-formed UTF-8 bytes spell, nothing for others.
#[verifier::external_body]
pub(crate) fn text_from_utf8(b: Vec<u8>) -> (r: Option<String>)
    ensures
        r is Some == valid_utf8(b@),
        r matches Some(s) ==> s@ == decode_utf8(b@),
{
    String::from_utf8(b).ok()
}

/// A text comes apart into two parts exactly if the character stands in it once: the parts are
/// what stands before it and what stands behind it.
pub proof fn law_two_parts(x: Seq<char>, y: Seq<char>, text: Seq<char>, c: char)
    ensures
        (forall|j: int| 0 <= j < x.len() ==> x[j] != c) && (forall|j: int|
            0 <= j < y.len() ==> y[j] != c) ==> split_in_two(x.push(c) + y, c) == Some((x, y)),
        (forall|j: int| 0 <= j < text.len() ==> text[j] != c) ==> split_in_two(text, c) is None,
        (exists|i: int, j: int|
            0 <= i < j < text.len() && #[trigger] text[i] == c && #[trigger] text[j] == c)
            ==> split_in_two(text, c) is None,
{
    if (forall|j: int| 0 <= j < x.len() ==> x[j] != c) && (forall|j: int|
        0 <= j < y.len() ==> y[j] != c) {
        let s = x.push(c) + y;
        assert(is_first_index(s, c, x.len() as int));
        lemma_first_index(s, c, x.len() as int);
        assert(s.take(x.len() as int) =~= x);
        assert(s.skip(x.len() as int + 1) =~= y);
        lemma_no_index(y, c);
    }
    if forall|j: int| 0 <= j < text.len() ==> text[j] != c {
        lemma_no_index(text, c);
    }
    if exists|i: int, j: int|
        0 <= i < j < text.len() && #[trigger] text[i] == c && #[trigger] text[j] == c {
        let (i, j) = choose|i: int, j: int|
            0 <= i < j < text.len() && #[trigger] text[i] == c && #[trigger] text[j] == c;
        lemma_has_index(text, c, i);
        let k = first_index(text, c)->0;
        assert(is_first_index(text, c, k));
        assert(k <= i) by {
            if i < k {
                assert(text[i] != c);
            }
        }
        let rest = text.skip(k + 1);
        assert(rest[j - k - 1] == c);
        lemma_has_index(rest, c, j - k - 1);
    }
}

/// A text in which a character stands has a first position of it, no later than that one.
pub proof fn lemma_has_index(s: Seq<char>, c: char, i: int)
    requires
        0 <= i < s.len(),
        s[i] == c,
    ensures
        first_index(s, c) is Some,
        is_first_index(s, c, first_index(s, c)->0),
    decreases i,
{
    if forall|j: int| 0 <= j < i ==> s[j] != c {
        lemma_first_index(s, c, i);
    } else {
        let j = choose|j: int| 0 <= j < i && s[j] == c;
        lemma_has_index(s, c, j);
    }
}

/// A text is read as a number exactly if it is digits, behind a plus sign or not, and not too
/// large; leading zeros do not matter.
pub proof fn law_number_is_digits(s: Seq<char>, max: nat)
    ensures
        s.len() > 0 && all_digits(s) ==> unsigned_value(s, max) == if digits_value(s) <= max {
            Some(digits_value(s))
        } else {
            None
        },
        unsigned_value(s, max) is Some ==> all_digits(s) || (s[0] == '+' && all_digits(
            s.drop_first(),
        )),
        unsigned_value(Seq::empty(), max) is None,
        s.len() > 0 && all_digits(s) ==> unsigned_value(seq!['+'] + s, max) == unsigned_value(
            s,
            max,
        ),
{
    if s.len() > 0 && all_digits(s) {
        assert('0' <= s[0] <= '9');
        assert((seq!['+'] + s).drop_first() =~= s);
    }
}

/// An address is written as the host, a colon and the port, whatever the host is.
pub proof fn law_address_is_host_and_port(host: Seq<char>, port: u16)
    ensures
        ({
            let s = joined_address(host, port);
            let digits = s.skip(host.len() as int + 1);
            &&& s.take(host.len() as int) == host
            &&& s[host.len() as int] == ':'
            &&& unsigned_value(digits, 65535) == Some(port as nat)
            &&& port > 0 ==> digits[0] != '0'
            &&& port == 0 ==> digits.len() == 1
        }),
{
    let s = joined_address(host, port);
    let digits = s.skip(host.len() as int + 1);
    assert(s.take(host.len() as int) =~= host);
    assert(digits =~= decimal_text(port as nat));
    lemma_decimal_read(port as nat, 65535);
    lemma_no_leading_zero(port as nat);
}

/// The decimal text of a number other than zero does not begin with a zero.
proof fn lemma_no_leading_zero(n: nat)
    ensures
        decimal_text(n).len() > 0,
        n > 0 ==> decimal_text(n)[0] != '0',
        n == 0 ==> decimal_text(n).len() == 1,
    decreases n,
{
    if n >= 10 {
        lemma_no_leading_zero(n / 10);
    } else {
        assert(digit_char(n) as int == 48 + n);
    }
}

} // verus!
