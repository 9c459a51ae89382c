//! Text as sequences of characters: byte lengths, trimming, decimal numbers, and the few
//! operations on `str` and `String` that the rest of the library is built from.
use vstd::prelude::*;
use vstd::utf8::*;

verus! {

/// `String::push`: appends one character to the end of the string and changes nothing else.
pub assume_specification[ String::push ](s: &mut String, ch: char)
    ensures
        final(s)@ == old(s)@.push(ch),
;

/// What `String::from_utf8_lossy` makes of the bytes.
pub uninterp spec fn utf8_lossy(bytes: Seq<u8>) -> Seq<char>;

/// `String::from_utf8_lossy`, as an owned text: it depends on the bytes alone, and bytes that are
/// valid UTF-8 are decoded as they are. What invalid bytes are replaced by is not stated.
#[verifier::external_body]
pub(crate) fn lossy_text(bytes: &[u8]) -> (s: String)
    ensures
        s@ == utf8_lossy(bytes@),
        valid_utf8(bytes@) ==> s@ == decode_utf8(bytes@),
{
    String::from_utf8_lossy(bytes).to_string()
}

/// How many bytes the text takes in UTF-8.
pub open spec fn byte_len(s: Seq<char>) -> nat {
    encode_utf8(s).len()
}

/// How many bytes one character takes in UTF-8.
pub open spec fn utf8_width(c: char) -> nat {
    if (c as u32) < 0x80 {
        1
    } else if (c as u32) < 0x800 {
        2
    } else if (c as u32) < 0x10000 {
        3
    } else {
        4
    }
}

/// The longest prefix of `s` that takes at most `limit` bytes.
pub open spec fn fit(s: Seq<char>, limit: nat) -> Seq<char>
    decreases s.len(),
{
    if s.len() == 0 || byte_len(s) <= limit {
        s
    } else {
        fit(s.drop_last(), limit)
    }
}

/// The characters with the Unicode property `White_Space`.
pub open spec fn is_space(c: char) -> bool {
    let u = c as u32;
    ||| 0x9 <= u <= 0xd
    ||| u == 0x20
    ||| u == 0x85
    ||| u == 0xa0
    ||| u == 0x1680
    ||| 0x2000 <= u <= 0x200a
    ||| u == 0x2028
    ||| u == 0x2029
    ||| u == 0x202f
    ||| u == 0x205f
    ||| u == 0x3000
}

/// `s` without the white space at its end.
pub open spec fn trim_end(s: Seq<char>) -> Seq<char>
    decreases s.len(),
{
    if s.len() > 0 && is_space(s.last()) {
        trim_end(s.drop_last())
    } else {
        s
    }
}

/// Whether the text holds nothing but white space.
pub open spec fn is_blank(s: Seq<char>) -> bool {
    forall|i: int| 0 <= i < s.len() ==> is_space(#[trigger] s[i])
}

/// The character for a decimal digit.
pub open spec fn digit_char(d: nat) -> char {
    if d == 0 {
        '0'
    } else if d == 1 {
        '1'
    } else if d == 2 {
        '2'
    } else if d == 3 {
        '3'
    } else if d == 4 {
        '4'
    } else if d == 5 {
        '5'
    } else if d == 6 {
        '6'
    } else if d == 7 {
        '7'
    } else if d == 8 {
        '8'
    } else {
        '9'
    }
}

/// `n` in decimal, without leading zeros.
pub open spec fn decimal(n: nat) -> Seq<char>
    decreases n,
{
    if n < 10 {
        seq![digit_char(n)]
    } else {
        decimal(n / 10).push(digit_char(n % 10))
    }
}

/// `n` copies of `c`.
pub open spec fn repeated(c: char, n: nat) -> Seq<char> {
    Seq::new(n, |i: int| c)
}

/// Joining two texts joins their encodings.
pub proof fn lemma_byte_len_add(a: Seq<char>, b: Seq<char>)
    ensures
        byte_len(a + b) == byte_len(a) + byte_len(b),
    decreases a.len(),
{
    if a.len() == 0 {
        assert(a + b =~= b);
    } else {
        assert((a + b).drop_first() =~= a.drop_first() + b);
        lemma_byte_len_add(a.drop_first(), b);
    }
}

/// One more character adds its width.
pub proof fn lemma_byte_len_push(s: Seq<char>, c: char)
    ensures
        byte_len(s.push(c)) == byte_len(s) + utf8_width(c),
{
    assert(s.push(c) =~= s + seq![c]);
    lemma_byte_len_add(s, seq![c]);
    assert(seq![c].drop_first() =~= Seq::<char>::empty());
    char_is_scalar(c);
    reveal_with_fuel(encode_utf8, 2);
}

/// `fit` yields a prefix within the limit, and no longer prefix is within it.
pub proof fn lemma_fit(s: Seq<char>, limit: nat)
    ensures
        fit(s, limit).len() <= s.len(),
        fit(s, limit) == s.take(fit(s, limit).len() as int),
        byte_len(fit(s, limit)) <= limit,
        byte_len(s) <= limit ==> fit(s, limit) == s,
        forall|n: int|
            fit(s, limit).len() < n <= s.len() ==> byte_len(#[trigger] s.take(n)) > limit,
    decreases s.len(),
{
    if s.len() == 0 || byte_len(s) <= limit {
        assert(s.take(s.len() as int) =~= s);
    } else {
        let shorter = s.drop_last();
        lemma_fit(shorter, limit);
        assert(s.take(s.len() as int) =~= s);
        assert forall|n: int| fit(s, limit).len() < n <= s.len() implies byte_len(
            #[trigger] s.take(n),
        ) > limit by {
            if n < s.len() {
                assert(s.take(n) =~= shorter.take(n));
            }
        }
        assert(fit(s, limit) =~= s.take(fit(s, limit).len() as int));
    }
}

/// A prefix within the limit that cannot take one more character is what `fit` yields.
pub proof fn lemma_fit_is(s: Seq<char>, n: int, limit: nat)
    requires
        0 <= n <= s.len(),
        byte_len(s.take(n)) <= limit,
        n < s.len() ==> byte_len(s.take(n + 1)) > limit,
    ensures
        fit(s, limit) == s.take(n),
    decreases s.len(),
{
    if n == s.len() {
        assert(s.take(n) =~= s);
    } else {
        let rest = s.skip(n + 1);
        assert(s =~= s.take(n + 1) + rest);
        lemma_byte_len_add(s.take(n + 1), rest);
        let shorter = s.drop_last();
        assert(shorter.take(n) =~= s.take(n));
        if n < shorter.len() {
            assert(shorter.take(n + 1) =~= s.take(n + 1));
        }
        lemma_fit_is(shorter, n, limit);
    }
}

/// `trim_end` yields a prefix, ends in no white space, and drops only white space.
pub proof fn lemma_trim_end(s: Seq<char>)
    ensures
        trim_end(s).len() <= s.len(),
        trim_end(s) == s.take(trim_end(s).len() as int),
        trim_end(s).len() > 0 ==> !is_space(trim_end(s).last()),
        forall|i: int| trim_end(s).len() <= i < s.len() ==> is_space(#[trigger] s[i]),
    decreases s.len(),
{
    if s.len() > 0 && is_space(s.last()) {
        let shorter = s.drop_last();
        lemma_trim_end(shorter);
        assert(trim_end(s) =~= s.take(trim_end(s).len() as int));
        assert forall|i: int| trim_end(s).len() <= i < s.len() implies is_space(
            #[trigger] s[i],
        ) by {
            if i < shorter.len() {
                assert(shorter[i] == s[i]);
            }
        }
    } else {
        assert(s.take(s.len() as int) =~= s);
    }
}

/// A prefix that ends in no white space, with only white space behind it, is what `trim_end`
/// yields.
pub proof fn lemma_trim_end_is(s: Seq<char>, n: int)
    requires
        0 <= n <= s.len(),
        n > 0 ==> !is_space(s[n - 1]),
        forall|i: int| n <= i < s.len() ==> is_space(#[trigger] s[i]),
    ensures
        trim_end(s) == s.take(n),
    decreases s.len(),
{
    if n == s.len() {
        assert(s.take(n) =~= s);
    } else {
        let shorter = s.drop_last();
        assert(shorter.take(n) =~= s.take(n));
        assert(is_space(s[s.len() - 1]));
        lemma_trim_end_is(shorter, n);
    }
}

/// The two texts hold the same characters exactly when their encodings are the same.
pub proof fn lemma_encoding_is_injective(a: Seq<char>, b: Seq<char>)
    ensures
        encode_utf8(a) == encode_utf8(b) <==> a == b,
{
    encode_utf8_decode_utf8(a);
    encode_utf8_decode_utf8(b);
}

/// Every digit is a digit character, so a decimal number holds nothing else.
pub proof fn lemma_decimal_digits(n: nat)
    ensures
        decimal(n).len() > 0,
        forall|i: int| 0 <= i < decimal(n).len() ==> '0' <= #[trigger] decimal(n)[i] <= '9',
        byte_len(decimal(n)) == decimal(n).len(),
    decreases n,
{
    if n >= 10 {
        lemma_decimal_digits(n / 10);
        lemma_byte_len_push(decimal(n / 10), digit_char(n % 10));
    } else {
        assert(seq![digit_char(n)] =~= Seq::<char>::empty().push(digit_char(n)));
        lemma_byte_len_push(Seq::empty(), digit_char(n));
    }
}

/// Digit characters are consecutive, so they tell the digits apart.
proof fn lemma_digit_value(d: nat)
    requires
        d < 10,
    ensures
        digit_char(d) as u32 == 48 + d,
{
}

/// Different numbers have different decimal forms.
pub proof fn lemma_decimal_injective(a: nat, b: nat)
    requires
        decimal(a) == decimal(b),
    ensures
        a == b,
    decreases a,
{
    lemma_decimal_digits(a / 10);
    lemma_decimal_digits(b / 10);
    lemma_digit_value(a % 10);
    lemma_digit_value(b % 10);
    if a < 10 && b < 10 {
        lemma_digit_value(a);
        lemma_digit_value(b);
        assert(decimal(a) == seq![digit_char(a)]);
        assert(decimal(b) == seq![digit_char(b)]);
        assert(decimal(a)[0] == digit_char(a));
        assert(decimal(b)[0] == digit_char(b));
        assert(a == b);
    } else if a >= 10 && b >= 10 {
        assert(decimal(a).last() == digit_char(a % 10));
        assert(decimal(b).last() == digit_char(b % 10));
        assert(decimal(a).drop_last() =~= decimal(a / 10));
        assert(decimal(b).drop_last() =~= decimal(b / 10));
        lemma_decimal_injective(a / 10, b / 10);
        assert(a % 10 == b % 10);
        assert(a == 10 * (a / 10) + a % 10);
        assert(b == 10 * (b / 10) + b % 10);
    } else {
        let (small, large) = if a < 10 {
            (a, b)
        } else {
            (b, a)
        };
        assert(decimal(small) == seq![digit_char(small)]);
        lemma_decimal_digits(large / 10);
        assert(decimal(large) == decimal(large / 10).push(digit_char(large % 10)));
        assert(decimal(large).len() == decimal(large / 10).len() + 1);
    }
}

/// A number below ten to the power `k` has at most `k` digits.
pub proof fn lemma_decimal_len(n: nat, k: nat)
    requires
        k > 0,
        n < vstd::arithmetic::power::pow(10, k),
    ensures
        decimal(n).len() <= k,
    decreases k,
{
    vstd::arithmetic::power::lemma_pow0(10);
    vstd::arithmetic::power::lemma_pow1(10);
    if n >= 10 {
        assert(k > 1);
        assert(vstd::arithmetic::power::pow(10, k) == 10 * vstd::arithmetic::power::pow(
            10,
            (k - 1) as nat,
        )) by {
            reveal(vstd::arithmetic::power::pow);
        }
        lemma_decimal_len(n / 10, (k - 1) as nat);
    }
}

/// A number that fits in 128 bits has at most 39 digits.
pub proof fn lemma_machine_number_len(n: nat)
    requires
        n <= u128::MAX,
    ensures
        decimal(n).len() <= 39,
{
    assert(vstd::arithmetic::power::pow(10, 39) == 1000000000000000000000000000000000000000)
        by {
        reveal_with_fuel(vstd::arithmetic::power::pow, 40);
    }
    lemma_decimal_len(n, 39);
}

/// The characters of a text, in order.
pub fn chars_of(s: &str) -> (v: Vec<char>)
    ensures
        v@ == s@,
{
    let mut v: Vec<char> = Vec::new();
    for c in it: s.chars()
        invariant
            v@ == it.seq().take(it.index()),
            it.seq() == s@,
    {
        v.push(c);
    }
    v
}

/// The text made of the characters from `from` up to `to`.
pub fn text_between(v: &Vec<char>, from: usize, to: usize) -> (s: String)
    requires
        from <= to <= v@.len(),
    ensures
        s@ == v@.subrange(from as int, to as int),
{
    let mut s = String::new();
    let mut i: usize = from;
    while i < to
        invariant
            from <= i <= to <= v@.len(),
            s@ == v@.subrange(from as int, i as int),
        decreases to - i,
    {
        s.push(v[i]);
        i += 1;
    }
    s
}

/// Whether two texts are the same.
pub fn same_text(a: &str, b: &str) -> (r: bool)
    ensures
        r == (a@ == b@),
{
    let x = a.as_bytes();
    let y = b.as_bytes();
    proof {
        lemma_encoding_is_injective(a@, b@);
    }
    if x.len() != y.len() {
        return false;
    }
    let mut i: usize = 0;
    while i < x.len()
        invariant
            i <= x@.len() == y@.len(),
            x@ == encode_utf8(a@),
            y@ == encode_utf8(b@),
            encode_utf8(a@) == encode_utf8(b@) <==> a@ == b@,
            forall|j: int| 0 <= j < i ==> x@[j] == y@[j],
        decreases x@.len() - i,
    {
        if x[i] != y[i] {
            return false;
        }
        i += 1;
    }
    assert(x@ =~= y@);
    true
}

/// How many bytes the character takes in UTF-8.
fn char_width(c: char) -> (w: usize)
    ensures
        w == utf8_width(c),
{
    let u: u32 = c as u32;
    if u < 0x80 {
        1
    } else if u < 0x800 {
        2
    } else if u < 0x10000 {
        3
    } else {
        4
    }
}

/// How many of the leading characters fit in `limit` bytes.
pub fn fit_len(v: &Vec<char>, limit: usize) -> (n: usize)
    ensures
        n <= v@.len(),
        v@.take(n as int) == fit(v@, limit as nat),
{
    let mut used: usize = 0;
    let mut n: usize = 0;
    while n < v.len()
        invariant
            n <= v@.len(),
            used <= limit,
            used == byte_len(v@.take(n as int)),
        decreases v@.len() - n,
    {
        let w: usize = char_width(v[n]);
        proof {
            assert(v@.take(n + 1) =~= v@.take(n as int).push(v@[n as int]));
            lemma_byte_len_push(v@.take(n as int), v@[n as int]);
        }
        if w > limit - used {
            proof {
                lemma_fit_is(v@, n as int, limit as nat);
            }
            return n;
        }
        used += w;
        n += 1;
    }
    proof {
        lemma_fit_is(v@, n as int, limit as nat);
    }
    n
}

/// Whether the character is white space.
pub fn is_space_char(c: char) -> (r: bool)
    ensures
        r == is_space(c),
{
    let u: u32 = c as u32;
    (0x9 <= u && u <= 0xd) || u == 0x20 || u == 0x85 || u == 0xa0 || u == 0x1680 || (0x2000 <= u
        && u <= 0x200a) || u == 0x2028 || u == 0x2029 || u == 0x202f || u == 0x205f || u == 0x3000
}

/// How many of the first `n` characters are left without the white space at their end.
pub fn trimmed_len(v: &Vec<char>, n: usize) -> (m: usize)
    requires
        n <= v@.len(),
    ensures
        m <= n,
        v@.take(m as int) == trim_end(v@.take(n as int)),
{
    let mut m: usize = n;
    while m > 0 && is_space_char(v[m - 1])
        invariant
            m <= n <= v@.len(),
            forall|i: int| m <= i < n ==> is_space(#[trigger] v@[i]),
        decreases m,
    {
        m -= 1;
    }
    proof {
        lemma_trim_end_is(v@.take(n as int), m as int);
        assert(v@.take(n as int).take(m as int) =~= v@.take(m as int));
    }
    m
}

/// Whether the text holds nothing but white space.
pub fn is_blank_text(s: &str) -> (r: bool)
    ensures
        r == is_blank(s@),
{
    let v = chars_of(s);
    let mut i: usize = 0;
    while i < v.len()
        invariant
            i <= v@.len(),
            v@ == s@,
            forall|j: int| 0 <= j < i ==> is_space(#[trigger] v@[j]),
        decreases v@.len() - i,
    {
        if !is_space_char(v[i]) {
            assert(!is_space(s@[i as int]));
            return false;
        }
        i += 1;
    }
    true
}

fn digit_of(d: u128) -> (c: char)
    requires
        d < 10,
    ensures
        c == digit_char(d as nat),
{
    if d == 0 {
        '0'
    } else if d == 1 {
        '1'
    } else if d == 2 {
        '2'
    } else if d == 3 {
        '3'
    } else if d == 4 {
        '4'
    } else if d == 5 {
        '5'
    } else if d == 6 {
        '6'
    } else if d == 7 {
        '7'
    } else if d == 8 {
        '8'
    } else {
        '9'
    }
}

/// The number in decimal.
pub fn decimal_text(n: u128) -> (s: String)
    ensures
        s@ == decimal(n as nat),
    decreases n,
{
    if n < 10 {
        let mut s = String::new();
        s.push(digit_of(n));
        assert(s@ =~= decimal(n as nat));
        s
    } else {
        let mut s = decimal_text(n / 10);
        s.push(digit_of(n % 10));
        s
    }
}

/// The text `a` followed by the text `b`.
pub fn joined(a: &str, b: &str) -> (s: String)
    ensures
        s@ == a@ + b@,
{
    let mut s = a.to_owned();
    s.append(b);
    s
}

/// `n` copies of the character.
pub fn repeat_char(c: char, n: usize) -> (s: String)
    ensures
        s@ == repeated(c, n as nat),
{
    let mut s = String::new();
    let mut i: usize = 0;
    while i < n
        invariant
            i <= n,
            s@ == repeated(c, i as nat),
        decreases n - i,
    {
        s.push(c);
        i += 1;
        assert(s@ =~= repeated(c, i as nat));
    }
    assert(s@ =~= repeated(c, n as nat));
    s
}

/// A copy of the text.
pub fn copy_of(s: &str) -> (r: String)
    ensures
        r@ == s@,
{
    s.to_owned()
}

/// The text is the decimal form of `n`.
pub open spec fn is_number(text: Seq<char>, n: usize) -> bool {
    text == decimal(n as nat)
}

/// The value of a digit.
fn digit_value(c: char) -> (d: Option<usize>)
    ensures
        match d {
            Some(v) => v < 10 && c == digit_char(v as nat),
            None => forall|v: nat| v < 10 ==> c != #[trigger] digit_char(v),
        },
{
    let u: u32 = c as u32;
    if 48 <= u && u < 58 {
        let v: u32 = u - 48;
        proof {
            lemma_digit_value(v as nat);
        }
        Some(v as usize)
    } else {
        assert forall|v: nat| v < 10 implies c != #[trigger] digit_char(v) by {
            lemma_digit_value(v);
        }
        None
    }
}

/// A decimal number of more than one digit is the number without its last digit, and that
/// digit.
proof fn lemma_decimal_split(k: nat)
    requires
        decimal(k).len() > 1,
    ensures
        k >= 10,
        decimal(k).drop_last() == decimal(k / 10),
        decimal(k).last() == digit_char(k % 10),
{
    if k >= 10 {
        assert(decimal(k).drop_last() =~= decimal(k / 10));
    }
}

/// The number of which the first `n` characters are the decimal form.
fn leading_number(v: &Vec<char>, n: usize) -> (value: Option<usize>)
    requires
        0 < n <= v@.len(),
    ensures
        match value {
            Some(k) => is_number(v@.take(n as int), k),
            None => forall|k: usize| !is_number(v@.take(n as int), k),
        },
    decreases n,
{
    let ghost text = v@.take(n as int);
    let ghost front = v@.take(n - 1);
    assert(text.drop_last() =~= front);
    assert(text.last() == v@[n - 1]);
    assert forall|k: usize| is_number(text, k) implies text.last() == digit_char(
        k as nat % 10,
    ) && (n > 1 ==> k >= 10 && is_number(front, (k / 10) as usize)) && (n == 1 ==> k < 10) by {
        if n > 1 {
            lemma_decimal_split(k as nat);
        } else if k >= 10 {
            lemma_decimal_digits(k as nat / 10);
        }
    }
    let d: usize = match digit_value(v[n - 1]) {
        Some(d) => d,
        None => {
            return None;
        },
    };
    if n == 1 {
        proof {
            assert(text =~= seq![v@[0]]);
            assert(decimal(d as nat) == seq![digit_char(d as nat)]);
        }
        return Some(d);
    }
    match leading_number(v, n - 1) {
        None => None,
        Some(head) => {
            assert forall|k: usize| is_number(text, k) implies k == 10 * head + d && head > 0 by {
                assert(is_number(front, (k / 10) as usize));
                lemma_decimal_injective(head as nat, k as nat / 10);
                lemma_digit_value(k as nat % 10);
                lemma_digit_value(d as nat);
            }
            if head == 0 || head > (usize::MAX - d) / 10 {
                None
            } else {
                proof {
                    let k = (10 * head + d) as nat;
                    assert(k / 10 == head && k % 10 == d);
                    assert(decimal(k) == decimal(k / 10).push(digit_char(k % 10)));
                    assert(text =~= front.push(v@[n - 1]));
                }
                Some(10 * head + d)
            }
        },
    }
}

/// The number of which the text is the decimal form.
pub fn number_of(text: &str) -> (value: Option<usize>)
    ensures
        match value {
            Some(k) => is_number(text@, k),
            None => forall|k: usize| !is_number(text@, k),
        },
{
    let v = chars_of(text);
    let n: usize = v.len();
    proof {
        assert forall|k: usize| is_number(text@, k) implies 0 < n <= 39 by {
            lemma_decimal_digits(k as nat);
            lemma_machine_number_len(k as nat);
        }
        assert(v@.take(n as int) =~= text@);
    }
    if n == 0 || n > 39 {
        None
    } else {
        leading_number(&v, n)
    }
}

/// An optional text as a plain value.
pub open spec fn optional(s: Option<String>) -> Option<Seq<char>> {
    match s {
        Some(t) => Some(t@),
        None => None,
    }
}

/// Whether the optional text is this text.
pub fn is_text(s: &Option<String>, text: &str) -> (r: bool)
    ensures
        r == (optional(*s) == Some(text@)),
{
    match s {
        Some(t) => same_text(t.as_str(), text),
        None => false,
    }
}

} // verus!
