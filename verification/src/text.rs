use vstd::prelude::*;
use vstd::string::*;
use vstd::utf8::*;

verus! {

/// Turns bytes into a string where they are UTF-8.
///
/// Calls `String::from_utf8` of the standard library, which returns the
/// string of exactly those bytes, and an error where they are not UTF-8.
#[verifier::external_body]
pub(crate) fn string_from_utf8(bytes: Vec<u8>) -> (r: Option<String>)
    ensures
        r is Some <==> valid_utf8(bytes@),
        r matches Some(s) ==> s@ == decode_utf8(bytes@),
{
    String::from_utf8(bytes).ok()
}

/// The text that ASCII bytes spell: one character for each byte.
pub open spec fn ascii_text(bytes: Seq<u8>) -> Seq<char> {
    Seq::new(bytes.len(), |i: int| bytes[i] as char)
}

/// Turns ASCII bytes into the string that they spell.
pub fn ascii_string(bytes: Vec<u8>) -> (r: String)
    requires
        forall|i: int| 0 <= i < bytes@.len() ==> #[trigger] bytes@[i] < 0x80,
    ensures
        r@ == ascii_text(bytes@),
{
    let ghost chars = ascii_text(bytes@);
    proof {
        assert(is_ascii_chars(chars)) by {
            assert forall|i: int| 0 <= i < chars.len() implies '\0' <= #[trigger] chars[i]
                <= '\u{7f}' by {
                assert(bytes@[i] < 0x80);
            }
        }
        is_ascii_chars_encode_utf8(chars);
        assert(encode_utf8(chars) =~= bytes@) by {
            assert forall|i: int| 0 <= i < chars.len() implies encode_utf8(chars)[i]
                == bytes@[i] by {
                assert(chars[i] as u8 == encode_utf8(chars)[i]);
                assert(bytes@[i] < 0x80);
            }
        }
        encode_utf8_valid_utf8(chars);
        encode_utf8_decode_utf8(chars);
    }
    match string_from_utf8(bytes) {
        Some(s) => s,
        None => String::new(),
    }
}

/// Whether two strings hold the same characters.
pub fn same_text(a: &str, b: &str) -> (r: bool)
    ensures
        r == (a@ == b@),
{
    let x = a.as_bytes();
    let y = b.as_bytes();
    proof {
        encode_utf8_decode_utf8(a@);
        encode_utf8_decode_utf8(b@);
    }
    if x.len() != y.len() {
        return false;
    }
    let mut i: usize = 0;
    while i < x.len()
        invariant
            x@ == encode_utf8(a@),
            y@ == encode_utf8(b@),
            x@.len() == y@.len(),
            i <= x@.len(),
            forall|k: int| 0 <= k < i ==> x@[k] == y@[k],
        decreases x@.len() - i,
    {
        if x[i] != y[i] {
            return false;
        }
        i += 1;
    }
    assert(x@ =~= y@);
    true
}

/// The UTF-8 bytes of a text are no fewer than its characters.
pub proof fn lemma_utf8_is_no_shorter(chars: Seq<char>)
    ensures
        encode_utf8(chars).len() >= chars.len(),
    decreases chars.len(),
{
    if chars.len() > 0 {
        lemma_utf8_is_no_shorter(chars.drop_first());
        assert(encode_scalar(chars[0] as u32).len() >= 1);
    }
}

/// The order of byte strings: the first byte that differs decides, and a
/// proper prefix comes first.
pub open spec fn bytes_lt(a: Seq<u8>, b: Seq<u8>) -> bool
    decreases a.len(),
{
    if b.len() == 0 {
        false
    } else if a.len() == 0 {
        true
    } else if a[0] != b[0] {
        a[0] < b[0]
    } else {
        bytes_lt(a.drop_first(), b.drop_first())
    }
}

/// The order of texts: that of their UTF-8 bytes, which is the order of
/// their code points.
pub open spec fn text_lt(a: Seq<char>, b: Seq<char>) -> bool {
    bytes_lt(encode_utf8(a), encode_utf8(b))
}

/// No byte string comes before itself.
pub proof fn lemma_bytes_lt_irreflexive(a: Seq<u8>)
    ensures
        !bytes_lt(a, a),
    decreases a.len(),
{
    if a.len() > 0 {
        lemma_bytes_lt_irreflexive(a.drop_first());
    }
}

/// Of two byte strings at most one comes before the other.
pub proof fn lemma_bytes_lt_asymmetric(a: Seq<u8>, b: Seq<u8>)
    requires
        bytes_lt(a, b),
    ensures
        !bytes_lt(b, a),
    decreases a.len(),
{
    if a.len() > 0 && b.len() > 0 && a[0] == b[0] {
        lemma_bytes_lt_asymmetric(a.drop_first(), b.drop_first());
    }
}

/// The order of byte strings is transitive.
pub proof fn lemma_bytes_lt_transitive(a: Seq<u8>, b: Seq<u8>, c: Seq<u8>)
    requires
        bytes_lt(a, b),
        bytes_lt(b, c),
    ensures
        bytes_lt(a, c),
    decreases a.len(),
{
    if a.len() > 0 && b.len() > 0 && c.len() > 0 && a[0] == b[0] && b[0] == c[0] {
        lemma_bytes_lt_transitive(a.drop_first(), b.drop_first(), c.drop_first());
    }
}

/// Two byte strings are equal, or one comes before the other.
pub proof fn lemma_bytes_lt_total(a: Seq<u8>, b: Seq<u8>)
    ensures
        a == b || bytes_lt(a, b) || bytes_lt(b, a),
    decreases a.len(),
{
    if a.len() > 0 && b.len() > 0 && a[0] == b[0] {
        lemma_bytes_lt_total(a.drop_first(), b.drop_first());
        if a.drop_first() == b.drop_first() {
            assert(a =~= seq![a[0]] + a.drop_first());
            assert(b =~= seq![b[0]] + b.drop_first());
        }
    } else if a.len() == 0 && b.len() == 0 {
        assert(a =~= b);
    }
}

/// The order of texts is a strict total order.
pub proof fn lemma_text_lt_order(a: Seq<char>, b: Seq<char>, c: Seq<char>)
    ensures
        !text_lt(a, a),
        text_lt(a, b) ==> !text_lt(b, a),
        text_lt(a, b) && text_lt(b, c) ==> text_lt(a, c),
        a == b || text_lt(a, b) || text_lt(b, a),
{
    let x = encode_utf8(a);
    let y = encode_utf8(b);
    let z = encode_utf8(c);
    lemma_bytes_lt_irreflexive(x);
    if bytes_lt(x, y) {
        lemma_bytes_lt_asymmetric(x, y);
        if bytes_lt(y, z) {
            lemma_bytes_lt_transitive(x, y, z);
        }
    }
    lemma_bytes_lt_total(x, y);
    encode_utf8_decode_utf8(a);
    encode_utf8_decode_utf8(b);
}

/// Whether text `a` comes before text `b`.
pub fn text_less(a: &str, b: &str) -> (r: bool)
    ensures
        r == text_lt(a@, b@),
{
    let x = a.as_bytes();
    let y = b.as_bytes();
    let mut i: usize = 0;
    assert(x@.skip(0) == x@ && y@.skip(0) == y@);
    while i < x.len() && i < y.len()
        invariant
            x@ == encode_utf8(a@),
            y@ == encode_utf8(b@),
            i <= x@.len(),
            i <= y@.len(),
            bytes_lt(x@, y@) == bytes_lt(x@.skip(i as int), y@.skip(i as int)),
        decreases x@.len() - i,
    {
        if x[i] != y[i] {
            return x[i] < y[i];
        }
        assert(x@.skip(i as int).drop_first() == x@.skip(i + 1));
        assert(y@.skip(i as int).drop_first() == y@.skip(i + 1));
        i += 1;
    }
    i < y.len()
}

/// A byte with an ASCII capital folded to its small letter.
pub open spec fn folded(b: u8) -> u8 {
    if 0x41 <= b <= 0x5a {
        (b + 0x20) as u8
    } else {
        b
    }
}

/// Whether `needle` stands in `hay` at offset `at`, ASCII letters compared
/// without regard to case.
pub open spec fn occurs_at(hay: Seq<u8>, needle: Seq<u8>, at: int) -> bool {
    &&& 0 <= at
    &&& at + needle.len() <= hay.len()
    &&& forall|k: int|
        0 <= k < needle.len() ==> folded(hay[at + k]) == folded(#[trigger] needle[k])
}

/// Whether `needle` stands somewhere in `hay`, ASCII letters compared without
/// regard to case. The empty needle stands in every text.
pub open spec fn text_contains(hay: Seq<char>, needle: Seq<char>) -> bool {
    exists|at: int| occurs_at(encode_utf8(hay), encode_utf8(needle), at)
}

/// Folds an ASCII capital to its small letter.
pub fn fold_byte(b: u8) -> (r: u8)
    ensures
        r == folded(b),
{
    if 0x41 <= b && b <= 0x5a {
        b + 0x20
    } else {
        b
    }
}

/// Whether `needle` stands in `hay` at offset `at`.
fn stands_at(hay: &[u8], needle: &[u8], at: usize) -> (r: bool)
    requires
        at + needle@.len() <= hay@.len(),
    ensures
        r == occurs_at(hay@, needle@, at as int),
{
    let hay_len = hay.len();
    let mut k: usize = 0;
    while k < needle.len()
        invariant
            hay_len == hay@.len(),
            at + needle@.len() <= hay@.len(),
            k <= needle@.len(),
            forall|j: int| 0 <= j < k ==> folded(hay@[at + j]) == folded(#[trigger] needle@[j]),
        decreases needle@.len() - k,
    {
        if fold_byte(hay[at + k]) != fold_byte(needle[k]) {
            return false;
        }
        k += 1;
    }
    true
}

/// Whether the keyword stands somewhere in the text, ASCII letters compared
/// without regard to case.
pub fn contains_folded(hay: &str, needle: &str) -> (r: bool)
    ensures
        r == text_contains(hay@, needle@),
{
    let h = hay.as_bytes();
    let n = needle.as_bytes();
    if n.len() > h.len() {
        return false;
    }
    let last: usize = h.len() - n.len();
    let mut at: usize = 0;
    while at < last
        invariant
            h@ == encode_utf8(hay@),
            n@ == encode_utf8(needle@),
            last == h@.len() - n@.len(),
            at <= last,
            forall|j: int| 0 <= j < at ==> !occurs_at(h@, n@, j),
        decreases last - at,
    {
        if stands_at(h, n, at) {
            return true;
        }
        at += 1;
    }
    stands_at(h, n, last)
}

/// Whether a byte is an ASCII digit.
pub open spec fn is_digit(b: u8) -> bool {
    0x30 <= b <= 0x39
}

/// The number that decimal digits spell.
pub open spec fn decimal_value(digits: Seq<u8>) -> int
    decreases digits.len(),
{
    if digits.len() == 0 {
        0
    } else {
        decimal_value(digits.drop_last()) * 10 + (digits.last() - 0x30)
    }
}

/// The digits of a text that may begin with a plus sign.
pub open spec fn digits_of(bytes: Seq<u8>) -> Seq<u8> {
    if bytes.len() > 0 && bytes[0] == 0x2b {
        bytes.skip(1)
    } else {
        bytes
    }
}

/// The number that a text spells, if it spells one that is at most `max`:
/// decimal digits, at least one, after an optional plus sign. Any other text
/// spells no number.
pub open spec fn parsed_decimal(text: Seq<char>, max: int) -> Option<int> {
    let digits = digits_of(encode_utf8(text));
    if digits.len() > 0 && (forall|i: int| 0 <= i < digits.len() ==> is_digit(#[trigger] digits[i]))
        && decimal_value(digits) <= max {
        Some(decimal_value(digits))
    } else {
        None
    }
}

/// The length that a text spells: a number that fits in `usize`.
pub open spec fn parsed_length(text: Seq<char>) -> Option<int> {
    parsed_decimal(text, usize::MAX as int)
}

/// A longer run of digits spells no smaller number than its beginning.
proof fn lemma_decimal_value_grows(digits: Seq<u8>, k: int)
    requires
        0 <= k <= digits.len(),
        forall|i: int| 0 <= i < digits.len() ==> is_digit(#[trigger] digits[i]),
    ensures
        0 <= decimal_value(digits.take(k)) <= decimal_value(digits),
    decreases digits.len() - k,
{
    if k == digits.len() {
        assert(digits.take(k) == digits);
        lemma_decimal_value_nonnegative(digits);
    } else {
        lemma_decimal_value_grows(digits, k + 1);
        let longer = digits.take(k + 1);
        assert(longer.drop_last() == digits.take(k));
        assert(is_digit(digits[k]));
        lemma_decimal_value_nonnegative(digits.take(k));
    }
}

/// Digits spell no negative number.
proof fn lemma_decimal_value_nonnegative(digits: Seq<u8>)
    requires
        forall|i: int| 0 <= i < digits.len() ==> is_digit(#[trigger] digits[i]),
    ensures
        0 <= decimal_value(digits),
    decreases digits.len(),
{
    if digits.len() > 0 {
        lemma_decimal_value_nonnegative(digits.drop_last());
        assert(is_digit(digits[digits.len() - 1]));
    }
}

/// Reads a text as a number that is at most `max`, as `parsed_decimal` says.
pub fn parse_decimal(text: &str, max: u64) -> (r: Option<u64>)
    ensures
        match r {
            Some(n) => parsed_decimal(text@, max as int) == Some(n as int),
            None => parsed_decimal(text@, max as int) is None,
        },
{
    let bytes = text.as_bytes();
    let start: usize = if bytes.len() > 0 && bytes[0] == 0x2b {
        1
    } else {
        0
    };
    if bytes.len() == start {
        return None;
    }
    let ghost digits = digits_of(bytes@);
    assert(digits == bytes@.skip(start as int));
    let mut value: u64 = 0;
    let mut i: usize = start;
    assert(digits.take(0) =~= Seq::<u8>::empty());
    while i < bytes.len()
        invariant
            bytes@ == encode_utf8(text@),
            digits == digits_of(bytes@),
            digits == bytes@.skip(start as int),
            digits.len() > 0,
            start <= i <= bytes@.len(),
            forall|j: int| 0 <= j < i - start ==> is_digit(#[trigger] digits[j]),
            value as int == decimal_value(digits.take(i - start)),
            value <= max,
        decreases bytes@.len() - i,
    {
        let b = bytes[i];
        assert(b == digits[i - start]);
        if b < 0x30 || b > 0x39 {
            assert(!is_digit(digits[i - start]));
            return None;
        }
        let ghost longer = digits.take(i - start + 1);
        assert(longer.drop_last() == digits.take(i - start));
        assert(longer.last() == b);
        let next = match value.checked_mul(10) {
            Some(tens) => tens.checked_add((b - 0x30) as u64),
            None => None,
        };
        let fits = match next {
            Some(n) => n <= max,
            None => false,
        };
        if !fits {
            proof {
                assert(decimal_value(longer) > max);
                if forall|j: int| 0 <= j < digits.len() ==> is_digit(#[trigger] digits[j]) {
                    lemma_decimal_value_grows(digits, i - start + 1);
                }
            }
            return None;
        }
        value = next.unwrap();
        i += 1;
    }
    assert(digits.take(digits.len() as int) == digits);
    Some(value)
}

/// Reads a text as a length, as `parsed_length` says.
pub fn parse_length(text: &str) -> (r: Option<usize>)
    ensures
        match r {
            Some(n) => parsed_length(text@) == Some(n as int),
            None => parsed_length(text@) is None,
        },
{
    match parse_decimal(text, usize::MAX as u64) {
        Some(n) => Some(n as usize),
        None => None,
    }
}

/// The decimal digits of a number.
pub open spec fn decimal_digits(n: nat) -> Seq<u8>
    decreases n,
{
    if n < 10 {
        seq![(0x30 + n) as u8]
    } else {
        decimal_digits(n / 10).push((0x30 + n % 10) as u8)
    }
}

/// The decimal text of a number: its digits, after a minus sign where it is
/// negative.
pub open spec fn decimal_text(n: int) -> Seq<char> {
    if n < 0 {
        ascii_text(seq![0x2du8] + decimal_digits((-n) as nat))
    } else {
        ascii_text(decimal_digits(n as nat))
    }
}

/// Decimal digits are ASCII digits.
pub proof fn lemma_decimal_digits_are_digits(n: nat)
    ensures
        decimal_digits(n).len() > 0,
        forall|i: int| 0 <= i < decimal_digits(n).len() ==> is_digit(#[trigger] decimal_digits(n)[i]),
    decreases n,
{
    if n >= 10 {
        lemma_decimal_digits_are_digits(n / 10);
    }
}

/// Writes a number as decimal text.
pub fn decimal_string(n: i64) -> (r: String)
    ensures
        r@ == decimal_text(n as int),
{
    let mut rest: u64 = if n < 0 {
        (-(n as i128)) as u64
    } else {
        n as u64
    };
    let ghost magnitude = rest as nat;
    // The digits from the last to the first.
    let mut backwards: Vec<u8> = Vec::new();
    backwards.push(0x30 + (rest % 10) as u8);
    rest = rest / 10;
    proof {
        lemma_decimal_digits_are_digits(magnitude);
    }
    while rest > 0
        invariant
            backwards@.len() > 0,
            forall|i: int| 0 <= i < backwards@.len() ==> is_digit(#[trigger] backwards@[i]),
            if rest == 0 {
                decimal_digits(magnitude) == backwards@.reverse()
            } else {
                decimal_digits(magnitude) == decimal_digits(rest as nat) + backwards@.reverse()
            },
        decreases rest,
    {
        let ghost before = backwards@;
        backwards.push(0x30 + (rest % 10) as u8);
        proof {
            assert(backwards@.reverse() =~= seq![(0x30 + rest % 10) as u8] + before.reverse());
            if rest >= 10 {
                assert(decimal_digits(rest as nat) + before.reverse() =~= decimal_digits(
                    (rest / 10) as nat,
                ) + backwards@.reverse());
            } else {
                assert(decimal_digits(rest as nat) + before.reverse() =~= backwards@.reverse());
            }
        }
        rest = rest / 10;
    }
    let mut bytes: Vec<u8> = Vec::new();
    if n < 0 {
        bytes.push(0x2d);
    }
    let ghost head = bytes@;
    let mut k: usize = backwards.len();
    while k > 0
        invariant
            k <= backwards@.len(),
            bytes@ == head + backwards@.reverse().take(backwards@.len() - k),
            forall|i: int| 0 <= i < backwards@.len() ==> is_digit(#[trigger] backwards@[i]),
            forall|i: int| 0 <= i < head.len() ==> #[trigger] head[i] < 0x80,
        decreases k,
    {
        k -= 1;
        let ghost before = bytes@;
        bytes.push(backwards[k]);
        proof {
            let turned = backwards@.reverse();
            let done = backwards@.len() - k - 1;
            assert(turned[done] == backwards@[k as int]);
            assert(turned.take(done + 1) =~= turned.take(done).push(turned[done]));
            assert(bytes@ =~= head + turned.take(done + 1));
        }
    }
    proof {
        let turned = backwards@.reverse();
        assert(turned.take(backwards@.len() as int) == turned);
        assert forall|i: int| 0 <= i < bytes@.len() implies #[trigger] bytes@[i] < 0x80 by {
            if i >= head.len() {
                assert(bytes@[i] == turned[i - head.len()]);
                assert(is_digit(backwards@[backwards@.len() - 1 - (i - head.len())]));
            }
        }
    }
    ascii_string(bytes)
}

} // verus!
