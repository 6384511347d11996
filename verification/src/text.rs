//! Text helpers: building strings, decimal and hexadecimal numerals, UTF-8.
use vstd::prelude::*;
use vstd::utf8::{valid_utf8, decode_utf8, encode_utf8, encode_utf8_decode_utf8};

verus! {

/// `String::push`: appends one character.
#[verifier::external_body]
pub(crate) fn push_char(s: &mut String, c: char)
    ensures
        final(s)@ == old(s)@.push(c),
{
    s.push(c);
}

/// `String::push_str`: appends the characters of `t`.
#[verifier::external_body]
pub(crate) fn push_str(s: &mut String, t: &str)
    ensures
        final(s)@ == old(s)@ + t@,
{
    s.push_str(t);
}

/// `String::from_utf8`: the string whose UTF-8 encoding is `bytes`, or
/// `None` where `bytes` is not valid UTF-8 (the error is dropped).
#[verifier::external_body]
pub(crate) fn string_from_utf8(bytes: Vec<u8>) -> (r: Option<String>)
    ensures
        r is Some <==> valid_utf8(bytes@),
        r matches Some(s) ==> s@ == decode_utf8(bytes@),
{
    String::from_utf8(bytes).ok()
}

/// What `String::from_utf8_lossy` makes of `bytes`: their UTF-8 decoding,
/// with each invalid sequence replaced by U+FFFD.
pub uninterp spec fn utf8_lossy_text(bytes: Seq<u8>) -> Seq<char>;

/// `String::from_utf8_lossy`, turned into an owned string.  The contract
/// names the result; of it, it states only what the documentation states
/// plainly: valid UTF-8 is decoded unchanged.  How invalid sequences are
/// replaced is left unsaid.
#[verifier::external_body]
pub(crate) fn utf8_lossy(bytes: &[u8]) -> (r: String)
    ensures
        r@ == utf8_lossy_text(bytes@),
        valid_utf8(bytes@) ==> r@ == decode_utf8(bytes@),
{
    String::from_utf8_lossy(bytes).into_owned()
}

/// The numeral character of a digit below sixteen (lowercase letters).
pub open spec fn digit_char(d: nat) -> char {
    if d < 10 {
        (48 + d) as char
    } else {
        (87 + d) as char
    }
}

fn digit(d: u8) -> (c: char)
    requires
        d < 16,
    ensures
        c == digit_char(d as nat),
{
    if d < 10 {
        (48u8 + d) as char
    } else {
        (87u8 + d) as char
    }
}

/// The decimal numeral of `n`, without leading zeros.
pub open spec fn decimal_text(n: nat) -> Seq<char>
    decreases n,
{
    if n < 10 {
        seq![digit_char(n)]
    } else {
        decimal_text(n / 10).push(digit_char(n % 10))
    }
}

/// The decimal numeral of a signed integer, as `to_string` writes it.
pub open spec fn signed_decimal_text(n: int) -> Seq<char> {
    if n < 0 {
        seq!['-'] + decimal_text((-n) as nat)
    } else {
        decimal_text(n as nat)
    }
}

/// The lowercase hexadecimal digits of `n`, left-padded with zeros to at
/// least `width` digits, as `format!("{:0width$x}", n)` writes them.
pub open spec fn hex_padded(n: nat, width: nat) -> Seq<char>
    decreases n + width,
{
    if n < 16 && width <= 1 {
        seq![digit_char(n)]
    } else {
        hex_padded(n / 16, if width > 0 { (width - 1) as nat } else { 0 }).push(digit_char(n % 16))
    }
}

/// The value of a numeral character: `0`-`9` and `a`-`f`.
pub open spec fn digit_value(c: char) -> nat {
    if '0' <= c && c <= '9' {
        (c as nat - 48) as nat
    } else if 'a' <= c && c <= 'f' {
        (c as nat - 87) as nat
    } else {
        0
    }
}

/// Whether `c` is a numeral character of `base` (ten, or sixteen with
/// lowercase letters).
pub open spec fn is_digit_of(c: char, base: nat) -> bool {
    ||| '0' <= c && c <= '9' && (c as nat) - 48 < base
    ||| base == 16 && 'a' <= c && c <= 'f'
}

/// The number that the numeral `s` writes in `base`, most significant
/// digit first.
pub open spec fn numeral_value(s: Seq<char>, base: nat) -> nat
    decreases s.len(),
{
    if s.len() == 0 {
        0
    } else {
        numeral_value(s.drop_last(), base) * base + digit_value(s.last())
    }
}

proof fn lemma_digit_char(d: nat, base: nat)
    requires
        d < base,
        base == 10 || base == 16,
    ensures
        is_digit_of(digit_char(d), base),
        digit_value(digit_char(d)) == d,
        digit_char(d) == '0' <==> d == 0,
{
}

/// The decimal numeral of `n` is a nonempty string of decimal digits that
/// writes `n`, with no leading zero.
pub proof fn lemma_decimal_text_value(n: nat)
    ensures
        decimal_text(n).len() >= 1,
        numeral_value(decimal_text(n), 10) == n,
        forall|i: int| 0 <= i < decimal_text(n).len() ==> is_digit_of(#[trigger] decimal_text(n)[i], 10),
        n > 0 ==> decimal_text(n)[0] != '0',
    decreases n,
{
    if n < 10 {
        lemma_digit_char(n, 10);
        assert(decimal_text(n).drop_last() =~= Seq::<char>::empty());
        assert(numeral_value(decimal_text(n), 10) == numeral_value(Seq::<char>::empty(), 10) * 10 + digit_value(digit_char(n)));
    } else {
        lemma_decimal_text_value(n / 10);
        lemma_digit_char(n % 10, 10);
        let t = decimal_text(n);
        assert(t.drop_last() =~= decimal_text(n / 10));
        assert(t.last() == digit_char(n % 10));
        assert(numeral_value(t, 10) == numeral_value(decimal_text(n / 10), 10) * 10 + digit_value(t.last()));
        assert((n / 10) * 10 + n % 10 == n) by (nonlinear_arith);
        assert forall|i: int| 0 <= i < t.len() implies is_digit_of(#[trigger] t[i], 10) by {
            if i < t.len() - 1 {
                assert(t[i] == decimal_text(n / 10)[i]);
            }
        }
    }
}

/// A negative integer is written as `-` and the numeral of its magnitude;
/// any other as its numeral.
pub proof fn lemma_signed_decimal_text(n: int)
    ensures
        n < 0 ==> signed_decimal_text(n)[0] == '-' && signed_decimal_text(n).drop_first() == decimal_text((-n) as nat),
        n >= 0 ==> signed_decimal_text(n) == decimal_text(n as nat),
{
    if n < 0 {
        assert(signed_decimal_text(n).drop_first() =~= decimal_text((-n) as nat));
    }
}

/// The padded hexadecimal numeral of `n` is a string of lowercase
/// hexadecimal digits that writes `n`, at least `width` long and at least
/// one long, and with no leading zero beyond what the padding asks.
pub proof fn lemma_hex_padded_value(n: nat, width: nat)
    ensures
        hex_padded(n, width).len() >= width,
        hex_padded(n, width).len() >= 1,
        numeral_value(hex_padded(n, width), 16) == n,
        forall|i: int| 0 <= i < hex_padded(n, width).len() ==> is_digit_of(#[trigger] hex_padded(n, width)[i], 16),
        hex_padded(n, width).len() > width && hex_padded(n, width).len() > 1 ==> hex_padded(n, width)[0] != '0',
        hex_padded(n, width).len() == 1 ==> n < 16 && hex_padded(n, width) == seq![digit_char(n)],
    decreases n + width,
{
    if n < 16 && width <= 1 {
        lemma_digit_char(n, 16);
        assert(hex_padded(n, width).drop_last() =~= Seq::<char>::empty());
        assert(numeral_value(hex_padded(n, width), 16) == numeral_value(Seq::<char>::empty(), 16) * 16 + digit_value(digit_char(n)));
    } else {
        let w2: nat = if width > 0 { (width - 1) as nat } else { 0 };
        lemma_hex_padded_value(n / 16, w2);
        lemma_digit_char(n % 16, 16);
        let inner = hex_padded(n / 16, w2);
        let t = hex_padded(n, width);
        assert(t.drop_last() =~= inner);
        assert(t[0] == inner[0]);
        assert(t.last() == digit_char(n % 16));
        assert(numeral_value(t, 16) == numeral_value(inner, 16) * 16 + digit_value(t.last()));
        assert((n / 16) * 16 + n % 16 == n) by (nonlinear_arith);
        assert forall|i: int| 0 <= i < t.len() implies is_digit_of(#[trigger] t[i], 16) by {
            if i < t.len() - 1 {
                assert(t[i] == inner[i]);
            }
        }
        if t.len() > width && inner.len() == 1 {
            lemma_digit_char(n / 16, 16);
        }
    }
}

/// Appends the decimal numeral of `n`.
pub fn push_decimal(out: &mut String, n: u128)
    ensures
        final(out)@ == old(out)@ + decimal_text(n as nat),
    decreases n,
{
    if n >= 10 {
        push_decimal(out, n / 10);
    }
    push_char(out, digit((n % 10) as u8));
    assert(final(out)@ =~= old(out)@ + decimal_text(n as nat));
}

/// Appends the decimal numeral of a signed integer.
pub fn push_signed_decimal(out: &mut String, n: i64)
    ensures
        final(out)@ == old(out)@ + signed_decimal_text(n as int),
{
    if n < 0 {
        push_char(out, '-');
        let m: u128 = (0i128 - (n as i128)) as u128;
        push_decimal(out, m);
        assert(final(out)@ =~= old(out)@ + signed_decimal_text(n as int));
    } else {
        push_decimal(out, n as u128);
    }
}

/// Appends the lowercase hexadecimal digits of `n`, padded with zeros to at
/// least `width` digits.
pub fn push_hex_padded(out: &mut String, n: u128, width: u32)
    ensures
        final(out)@ == old(out)@ + hex_padded(n as nat, width as nat),
    decreases n + width,
{
    if !(n < 16 && width <= 1) {
        let w: u32 = if width > 0 { width - 1 } else { 0 };
        push_hex_padded(out, n / 16, w);
    }
    push_char(out, digit((n % 16) as u8));
    assert(final(out)@ =~= old(out)@ + hex_padded(n as nat, width as nat));
}

/// What `serde_json` writes for a JSON object that maps each key of
/// `entries` to its string value (a later entry for the same key replaces an
/// earlier one).
pub uninterp spec fn json_object_text(entries: Seq<(Seq<char>, Seq<char>)>) -> Seq<char>;

/// The characters of each key and value of `entries`.
pub open spec fn entry_texts(entries: Seq<(String, String)>) -> Seq<(Seq<char>, Seq<char>)> {
    entries.map_values(|e: (String, String)| (e.0@, e.1@))
}

/// `serde_json::Value::to_string` on an object built from `entries`, each
/// value a JSON string.  The result is named; the serialization (key order,
/// escaping) is not restated.  The entries are collected into a
/// `serde_json::Map`, which keeps for a key given more than once the value
/// of its last entry, in a place that the later entries do not change: so
/// the text is the same where an earlier entry for a key already holds the
/// value of a later one.
#[verifier::external_body]
pub(crate) fn json_object_string(entries: Vec<(String, String)>) -> (r: String)
    ensures
        r@ == json_object_text(entry_texts(entries@)),
        forall|i: int, j: int|
            0 <= i < j < entries@.len() && #[trigger] entries@[i].0@ == #[trigger] entries@[j].0@
            ==> r@ == json_object_text(entry_texts(entries@).update(i, entry_texts(entries@)[j])),
{
    let map: serde_json::Map<String, serde_json::Value> =
        entries.into_iter().map(|(k, v)| (k, serde_json::Value::from(v))).collect();
    serde_json::Value::Object(map).to_string()
}

/// Whether two strings hold the same characters (compared by their UTF-8
/// bytes).
pub fn str_eq(a: &str, b: &str) -> (r: bool)
    ensures
        r == (a@ == b@),
{
    let x = a.as_bytes();
    let y = b.as_bytes();
    proof {
        encode_utf8_decode_utf8(a@);
        encode_utf8_decode_utf8(b@);
    }
    if x.len() != y.len() {
        return false;
    }
    let n = x.len();
    let mut i: usize = 0;
    while i < n
        invariant
            i <= n,
            n == x@.len(),
            n == y@.len(),
            x@ == encode_utf8(a@),
            y@ == encode_utf8(b@),
            forall|k: int| 0 <= k < i ==> x@[k] == y@[k],
        decreases n - i,
    {
        if x[i] != y[i] {
            return false;
        }
        i = i + 1;
    }
    assert(x@ =~= y@);
    true
}

} // verus!
