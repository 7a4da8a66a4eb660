//! Helpers on text: characters, separators, numbers, and the Base64 form of
//! bytes.

use vstd::prelude::*;
use vstd::string::StringExecFns;

verus! {

/// The Base64 text for `data` (standard alphabet, padded), as the `base64`
/// crate writes it.
pub uninterp spec fn base64_text(data: Seq<u8>) -> Seq<char>;

/// Calls `base64::encode`. Trusted: the result is a function of the bytes,
/// named `base64_text`.
#[verifier::external_body]
fn base64_encode(data: &[u8]) -> (s: String)
    ensures
        s@ == base64_text(data@),
{
    base64::encode(data)
}

/// `name`, an equals sign, and the Base64 text of `data` between double
/// quotes.
pub open spec fn quoted_base64(name: Seq<char>, data: Seq<u8>) -> Seq<char> {
    name + "=\""@ + base64_text(data) + "\""@
}

/// The text `name="…"` with the Base64 form of `data` between the quotes.
pub fn quote_base64(name: &str, data: &[u8]) -> (s: String)
    ensures
        s@ == quoted_base64(name@, data@),
{
    let mut s = name.to_owned();
    s.append("=\"");
    let encoded = base64_encode(data);
    s.append(encoded.as_str());
    s.append("\"");
    s
}

/// The characters of `s`.
pub fn chars_of(s: &str) -> (out: Vec<char>)
    ensures
        out@ == s@,
{
    let mut out: Vec<char> = Vec::new();
    for c in it: s.chars()
        invariant
            it.seq() == s@,
            out@ == s@.take(it.index() as int),
    {
        out.push(c);
        assert(s@.take(it.index() + 1) =~= s@.take(it.index() as int).push(c));
    }
    assert(s@.take(s@.len() as int) =~= s@);
    out
}

/// Whether `k` is the place of the first `c` in `s`, or the length of `s`
/// where `s` holds no `c`.
pub open spec fn is_first_at(s: Seq<char>, c: char, k: int) -> bool {
    &&& 0 <= k <= s.len()
    &&& k < s.len() ==> s[k] == c
    &&& forall|j: int| 0 <= j < k ==> s[j] != c
}

/// The place of the first `c` in `s`, or the length of `s` where `s` holds
/// no `c`.
pub open spec fn first_at(s: Seq<char>, c: char) -> int {
    choose|k: int| is_first_at(s, c, k)
}

/// There is one such place, and no other.
pub proof fn lemma_first_at(s: Seq<char>, c: char, k: int)
    requires
        is_first_at(s, c, k),
    ensures
        first_at(s, c) == k,
{
    let m = first_at(s, c);
    assert(is_first_at(s, c, m));
    if m < k {
        assert(s[m] == c);
    } else if k < m {
        assert(s[k] == c);
    }
}

/// The pieces of `s` between the occurrences of `sep`, in order. A text
/// without `sep` is one piece, and so is the empty text.
pub open spec fn split(s: Seq<char>, sep: char) -> Seq<Seq<char>>
    decreases s.len(),
{
    let k = first_at(s, sep);
    if 0 <= k < s.len() {
        seq![s.take(k)] + split(s.skip(k + 1), sep)
    } else {
        seq![s]
    }
}

/// The texts of a list, each as its characters.
pub open spec fn texts_of(list: Seq<Vec<char>>) -> Seq<Seq<char>> {
    Seq::new(list.len(), |i: int| list[i]@)
}

/// The pieces of `s` between the occurrences of `sep`.
pub fn split_chars(s: &Vec<char>, sep: char) -> (parts: Vec<Vec<char>>)
    ensures
        texts_of(parts@) == split(s@, sep),
{
    let mut parts: Vec<Vec<char>> = Vec::new();
    let mut piece: Vec<char> = Vec::new();
    let ghost mut start: int = 0;
    let mut i: usize = 0;
    assert(s@.skip(0) =~= s@);
    assert(texts_of(parts@) + split(s@.skip(0), sep) =~= split(s@, sep));
    while i < s.len()
        invariant
            0 <= start <= i <= s.len(),
            piece@ == s@.subrange(start, i as int),
            forall|j: int| start <= j < i ==> s@[j] != sep,
            split(s@, sep) == texts_of(parts@) + split(s@.skip(start), sep),
        decreases s.len() - i,
    {
        let c = s[i];
        if c == sep {
            proof {
                let rest = s@.skip(start);
                let k = i - start;
                assert(is_first_at(rest, sep, k));
                lemma_first_at(rest, sep, k);
                assert(rest.take(k) =~= piece@);
                assert(rest.skip(k + 1) =~= s@.skip(i + 1));
                assert(split(rest, sep) == seq![piece@] + split(s@.skip(i + 1), sep));
                assert(texts_of(parts@.push(piece)) =~= texts_of(parts@) + seq![piece@]);
                assert(texts_of(parts@) + (seq![piece@] + split(s@.skip(i + 1), sep)) =~= (
                texts_of(parts@) + seq![piece@]) + split(s@.skip(i + 1), sep));
                start = i + 1;
            }
            parts.push(piece);
            piece = Vec::new();
            assert(piece@ =~= s@.subrange(start, i + 1));
        } else {
            piece.push(c);
            assert(piece@ =~= s@.subrange(start, i + 1));
        }
        i += 1;
    }
    proof {
        let rest = s@.skip(start);
        assert(is_first_at(rest, sep, rest.len() as int));
        lemma_first_at(rest, sep, rest.len() as int);
        assert(rest =~= piece@);
        assert(texts_of(parts@.push(piece)) =~= texts_of(parts@) + seq![piece@]);
    }
    parts.push(piece);
    parts
}

/// Whether `c` is one of `0` to `9`.
pub open spec fn is_digit(c: char) -> bool {
    48 <= c as u32 <= 57
}

/// The number that the decimal digits `digits` write.
pub open spec fn number_of(digits: Seq<char>) -> nat
    decreases digits.len(),
{
    if digits.len() == 0 {
        0
    } else {
        number_of(digits.drop_last()) * 10 + (digits.last() as u32 - 48) as nat
    }
}

/// Whether `s` holds nothing but decimal digits.
pub open spec fn all_digits(s: Seq<char>) -> bool {
    forall|i: int| 0 <= i < s.len() ==> is_digit(#[trigger] s[i])
}

/// `s` without the plus sign it may start with.
pub open spec fn unsigned_part(s: Seq<char>) -> Seq<char> {
    if s.len() > 0 && s[0] == '+' {
        s.skip(1)
    } else {
        s
    }
}

/// The number that `s` writes, as `u32`'s `FromStr` reads it: an optional
/// plus sign, then one or more decimal digits, the whole no larger than
/// `u32::MAX`. Anything else writes no number.
pub open spec fn parse_u32_of(s: Seq<char>) -> Option<u32> {
    let digits = unsigned_part(s);
    if digits.len() > 0 && all_digits(digits) && number_of(digits) <= u32::MAX {
        Some(number_of(digits) as u32)
    } else {
        None
    }
}

/// More digits never write a smaller number.
proof fn lemma_number_grows(digits: Seq<char>, k: int)
    requires
        0 <= k <= digits.len(),
        all_digits(digits),
    ensures
        number_of(digits.take(k)) <= number_of(digits),
    decreases digits.len() - k,
{
    if k < digits.len() {
        lemma_number_grows(digits, k + 1);
        assert(digits.take(k + 1).drop_last() =~= digits.take(k));
        assert(digits.take(k + 1).last() == digits[k]);
        assert(is_digit(digits[k]));
    } else {
        assert(digits.take(k) =~= digits);
    }
}

/// The number that `s` writes, if it writes one.
pub fn parse_u32(s: &Vec<char>) -> (r: Option<u32>)
    ensures
        r == parse_u32_of(s@),
{
    let start: usize = if s.len() > 0 && s[0] == '+' {
        1
    } else {
        0
    };
    let ghost digits = unsigned_part(s@);
    assert(digits =~= s@.skip(start as int));
    if start == s.len() {
        return None;
    }
    let mut value: u64 = 0;
    let mut i: usize = start;
    assert(digits.take(0) =~= Seq::<char>::empty());
    while i < s.len()
        invariant
            start <= i <= s.len(),
            digits == s@.skip(start as int),
            digits == unsigned_part(s@),
            all_digits(digits.take(i - start)),
            value == number_of(digits.take(i - start)),
            value <= u32::MAX,
            digits.len() == s.len() - start,
        decreases s.len() - i,
    {
        let code: u32 = s[i] as u32;
        if code < 48 || code > 57 {
            assert(digits[i - start] == s@[i as int]);
            assert(!is_digit(digits[i - start]));
            return None;
        }
        proof {
            let upto = digits.take(i - start + 1);
            assert(upto.drop_last() =~= digits.take(i - start));
            assert(upto.last() == s@[i as int]);
            assert forall|j: int| 0 <= j < upto.len() implies is_digit(#[trigger] upto[j]) by {
                if j < i - start {
                    assert(digits.take(i - start)[j] == upto[j]);
                }
            }
        }
        value = value * 10 + (code - 48) as u64;
        assert(value == number_of(digits.take(i - start + 1)));
        if value > 0xffff_ffff {
            proof {
                if all_digits(digits) {
                    lemma_number_grows(digits, i - start + 1);
                }
            }
            return None;
        }
        i += 1;
    }
    assert(digits.take(i - start) =~= digits);
    Some(value as u32)
}

/// Whether `s` starts with `prefix`.
pub fn starts_with(s: &Vec<char>, prefix: &Vec<char>) -> (r: bool)
    ensures
        r == prefix@.is_prefix_of(s@),
{
    if prefix.len() > s.len() {
        return false;
    }
    let mut i: usize = 0;
    while i < prefix.len()
        invariant
            i <= prefix.len() <= s.len(),
            forall|j: int| 0 <= j < i ==> prefix@[j] == s@[j],
        decreases prefix.len() - i,
    {
        if prefix[i] != s[i] {
            assert(s@.subrange(0, prefix@.len() as int)[i as int] != prefix@[i as int]);
            return false;
        }
        i += 1;
    }
    assert(prefix@ =~= s@.subrange(0, prefix@.len() as int));
    true
}

} // verus!
