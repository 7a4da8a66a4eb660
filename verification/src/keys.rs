//! The keys under which chunks and files are committed to the ledger.

use crate::bytes::append_bytes;
use vstd::prelude::*;
use vstd::utf8::encode_utf8;

verus! {

/// The bytes of `chunk:`.
pub open spec fn chunk_prefix() -> Seq<u8> {
    seq![0x63u8, 0x68u8, 0x75u8, 0x6eu8, 0x6bu8, 0x3au8]
}

/// The bytes of `file:`.
pub open spec fn file_prefix() -> Seq<u8> {
    seq![0x66u8, 0x69u8, 0x6cu8, 0x65u8, 0x3au8]
}

/// The decimal digits of `n` in ASCII, without leading zeros.
pub open spec fn decimal(n: nat) -> Seq<u8>
    decreases n,
{
    if n < 10 {
        seq![(48 + n) as u8]
    } else {
        decimal(n / 10).push((48 + n % 10) as u8)
    }
}

/// The ledger key of chunk `index` of the file `file_id`: `chunk:`, the
/// file id in UTF-8, a colon and the index in decimal.
pub open spec fn chunk_key_of(file_id: Seq<char>, index: u32) -> Seq<u8> {
    chunk_prefix() + encode_utf8(file_id) + seq![0x3au8] + decimal(index as nat)
}

/// The ledger key of the file `file_id`: `file:` and the file id in UTF-8.
pub open spec fn file_key_of(file_id: Seq<char>) -> Seq<u8> {
    file_prefix() + encode_utf8(file_id)
}

/// The decimal digits of `n`.
pub fn decimal_digits(n: u32) -> (out: Vec<u8>)
    ensures
        out@ == decimal(n as nat),
{
    let mut low_first: Vec<u8> = Vec::new();
    low_first.push(48 + (n % 10) as u8);
    let mut rest: u32 = n / 10;
    assert(low_first@.reverse() =~= seq![(48 + n % 10) as u8]);
    while rest > 0
        invariant
            low_first@.len() >= 1,
            decimal(n as nat) == (if rest > 0 {
                decimal(rest as nat)
            } else {
                Seq::<u8>::empty()
            }) + low_first@.reverse(),
        decreases rest,
    {
        let ghost before = low_first@;
        let digit: u8 = 48 + (rest % 10) as u8;
        low_first.push(digit);
        assert(low_first@.reverse() =~= seq![digit] + before.reverse());
        assert(decimal(rest as nat) == (if rest / 10 > 0 {
            decimal((rest / 10) as nat)
        } else {
            Seq::<u8>::empty()
        }) + seq![digit]);
        assert(decimal(n as nat) =~= (if rest / 10 > 0 {
            decimal((rest / 10) as nat)
        } else {
            Seq::<u8>::empty()
        }) + low_first@.reverse());
        rest = rest / 10;
    }
    let mut out: Vec<u8> = Vec::new();
    let mut left: usize = low_first.len();
    while left > 0
        invariant
            left <= low_first@.len(),
            out@ == low_first@.reverse().take(low_first@.len() - left),
        decreases left,
    {
        left -= 1;
        out.push(low_first[left]);
        assert(low_first@.reverse().take(low_first@.len() - left) =~= low_first@.reverse().take(
            low_first@.len() - left - 1,
        ).push(low_first@[left as int]));
    }
    assert(low_first@.reverse().take(low_first@.len() as int) =~= low_first@.reverse());
    assert(decimal(n as nat) =~= low_first@.reverse());
    out
}

/// The ledger key of chunk `idx` of the file `file_id`.
pub fn chunk_key(file_id: &str, idx: u32) -> (key: Vec<u8>)
    ensures
        key@ == chunk_key_of(file_id@, idx),
{
    let mut key: Vec<u8> = Vec::new();
    key.push(0x63);
    key.push(0x68);
    key.push(0x75);
    key.push(0x6e);
    key.push(0x6b);
    key.push(0x3a);
    assert(key@ =~= chunk_prefix());
    append_bytes(&mut key, file_id.as_bytes());
    key.push(0x3a);
    let digits = decimal_digits(idx);
    append_bytes(&mut key, digits.as_slice());
    assert(key@ =~= chunk_key_of(file_id@, idx));
    key
}

/// The ledger key of the file `file_id`.
pub fn file_key(file_id: &str) -> (key: Vec<u8>)
    ensures
        key@ == file_key_of(file_id@),
{
    let mut key: Vec<u8> = Vec::new();
    key.push(0x66);
    key.push(0x69);
    key.push(0x6c);
    key.push(0x65);
    key.push(0x3a);
    assert(key@ =~= file_prefix());
    append_bytes(&mut key, file_id.as_bytes());
    key
}

/// Decimal digits are digits, and there is at least one.
pub proof fn lemma_decimal_digits(n: nat)
    ensures
        decimal(n).len() >= 1,
        n >= 10 ==> decimal(n).len() >= 2,
        forall|k: int| 0 <= k < decimal(n).len() ==> 48 <= #[trigger] decimal(n)[k] <= 57,
    decreases n,
{
    if n >= 10 {
        lemma_decimal_digits(n / 10);
    }
}

/// Different numbers have different decimal digits.
pub proof fn lemma_decimal_injective(a: nat, b: nat)
    requires
        decimal(a) == decimal(b),
    ensures
        a == b,
    decreases a,
{
    lemma_decimal_digits(a);
    lemma_decimal_digits(b);
    if a < 10 {
        assert(decimal(a).len() == 1);
        assert(b < 10);
        assert(decimal(a)[0] == (48 + a) as u8);
        assert(decimal(b)[0] == (48 + b) as u8);
    } else {
        assert(b >= 10);
        let da = decimal(a / 10).push((48 + a % 10) as u8);
        let db = decimal(b / 10).push((48 + b % 10) as u8);
        assert(da.drop_last() =~= decimal(a / 10));
        assert(db.drop_last() =~= decimal(b / 10));
        assert(da.last() == db.last());
        assert(a % 10 == b % 10);
        lemma_decimal_injective(a / 10, b / 10);
        assert(a == 10 * (a / 10) + a % 10);
        assert(b == 10 * (b / 10) + b % 10);
    }
}

/// Different files have different ledger keys.
pub proof fn lemma_file_keys_distinct(a: Seq<char>, b: Seq<char>)
    requires
        a != b,
    ensures
        file_key_of(a) != file_key_of(b),
{
    if file_key_of(a) == file_key_of(b) {
        assert(file_key_of(a).skip(5) =~= encode_utf8(a));
        assert(file_key_of(b).skip(5) =~= encode_utf8(b));
        vstd::utf8::encode_utf8_decode_utf8(a);
        vstd::utf8::encode_utf8_decode_utf8(b);
    }
}

/// Different chunks have different ledger keys.
pub proof fn lemma_chunk_keys_distinct(a: Seq<char>, i: u32, b: Seq<char>, j: u32)
    requires
        a != b || i != j,
    ensures
        chunk_key_of(a, i) != chunk_key_of(b, j),
{
    if chunk_key_of(a, i) == chunk_key_of(b, j) {
        let ea = encode_utf8(a);
        let eb = encode_utf8(b);
        let da = decimal(i as nat);
        let db = decimal(j as nat);
        let x = ea + seq![0x3au8] + da;
        let y = eb + seq![0x3au8] + db;
        assert(chunk_key_of(a, i).skip(6) =~= x);
        assert(chunk_key_of(b, j).skip(6) =~= y);
        lemma_decimal_digits(i as nat);
        lemma_decimal_digits(j as nat);
        assert(x[ea.len() as int] == 0x3au8);
        assert(y[eb.len() as int] == 0x3au8);
        if ea.len() < eb.len() {
            assert(x[eb.len() as int] == da[eb.len() - ea.len() - 1]);
        } else if eb.len() < ea.len() {
            assert(y[ea.len() as int] == db[ea.len() - eb.len() - 1]);
        }
        assert(ea.len() == eb.len());
        assert(ea =~= x.take(ea.len() as int));
        assert(eb =~= y.take(eb.len() as int));
        assert(da =~= x.skip(ea.len() as int + 1));
        assert(db =~= y.skip(eb.len() as int + 1));
        lemma_decimal_injective(i as nat, j as nat);
        vstd::utf8::encode_utf8_decode_utf8(a);
        vstd::utf8::encode_utf8_decode_utf8(b);
    }
}

/// No chunk shares its ledger key with a file.
pub proof fn lemma_chunk_key_is_no_file_key(a: Seq<char>, i: u32, b: Seq<char>)
    ensures
        chunk_key_of(a, i) != file_key_of(b),
{
    assert(chunk_key_of(a, i)[0] == 0x63u8);
    assert(file_key_of(b)[0] == 0x66u8);
}

} // verus!
