//! Names of backup files.

use vstd::prelude::*;
use vstd::string::StringExecFns;

use crate::region::Region;

verus! {

/// The digit `n` in the base of numbers up to sixteen, with lower case letters.
pub open spec fn lower_digit(n: int) -> char {
    if n < 10 {
        ('0' as int + n) as char
    } else {
        ('a' as int + (n - 10)) as char
    }
}

/// The digit `n` in the base of numbers up to sixteen, with upper case letters.
pub open spec fn upper_digit(n: int) -> char {
    if n < 10 {
        ('0' as int + n) as char
    } else {
        ('A' as int + (n - 10)) as char
    }
}

/// Two lower case hexadecimal digits for each byte.
pub open spec fn hex_lower(bytes: Seq<u8>) -> Seq<char>
    decreases bytes.len(),
{
    if bytes.len() == 0 {
        Seq::empty()
    } else {
        let b = bytes.last() as int;
        hex_lower(bytes.drop_last()).push(lower_digit(b / 16)).push(lower_digit(b % 16))
    }
}

/// Two upper case hexadecimal digits for each byte.
pub open spec fn hex_upper(bytes: Seq<u8>) -> Seq<char>
    decreases bytes.len(),
{
    if bytes.len() == 0 {
        Seq::empty()
    } else {
        let b = bytes.last() as int;
        hex_upper(bytes.drop_last()).push(upper_digit(b / 16)).push(upper_digit(b % 16))
    }
}

/// Calls `hex::encode`. Trusted: it writes each byte as two lower case hexadecimal
/// digits, the high one first.
#[verifier::external_body]
pub(crate) fn hex_encode(bytes: &[u8]) -> (text: String)
    ensures
        text@ == hex_lower(bytes@),
{
    hex::encode(bytes)
}

/// Calls `hex::encode_upper`. Trusted: it writes each byte as two upper case
/// hexadecimal digits, the high one first.
#[verifier::external_body]
pub(crate) fn hex_encode_upper(bytes: &[u8]) -> (text: String)
    ensures
        text@ == hex_upper(bytes@),
{
    hex::encode_upper(bytes)
}

/// A number in decimal digits, without leading zeros.
pub open spec fn decimal(n: nat) -> Seq<char>
    decreases n,
{
    if n < 10 {
        seq![lower_digit(n as int)]
    } else {
        decimal(n / 10).push(lower_digit((n % 10) as int))
    }
}

/// The text of a digit.
fn digit_text(n: u64) -> (text: &'static str)
    requires
        n < 10,
    ensures
        text@ == seq![lower_digit(n as int)],
{
    proof {
        reveal_strlit("0");
        reveal_strlit("1");
        reveal_strlit("2");
        reveal_strlit("3");
        reveal_strlit("4");
        reveal_strlit("5");
        reveal_strlit("6");
        reveal_strlit("7");
        reveal_strlit("8");
        reveal_strlit("9");
    }
    let text = match n {
        0 => "0",
        1 => "1",
        2 => "2",
        3 => "3",
        4 => "4",
        5 => "5",
        6 => "6",
        7 => "7",
        8 => "8",
        _ => "9",
    };
    assert(text@ =~= seq![lower_digit(n as int)]);
    text
}

/// Appends a number in decimal.
pub(crate) fn push_decimal(text: &mut String, n: u64)
    ensures
        final(text)@ == old(text)@ + decimal(n as nat),
    decreases n,
{
    if n >= 10 {
        push_decimal(text, n / 10);
    }
    text.append(digit_text(n % 10));
    assert(text@ =~= old(text)@ + decimal(n as nat));
}

/// The name of a backup file: the store, the region and the version of its epoch,
/// and the key if there is one, separated by underscores.
pub open spec fn file_name(
    store_id: u64,
    region_id: u64,
    version: u64,
    key: Option<Seq<char>>,
) -> Seq<char> {
    decimal(store_id as nat) + seq!['_'] + decimal(region_id as nat) + seq!['_'] + decimal(
        version as nat,
    ) + key_suffix(key)
}

/// The last part of a file name.
pub open spec fn key_suffix(key: Option<Seq<char>>) -> Seq<char> {
    match key {
        Some(k) => seq!['_'] + k,
        None => Seq::empty(),
    }
}

/// Construct a backup file name based on the given store id and region.
/// A name consists of the store id, the region id and the epoch version, and of the
/// digest of the start key as a fourth part if there is one.
pub fn backup_file_name(store_id: u64, region: &Region, key: Option<String>) -> (name: String)
    ensures
        name@ == file_name(
            store_id,
            region.id,
            region.region_epoch.version,
            match key {
                Some(k) => Some(k@),
                None => None,
            },
        ),
{
    proof {
        reveal_strlit("_");
        assert("_"@ =~= seq!['_']);
    }
    let mut name = String::new();
    push_decimal(&mut name, store_id);
    name.append("_");
    push_decimal(&mut name, region.id);
    name.append("_");
    push_decimal(&mut name, region.region_epoch.version);
    assert(name@ =~= file_name(store_id, region.id, region.region_epoch.version, None));
    if let Some(k) = &key {
        name.append("_");
        name.append(k.as_str());
        assert(name@ =~= file_name(
            store_id,
            region.id,
            region.region_epoch.version,
            Some(k@),
        ));
    }
    name
}

/// The key part of a file name: the digest of the start key, in hexadecimal.
pub fn digest_key(digest: Option<Vec<u8>>) -> (key: Option<String>)
    ensures
        key is Some <==> digest is Some,
        key matches Some(text) ==> text@ == hex_lower(digest.unwrap()@),
{
    match digest {
        Some(bytes) => Some(hex_encode(bytes.as_slice())),
        None => None,
    }
}

proof fn lemma_decimal_digits(n: nat)
    ensures
        decimal(n).len() > 0,
        n >= 10 ==> decimal(n).len() > 1,
        forall|i: int| 0 <= i < decimal(n).len() ==> #[trigger] decimal(n)[i] != '_',
    decreases n,
{
    if n >= 10 {
        lemma_decimal_digits(n / 10);
    }
}

/// Different numbers have different digits.
pub proof fn decimal_is_injective(a: nat, b: nat)
    requires
        decimal(a) == decimal(b),
    ensures
        a == b,
    decreases a,
{
    lemma_decimal_digits(a);
    lemma_decimal_digits(b);
    assert(forall|n: int| 0 <= n < 10 ==> #[trigger] lower_digit(n) as int == '0' as int + n);
    if a < 10 {
        assert(decimal(a) =~= seq![lower_digit(a as int)]);
        assert(b < 10);
        assert(decimal(b) =~= seq![lower_digit(b as int)]);
        assert(decimal(a)[0] == lower_digit(a as int));
        assert(decimal(b)[0] == lower_digit(b as int));
    } else {
        assert(decimal(a) =~= decimal(a / 10).push(lower_digit((a % 10) as int)));
        assert(b >= 10);
        assert(decimal(b) =~= decimal(b / 10).push(lower_digit((b % 10) as int)));
        assert(decimal(a).last() == lower_digit((a % 10) as int));
        assert(decimal(b).last() == lower_digit((b % 10) as int));
        assert(decimal(a).drop_last() =~= decimal(a / 10));
        assert(decimal(b).drop_last() =~= decimal(b / 10));
        decimal_is_injective(a / 10, b / 10);
    }
}

/// Whether a text is empty or begins with an underscore.
spec fn is_tail(s: Seq<char>) -> bool {
    s.len() > 0 ==> s[0] == '_'
}

/// A text without underscores can be told apart from what follows it.
proof fn lemma_split(a: Seq<char>, x: Seq<char>, b: Seq<char>, y: Seq<char>)
    requires
        a + x == b + y,
        is_tail(x),
        is_tail(y),
        forall|i: int| 0 <= i < a.len() ==> #[trigger] a[i] != '_',
        forall|i: int| 0 <= i < b.len() ==> #[trigger] b[i] != '_',
    ensures
        a == b,
        x == y,
{
    let s = a + x;
    assert(s.len() == a.len() + x.len());
    assert(s.len() == b.len() + y.len());
    if a.len() < b.len() {
        assert(s[a.len() as int] == x[0]);
        assert(s[a.len() as int] == b[a.len() as int]);
        assert(false);
    }
    if b.len() < a.len() {
        assert(s[b.len() as int] == a[b.len() as int]);
        assert((b + y)[b.len() as int] == y[0]);
        assert(false);
    }
    assert forall|i: int| 0 <= i < a.len() implies a[i] == b[i] by {
        assert(s[i] == a[i]);
        assert((b + y)[i] == b[i]);
    }
    assert(a =~= b);
    assert forall|i: int| 0 <= i < x.len() implies x[i] == y[i] by {
        assert(s[a.len() + i] == x[i]);
        assert((b + y)[b.len() + i] == y[i]);
    }
    assert(x =~= y);
}

/// A file name tells what it was made of: two names are the same only if store,
/// region, version and key are.
pub proof fn file_name_is_unique(
    store_a: u64,
    region_a: u64,
    version_a: u64,
    key_a: Option<Seq<char>>,
    store_b: u64,
    region_b: u64,
    version_b: u64,
    key_b: Option<Seq<char>>,
)
    requires
        file_name(store_a, region_a, version_a, key_a) == file_name(
            store_b,
            region_b,
            version_b,
            key_b,
        ),
    ensures
        store_a == store_b,
        region_a == region_b,
        version_a == version_b,
        key_a == key_b,
{
    lemma_decimal_digits(store_a as nat);
    lemma_decimal_digits(store_b as nat);
    lemma_decimal_digits(region_a as nat);
    lemma_decimal_digits(region_b as nat);
    lemma_decimal_digits(version_a as nat);
    lemma_decimal_digits(version_b as nat);
    lemma_parts_are_unique(
        decimal(store_a as nat),
        decimal(region_a as nat),
        decimal(version_a as nat),
        key_suffix(key_a),
        decimal(store_b as nat),
        decimal(region_b as nat),
        decimal(version_b as nat),
        key_suffix(key_b),
    );
    decimal_is_injective(store_a as nat, store_b as nat);
    decimal_is_injective(region_a as nat, region_b as nat);
    decimal_is_injective(version_a as nat, version_b as nat);
    if let (Some(k), Some(l)) = (key_a, key_b) {
        lemma_after_underscore(k, l);
    }
}

/// Whether a text holds no underscore.
spec fn is_plain(s: Seq<char>) -> bool {
    forall|i: int| 0 <= i < s.len() ==> #[trigger] s[i] != '_'
}

/// Three texts without underscores, joined by underscores, and an ending.
spec fn joined(a: Seq<char>, b: Seq<char>, c: Seq<char>, end: Seq<char>) -> Seq<char> {
    a + seq!['_'] + b + seq!['_'] + c + end
}

/// Joined texts can be read from the front.
proof fn lemma_joined(a: Seq<char>, b: Seq<char>, c: Seq<char>, end: Seq<char>)
    ensures
        joined(a, b, c, end) == a + (seq!['_'] + (b + (seq!['_'] + (c + end)))),
{
    assert(joined(a, b, c, end) =~= a + (seq!['_'] + (b + (seq!['_'] + (c + end)))));
}

/// Joined texts are the same only if their parts are.
proof fn lemma_parts_are_unique(
    a1: Seq<char>,
    a2: Seq<char>,
    a3: Seq<char>,
    a_end: Seq<char>,
    b1: Seq<char>,
    b2: Seq<char>,
    b3: Seq<char>,
    b_end: Seq<char>,
)
    requires
        joined(a1, a2, a3, a_end) == joined(b1, b2, b3, b_end),
        is_plain(a1) && is_plain(a2) && is_plain(a3),
        is_plain(b1) && is_plain(b2) && is_plain(b3),
        is_tail(a_end) && is_tail(b_end),
    ensures
        a1 == b1,
        a2 == b2,
        a3 == b3,
        a_end == b_end,
{
    lemma_joined(a1, a2, a3, a_end);
    lemma_joined(b1, b2, b3, b_end);
    let x = a3 + a_end;
    let y = b3 + b_end;
    let v = a2 + (seq!['_'] + x);
    let w = b2 + (seq!['_'] + y);
    lemma_split(a1, seq!['_'] + v, b1, seq!['_'] + w);
    lemma_after_underscore(v, w);
    lemma_split(a2, seq!['_'] + x, b2, seq!['_'] + y);
    lemma_after_underscore(x, y);
    lemma_split(a3, a_end, b3, b_end);
}

/// What follows an underscore is determined.
proof fn lemma_after_underscore(x: Seq<char>, y: Seq<char>)
    requires
        seq!['_'] + x == seq!['_'] + y,
    ensures
        x == y,
{
    assert((seq!['_'] + x).skip(1) =~= x);
    assert((seq!['_'] + y).skip(1) =~= y);
}

/// The number that decimal digits stand for.
pub open spec fn value_of(digits: Seq<char>) -> int
    decreases digits.len(),
{
    if digits.len() == 0 {
        0
    } else {
        value_of(digits.drop_last()) * 10 + (digits.last() as int - '0' as int)
    }
}

/// A number in decimal stands for that number. It has only digits, and the first one is no
/// zero unless the number is.
pub proof fn decimal_stands_for_its_number(n: nat)
    ensures
        value_of(decimal(n)) == n,
        decimal(n).len() > 0,
        forall|i: int| 0 <= i < decimal(n).len() ==> '0' <= #[trigger] decimal(n)[i] <= '9',
        n > 0 ==> decimal(n)[0] != '0',
    decreases n,
{
    assert(forall|d: int| 0 <= d < 10 ==> #[trigger] lower_digit(d) as int == '0' as int + d);
    if n < 10 {
        assert(decimal(n) =~= seq![lower_digit(n as int)]);
        assert(decimal(n).drop_last() =~= Seq::empty());
        assert(value_of(decimal(n).drop_last()) == 0);
        assert(decimal(n).last() == lower_digit(n as int));
    } else {
        decimal_stands_for_its_number(n / 10);
        let digit = lower_digit((n % 10) as int);
        assert(decimal(n) =~= decimal(n / 10).push(digit));
        assert(decimal(n).drop_last() =~= decimal(n / 10));
        assert(decimal(n).last() == digit);
    }
}

} // verus!
