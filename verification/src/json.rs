//! Byte-exact encoding and decoding of the two JSON wire records: the queue
//! event `{"request_key":"<key>"}` and the stored counter
//! `{"request_count":<n>}`.
//!
//! The encoders produce the canonical serialization: no whitespace, the count
//! in plain decimal, the key carried raw. The decoders accept exactly that
//! canonical form and report everything else as malformed. A key containing a
//! quote or backslash byte has no canonical form here (it would need an
//! escape); no key this library produces contains one, and the decoder
//! rejects any payload whose key section would.

use vstd::prelude::*;
use crate::bytes::bytes_eq;
use crate::bytes::starts_with;

verus! {

/// The decimal digit bytes of `n`, most significant first.
pub open spec fn digits_of(n: nat) -> Seq<u8>
    decreases n,
{
    if n < 10 {
        seq![(48 + n) as u8]
    } else {
        digits_of(n / 10).push((48 + n % 10) as u8)
    }
}

/// The value of one decimal digit byte.
pub open spec fn digit_val(b: u8) -> nat {
    if b >= 48 {
        (b - 48) as nat
    } else {
        0
    }
}

/// The number that a sequence of decimal digit bytes denotes.
pub open spec fn val_of(d: Seq<u8>) -> nat
    decreases d.len(),
{
    if d.len() == 0 {
        0
    } else {
        val_of(d.drop_last()) * 10 + digit_val(d.last())
    }
}

/// The bytes of `{"request_count":`.
pub open spec fn count_prefix_spec() -> Seq<u8> {
    seq![123u8, 34, 114, 101, 113, 117, 101, 115, 116, 95, 99, 111, 117, 110, 116, 34, 58]
}

/// The canonical serialization of a stored counter record.
pub open spec fn count_payload(n: u64) -> Seq<u8> {
    count_prefix_spec() + digits_of(n as nat) + seq![125u8]
}

/// The bytes of `{"request_key":"`.
pub open spec fn event_prefix_spec() -> Seq<u8> {
    seq![123u8, 34, 114, 101, 113, 117, 101, 115, 116, 95, 107, 101, 121, 34, 58, 34]
}

/// The bytes of `"}`.
pub open spec fn event_suffix_spec() -> Seq<u8> {
    seq![34u8, 125]
}

/// The canonical serialization of a queue event record carrying `k`.
pub open spec fn event_payload(k: Seq<u8>) -> Seq<u8> {
    event_prefix_spec() + k + event_suffix_spec()
}

/// A key that needs no escaping: free of quote and backslash bytes.
pub open spec fn plain_key(k: Seq<u8>) -> bool {
    forall|i: int| 0 <= i < k.len() ==> k[i] != 34 && k[i] != 92
}

/// What a counter payload denotes: `Some(n)` exactly when `v` is the
/// canonical serialization of `n`.
pub open spec fn spec_parse_count(v: Seq<u8>) -> Option<u64> {
    if exists|n: u64| v == count_payload(n) {
        Some(choose|n: u64| v == count_payload(n))
    } else {
        None
    }
}

/// What an event payload denotes: `Some(k)` exactly when `v` is the
/// canonical serialization of an event with plain key `k`.
pub open spec fn spec_parse_event(v: Seq<u8>) -> Option<Seq<u8>> {
    if exists|k: Seq<u8>| plain_key(k) && v == event_payload(k) {
        Some(choose|k: Seq<u8>| plain_key(k) && v == event_payload(k))
    } else {
        None
    }
}

pub proof fn lemma_digits_bounds(n: nat)
    ensures
        digits_of(n).len() >= 1,
        forall|i: int| 0 <= i < digits_of(n).len() ==> 48 <= #[trigger] digits_of(n)[i] <= 57,
    decreases n,
{
    if n >= 10 {
        lemma_digits_bounds(n / 10);
    }
}

/// Reading back the digits of `n` gives `n`.
pub proof fn lemma_val_digits(n: nat)
    ensures
        val_of(digits_of(n)) == n,
    decreases n,
{
    if n < 10 {
        assert(digits_of(n).drop_last() =~= Seq::<u8>::empty());
        assert(digits_of(n).last() == (48 + n) as u8);
        assert(digit_val((48 + n) as u8) == n);
        assert(val_of(digits_of(n)) == val_of(Seq::<u8>::empty()) * 10 + digit_val((48 + n) as u8));
    } else {
        lemma_val_digits(n / 10);
        assert(digits_of(n).drop_last() =~= digits_of(n / 10));
        assert(digits_of(n).last() == (48 + n % 10) as u8);
        assert(digit_val((48 + n % 10) as u8) == n % 10);
        assert(val_of(digits_of(n)) == (n / 10) * 10 + n % 10);
        assert(n == (n / 10) * 10 + n % 10) by (nonlinear_arith);
    }
}

/// A prefix of a digit string denotes no more than the whole.
pub proof fn lemma_val_prefix(d: Seq<u8>, i: int)
    requires
        0 <= i <= d.len(),
    ensures
        val_of(d.take(i)) <= val_of(d),
    decreases d.len(),
{
    if i == d.len() {
        assert(d.take(i) =~= d);
    } else {
        assert(d.take(i) =~= d.drop_last().take(i));
        lemma_val_prefix(d.drop_last(), i);
    }
}

/// Two numbers with the same counter payload are the same number.
pub proof fn lemma_count_payload_injective(a: u64, b: u64)
    ensures
        count_payload(a) == count_payload(b) ==> a == b,
{
    if count_payload(a) == count_payload(b) {
        let da = digits_of(a as nat);
        let db = digits_of(b as nat);
        assert(count_payload(a).len() == 18 + da.len());
        assert(count_payload(b).len() == 18 + db.len());
        assert forall|i: int| 0 <= i < da.len() implies da[i] == db[i] by {
            assert(count_payload(a)[17 + i] == da[i]);
            assert(count_payload(b)[17 + i] == db[i]);
        }
        assert(da =~= db);
        lemma_val_digits(a as nat);
        lemma_val_digits(b as nat);
    }
}

/// Two keys with the same event payload are the same key.
pub proof fn lemma_event_payload_injective(k1: Seq<u8>, k2: Seq<u8>)
    ensures
        event_payload(k1) == event_payload(k2) ==> k1 == k2,
{
    if event_payload(k1) == event_payload(k2) {
        assert(event_payload(k1).len() == 18 + k1.len());
        assert(event_payload(k2).len() == 18 + k2.len());
        assert forall|i: int| 0 <= i < k1.len() implies k1[i] == k2[i] by {
            assert(event_payload(k1)[16 + i] == k1[i]);
            assert(event_payload(k2)[16 + i] == k2[i]);
        }
        assert(k1 =~= k2);
    }
}

/// Decoding what was encoded gives the count back.
pub proof fn lemma_count_round_trip(n: u64)
    ensures
        spec_parse_count(count_payload(n)) == Some(n),
{
    let v = count_payload(n);
    assert(exists|m: u64| v == count_payload(m));
    let m = choose|m: u64| v == count_payload(m);
    lemma_count_payload_injective(m, n);
}

/// Decoding what was encoded gives the key back, for every plain key.
pub proof fn lemma_event_round_trip(k: Seq<u8>)
    requires
        plain_key(k),
    ensures
        spec_parse_event(event_payload(k)) == Some(k),
{
    let v = event_payload(k);
    assert(exists|k2: Seq<u8>| plain_key(k2) && v == event_payload(k2));
    let k2 = choose|k2: Seq<u8>| plain_key(k2) && v == event_payload(k2);
    lemma_event_payload_injective(k2, k);
}

fn count_prefix() -> (r: Vec<u8>)
    ensures
        r@ == count_prefix_spec(),
{
    let v: Vec<u8> = vec![123u8, 34, 114, 101, 113, 117, 101, 115, 116, 95, 99, 111, 117, 110, 116, 34, 58];
    proof {
        assert(v@ =~= count_prefix_spec());
    }
    v
}

fn event_prefix() -> (r: Vec<u8>)
    ensures
        r@ == event_prefix_spec(),
{
    let v: Vec<u8> = vec![123u8, 34, 114, 101, 113, 117, 101, 115, 116, 95, 107, 101, 121, 34, 58, 34];
    proof {
        assert(v@ =~= event_prefix_spec());
    }
    v
}

fn push_digits(n: u64, out: &mut Vec<u8>)
    ensures
        final(out)@ == old(out)@ + digits_of(n as nat),
    decreases n,
{
    if n < 10 {
        out.push(48 + n as u8);
        proof {
            assert(out@ =~= old(out)@ + digits_of(n as nat));
        }
    } else {
        push_digits(n / 10, out);
        out.push(48 + (n % 10) as u8);
        proof {
            assert(out@ =~= old(out)@ + digits_of(n as nat));
        }
    }
}

/// The canonical bytes of the stored counter record for `n`.
pub fn encode_request_count(n: u64) -> (r: Vec<u8>)
    ensures
        r@ == count_payload(n),
{
    let mut v = count_prefix();
    push_digits(n, &mut v);
    v.push(125);
    proof {
        assert(v@ =~= count_payload(n));
    }
    v
}

/// The canonical bytes of the queue event record carrying `key`.
pub fn encode_request_event(key: &Vec<u8>) -> (r: Vec<u8>)
    ensures
        r@ == event_payload(key@),
{
    let mut v = event_prefix();
    let mut i: usize = 0;
    while i < key.len()
        invariant
            i <= key.len(),
            v@ == event_prefix_spec() + key@.take(i as int),
        decreases key.len() - i,
    {
        v.push(key[i]);
        i = i + 1;
        proof {
            assert(v@ =~= event_prefix_spec() + key@.take(i as int));
        }
    }
    v.push(34);
    v.push(125);
    proof {
        assert(key@.take(key@.len() as int) =~= key@);
        assert(v@ =~= event_payload(key@));
    }
    v
}

/// Decodes a stored counter record; `None` means malformed.
pub fn decode_request_count(v: &Vec<u8>) -> (r: Option<u64>)
    ensures
        r == spec_parse_count(v@),
{
    let pfx = count_prefix();
    if v.len() < 19 {
        proof {
            assert forall|n: u64| v@ != count_payload(n) by {
                lemma_digits_bounds(n as nat);
            }
        }
        return None;
    }
    if !starts_with(v, &pfx) {
        proof {
            assert forall|n: u64| v@ != count_payload(n) by {
                if v@ == count_payload(n) {
                    assert(v@.subrange(0, 17) =~= count_prefix_spec());
                }
            }
        }
        return None;
    }
    if v[v.len() - 1] != 125 {
        proof {
            assert forall|n: u64| v@ != count_payload(n) by {
                if v@ == count_payload(n) {
                    lemma_digits_bounds(n as nat);
                    assert(v@[v@.len() - 1] == 125);
                }
            }
        }
        return None;
    }
    let end = v.len() - 1;
    let mut acc: u64 = 0;
    let mut i: usize = 17;
    while i < end
        invariant
            17 <= i <= end,
            end == v@.len() - 1,
            v@.len() >= 19,
            forall|j: int| 17 <= j < i ==> 48 <= #[trigger] v@[j] <= 57,
            acc == val_of(v@.subrange(17, i as int)),
        decreases end - i,
    {
        let b = v[i];
        if b < 48 || b > 57 {
            proof {
                assert forall|n: u64| v@ != count_payload(n) by {
                    if v@ == count_payload(n) {
                        lemma_digits_bounds(n as nat);
                        assert(v@[i as int] == digits_of(n as nat)[i - 17]);
                    }
                }
            }
            return None;
        }
        let d = (b - 48) as u64;
        if acc > (u64::MAX - d) / 10 {
            proof {
                assert forall|n: u64| v@ != count_payload(n) by {
                    if v@ == count_payload(n) {
                        let digits = digits_of(n as nat);
                        lemma_digits_bounds(n as nat);
                        assert(v@.subrange(17, i + 1) =~= digits.take(i + 1 - 17));
                        assert(v@.subrange(17, i as int) =~= digits.take(i - 17));
                        assert(digits.take(i + 1 - 17).drop_last() =~= digits.take(i - 17));
                        assert(val_of(digits.take(i + 1 - 17)) == acc * 10 + d);
                        lemma_val_prefix(digits, i + 1 - 17);
                        lemma_val_digits(n as nat);
                        assert(acc * 10 + d <= n);
                        let q = (u64::MAX - d) / 10;
                        vstd::arithmetic::div_mod::lemma_fundamental_div_mod(
                            (u64::MAX - d) as int,
                            10,
                        );
                        vstd::arithmetic::div_mod::lemma_mod_bound((u64::MAX - d) as int, 10);
                        assert(acc >= q + 1);
                        assert(acc * 10 >= (q + 1) * 10);
                        assert(acc * 10 + d > u64::MAX);
                    }
                }
            }
            return None;
        }
        proof {
            vstd::arithmetic::div_mod::lemma_fundamental_div_mod((u64::MAX - d) as int, 10);
            vstd::arithmetic::div_mod::lemma_mod_bound((u64::MAX - d) as int, 10);
            assert(acc * 10 + d <= u64::MAX);
            assert(v@.subrange(17, i + 1).drop_last() =~= v@.subrange(17, i as int));
        }
        acc = acc * 10 + d;
        i = i + 1;
    }
    let enc = encode_request_count(acc);
    if bytes_eq(&enc, v) {
        proof {
            lemma_count_round_trip(acc);
        }
        Some(acc)
    } else {
        proof {
            assert forall|n: u64| v@ != count_payload(n) by {
                if v@ == count_payload(n) {
                    let digits = digits_of(n as nat);
                    assert(v@.subrange(17, end as int) =~= digits);
                    lemma_val_digits(n as nat);
                    assert(acc == n);
                }
            }
        }
        None
    }
}

/// Decodes a queue event record; `None` means malformed.
pub fn decode_request_event(v: &Vec<u8>) -> (r: Option<Vec<u8>>)
    ensures
        r matches Some(k) ==> spec_parse_event(v@) == Some(k@),
        r is None ==> spec_parse_event(v@) is None,
{
    let pfx = event_prefix();
    if !starts_with(v, &pfx) {
        proof {
            assert forall|k: Seq<u8>| !(plain_key(k) && v@ == event_payload(k)) by {
                if v@ == event_payload(k) {
                    assert(v@.subrange(0, 16) =~= event_prefix_spec());
                }
            }
        }
        return None;
    }
    let mut key: Vec<u8> = Vec::new();
    let mut i: usize = 16;
    while i < v.len() && v[i] != 34
        invariant
            16 <= i <= v@.len(),
            v@.len() >= 16,
            key@ == v@.subrange(16, i as int),
            forall|j: int| 16 <= j < i ==> v@[j] != 34,
            forall|j: int| 0 <= j < key@.len() ==> key@[j] != 34 && key@[j] != 92,
        decreases v.len() - i,
    {
        let b = v[i];
        if b == 92 {
            proof {
                assert forall|k: Seq<u8>| !(plain_key(k) && v@ == event_payload(k)) by {
                    if plain_key(k) && v@ == event_payload(k) {
                        // the first quote past the prefix sits right after the key
                        assert(v@[16 + k.len() as int] == 34);
                        if i < 16 + k.len() {
                            assert(v@[i as int] == k[i - 16]);
                        }
                    }
                }
            }
            return None;
        }
        key.push(b);
        i = i + 1;
        proof {
            assert(key@ =~= v@.subrange(16, i as int));
        }
    }
    if i == v.len() {
        proof {
            assert forall|k: Seq<u8>| !(plain_key(k) && v@ == event_payload(k)) by {
                if plain_key(k) && v@ == event_payload(k) {
                    assert(v@[16 + k.len() as int] == 34);
                }
            }
        }
        return None;
    }
    let enc = encode_request_event(&key);
    if bytes_eq(&enc, v) {
        proof {
            lemma_event_round_trip(key@);
        }
        Some(key)
    } else {
        proof {
            assert forall|k: Seq<u8>| !(plain_key(k) && v@ == event_payload(k)) by {
                if plain_key(k) && v@ == event_payload(k) {
                    assert(v@[16 + k.len() as int] == 34);
                    if i < 16 + k.len() {
                        assert(v@[i as int] == k[i - 16]);
                        assert(false);
                    }
                    if i > 16 + k.len() {
                        assert(v@[16 + k.len() as int] != 34);
                        assert(false);
                    }
                    assert(key@ =~= k);
                }
            }
        }
        None
    }
}

} // verus!
