use vstd::prelude::*;
use vstd::arithmetic::div_mod::lemma_fundamental_div_mod;

use crate::timestamp::Timestamp;

verus! {

/// The fixed key under which the cache record stores its one field:
/// the bytes of the text `timepoint: `.
pub open spec fn record_prefix() -> Seq<u8> {
    seq![116u8, 105u8, 109u8, 101u8, 112u8, 111u8, 105u8, 110u8, 116u8, 58u8, 32u8]
}

pub open spec fn is_digit(b: u8) -> bool {
    48 <= b && b <= 57
}

pub open spec fn all_digits(s: Seq<u8>) -> bool {
    forall|i: int| 0 <= i < s.len() ==> is_digit(#[trigger] s[i])
}

/// The decimal digit bytes of `n`, most significant first.
pub open spec fn dec_digits(n: nat) -> Seq<u8>
    decreases n,
{
    if n < 10 {
        seq![(48 + n) as u8]
    } else {
        dec_digits(n / 10).push((48 + n % 10) as u8)
    }
}

/// The value that a sequence of digit bytes denotes.
pub open spec fn dec_val(s: Seq<u8>) -> int
    decreases s.len(),
{
    if s.len() == 0 {
        0
    } else {
        dec_val(s.drop_last()) * 10 + (s.last() - 48)
    }
}

proof fn lemma_dec_digits(n: nat)
    ensures
        dec_digits(n).len() >= 1,
        all_digits(dec_digits(n)),
        dec_val(dec_digits(n)) == n,
    decreases n,
{
    if n < 10 {
        let s = dec_digits(n);
        assert(s.drop_last() =~= Seq::<u8>::empty());
        assert(dec_val(s) == dec_val(Seq::<u8>::empty()) * 10 + ((48 + n) as u8 - 48));
    } else {
        lemma_dec_digits(n / 10);
        let hi = dec_digits(n / 10);
        let d = (48 + n % 10) as u8;
        let s = dec_digits(n);
        assert(s == hi.push(d));
        assert(s.drop_last() =~= hi);
        assert(s.last() == d);
        lemma_fundamental_div_mod(n as int, 10);
        assert(dec_val(s) == dec_val(hi) * 10 + (d - 48));
        assert forall|i: int| 0 <= i < s.len() implies is_digit(#[trigger] s[i]) by {
            if i < hi.len() {
                assert(s[i] == hi[i]);
            }
        }
    }
}

proof fn lemma_dec_val_nonneg(s: Seq<u8>)
    requires
        all_digits(s),
    ensures
        dec_val(s) >= 0,
    decreases s.len(),
{
    if s.len() > 0 {
        assert forall|i: int| 0 <= i < s.drop_last().len() implies is_digit(
            #[trigger] s.drop_last()[i],
        ) by {
            assert(s.drop_last()[i] == s[i]);
        }
        lemma_dec_val_nonneg(s.drop_last());
        assert(is_digit(s.last()));
    }
}

/// Reading more digits never shrinks the denoted value.
proof fn lemma_dec_val_take(s: Seq<u8>, k: int)
    requires
        all_digits(s),
        0 <= k <= s.len(),
    ensures
        dec_val(s.take(k)) <= dec_val(s),
    decreases s.len() - k,
{
    if k < s.len() {
        let t = s.take(k + 1);
        assert(t.drop_last() =~= s.take(k));
        assert(t.last() == s[k]);
        assert forall|i: int| 0 <= i < s.take(k).len() implies is_digit(
            #[trigger] s.take(k)[i],
        ) by {
            assert(s.take(k)[i] == s[i]);
        }
        lemma_dec_val_nonneg(s.take(k));
        assert(is_digit(s[k]));
        assert(dec_val(t) == dec_val(s.take(k)) * 10 + (s[k] - 48));
        assert(dec_val(s.take(k)) <= dec_val(t));
        lemma_dec_val_take(s, k + 1);
    } else {
        assert(s.take(k) =~= s);
    }
}

fn u64_digits(n: u64) -> (r: Vec<u8>)
    ensures
        r@ == dec_digits(n as nat),
    decreases n,
{
    if n < 10 {
        let mut v: Vec<u8> = Vec::new();
        v.push((n as u8) + 48);
        proof {
            assert(v@ =~= dec_digits(n as nat));
        }
        v
    } else {
        let mut v = u64_digits(n / 10);
        v.push(((n % 10) as u8) + 48);
        proof {
            assert(v@ =~= dec_digits(n as nat));
        }
        v
    }
}

pub open spec fn abs_val(m: int) -> int {
    if m >= 0 {
        m
    } else {
        -m
    }
}

fn magnitude(m: i64) -> (r: u64)
    ensures
        r as int == abs_val(m as int),
{
    if m >= 0 {
        m as u64
    } else if m == i64::MIN {
        9223372036854775808u64
    } else {
        (-m) as u64
    }
}

/// The persisted cache record for an instant `micros` microseconds from
/// the epoch: the prefix, the signed decimal value, one newline.
pub open spec fn spec_encode(micros: int) -> Seq<u8> {
    if micros < 0 {
        record_prefix() + seq![45u8] + dec_digits((-micros) as nat) + seq![10u8]
    } else {
        record_prefix() + dec_digits(micros as nat) + seq![10u8]
    }
}

/// Serialize a timestamp into the bytes of its cache record.
pub fn encode_timestamp(t: &Timestamp) -> (r: Vec<u8>)
    ensures
        r@ == spec_encode(t.micros as int),
{
    let mut v: Vec<u8> = Vec::new();
    v.push(116);
    v.push(105);
    v.push(109);
    v.push(101);
    v.push(112);
    v.push(111);
    v.push(105);
    v.push(110);
    v.push(116);
    v.push(58);
    v.push(32);
    proof {
        assert(v@ =~= record_prefix());
    }
    if t.micros < 0 {
        v.push(45);
    }
    let mag = magnitude(t.micros);
    let mut d = u64_digits(mag);
    v.append(&mut d);
    v.push(10);
    proof {
        assert(v@ =~= spec_encode(t.micros as int));
    }
    v
}

/// What stored bytes denote: the instant they record, or `None` where the
/// bytes are not a well-formed record or the value leaves the range of a
/// microsecond count.  A corrupt cache therefore reads as absent.
pub open spec fn spec_parse(s: Seq<u8>) -> Option<int> {
    if s.len() < 13 || s.subrange(0, 11) != record_prefix() || s.last() != 10u8 {
        None
    } else {
        let body = s.subrange(11, s.len() - 1);
        if body[0] == 45u8 {
            let digs = body.subrange(1, body.len() as int);
            if digs.len() >= 1 && all_digits(digs) && dec_val(digs) <= 9223372036854775808 {
                Some(-dec_val(digs))
            } else {
                None
            }
        } else {
            if all_digits(body) && dec_val(body) <= 9223372036854775807 {
                Some(dec_val(body))
            } else {
                None
            }
        }
    }
}

/// Deserialize a cache record; any malformed input reads as `None`.
pub fn parse_timestamp(bytes: &Vec<u8>) -> (r: Option<Timestamp>)
    ensures
        match r {
            Some(t) => spec_parse(bytes@) == Some(t.micros as int),
            None => spec_parse(bytes@) is None,
        },
{
    let n = bytes.len();
    if n < 13 {
        return None;
    }
    if !(bytes[0] == 116 && bytes[1] == 105 && bytes[2] == 109 && bytes[3] == 101 && bytes[4]
        == 112 && bytes[5] == 111 && bytes[6] == 105 && bytes[7] == 110 && bytes[8] == 116
        && bytes[9] == 58 && bytes[10] == 32) {
        proof {
            if bytes@.subrange(0, 11) == record_prefix() {
                assert(bytes@[0] == record_prefix()[0]);
                assert(bytes@[1] == record_prefix()[1]);
                assert(bytes@[2] == record_prefix()[2]);
                assert(bytes@[3] == record_prefix()[3]);
                assert(bytes@[4] == record_prefix()[4]);
                assert(bytes@[5] == record_prefix()[5]);
                assert(bytes@[6] == record_prefix()[6]);
                assert(bytes@[7] == record_prefix()[7]);
                assert(bytes@[8] == record_prefix()[8]);
                assert(bytes@[9] == record_prefix()[9]);
                assert(bytes@[10] == record_prefix()[10]);
            }
        }
        return None;
    }
    proof {
        assert(bytes@.subrange(0, 11) =~= record_prefix());
    }
    if bytes[n - 1] != 10 {
        return None;
    }
    let neg = bytes[11] == 45;
    let start: usize = if neg {
        12
    } else {
        11
    };
    let end: usize = n - 1;
    let ghost body: Seq<u8> = bytes@.subrange(11, bytes@.len() - 1);
    let ghost digs: Seq<u8> = bytes@.subrange(start as int, end as int);
    proof {
        if neg {
            assert(digs =~= body.subrange(1, body.len() as int));
        } else {
            assert(digs =~= body);
        }
    }
    if start >= end {
        return None;
    }
    let mut acc: u64 = 0;
    let mut i: usize = start;
    while i < end
        invariant
            start <= i <= end,
            end == bytes@.len() - 1,
            start < end,
            bytes@.len() >= 13,
            neg ==> start == 12,
            !neg ==> start == 11,
            neg <==> bytes@[11] == 45,
            bytes@.subrange(0, 11) == record_prefix(),
            bytes@[end as int] == 10,
            body == bytes@.subrange(11, bytes@.len() - 1),
            digs == bytes@.subrange(start as int, end as int),
            forall|j: int| start <= j < i ==> is_digit(#[trigger] bytes@[j]),
            acc as int == dec_val(bytes@.subrange(start as int, i as int)),
        decreases end - i,
    {
        let b = bytes[i];
        if b < 48 || b > 57 {
            proof {
                assert(body[0] == bytes@[11]);
                if neg {
                    assert(digs =~= body.subrange(1, body.len() as int));
                } else {
                    assert(digs =~= body);
                }
                assert(digs[i - start] == bytes@[i as int]);
                assert(!all_digits(digs));
            }
            return None;
        }
        let d = (b - 48) as u64;
        if acc > 1844674407370955161u64 || (acc == 1844674407370955161u64 && d > 5) {
            proof {
                assert(body[0] == bytes@[11]);
                if neg {
                    assert(digs =~= body.subrange(1, body.len() as int));
                } else {
                    assert(digs =~= body);
                }
                if all_digits(digs) {
                    let k = i - start + 1;
                    let t = digs.take(k);
                    assert(t.drop_last() =~= bytes@.subrange(start as int, i as int));
                    assert(t.last() == digs[k - 1]);
                    assert(t.last() == bytes@[i as int]);
                    assert(t.len() == k >= 1);
                    assert(dec_val(t) == dec_val(t.drop_last()) * 10 + (t.last() - 48));
                    assert(dec_val(t) == acc as int * 10 + (b - 48));
                    assert(dec_val(t) > 18446744073709551615);
                    lemma_dec_val_take(digs, k);
                    assert(dec_val(digs) > 9223372036854775808);
                }
            }
            return None;
        }
        acc = acc * 10 + d;
        i = i + 1;
        proof {
            let pre = bytes@.subrange(start as int, i - 1);
            let cur = bytes@.subrange(start as int, i as int);
            assert(cur.drop_last() =~= pre);
            assert(cur.last() == bytes@[i - 1]);
        }
    }
    proof {
        assert(digs =~= bytes@.subrange(start as int, i as int));
        assert forall|j: int| 0 <= j < digs.len() implies is_digit(#[trigger] digs[j]) by {
            assert(digs[j] == bytes@[start + j]);
        }
        assert(body[0] == bytes@[11]);
        if neg {
            assert(digs =~= body.subrange(1, body.len() as int));
        } else {
            assert(digs =~= body);
        }
        lemma_dec_val_nonneg(digs);
    }
    if neg {
        if acc > 9223372036854775808u64 {
            return None;
        }
        let m: i64 = if acc == 9223372036854775808u64 {
            i64::MIN
        } else {
            -(acc as i64)
        };
        Some(Timestamp { micros: m })
    } else {
        if acc > 9223372036854775807u64 {
            return None;
        }
        Some(Timestamp { micros: acc as i64 })
    }
}

/// Law: persisting a timestamp and then loading it yields an equal
/// instant, microsecond precision preserved.
pub proof fn lemma_cache_round_trip(t: Timestamp)
    ensures
        spec_parse(spec_encode(t.micros as int)) == Some(t.micros as int),
{
    let m = t.micros as int;
    let mag = abs_val(m) as nat;
    lemma_dec_digits(mag);
    let s = spec_encode(m);
    assert(s.subrange(0, 11) =~= record_prefix());
    assert(s.last() == 10u8);
    assert(s.len() >= 13);
    let body = s.subrange(11, s.len() - 1);
    if m < 0 {
        assert(body[0] == 45u8);
        let digs = body.subrange(1, body.len() as int);
        assert(digs =~= dec_digits(mag));
        assert(dec_val(digs) == mag);
        assert(mag <= 9223372036854775808);
        assert(spec_parse(s) == Some(-dec_val(digs)));
    } else {
        assert(body =~= dec_digits(mag));
        assert(is_digit(body[0]));
        assert(body[0] != 45u8);
        assert(dec_val(body) == mag);
        assert(mag <= 9223372036854775807);
        assert(spec_parse(s) == Some(dec_val(body)));
    }
}

} // verus!
