//! Base-128 variable-length integers, least significant group first.

use vstd::prelude::*;

verus! {

/// The shortest base-128 encoding of `v`: seven bits to a byte, low groups
/// first, the top bit set on every byte but the last.
pub open spec fn varint(v: nat) -> Seq<u8>
    decreases v,
{
    if v < 128 {
        seq![v as u8]
    } else {
        seq![(128 + v % 128) as u8] + varint(v / 128)
    }
}

/// The value and the length of the shortest-form varint that `b` starts with,
/// if it starts with one.
pub open spec fn parse_varint(b: Seq<u8>) -> Option<(nat, nat)>
    decreases b.len(),
{
    if b.len() == 0 {
        None
    } else if b[0] < 128 {
        Some((b[0] as nat, 1nat))
    } else {
        match parse_varint(b.skip(1)) {
            Some((high, n)) => if high > 0 {
                Some(((b[0] - 128) as nat + 128 * high, n + 1))
            } else {
                None
            },
            None => None,
        }
    }
}

/// 128 to the power `n`.
pub open spec fn pow128(n: nat) -> nat
    decreases n,
{
    if n == 0 {
        1
    } else {
        128 * pow128((n - 1) as nat)
    }
}

/// A value below 2^32 takes at most five bytes.
pub proof fn lemma_varint_u32_len(v: nat)
    requires
        v <= u32::MAX,
    ensures
        1 <= varint(v).len() <= 5,
{
    reveal_with_fuel(varint, 6);
}

/// Parsing reads back a varint that is followed by anything.
pub proof fn lemma_parse_varint(v: nat, rest: Seq<u8>)
    ensures
        parse_varint(varint(v) + rest) == Some((v, varint(v).len())),
    decreases v,
{
    let b = varint(v) + rest;
    if v < 128 {
        assert(b[0] == v as u8);
    } else {
        let tail = varint(v / 128);
        lemma_parse_varint(v / 128, rest);
        assert(b[0] == (128 + v % 128) as u8);
        assert(b.skip(1) =~= tail + rest);
        assert(v / 128 > 0);
        assert((b[0] - 128) as nat + 128 * (v / 128) == v);
    }
}

/// Appends the varint of `v` to `out`.
pub fn put_varint(out: &mut Vec<u8>, v: u32)
    ensures
        final(out)@ == old(out)@ + varint(v as nat),
{
    let mut rest: u32 = v;
    while rest >= 128
        invariant
            out@ + varint(rest as nat) == old(out)@ + varint(v as nat),
        decreases rest,
    {
        let low: u8 = (128 + rest % 128) as u8;
        proof {
            assert(out@.push(low) + varint((rest / 128) as nat) =~= out@ + varint(rest as nat));
        }
        out.push(low);
        rest = rest / 128;
    }
    proof {
        assert(out@.push(rest as u8) =~= out@ + varint(rest as nat));
    }
    out.push(rest as u8);
}

/// Reads the shortest-form varint that starts at `at`, if its value fits 32
/// bits: the value and the index just behind it.
pub fn take_varint(b: &[u8], at: usize) -> (r: Option<(u32, usize)>)
    requires
        at <= b.len(),
    ensures
        match r {
            Some((v, next)) => {
                &&& parse_varint(b@.skip(at as int)) == Some((v as nat, (next - at) as nat))
                &&& at < next <= b.len()
            },
            None => match parse_varint(b@.skip(at as int)) {
                Some((v, n)) => v > u32::MAX,
                None => true,
            },
        },
{
    // Find the last byte: the first below 128, within the five that 32 bits take.
    let mut end: usize = at;
    while end < b.len() && end - at < 5 && b[end] >= 128
        invariant
            at <= end <= b.len(),
            end - at <= 5,
            forall|i: int| at <= i < end ==> b@[i] >= 128,
        decreases b.len() - end,
    {
        end = end + 1;
    }
    if end >= b.len() {
        proof {
            assert forall|i: int| 0 <= i < b@.skip(at as int).len() implies b@.skip(
                at as int,
            )[i] >= 128 by {
                assert(b@.skip(at as int)[i] == b@[at + i]);
            }
            lemma_unterminated(b@.skip(at as int));
        }
        return None;
    }
    if end - at >= 5 {
        proof {
            assert forall|i: int| 0 <= i < 5 implies b@.skip(at as int)[i] >= 128 by {
                assert(b@.skip(at as int)[i] == b@[at + i]);
            }
            lemma_long_is_large(b@.skip(at as int), 5);
            assert(pow128(5) == 34359738368) by {
                reveal_with_fuel(pow128, 6);
            }
        }
        return None;
    }
    let mut value: u64 = b[end] as u64;
    let mut i: usize = end;
    proof {
        assert(b@.skip(end as int)[0] == b@[end as int]);
        assert(pow128(1) == 128) by {
            reveal_with_fuel(pow128, 2);
        }
    }
    let mut ok: bool = true;
    while i > at
        invariant
            at <= i <= end < b.len(),
            end - at < 5,
            forall|k: int| at <= k < end ==> b@[k] >= 128,
            ok ==> parse_varint(b@.skip(i as int)) == Some((value as nat, (end - i + 1) as nat)),
            !ok ==> parse_varint(b@.skip(at as int)) is None,
            value < pow128((end - i + 1) as nat),
            end - i + 1 <= 5,
        decreases i,
    {
        i = i - 1;
        proof {
            let s = b@.skip(i as int);
            assert(s[0] == b@[i as int]);
            assert(s.skip(1) =~= b@.skip(i + 1));
            assert(pow128((end - i + 1) as nat) == 128 * pow128((end - i) as nat));
            assert(pow128((end - i) as nat) <= 268435456) by {
                reveal_with_fuel(pow128, 6);
            }
            if ok && value == 0 {
                assert(parse_varint(s) is None);
                lemma_none_spreads(b@, at as int, i as int);
            }
        }
        if value == 0 {
            ok = false;
        }
        value = (b[i] - 128) as u64 + 128 * value;
    }
    if !ok {
        return None;
    }
    if value > u32::MAX as u64 {
        return None;
    }
    Some((value as u32, end + 1))
}

/// A run of bytes that all have the top bit set holds no varint.
proof fn lemma_unterminated(b: Seq<u8>)
    requires
        forall|i: int| 0 <= i < b.len() ==> b[i] >= 128,
    ensures
        parse_varint(b) is None,
    decreases b.len(),
{
    if b.len() > 0 {
        assert forall|i: int| 0 <= i < b.skip(1).len() implies b.skip(1)[i] >= 128 by {
            assert(b.skip(1)[i] == b[i + 1]);
        }
        lemma_unterminated(b.skip(1));
    }
}

/// A varint that begins with `k` bytes with the top bit set is worth at least
/// 128 to the `k`.
proof fn lemma_long_is_large(b: Seq<u8>, k: nat)
    requires
        1 <= k <= b.len(),
        forall|i: int| 0 <= i < k ==> b[i] >= 128,
    ensures
        match parse_varint(b) {
            Some((v, n)) => v >= pow128(k),
            None => true,
        },
    decreases k,
{
    assert(b[0] >= 128);
    assert(pow128(k) == 128 * pow128((k - 1) as nat));
    if k >= 2 {
        assert forall|i: int| 0 <= i < k - 1 implies b.skip(1)[i] >= 128 by {
            assert(b.skip(1)[i] == b[i + 1]);
        }
        lemma_long_is_large(b.skip(1), (k - 1) as nat);
    } else {
        assert(pow128(0) == 1);
    }
}

/// Where no varint starts at `i` and the bytes from `at` up to `i` all have the
/// top bit set, none starts at `at`.
proof fn lemma_none_spreads(b: Seq<u8>, at: int, i: int)
    requires
        0 <= at <= i <= b.len(),
        forall|k: int| at <= k < i ==> b[k] >= 128,
        parse_varint(b.skip(i)) is None,
    ensures
        parse_varint(b.skip(at)) is None,
    decreases i - at,
{
    if at < i {
        let t = b.skip(i - 1);
        assert(t[0] == b[i - 1]);
        assert(t.skip(1) =~= b.skip(i));
        assert(parse_varint(t) is None);
        lemma_none_spreads(b, at, i - 1);
    }
}

} // verus!
