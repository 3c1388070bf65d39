use vstd::prelude::*;

verus! {

/// The lowercase ASCII hex digit of a nibble.
pub open spec fn hex_digit(d: int) -> u8 {
    if d < 10 {
        (48 + d) as u8
    } else {
        (87 + d) as u8
    }
}

/// The two hex digits of every byte, most significant nibble first.
pub open spec fn nibble_digits(bytes: Seq<u8>) -> Seq<u8>
    decreases bytes.len(),
{
    if bytes.len() == 0 {
        seq![]
    } else {
        nibble_digits(bytes.drop_last()) + seq![
            hex_digit((bytes.last() / 16) as int),
            hex_digit((bytes.last() % 16) as int),
        ]
    }
}

/// `digits` without its leading `'0'` characters.
pub open spec fn strip_zeros(digits: Seq<u8>) -> Seq<u8>
    decreases digits.len(),
{
    if digits.len() > 0 && digits[0] == 48 {
        strip_zeros(digits.drop_first())
    } else {
        digits
    }
}

/// The number held by big-endian bytes, rendered as `0x` and its lowercase hex
/// digits, with no leading zero but the single `0` of the value zero.
pub open spec fn hex_text(bytes: Seq<u8>) -> Seq<u8> {
    let s = strip_zeros(nibble_digits(bytes));
    seq![48u8, 120u8] + if s.len() == 0 {
        seq![48u8]
    } else {
        s
    }
}

fn digit(d: u8) -> (r: u8)
    requires
        d < 16,
    ensures
        r == hex_digit(d as int),
{
    if d < 10 {
        48 + d
    } else {
        87 + d
    }
}

/// Appends `hex_text(bytes)` to `out`.
pub fn write_hex(bytes: &Vec<u8>, out: &mut Vec<u8>)
    ensures
        final(out)@ == old(out)@ + hex_text(bytes@),
{
    let ghost all = nibble_digits(bytes@);
    let mut digits: Vec<u8> = Vec::new();
    let mut i: usize = 0;
    while i < bytes.len()
        invariant
            i <= bytes@.len(),
            digits@ == nibble_digits(bytes@.subrange(0, i as int)),
        decreases bytes@.len() - i,
    {
        let b = bytes[i];
        digits.push(digit(b / 16));
        digits.push(digit(b % 16));
        proof {
            let pre = bytes@.subrange(0, i as int + 1);
            assert(pre.drop_last() =~= bytes@.subrange(0, i as int));
            assert(pre.last() == b);
        }
        i = i + 1;
    }
    assert(bytes@.subrange(0, bytes@.len() as int) =~= bytes@);
    assert(digits@.subrange(0, digits@.len() as int) =~= digits@);
    let mut start: usize = 0;
    while start < digits.len() && digits[start] == 48
        invariant
            start <= digits@.len(),
            strip_zeros(digits@.subrange(start as int, digits@.len() as int)) == strip_zeros(all),
            digits@ == all,
        decreases digits@.len() - start,
    {
        proof {
            let rest = digits@.subrange(start as int, digits@.len() as int);
            assert(rest.drop_first() =~= digits@.subrange(start as int + 1, digits@.len() as int));
        }
        start = start + 1;
    }
    proof {
        let rest = digits@.subrange(start as int, digits@.len() as int);
        assert(strip_zeros(rest) == rest);
    }
    out.push(48);
    out.push(120);
    if start == digits.len() {
        out.push(48);
    } else {
        let ghost base = out@;
        let mut k: usize = start;
        while k < digits.len()
            invariant
                start <= k <= digits@.len(),
                out@ == base + digits@.subrange(start as int, k as int),
            decreases digits@.len() - k,
        {
            out.push(digits[k]);
            proof {
                assert(digits@.subrange(start as int, k as int + 1) =~= digits@.subrange(
                    start as int,
                    k as int,
                ).push(digits@[k as int]));
            }
            k = k + 1;
        }
    }
    proof {
        let s = strip_zeros(all);
        assert(old(out)@ + hex_text(bytes@) =~= old(out)@ + seq![48u8, 120u8] + if s.len() == 0 {
            seq![48u8]
        } else {
            s
        });
    }
}

/// The number held by big-endian bytes.
pub open spec fn be_value(bytes: Seq<u8>) -> nat
    decreases bytes.len(),
{
    if bytes.len() == 0 {
        0
    } else {
        be_value(bytes.drop_last()) * 256 + bytes.last() as nat
    }
}

/// The lowercase hex numeral of `n`, without leading zeros.
pub open spec fn hex_of_nat(n: nat) -> Seq<u8>
    decreases n,
{
    if n < 16 {
        seq![hex_digit(n as int)]
    } else {
        hex_of_nat(n / 16) + seq![hex_digit((n % 16) as int)]
    }
}

pub open spec fn is_hex_digit(c: u8) -> bool {
    (48 <= c <= 57) || (97 <= c <= 102)
}

pub open spec fn digit_value(c: u8) -> nat {
    if c <= 57 {
        (c - 48) as nat
    } else {
        (c - 87) as nat
    }
}

pub open spec fn all_hex_digits(ds: Seq<u8>) -> bool {
    forall|k: int| 0 <= k < ds.len() ==> is_hex_digit(#[trigger] ds[k])
}

/// The number that a sequence of hex digits denotes.
pub open spec fn digits_value(ds: Seq<u8>) -> nat
    decreases ds.len(),
{
    if ds.len() == 0 {
        0
    } else {
        digits_value(ds.drop_last()) * 16 + digit_value(ds.last())
    }
}

proof fn lemma_digit_round_trip(d: int)
    requires
        0 <= d < 16,
    ensures
        is_hex_digit(hex_digit(d)),
        digit_value(hex_digit(d)) == d,
{
}

proof fn lemma_nibbles_value(bytes: Seq<u8>)
    ensures
        all_hex_digits(nibble_digits(bytes)),
        digits_value(nibble_digits(bytes)) == be_value(bytes),
    decreases bytes.len(),
{
    if bytes.len() > 0 {
        let b = bytes.last();
        let pre = nibble_digits(bytes.drop_last());
        let ds = nibble_digits(bytes);
        lemma_nibbles_value(bytes.drop_last());
        lemma_digit_round_trip((b / 16) as int);
        lemma_digit_round_trip((b % 16) as int);
        assert forall|k: int| 0 <= k < ds.len() implies is_hex_digit(#[trigger] ds[k]) by {
            if k < pre.len() {
                assert(ds[k] == pre[k]);
            }
        }
        let hi = hex_digit((b / 16) as int);
        let lo = hex_digit((b % 16) as int);
        assert(ds.drop_last() =~= pre.push(hi));
        assert(ds.drop_last().drop_last() =~= pre);
        assert(ds.last() == lo);
        assert(ds.drop_last().last() == hi);
        let v = digits_value(pre);
        assert(digits_value(ds.drop_last()) == v * 16 + (b / 16) as nat);
        assert(digits_value(ds) == (v * 16 + (b / 16) as nat) * 16 + (b % 16) as nat);
        assert((v * 16 + (b / 16) as nat) * 16 + (b % 16) as nat == v * 256 + b as nat) by (nonlinear_arith)
            requires
                b == (b / 16) * 16 + b % 16,
        ;
    }
}

/// Leading zero digits add nothing to the value.
proof fn lemma_strip_value(ds: Seq<u8>)
    ensures
        digits_value(strip_zeros(ds)) == digits_value(ds),
    decreases ds.len(),
{
    if ds.len() > 0 && ds[0] == 48 {
        lemma_drop_zero(ds);
        lemma_strip_value(ds.drop_first());
    }
}

proof fn lemma_drop_zero(ds: Seq<u8>)
    requires
        ds.len() > 0,
        ds[0] == 48,
    ensures
        digits_value(ds) == digits_value(ds.drop_first()),
    decreases ds.len(),
{
    if ds.len() > 1 {
        assert(ds.drop_last()[0] == 48);
        lemma_drop_zero(ds.drop_last());
        assert(ds.drop_last().drop_first() =~= ds.drop_first().drop_last());
        assert(ds.drop_first().last() == ds.last());
        assert(digits_value(ds) == digits_value(ds.drop_last()) * 16 + digit_value(ds.last()));
        assert(digits_value(ds.drop_first()) == digits_value(ds.drop_first().drop_last()) * 16
            + digit_value(ds.drop_first().last()));
    } else {
        assert(ds.drop_last().len() == 0);
        assert(ds.drop_first().len() == 0);
        assert(ds.last() == 48);
        assert(digits_value(ds) == digits_value(ds.drop_last()) * 16 + digit_value(ds.last()));
    }
}

proof fn lemma_strip_digits(ds: Seq<u8>)
    requires
        all_hex_digits(ds),
    ensures
        all_hex_digits(strip_zeros(ds)),
        strip_zeros(ds).len() > 0 ==> strip_zeros(ds)[0] != 48,
    decreases ds.len(),
{
    if ds.len() > 0 && ds[0] == 48 {
        assert forall|k: int| 0 <= k < ds.drop_first().len() implies is_hex_digit(
            #[trigger] ds.drop_first()[k],
        ) by {
            assert(ds.drop_first()[k] == ds[k + 1]);
        }
        lemma_strip_digits(ds.drop_first());
    }
}

/// Digits without a leading zero are the numeral of their value.
proof fn lemma_numeral(ds: Seq<u8>)
    requires
        ds.len() > 0,
        ds[0] != 48,
        all_hex_digits(ds),
    ensures
        hex_of_nat(digits_value(ds)) == ds,
        digits_value(ds) >= 1,
    decreases ds.len(),
{
    let last = ds.last();
    assert(is_hex_digit(ds[ds.len() - 1]));
    if ds.len() == 1 {
        assert(is_hex_digit(ds[0]));
        assert(digits_value(ds.drop_last()) == 0);
        assert(hex_of_nat(digits_value(ds)) =~= ds);
    } else {
        let pre = ds.drop_last();
        assert(pre[0] == ds[0]);
        assert forall|k: int| 0 <= k < pre.len() implies is_hex_digit(#[trigger] pre[k]) by {
            assert(pre[k] == ds[k]);
        }
        lemma_numeral(pre);
        let v = digits_value(pre);
        let d = digit_value(last);
        assert(d < 16);
        assert((v * 16 + d) / 16 == v && (v * 16 + d) % 16 == d) by (nonlinear_arith)
            requires
                0 <= d < 16,
        ;
        assert(v * 16 + d >= 16) by (nonlinear_arith)
            requires
                v >= 1,
                d >= 0,
        ;
        assert(hex_of_nat(digits_value(ds)) =~= ds);
    }
}

/// The rendering of a field element is `0x` and the lowercase hex numeral of
/// the number its bytes hold: `0x0` for zero, and otherwise no leading zero.
pub proof fn lemma_hex_text_is_numeral(bytes: Seq<u8>)
    ensures
        hex_text(bytes) == seq![48u8, 120u8] + hex_of_nat(be_value(bytes)),
{
    let ds = nibble_digits(bytes);
    lemma_nibbles_value(bytes);
    lemma_strip_value(ds);
    lemma_strip_digits(ds);
    let s = strip_zeros(ds);
    if s.len() == 0 {
        assert(digits_value(s) == 0);
        assert(hex_of_nat(0) =~= seq![48u8]);
    } else {
        lemma_numeral(s);
    }
}

} // verus!
