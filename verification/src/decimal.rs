//! Numbers written in decimal digits.

use vstd::prelude::*;
use vstd::utf8::encode_utf8;

verus! {

/// Whether every byte is a decimal digit.
pub open spec fn all_digits(d: Seq<u8>) -> bool {
    forall|i: int| 0 <= i < d.len() ==> 0x30 <= #[trigger] d[i] <= 0x39
}

/// The number that some decimal digits write.
pub open spec fn digits_value(d: Seq<u8>) -> nat
    decreases d.len(),
{
    if d.len() == 0 {
        0
    } else {
        digits_value(d.drop_last()) * 10 + (d.last() - 0x30) as nat
    }
}

/// The digits of a number as written: what follows a plus sign, if the text
/// starts with one.
pub open spec fn unsigned_part(text: Seq<u8>) -> Seq<u8> {
    if text.len() > 0 && text[0] == 0x2b {
        text.skip(1)
    } else {
        text
    }
}

/// The number that a text writes: at least one decimal digit and nothing
/// else, but for a plus sign in front.
pub open spec fn number_of(text: Seq<u8>) -> Option<nat> {
    let d = unsigned_part(text);
    if d.len() > 0 && all_digits(d) {
        Some(digits_value(d))
    } else {
        None
    }
}

/// More digits make no smaller number.
pub proof fn lemma_digits_grow(d: Seq<u8>, k: int)
    requires
        0 <= k <= d.len(),
    ensures
        digits_value(d.take(k)) <= digits_value(d),
    decreases d.len(),
{
    if k < d.len() {
        lemma_digits_grow(d.drop_last(), k);
        assert(d.drop_last().take(k) == d.take(k));
    } else {
        assert(d.take(k) == d);
    }
}

/// Ten to the power `e`.
pub open spec fn pow10(e: nat) -> nat
    decreases e,
{
    if e == 0 {
        1
    } else {
        10 * pow10((e - 1) as nat)
    }
}

/// The millionths that the digits behind a decimal point write: the first
/// six count, padded with zeros where there are fewer, and what follows
/// them is dropped.
pub open spec fn micro(frac: Seq<u8>) -> nat {
    if frac.len() >= 6 {
        digits_value(frac.take(6))
    } else {
        digits_value(frac) * pow10((6 - frac.len()) as nat)
    }
}

/// The number of millionths that the digits `whole` before and `frac`
/// behind a decimal point write. There must be a digit on one side at
/// least.
pub open spec fn scaled(whole: Seq<u8>, frac: Seq<u8>) -> Option<nat> {
    if all_digits(whole) && all_digits(frac) && whole.len() + frac.len() > 0 {
        Some(digits_value(whole) * 1_000_000 + micro(frac))
    } else {
        None
    }
}

/// The number of millionths that a text writes as a decimal: digits with at
/// most one decimal point among them, and maybe a plus sign in front.
/// Millionths of a millionth are dropped.
pub open spec fn millionths_of(text: Seq<u8>) -> Option<nat> {
    let t = unsigned_part(text);
    match t.index_of_first(0x2eu8) {
        Some(dot) => scaled(t.take(dot), t.skip(dot + 1)),
        None => scaled(t, Seq::empty()),
    }
}

/// The frequency in hertz that a text writes in megahertz, if it fits in 32
/// bits.
pub open spec fn hertz_of(text: Seq<u8>) -> Option<u32> {
    match millionths_of(text) {
        Some(n) => if n <= u32::MAX {
            Some(n as u32)
        } else {
            None
        },
        None => None,
    }
}

/// Digits read one after the other: a run of digits is digits before and
/// digits behind any cut.
pub proof fn lemma_all_digits_split(d: Seq<u8>, k: int)
    requires
        0 <= k <= d.len(),
    ensures
        all_digits(d) <==> all_digits(d.take(k)) && all_digits(d.skip(k)),
{
    if all_digits(d) {
        assert forall|i: int| 0 <= i < d.take(k).len() implies 0x30 <= #[trigger] d.take(k)[i]
            <= 0x39 by {
            assert(d.take(k)[i] == d[i]);
        }
        assert forall|i: int| 0 <= i < d.skip(k).len() implies 0x30 <= #[trigger] d.skip(k)[i]
            <= 0x39 by {
            assert(d.skip(k)[i] == d[i + k]);
        }
    }
    if all_digits(d.take(k)) && all_digits(d.skip(k)) {
        assert forall|i: int| 0 <= i < d.len() implies 0x30 <= #[trigger] d[i] <= 0x39 by {
            if i < k {
                assert(d.take(k)[i] == d[i]);
            } else {
                assert(d.skip(k)[i - k] == d[i]);
            }
        }
    }
}

/// A run of `n` digits writes a number below ten to the power `n`.
pub proof fn lemma_digits_bound(d: Seq<u8>)
    requires
        all_digits(d),
    ensures
        digits_value(d) < pow10(d.len()),
    decreases d.len(),
{
    if d.len() > 0 {
        lemma_all_digits_split(d, d.len() - 1);
        assert(d.take(d.len() - 1) == d.drop_last());
        lemma_digits_bound(d.drop_last());
        assert(0x30 <= d[d.len() - 1] <= 0x39);
    }
}

/// Reads the digits of `bytes` from `start` to `end` as a number no greater
/// than `cap`.
fn read_digits(bytes: &[u8], start: usize, end: usize, cap: u64) -> (r: Option<u64>)
    requires
        start <= end <= bytes@.len(),
        cap < 1_000_000_000_000_000,
    ensures
        match r {
            Some(v) => {
                &&& all_digits(bytes@.subrange(start as int, end as int))
                &&& v == digits_value(bytes@.subrange(start as int, end as int))
                &&& v <= cap
            },
            None => !all_digits(bytes@.subrange(start as int, end as int)) || digits_value(
                bytes@.subrange(start as int, end as int),
            ) > cap,
        },
{
    let ghost d = bytes@.subrange(start as int, end as int);
    let mut value: u64 = 0;
    let mut i: usize = start;
    while i < end
        invariant
            start <= i <= end <= bytes@.len(),
            cap < 1_000_000_000_000_000,
            d == bytes@.subrange(start as int, end as int),
            all_digits(d.take(i - start)),
            value == digits_value(d.take(i - start)),
            value <= cap,
        decreases end - i,
    {
        let b: u8 = bytes[i];
        proof {
            assert(d.take(i - start + 1).drop_last() == d.take(i - start));
            assert(d.take(i - start + 1).last() == b);
            assert(d[i - start] == b);
        }
        if b < 0x30 || b > 0x39 {
            return None;
        }
        let digit: u64 = (b - 0x30) as u64;
        value = value * 10 + digit;
        if value > cap {
            proof {
                lemma_digits_grow(d, i - start + 1);
            }
            return None;
        }
        i += 1;
        assert(all_digits(d.take(i - start))) by {
            assert forall|k: int| 0 <= k < i - start implies 0x30 <= #[trigger] d.take(
                i - start,
            )[k] <= 0x39 by {
                if k < i - start - 1 {
                    assert(d.take(i - start - 1)[k] == d.take(i - start)[k]);
                }
            }
        }
    }
    assert(d.take(i - start) == d);
    Some(value)
}

/// Whether the bytes of `bytes` from `start` to `end` are digits.
fn only_digits(bytes: &[u8], start: usize, end: usize) -> (r: bool)
    requires
        start <= end <= bytes@.len(),
    ensures
        r == all_digits(bytes@.subrange(start as int, end as int)),
{
    let ghost d = bytes@.subrange(start as int, end as int);
    let mut i: usize = start;
    while i < end
        invariant
            start <= i <= end <= bytes@.len(),
            d == bytes@.subrange(start as int, end as int),
            forall|k: int| 0 <= k < i - start ==> 0x30 <= #[trigger] d[k] <= 0x39,
        decreases end - i,
    {
        let b: u8 = bytes[i];
        assert(d[i - start] == b);
        if b < 0x30 || b > 0x39 {
            return false;
        }
        i += 1;
    }
    true
}

/// The powers of ten up to the sixth.
pub proof fn lemma_pow10_values()
    ensures
        pow10(0) == 1,
        pow10(1) == 10,
        pow10(2) == 100,
        pow10(3) == 1_000,
        pow10(4) == 10_000,
        pow10(5) == 100_000,
        pow10(6) == 1_000_000,
{
    reveal_with_fuel(pow10, 7);
}

/// Finds the parts of a decimal in `bytes`: where its digits begin, where
/// its decimal point stands or the text ends, and where the digits behind
/// the point begin.
fn split_decimal(bytes: &[u8]) -> (r: (usize, usize, usize))
    ensures
        r.0 <= r.1 <= r.2 <= bytes@.len(),
        millionths_of(bytes@) == scaled(
            bytes@.subrange(r.0 as int, r.1 as int),
            bytes@.subrange(r.2 as int, bytes@.len() as int),
        ),
{
    let len: usize = bytes.len();
    let start: usize = if len > 0 && bytes[0] == 0x2b {
        1
    } else {
        0
    };
    let ghost t = unsigned_part(bytes@);
    assert(t == bytes@.skip(start as int));
    let mut dot: usize = start;
    while dot < len && bytes[dot] != 0x2e
        invariant
            start <= dot <= len,
            len == bytes@.len(),
            forall|k: int| start <= k < dot ==> bytes@[k] != 0x2e,
        decreases len - dot,
    {
        dot += 1;
    }
    let frac_start: usize = if dot < len {
        dot + 1
    } else {
        len
    };
    proof {
        let whole = bytes@.subrange(start as int, dot as int);
        let frac = bytes@.subrange(frac_start as int, len as int);
        t.index_of_first_ensures(0x2eu8);
        if dot < len {
            assert(t[dot - start] == 0x2e);
            assert(t.contains(0x2eu8));
            let first = t.index_of_first(0x2eu8)->Some_0;
            if first < dot - start {
                assert(bytes@[first + start] == t[first]);
            }
            assert(first == dot - start);
            assert(t.take(dot - start) == whole);
            assert(t.skip(dot - start + 1) == frac);
        } else {
            if t.contains(0x2eu8) {
                let first = t.index_of_first(0x2eu8)->Some_0;
                assert(bytes@[first + start] == t[first]);
            }
            assert(t == whole);
            assert(frac == Seq::<u8>::empty());
        }
    }
    (start, dot, frac_start)
}

/// The millionths that `given` digits behind a decimal point write, when
/// the digits write the number `head`.
fn pad_micro(head: u64, given: usize) -> (part: u64)
    requires
        given <= 6,
        head < pow10(given as nat),
    ensures
        part == head * pow10((6 - given) as nat),
        given == 6 ==> part == head,
        part < 1_000_000,
{
    proof {
        lemma_pow10_values();
        let scale = pow10((6 - given) as nat);
        assert(given == 0 ==> head == 0);
        assert(head * scale == if given == 0 {
            0
        } else if given == 1 {
            head * 100_000
        } else if given == 2 {
            head * 10_000
        } else if given == 3 {
            head * 1_000
        } else if given == 4 {
            head * 100
        } else if given == 5 {
            head * 10
        } else {
            head as int
        }) by (nonlinear_arith)
            requires
                given <= 6,
                given == 0 ==> head == 0,
                given == 1 ==> scale == 100_000,
                given == 2 ==> scale == 10_000,
                given == 3 ==> scale == 1_000,
                given == 4 ==> scale == 100,
                given == 5 ==> scale == 10,
                given == 6 ==> scale == 1,
        ;
    }
    if given == 0 {
        0
    } else if given == 1 {
        head * 100_000
    } else if given == 2 {
        head * 10_000
    } else if given == 3 {
        head * 1_000
    } else if given == 4 {
        head * 100
    } else if given == 5 {
        head * 10
    } else {
        head
    }
}

/// Reads the digits of `bytes` from `start` to its end as millionths.
fn read_micro(bytes: &[u8], start: usize) -> (r: Option<u64>)
    requires
        start <= bytes@.len(),
    ensures
        match r {
            Some(v) => {
                &&& all_digits(bytes@.skip(start as int))
                &&& v == micro(bytes@.skip(start as int))
                &&& v < 1_000_000
            },
            None => !all_digits(bytes@.skip(start as int)),
        },
{
    let len: usize = bytes.len();
    let ghost frac = bytes@.skip(start as int);
    let given: usize = if len - start > 6 {
        6
    } else {
        len - start
    };
    proof {
        lemma_all_digits_split(frac, given as int);
        assert(frac.take(given as int) == bytes@.subrange(start as int, start + given));
        assert(frac.skip(given as int) == bytes@.subrange(start + given, len as int));
        lemma_pow10_values();
        if all_digits(frac.take(given as int)) {
            lemma_digits_bound(frac.take(given as int));
        }
        if given < 6 {
            assert(frac.take(given as int) == frac);
        }
    }
    let head: u64 = match read_digits(bytes, start, start + given, 999_999) {
        Some(v) => v,
        None => {
            return None;
        },
    };
    if !only_digits(bytes, start + given, len) {
        return None;
    }
    assert(all_digits(frac));
    assert(head == digits_value(frac.take(given as int)));
    assert(head < pow10(given as nat));
    assert(given < 6 ==> micro(frac) == head * pow10((6 - given) as nat));
    assert(given == 6 ==> micro(frac) == head);
    let part: u64 = pad_micro(head, given);
    Some(part)
}

/// Reads a frequency written in megahertz as a decimal, such as `433.5`,
/// and returns it in hertz.
///
/// The text is digits with at most one decimal point among them, and maybe a
/// plus sign in front; there must be one digit at least. What is less than
/// one hertz is dropped. A text of another form, and a frequency that does
/// not fit in 32 bits, give nothing.
pub fn parse_mhz(text: &str) -> (r: Option<u32>)
    ensures
        r == hertz_of(encode_utf8(text@)),
{
    let bytes: &[u8] = text.as_bytes();
    let (start, dot, frac_start) = split_decimal(bytes);
    assert(bytes@.subrange(frac_start as int, bytes@.len() as int) == bytes@.skip(
        frac_start as int,
    ));
    if (dot - start) + (bytes.len() - frac_start) == 0 {
        return None;
    }
    let units: u64 = match read_digits(bytes, start, dot, 4294) {
        Some(v) => v,
        None => {
            return None;
        },
    };
    let part: u64 = match read_micro(bytes, frac_start) {
        Some(v) => v,
        None => {
            return None;
        },
    };
    let hertz: u64 = units * 1_000_000 + part;
    if hertz > 0xFFFF_FFFF {
        None
    } else {
        Some(hertz as u32)
    }
}

/// The digit that writes the last decimal place of `n`.
pub open spec fn digit(n: nat) -> u8 {
    (0x30 + n % 10) as u8
}

/// A number written in decimal, without zeros in front.
pub open spec fn decimal(n: nat) -> Seq<u8>
    decreases n,
{
    if n < 10 {
        seq![digit(n)]
    } else {
        decimal(n / 10).push(digit(n))
    }
}

/// The last `width` decimal places of a number, zeros in front included.
pub open spec fn fixed(n: nat, width: nat) -> Seq<u8>
    decreases width,
{
    if width == 0 {
        Seq::empty()
    } else {
        fixed(n / 10, (width - 1) as nat).push(digit(n))
    }
}

/// Digits without the zeros at their end; one digit stays in any case.
pub open spec fn trimmed(frac: Seq<u8>) -> Seq<u8>
    decreases frac.len(),
{
    if frac.len() > 1 && frac.last() == 0x30 {
        trimmed(frac.drop_last())
    } else {
        frac
    }
}

/// A frequency of `hz` hertz written in megahertz: the whole megahertz, a
/// decimal point, and the millionths without zeros at their end, such as
/// `446.0` and `433.5`.
pub open spec fn mhz_text(hz: u32) -> Seq<u8> {
    decimal((hz / 1_000_000) as nat) + seq![0x2eu8] + trimmed(
        fixed((hz % 1_000_000) as nat, 6),
    )
}

/// Appends `n` in decimal to `out`.
fn push_decimal(out: &mut Vec<u8>, n: u32)
    ensures
        final(out)@ == old(out)@ + decimal(n as nat),
    decreases n,
{
    if n >= 10 {
        push_decimal(out, n / 10);
    }
    let ghost before = out@;
    out.push(0x30 + (n % 10) as u8);
    assert(out@ == old(out)@ + decimal(n as nat)) by {
        if n >= 10 {
            assert(before.push(digit(n as nat)) == old(out)@ + decimal((n / 10) as nat).push(
                digit(n as nat),
            ));
        } else {
            assert(before.push(digit(n as nat)) == old(out)@ + seq![digit(n as nat)]);
        }
    }
}

/// Appends the last `width` decimal places of `n` to `out`.
fn push_fixed(out: &mut Vec<u8>, n: u32, width: usize)
    ensures
        final(out)@ == old(out)@ + fixed(n as nat, width as nat),
    decreases width,
{
    if width > 0 {
        push_fixed(out, n / 10, width - 1);
        let ghost before = out@;
        out.push(0x30 + (n % 10) as u8);
        assert(before.push(digit(n as nat)) == old(out)@ + fixed(
            (n / 10) as nat,
            (width - 1) as nat,
        ).push(digit(n as nat)));
    } else {
        assert(old(out)@ + Seq::<u8>::empty() == old(out)@);
    }
}

/// The last `width` decimal places are `width` bytes.
pub proof fn lemma_fixed_len(n: nat, width: nat)
    ensures
        fixed(n, width).len() == width,
    decreases width,
{
    if width > 0 {
        lemma_fixed_len(n / 10, (width - 1) as nat);
    }
}

/// Writes a frequency of `hz` hertz in megahertz, in ASCII.
pub fn format_mhz(hz: u32) -> (out: Vec<u8>)
    ensures
        out@ == mhz_text(hz),
{
    let mut out: Vec<u8> = Vec::new();
    push_decimal(&mut out, hz / 1_000_000);
    out.push(0x2e);
    let ghost head = out@;
    let ghost full = fixed((hz % 1_000_000) as nat, 6);
    push_fixed(&mut out, hz % 1_000_000, 6);
    proof {
        lemma_fixed_len((hz % 1_000_000) as nat, 6);
        assert(Seq::<u8>::empty() + decimal((hz / 1_000_000) as nat) == decimal(
            (hz / 1_000_000) as nat,
        ));
    }
    let ghost mut cur = full;
    let base: usize = out.len() - 6;
    while out.len() > base + 1 && out[out.len() - 1] == 0x30
        invariant
            head.len() == base,
            out@ == head + cur,
            1 <= cur.len() <= 6,
            trimmed(cur) == trimmed(full),
        decreases out@.len(),
    {
        assert(cur.last() == out@[out@.len() - 1]);
        let _ = out.pop();
        proof {
            assert(out@ == head + cur.drop_last());
            cur = cur.drop_last();
        }
    }
    assert(cur.last() == out@[out@.len() - 1]);
    assert(trimmed(cur) == cur);
    out
}

/// A number in decimal is digits that write the number.
pub proof fn lemma_decimal(n: nat)
    ensures
        decimal(n).len() >= 1,
        all_digits(decimal(n)),
        digits_value(decimal(n)) == n,
    decreases n,
{
    if n >= 10 {
        lemma_decimal(n / 10);
        let d = decimal(n);
        assert(d.drop_last() == decimal(n / 10));
        assert forall|i: int| 0 <= i < d.len() implies 0x30 <= #[trigger] d[i] <= 0x39 by {
            if i < d.len() - 1 {
                assert(d[i] == decimal(n / 10)[i]);
            }
        }
    } else {
        let d = decimal(n);
        assert(d.drop_last() == Seq::<u8>::empty());
        assert(digits_value(d.drop_last()) == 0);
    }
}

/// The last `width` decimal places are digits that write the number modulo
/// ten to the power `width`.
pub proof fn lemma_fixed(n: nat, width: nat)
    ensures
        fixed(n, width).len() == width,
        all_digits(fixed(n, width)),
        digits_value(fixed(n, width)) == n % pow10(width),
    decreases width,
{
    if width > 0 {
        let w1 = (width - 1) as nat;
        lemma_fixed(n / 10, w1);
        let d = fixed(n, width);
        assert(d.drop_last() == fixed(n / 10, w1));
        assert forall|i: int| 0 <= i < d.len() implies 0x30 <= #[trigger] d[i] <= 0x39 by {
            if i < d.len() - 1 {
                assert(d[i] == fixed(n / 10, w1)[i]);
            }
        }
        lemma_pow10_positive(w1);
        assert(((n / 10) % pow10(w1)) * 10 + n % 10 == n % (10 * pow10(w1))) by (nonlinear_arith)
            requires
                pow10(w1) > 0,
        ;
    }
}

/// A power of ten is positive.
pub proof fn lemma_pow10_positive(e: nat)
    ensures
        pow10(e) > 0,
    decreases e,
{
    if e > 0 {
        lemma_pow10_positive((e - 1) as nat);
    }
}

/// Digits without the zeros at their end write the same millionths.
pub proof fn lemma_trimmed(frac: Seq<u8>)
    requires
        all_digits(frac),
        1 <= frac.len(),
    ensures
        all_digits(trimmed(frac)),
        1 <= trimmed(frac).len() <= frac.len(),
        digits_value(trimmed(frac)) * pow10((frac.len() - trimmed(frac).len()) as nat)
            == digits_value(frac),
    decreases frac.len(),
{
    if frac.len() > 1 && frac.last() == 0x30 {
        let head = frac.drop_last();
        lemma_all_digits_split(frac, frac.len() - 1);
        assert(frac.take(frac.len() - 1) == head);
        lemma_trimmed(head);
        let k = (head.len() - trimmed(head).len()) as nat;
        assert(trimmed(frac) == trimmed(head));
        assert(digits_value(frac) == digits_value(head) * 10);
        assert((frac.len() - trimmed(frac).len()) as nat == k + 1);
        assert(pow10(k + 1) == 10 * pow10(k));
        let v = digits_value(trimmed(head));
        assert(v * pow10(k + 1) == (v * pow10(k)) * 10) by (nonlinear_arith)
            requires
                pow10(k + 1) == 10 * pow10(k),
        ;
        assert(v * pow10(k + 1) == digits_value(frac));
    } else {
        assert(pow10(0) == 1);
        assert(digits_value(frac) * 1 == digits_value(frac));
    }
}

/// Round trip of a frequency: the text that writes `hz` hertz in megahertz
/// is read back as `hz` hertz.
pub proof fn lemma_mhz_round_trip(hz: u32)
    ensures
        hertz_of(mhz_text(hz)) == Some(hz),
{
    let units = (hz / 1_000_000) as nat;
    let part = (hz % 1_000_000) as nat;
    let whole = decimal(units);
    let six = fixed(part, 6);
    let frac = trimmed(six);
    let text = mhz_text(hz);
    lemma_decimal(units);
    lemma_fixed(part, 6);
    lemma_trimmed(six);
    lemma_pow10_values();
    assert(text[0] == whole[0]);
    assert(unsigned_part(text) == text);
    text.index_of_first_ensures(0x2eu8);
    assert(text[whole.len() as int] == 0x2e);
    assert(text.contains(0x2eu8));
    let first = text.index_of_first(0x2eu8)->Some_0;
    if first < whole.len() {
        assert(text[first] == whole[first]);
    }
    assert(first == whole.len());
    assert(text.take(first) == whole);
    assert(text.skip(first + 1) == frac);
    assert(digits_value(six) == part);
    let gap = (six.len() - frac.len()) as nat;
    assert(digits_value(frac) * pow10(gap) == part);
    assert(micro(frac) == part) by {
        if frac.len() >= 6 {
            assert(frac.len() == 6);
            assert(frac.take(6) == frac);
            assert(gap == 0);
            assert(digits_value(frac) * 1 == part);
        } else {
            assert(gap == (6 - frac.len()) as nat);
        }
    }
    assert(scaled(whole, frac) == Some(units * 1_000_000 + part));
    assert(units * 1_000_000 + part == hz);
}

} // verus!
