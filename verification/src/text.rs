//! Building text: characters, digits and numbers.

use vstd::prelude::*;

verus! {

/// Appends `c` to `out` (`String::push`).
#[verifier::external_body]
pub(crate) fn push_char(out: &mut String, c: char)
    ensures
        final(out)@ == old(out)@.push(c),
{
    out.push(c);
}

/// The lower-case digit for `d` (below 16).
pub open spec fn digit_char(d: nat) -> char {
    if d < 10 {
        (48 + d) as char
    } else {
        (87 + d) as char
    }
}

/// The digits of `n` in `base`, most significant first, without leading
/// zeros (0 is "0").
pub open spec fn digits(n: nat, base: nat) -> Seq<char>
    decreases n,
{
    if base < 2 || n < base {
        seq![digit_char(n)]
    } else {
        proof {
            vstd::arithmetic::div_mod::lemma_div_decreases(n as int, base as int);
        }
        digits(n / base, base).push(digit_char(n % base))
    }
}

/// `k` zero characters.
pub open spec fn zeros(k: nat) -> Seq<char> {
    Seq::new(k, |i: int| '0')
}

/// `n` in `base`, padded with leading zeros to at least `width` characters.
#[verifier::opaque]
pub open spec fn number_text(n: nat, base: nat, width: nat) -> Seq<char> {
    let ds = digits(n, base);
    if ds.len() < width {
        zeros((width - ds.len()) as nat) + ds
    } else {
        ds
    }
}

/// `n` in lower-case hexadecimal, padded to `width`.
pub open spec fn hex_text(n: nat, width: nat) -> Seq<char> {
    number_text(n, 16, width)
}

/// `n` in decimal.
pub open spec fn dec_text(n: nat) -> Seq<char> {
    number_text(n, 10, 0)
}

/// `true` or `false`.
pub open spec fn bool_text(b: bool) -> Seq<char> {
    if b {
        "true"@
    } else {
        "false"@
    }
}

/// The character of byte `b` (`b as char`).
pub(crate) fn byte_char(b: u8) -> (c: char)
    ensures
        c == b as char,
{
    b as char
}

/// The digit for `d`.
pub(crate) fn digit(d: u8) -> (c: char)
    requires
        d < 16,
    ensures
        c == digit_char(d as nat),
{
    if d < 10 {
        (48u8 + d) as char
    } else {
        (87u8 + d) as char
    }
}

/// Appends `value` in `base` (10 or 16), padded with zeros to `width`.
pub(crate) fn push_number(out: &mut String, value: u64, base: u64, width: usize)
    requires
        base == 10 || base == 16,
    ensures
        final(out)@ == old(out)@ + number_text(value as nat, base as nat, width as nat),
{
    reveal(number_text);
    let mut v = value;
    let mut ds: Vec<char> = Vec::new();
    while v >= base
        invariant
            base == 10 || base == 16,
            digits(value as nat, base as nat) == digits(v as nat, base as nat) + ds@,
        decreases v,
    {
        let c = digit((v % base) as u8);
        assert(digits(v as nat, base as nat) == digits((v / base) as nat, base as nat).push(c));
        assert(digits(v as nat, base as nat) + ds@ =~= digits((v / base) as nat, base as nat) + (
        seq![c] + ds@));
        ds.insert(0, c);
        v = v / base;
    }
    let c = digit(v as u8);
    assert(digits(v as nat, base as nat) == seq![c]);
    assert(seq![c] + ds@ =~= ds@.insert(0, c));
    ds.insert(0, c);
    let ghost start = out@;
    let n = ds.len();
    let mut i: usize = n;
    while i < width
        invariant
            n == ds@.len(),
            n <= i,
            i <= width || i == n,
            out@ =~= start + zeros((i - n) as nat),
        decreases width - i,
    {
        push_char(out, '0');
        i = i + 1;
    }
    let ghost padded = out@;
    let mut j: usize = 0;
    while j < n
        invariant
            n == ds@.len(),
            j <= n,
            out@ =~= padded + ds@.subrange(0, j as int),
        decreases n - j,
    {
        push_char(out, ds[j]);
        j = j + 1;
    }
    assert(ds@.subrange(0, n as int) =~= ds@);
    assert(ds@ == digits(value as nat, base as nat));
    if n < width {
        assert(i == width);
    } else {
        assert(zeros((i - n) as nat) =~= Seq::<char>::empty());
    }
    assert(out@ =~= start + number_text(value as nat, base as nat, width as nat));
}

/// A line `label` + `value` + newline.
pub open spec fn line(label: Seq<char>, value: Seq<char>) -> Seq<char> {
    label + value + seq!['\n']
}

/// Appends the line `label`, `value` in `base` padded to `width`, newline.
pub(crate) fn push_number_line(out: &mut String, label: &str, value: u64, base: u64, width: usize)
    requires
        base == 10 || base == 16,
    ensures
        final(out)@ == old(out)@ + line(label@, number_text(value as nat, base as nat, width as nat)),
{
    out.append(label);
    push_number(out, value, base, width);
    push_char(out, '\n');
    assert(final(out)@ =~= old(out)@ + line(label@, number_text(value as nat, base as nat, width as nat)));
}

/// Appends the line `label`, `true` or `false`, newline.
pub(crate) fn push_bool_line(out: &mut String, label: &str, b: bool)
    ensures
        final(out)@ == old(out)@ + line(label@, bool_text(b)),
{
    out.append(label);
    push_bool(out, b);
    push_char(out, '\n');
    assert(final(out)@ =~= old(out)@ + line(label@, bool_text(b)));
}

/// Appends `true` or `false`.
pub(crate) fn push_bool(out: &mut String, b: bool)
    ensures
        final(out)@ == old(out)@ + bool_text(b),
{
    if b {
        out.append("true");
    } else {
        out.append("false");
    }
}

/// The value of a digit character: `0`-`9` are 0 to 9 and `a`-`f` are 10
/// to 15; any other character is worth 16, which no digit of base 10 or 16
/// can be.
pub open spec fn digit_value(c: char) -> nat {
    let u = c as u32;
    if 48 <= u <= 57 {
        (u - 48) as nat
    } else if 97 <= u <= 102 {
        (u - 87) as nat
    } else {
        16
    }
}

/// The number that the digit characters `cs` spell in `base`, most
/// significant first.
pub open spec fn text_value(cs: Seq<char>, base: nat) -> nat
    decreases cs.len(),
{
    if cs.len() == 0 {
        0
    } else {
        text_value(cs.drop_last(), base) * base + digit_value(cs.last())
    }
}

proof fn lemma_digit_char_value(d: nat)
    requires
        d < 16,
    ensures
        digit_value(digit_char(d)) == d,
        (digit_char(d) == '0') <==> d == 0,
{
    if d < 10 {
        assert(((48 + d) as char) as u32 == 48 + d);
    } else {
        assert(((87 + d) as char) as u32 == 87 + d);
    }
}

proof fn lemma_digits_read_back(n: nat, base: nat)
    requires
        base == 10 || base == 16,
    ensures
        text_value(digits(n, base), base) == n,
        forall|i: int| 0 <= i < digits(n, base).len() ==> #[trigger] digit_value(digits(n, base)[i]) < base,
        digits(n, base).len() >= 1,
        digits(n, base).len() > 1 ==> digits(n, base)[0] != '0',
        n > 0 ==> digits(n, base)[0] != '0',
    decreases n,
{
    if n < base {
        lemma_digit_char_value(n);
        let ds = digits(n, base);
        assert(ds.drop_last() =~= Seq::<char>::empty());
        assert(ds.last() == digit_char(n));
        assert(text_value(ds, base) == text_value(ds.drop_last(), base) * base + digit_value(ds.last()));
        assert(text_value(Seq::<char>::empty(), base) == 0);
    } else {
        vstd::arithmetic::div_mod::lemma_div_decreases(n as int, base as int);
        lemma_digits_read_back(n / base, base);
        lemma_digit_char_value(n % base);
        let ds = digits(n, base);
        let front = digits(n / base, base);
        assert(ds.drop_last() =~= front);
        assert(ds.last() == digit_char(n % base));
        assert(text_value(ds, base) == text_value(front, base) * base + digit_value(digit_char(n % base)));
        assert(n == (n / base) * base + n % base) by (nonlinear_arith)
            requires
                base > 0,
        ;
        assert(n / base > 0) by (nonlinear_arith)
            requires
                n >= base,
                base > 0,
        ;
        assert forall|i: int| 0 <= i < ds.len() implies #[trigger] digit_value(ds[i]) < base by {
            if i < front.len() {
                assert(ds[i] == front[i]);
            }
        }
        assert(ds[0] == front[0]);
    }
}

proof fn lemma_leading_zeros(k: nat, ds: Seq<char>, base: nat)
    ensures
        text_value(zeros(k) + ds, base) == text_value(ds, base),
    decreases ds.len(),
{
    if ds.len() == 0 {
        lemma_zeros_value(k, base);
        assert(zeros(k) + ds =~= zeros(k));
    } else {
        lemma_leading_zeros(k, ds.drop_last(), base);
        assert((zeros(k) + ds).drop_last() =~= zeros(k) + ds.drop_last());
    }
}

proof fn lemma_zeros_value(k: nat, base: nat)
    ensures
        text_value(zeros(k), base) == 0,
    decreases k,
{
    if k > 0 {
        lemma_zeros_value((k - 1) as nat, base);
        assert(zeros(k).drop_last() =~= zeros((k - 1) as nat));
        assert(zeros(k).last() == '0');
        assert(('0' as u32) == 48);
        assert(digit_value('0') == 0);
        assert(text_value(zeros(k), base) == text_value(zeros((k - 1) as nat), base) * base + digit_value('0'));
    }
}

/// A number written in base 10 or 16 reads back as itself: its characters
/// are digits of the base and spell `n`; the text is `width` characters
/// long where `n` fits, and longer only with a non-zero first digit.
pub proof fn lemma_number_reads_back(n: nat, base: nat, width: nat)
    requires
        base == 10 || base == 16,
    ensures
        text_value(number_text(n, base, width), base) == n,
        forall|i: int|
            0 <= i < number_text(n, base, width).len() ==> #[trigger] digit_value(
                number_text(n, base, width)[i],
            ) < base,
        number_text(n, base, width).len() >= width,
        number_text(n, base, width).len() > width && number_text(n, base, width).len() > 1
            ==> number_text(n, base, width)[0] != '0',
{
    reveal(number_text);
    lemma_digits_read_back(n, base);
    let ds = digits(n, base);
    if ds.len() < width {
        let k = (width - ds.len()) as nat;
        lemma_leading_zeros(k, ds, base);
        let t = zeros(k) + ds;
        assert forall|i: int| 0 <= i < t.len() implies #[trigger] digit_value(t[i]) < base by {
            if i < k {
                assert(t[i] == '0');
                assert(('0' as u32) == 48);
            } else {
                assert(t[i] == ds[i - k]);
            }
        }
    }
}

} // verus!
