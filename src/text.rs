use vstd::prelude::*;

verus! {

/// The ASCII digit for `d`, which must be below ten.
pub open spec fn digit_char(d: nat) -> char {
    if d == 0 { '0' }
    else if d == 1 { '1' }
    else if d == 2 { '2' }
    else if d == 3 { '3' }
    else if d == 4 { '4' }
    else if d == 5 { '5' }
    else if d == 6 { '6' }
    else if d == 7 { '7' }
    else if d == 8 { '8' }
    else { '9' }
}

/// The decimal notation of `n`, without leading zeros ("0" for zero).
pub open spec fn decimal(n: nat) -> Seq<char>
    decreases n,
{
    if n < 10 {
        seq![digit_char(n)]
    } else {
        decimal(n / 10).push(digit_char(n % 10))
    }
}

/// The last `width` decimal digits of `n`, padded with leading zeros.
pub open spec fn padded(n: nat, width: nat) -> Seq<char>
    decreases width,
{
    if width == 0 {
        Seq::empty()
    } else {
        padded(n / 10, (width - 1) as nat).push(digit_char(n % 10))
    }
}

/// A one-character string holding the digit `d`.
fn digit_str(d: u8) -> (r: &'static str)
    requires
        d < 10,
    ensures
        r@ == seq![digit_char(d as nat)],
{
    proof {
        reveal_strlit("0");
        reveal_strlit("1");
        reveal_strlit("2");
        reveal_strlit("3");
        reveal_strlit("4");
        reveal_strlit("5");
        reveal_strlit("6");
        reveal_strlit("7");
        reveal_strlit("8");
        reveal_strlit("9");
    }
    if d == 0 { "0" }
    else if d == 1 { "1" }
    else if d == 2 { "2" }
    else if d == 3 { "3" }
    else if d == 4 { "4" }
    else if d == 5 { "5" }
    else if d == 6 { "6" }
    else if d == 7 { "7" }
    else if d == 8 { "8" }
    else { "9" }
}

/// The digits `low` (least significant first) written most significant first.
pub open spec fn digits_text(low: Seq<u8>) -> Seq<char> {
    Seq::new(low.len(), |i: int| digit_char(low[low.len() - 1 - i] as nat))
}

/// Putting one more digit in front of the least significant ones.
proof fn lemma_digits_text_push(low: Seq<u8>, d: u8)
    ensures
        digits_text(low.push(d)) == seq![digit_char(d as nat)] + digits_text(low),
{
    assert(digits_text(low.push(d)) =~= seq![digit_char(d as nat)] + digits_text(low));
}

/// Appends the digits `low`, stored least significant first, to `out`.
fn push_digits(out: &mut String, low: &Vec<u8>)
    requires
        forall|i: int| 0 <= i < low@.len() ==> low@[i] < 10,
    ensures
        final(out)@ == old(out)@ + digits_text(low@),
{
    let ghost start = out@;
    let ghost text = digits_text(low@);
    let mut k: usize = low.len();
    while k > 0
        invariant
            k <= low@.len(),
            forall|i: int| 0 <= i < low@.len() ==> low@[i] < 10,
            text == digits_text(low@),
            out@ == start + text.subrange(0, low@.len() - k),
        decreases k,
    {
        k = k - 1;
        out.append(digit_str(low[k]));
        assert(text.subrange(0, low@.len() - k) =~= text.subrange(0, low@.len() - k - 1).push(
            text[low@.len() - k - 1],
        ));
    }
    assert(text.subrange(0, low@.len() as int) =~= text);
}

/// Appends the decimal notation of `n` to `out`.
pub fn push_decimal(out: &mut String, n: u128)
    ensures
        final(out)@ == old(out)@ + decimal(n as nat),
{
    let mut digits: Vec<u8> = Vec::new();
    let mut m: u128 = n;
    while m >= 10
        invariant
            decimal(n as nat) == decimal(m as nat) + digits_text(digits@),
            forall|i: int| 0 <= i < digits@.len() ==> digits@[i] < 10,
        decreases m,
    {
        let d: u8 = (m % 10) as u8;
        proof {
            lemma_digits_text_push(digits@, d);
            assert(decimal(m as nat) == decimal((m / 10) as nat).push(digit_char(d as nat)));
            assert(decimal((m / 10) as nat).push(digit_char(d as nat)) + digits_text(digits@)
                =~= decimal((m / 10) as nat) + (seq![digit_char(d as nat)] + digits_text(digits@)));
        }
        digits.push(d);
        m = m / 10;
    }
    let last: u8 = m as u8;
    proof {
        lemma_digits_text_push(digits@, last);
        assert(decimal(m as nat) == seq![digit_char(last as nat)]);
    }
    digits.push(last);
    push_digits(out, &digits);
}

/// Appends the last `width` decimal digits of `n` to `out`, zero-padded.
pub fn push_padded(out: &mut String, n: u32, width: u32)
    ensures
        final(out)@ == old(out)@ + padded(n as nat, width as nat),
{
    let mut digits: Vec<u8> = Vec::new();
    let mut m: u32 = n;
    let mut w: u32 = 0;
    while w < width
        invariant
            w <= width,
            padded(n as nat, width as nat) == padded(m as nat, (width - w) as nat) + digits_text(
                digits@,
            ),
            forall|i: int| 0 <= i < digits@.len() ==> digits@[i] < 10,
        decreases width - w,
    {
        let d: u8 = (m % 10) as u8;
        proof {
            lemma_digits_text_push(digits@, d);
            let rest = (width - w - 1) as nat;
            assert(padded(m as nat, (width - w) as nat) == padded((m / 10) as nat, rest).push(
                digit_char(d as nat),
            ));
            assert(padded((m / 10) as nat, rest).push(digit_char(d as nat)) + digits_text(digits@)
                =~= padded((m / 10) as nat, rest) + (seq![digit_char(d as nat)] + digits_text(
                digits@,
            )));
        }
        digits.push(d);
        m = m / 10;
        w = w + 1;
    }
    assert(padded(m as nat, 0) + digits_text(digits@) =~= digits_text(digits@));
    push_digits(out, &digits);
}

} // verus!
