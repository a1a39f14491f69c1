//! Settings of the segment downloader and the names of the files it writes.
use vstd::prelude::*;
use crate::text::{append_chars, string_of};

verus! {

/// How many segments are fetched at once, and how long one fetch may take.
#[derive(Debug)]
pub struct Downloader {
    pub concurrency: usize,
    pub timeout_seconds: u64,
}

impl Default for Downloader {
    /// Twenty fetches at once, thirty seconds each.
    fn default() -> (r: Downloader)
        ensures
            r.concurrency == 20,
            r.timeout_seconds == 30,
    {
        Downloader { concurrency: 20, timeout_seconds: 30 }
    }
}

impl Downloader {
    /// A downloader with the given limits.
    pub fn new(concurrency: usize, timeout_seconds: u64) -> (r: Downloader)
        ensures
            r.concurrency == concurrency,
            r.timeout_seconds == timeout_seconds,
    {
        Downloader { concurrency, timeout_seconds }
    }
}

/// The outcome of one segment download: its saved path or error where it finished in
/// time (`Some`), otherwise the timeout error.
pub fn settle_download<E>(finished: Option<Result<String, E>>, timeout_error: E) -> (r: Result<
    String,
    E,
>)
    ensures
        r == match finished {
            Some(outcome) => outcome,
            None => Err(timeout_error),
        },
{
    match finished {
        Some(outcome) => outcome,
        None => Err(timeout_error),
    }
}

/// The decimal digit for `d` (below ten).
pub open spec fn digit_char(d: nat) -> char {
    seq!['0', '1', '2', '3', '4', '5', '6', '7', '8', '9'][d as int]
}

/// The decimal digits of `n`, without leading zeros.
pub open spec fn decimal(n: nat) -> Seq<char>
    decreases n,
{
    if n < 10 {
        seq![digit_char(n)]
    } else {
        decimal(n / 10).push(digit_char(n % 10))
    }
}

/// `s` with zeros put before it until it is `width` long.
pub open spec fn zero_padded(s: Seq<char>, width: nat) -> Seq<char> {
    if s.len() >= width {
        s
    } else {
        Seq::new((width - s.len()) as nat, |i: int| '0') + s
    }
}

/// `segment_` followed by the index in decimal, at least six digits wide, and `.ts`.
pub open spec fn segment_file_name_of(index: nat) -> Seq<char> {
    seq!['s', 'e', 'g', 'm', 'e', 'n', 't', '_'] + zero_padded(decimal(index), 6) + seq![
        '.',
        't',
        's',
    ]
}

fn digit(d: usize) -> (c: char)
    requires
        d < 10,
    ensures
        c == digit_char(d as nat),
{
    let digits = ['0', '1', '2', '3', '4', '5', '6', '7', '8', '9'];
    assert(digits@ =~= seq!['0', '1', '2', '3', '4', '5', '6', '7', '8', '9']);
    digits[d]
}

fn push_decimal(n: usize, out: &mut Vec<char>)
    ensures
        final(out)@ == old(out)@ + decimal(n as nat),
    decreases n,
{
    if n >= 10 {
        push_decimal(n / 10, out);
    }
    out.push(digit(n % 10));
    proof {
        if n >= 10 {
            assert(old(out)@ + decimal(n as nat) =~= old(out)@ + decimal((n / 10) as nat) + seq![
                digit_char((n % 10) as nat),
            ]);
        } else {
            assert(decimal(n as nat) =~= seq![digit_char((n % 10) as nat)]);
        }
    }
}

/// The name of the file that segment number `index` is saved to: `segment_`, the index in
/// decimal padded with zeros to six digits, `.ts` (as `format!("segment_{:06}.ts", index)`).
pub fn segment_file_name(index: usize) -> (r: String)
    ensures
        r@ == segment_file_name_of(index as nat),
{
    let mut digits: Vec<char> = Vec::new();
    push_decimal(index, &mut digits);
    assert(digits@ =~= decimal(index as nat));
    let mut padded: Vec<char> = Vec::new();
    let mut k: usize = digits.len();
    while k < 6
        invariant
            digits.len() <= k <= 6 || (k == digits.len() && k > 6),
            padded@ == Seq::new((k - digits.len()) as nat, |i: int| '0'),
        decreases 6 - k,
    {
        padded.push('0');
        k = k + 1;
        assert(padded@ =~= Seq::new((k - digits.len()) as nat, |i: int| '0'));
    }
    let mut name = string_of(&['s', 'e', 'g', 'm', 'e', 'n', 't', '_']);
    append_chars(&mut name, &padded);
    append_chars(&mut name, &digits);
    append_chars(&mut name, &['.', 't', 's']);
    proof {
        if digits.len() >= 6 {
            assert(padded@ =~= Seq::<char>::empty());
        }
        assert(name@ =~= segment_file_name_of(index as nat));
    }
    name
}


/// The number that a string of decimal digits writes.
pub open spec fn decimal_value(s: Seq<char>) -> int
    decreases s.len(),
{
    if s.len() == 0 {
        0
    } else {
        decimal_value(s.drop_last()) * 10 + digit_value(s.last())
    }
}

/// The value of a decimal digit.
pub open spec fn digit_value(c: char) -> int {
    (c as int) - ('0' as int)
}

proof fn lemma_digit_char_value(d: nat)
    requires
        d < 10,
    ensures
        digit_value(digit_char(d)) == d,
{
    let t = seq!['0', '1', '2', '3', '4', '5', '6', '7', '8', '9'];
    assert(t[0] == '0' && t[1] == '1' && t[2] == '2' && t[3] == '3' && t[4] == '4');
    assert(t[5] == '5' && t[6] == '6' && t[7] == '7' && t[8] == '8' && t[9] == '9');
}

proof fn lemma_decimal_value(n: nat)
    ensures
        decimal_value(decimal(n)) == n,
    decreases n,
{
    lemma_digit_char_value(n % 10);
    if n < 10 {
        assert(decimal(n).drop_last() =~= Seq::<char>::empty());
        assert(decimal(n).last() == digit_char(n % 10));
        assert(decimal_value(decimal(n)) == decimal_value(Seq::<char>::empty()) * 10 + digit_value(
            digit_char(n % 10),
        ));
    } else {
        lemma_decimal_value(n / 10);
        assert(decimal(n).drop_last() =~= decimal(n / 10));
        assert(decimal(n).last() == digit_char(n % 10));
        assert((n / 10) * 10 + n % 10 == n);
        assert(decimal(n).len() > 0);
        assert(decimal_value(decimal(n)) == decimal_value(decimal(n / 10)) * 10 + digit_value(
            digit_char(n % 10),
        ));
    }
}

proof fn lemma_zeros_value(k: nat, s: Seq<char>)
    ensures
        decimal_value(Seq::new(k, |i: int| '0') + s) == decimal_value(s),
    decreases k + s.len(),
{
    let z = Seq::new(k, |i: int| '0');
    if s.len() > 0 {
        assert((z + s).drop_last() =~= z + s.drop_last());
        lemma_zeros_value(k, s.drop_last());
    } else if k > 0 {
        assert((z + s).drop_last() =~= Seq::new((k - 1) as nat, |i: int| '0') + s);
        lemma_zeros_value((k - 1) as nat, s);
    } else {
        assert(z + s =~= s);
    }
}

/// Distinct segments are saved to distinct files: the file name gives the index back.
pub proof fn lemma_segment_file_name_injective(a: nat, b: nat)
    requires
        segment_file_name_of(a) == segment_file_name_of(b),
    ensures
        a == b,
{
    let prefix = seq!['s', 'e', 'g', 'm', 'e', 'n', 't', '_'];
    let suffix = seq!['.', 't', 's'];
    let pa = zero_padded(decimal(a), 6);
    let pb = zero_padded(decimal(b), 6);
    let na = segment_file_name_of(a);
    assert(na.subrange(8, na.len() - 3) =~= pa);
    assert(segment_file_name_of(b).subrange(8, na.len() - 3) =~= pb);
    assert(pa == pb);
    lemma_decimal_value(a);
    lemma_decimal_value(b);
    if decimal(a).len() < 6 {
        lemma_zeros_value((6 - decimal(a).len()) as nat, decimal(a));
    }
    if decimal(b).len() < 6 {
        lemma_zeros_value((6 - decimal(b).len()) as nat, decimal(b));
    }
}

} // verus!
