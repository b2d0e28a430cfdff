use vstd::prelude::*;
use crate::db::database::{ascii_fold, nocase_eq};

verus! {

/// The character of a decimal digit.
pub open spec fn digit_char(d: int) -> char {
    (48 + d) as char
}

/// The decimal digits of a natural number, most significant first.
pub open spec fn decimal_nat(n: nat) -> Seq<char>
    decreases n,
{
    if n < 10 {
        seq![digit_char(n as int)]
    } else {
        decimal_nat(n / 10).push(digit_char((n % 10) as int))
    }
}

/// An integer written in decimal, with a minus sign when negative.
pub open spec fn decimal(x: int) -> Seq<char> {
    if x < 0 {
        seq!['-'] + decimal_nat((-x) as nat)
    } else {
        decimal_nat(x as nat)
    }
}

/// The text of one decimal digit.
fn digit_text(d: u128) -> (res: &'static str)
    requires
        d < 10,
    ensures
        res@ == seq![digit_char(d as int)],
{
    proof {
        reveal_strlit("0");
        reveal_strlit("1");
        reveal_strlit("2");
        reveal_strlit("3");
        reveal_strlit("4");
        reveal_strlit("5");
        reveal_strlit("6");
        reveal_strlit("7");
        reveal_strlit("8");
        reveal_strlit("9");
    }
    if d == 0 {
        "0"
    } else if d == 1 {
        "1"
    } else if d == 2 {
        "2"
    } else if d == 3 {
        "3"
    } else if d == 4 {
        "4"
    } else if d == 5 {
        "5"
    } else if d == 6 {
        "6"
    } else if d == 7 {
        "7"
    } else if d == 8 {
        "8"
    } else {
        "9"
    }
}

/// The digits `ds` (least significant first) as characters, most
/// significant first.
pub open spec fn digits_text(ds: Seq<u128>) -> Seq<char> {
    Seq::new(ds.len(), |i: int| digit_char(ds[ds.len() - 1 - i] as int))
}

/// An integer written in decimal, with a minus sign when negative.
pub fn int_text(x: i128) -> (res: String)
    ensures
        res@ == decimal(x as int),
{
    let neg = x < 0;
    let m0: u128 = if neg {
        ((-(x + 1)) as u128) + 1
    } else {
        x as u128
    };
    assert(m0 as int == if x < 0 { -x } else { x as int });
    let mut m: u128 = m0;
    let mut ds: Vec<u128> = Vec::new();
    while m >= 10
        invariant
            decimal_nat(m0 as nat) == decimal_nat(m as nat) + digits_text(ds@),
            forall|i: int| 0 <= i < ds@.len() ==> ds@[i] < 10,
        decreases m,
    {
        let d = m % 10;
        let ghost before = ds@;
        assert(decimal_nat(m as nat) == decimal_nat((m / 10) as nat).push(digit_char(d as int)));
        ds.push(d);
        assert(digits_text(ds@) =~= seq![digit_char(d as int)] + digits_text(before));
        assert(decimal_nat(m as nat) + digits_text(before) =~= decimal_nat((m / 10) as nat) + digits_text(ds@));
        m = m / 10;
    }
    let ghost before = ds@;
    ds.push(m);
    assert(digits_text(ds@) =~= seq![digit_char(m as int)] + digits_text(before));
    assert(decimal_nat(m0 as nat) == digits_text(ds@));
    let mut res = if neg {
        String::from_str("-")
    } else {
        String::new()
    };
    proof {
        reveal_strlit("-");
    }
    let ghost sign: Seq<char> = if neg { seq!['-'] } else { Seq::empty() };
    assert(res@ == sign);
    let n = ds.len();
    let mut k: usize = 0;
    while k < n
        invariant
            n == ds@.len(),
            0 <= k <= n,
            forall|i: int| 0 <= i < ds@.len() ==> ds@[i] < 10,
            res@ == sign + digits_text(ds@).take(k as int),
        decreases n - k,
    {
        let t = digit_text(ds[n - 1 - k]);
        let ghost before_res = res@;
        res.append(t);
        assert(digits_text(ds@).take(k + 1) =~= digits_text(ds@).take(k as int).push(
            digit_char(ds@[n - 1 - k] as int),
        ));
        assert(res@ =~= sign + digits_text(ds@).take(k + 1));
        k = k + 1;
    }
    assert(digits_text(ds@).take(n as int) =~= digits_text(ds@));
    assert(res@ =~= decimal(x as int));
    res
}

/// `a` followed by `b`.
pub fn cat(a: String, b: &str) -> (res: String)
    ensures
        res@ == a@ + b@,
{
    let mut a = a;
    a.append(b);
    a
}

fn fold_exec(c: char) -> (r: u32)
    ensures
        r == ascii_fold(c),
{
    let code = c as u32;
    if 65 <= code && code <= 90 {
        code + 32
    } else {
        code
    }
}

/// Whether two texts are equal when ASCII letters are compared without
/// their case.
pub fn nocase_equal(a: &str, b: &str) -> (res: bool)
    ensures
        res == nocase_eq(a@, b@),
{
    let n = a.unicode_len();
    if n != b.unicode_len() {
        return false;
    }
    let mut i: usize = 0;
    while i < n
        invariant
            n == a@.len(),
            n == b@.len(),
            0 <= i <= n,
            forall|k: int| 0 <= k < i ==> #[trigger] ascii_fold(a@[k]) == ascii_fold(b@[k]),
        decreases n - i,
    {
        if fold_exec(a.get_char(i)) != fold_exec(b.get_char(i)) {
            assert(ascii_fold(a@[i as int]) != ascii_fold(b@[i as int]));
            return false;
        }
        i = i + 1;
    }
    true
}

} // verus!
