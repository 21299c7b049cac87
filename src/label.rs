//! Seat labels: a row number in decimal followed by a column letter.
use vstd::prelude::*;
use vstd::string::StringExecFns;
use vstd::arithmetic::div_mod::lemma_fundamental_div_mod;

verus! {

/// The character of a decimal digit `d` (`0 <= d < 10`).
pub open spec fn digit(d: int) -> char {
    if d == 0 {
        '0'
    } else if d == 1 {
        '1'
    } else if d == 2 {
        '2'
    } else if d == 3 {
        '3'
    } else if d == 4 {
        '4'
    } else if d == 5 {
        '5'
    } else if d == 6 {
        '6'
    } else if d == 7 {
        '7'
    } else if d == 8 {
        '8'
    } else {
        '9'
    }
}

/// The decimal representation of `n`, without leading zeros.
pub open spec fn decimal(n: nat) -> Seq<char>
    decreases n,
{
    if n < 10 {
        seq![digit(n as int)]
    } else {
        decimal(n / 10).push(digit((n % 10) as int))
    }
}

/// The label of the seat at linear index `i`: row `i / k + 1` and column
/// `cols[i % k]`, where `k` is the number of columns.
pub open spec fn seat_label(i: nat, cols: Seq<char>) -> Seq<char>
    recommends
        cols.len() > 0,
{
    decimal(i / cols.len() + 1) + seq![cols[(i % cols.len()) as int]]
}

/// The labels of all `seats` seats, by linear index.
pub open spec fn seat_universe(seats: nat, cols: Seq<char>) -> Seq<Seq<char>> {
    Seq::new(seats, |i: int| seat_label(i as nat, cols))
}

/// The character sequences of a sequence of strings.
pub open spec fn views(v: Seq<String>) -> Seq<Seq<char>> {
    v.map_values(|s: String| s@)
}

proof fn lemma_digit_injective(a: int, b: int)
    requires
        0 <= a < 10,
        0 <= b < 10,
        digit(a) == digit(b),
    ensures
        a == b,
{
}

proof fn lemma_decimal_len(n: nat)
    ensures
        decimal(n).len() >= 1,
        n >= 10 ==> decimal(n).len() >= 2,
    decreases n,
{
    if n >= 10 {
        lemma_decimal_len(n / 10);
    }
}

/// Different numbers have different decimal representations.
pub proof fn lemma_decimal_injective(n: nat, m: nat)
    requires
        decimal(n) == decimal(m),
    ensures
        n == m,
    decreases n,
{
    lemma_decimal_len(n);
    lemma_decimal_len(m);
    if n < 10 && m < 10 {
        assert(decimal(n)[0] == digit(n as int));
        lemma_digit_injective(n as int, m as int);
    } else if n >= 10 && m >= 10 {
        let dn = decimal(n);
        let dm = decimal(m);
        assert(dn.last() == digit((n % 10) as int));
        assert(dm.last() == digit((m % 10) as int));
        lemma_digit_injective((n % 10) as int, (m % 10) as int);
        assert(decimal(n / 10) =~= dn.drop_last());
        assert(decimal(m / 10) =~= dm.drop_last());
        lemma_decimal_injective(n / 10, m / 10);
    }
}

/// With distinct column labels, different seats have different labels.
pub proof fn lemma_seat_label_injective(i: nat, j: nat, cols: Seq<char>)
    requires
        cols.len() > 0,
        cols.no_duplicates(),
        seat_label(i, cols) == seat_label(j, cols),
    ensures
        i == j,
{
    let k = cols.len() as int;
    let li = seat_label(i, cols);
    let lj = seat_label(j, cols);
    let di = decimal(i / cols.len() + 1);
    let dj = decimal(j / cols.len() + 1);
    lemma_decimal_len(i / cols.len() + 1);
    lemma_decimal_len(j / cols.len() + 1);
    assert(li.len() == di.len() + 1);
    assert(lj.len() == dj.len() + 1);
    assert(li.last() == cols[(i % cols.len()) as int]);
    assert(lj.last() == cols[(j % cols.len()) as int]);
    assert(li.drop_last() =~= di);
    assert(lj.drop_last() =~= dj);
    lemma_decimal_injective(i / cols.len() + 1, j / cols.len() + 1);
    lemma_fundamental_div_mod(i as int, k);
    lemma_fundamental_div_mod(j as int, k);
}

fn digit_char(d: u64) -> (r: char)
    requires
        d < 10,
    ensures
        r == digit(d as int),
{
    match d {
        0 => '0',
        1 => '1',
        2 => '2',
        3 => '3',
        4 => '4',
        5 => '5',
        6 => '6',
        7 => '7',
        8 => '8',
        _ => '9',
    }
}

fn push_decimal(n: u64, out: &mut Vec<char>)
    ensures
        final(out)@ == old(out)@ + decimal(n as nat),
    decreases n,
{
    if n >= 10 {
        push_decimal(n / 10, out);
    }
    out.push(digit_char(n % 10));
    proof {
        if n >= 10 {
            assert(decimal(n as nat) == decimal((n / 10) as nat).push(digit((n % 10) as int)));
        }
        assert(final(out)@ =~= old(out)@ + decimal(n as nat));
    }
}

/// Relies on `String`'s `FromIterator<char>`: the string holds exactly the
/// collected characters, in order.
#[verifier::external_body]
fn chars_to_string(v: &Vec<char>) -> (r: String)
    ensures
        r@ == v@,
{
    v.iter().collect()
}

/// The label of the seat at linear index `index`.
pub fn label_for(index: u64, cols: &Vec<char>) -> (r: String)
    requires
        cols.len() > 0,
        index < u64::MAX,
    ensures
        r@ == seat_label(index as nat, cols@),
{
    let k = cols.len() as u64;
    let row = index / k + 1;
    let mut chars: Vec<char> = Vec::new();
    push_decimal(row, &mut chars);
    chars.push(cols[(index % k) as usize]);
    assert(chars@ =~= seat_label(index as nat, cols@));
    chars_to_string(&chars)
}

/// The labels of all `seats` seats, in order of their linear index.
pub fn build_seat_universe(seats: u64, cols: &Vec<char>) -> (r: Vec<String>)
    requires
        cols.len() > 0,
    ensures
        views(r@) == seat_universe(seats as nat, cols@),
{
    let mut out: Vec<String> = Vec::new();
    let mut i: u64 = 0;
    while i < seats
        invariant
            i <= seats,
            cols.len() > 0,
            views(out@) =~= seat_universe(i as nat, cols@),
        decreases seats - i,
    {
        let l = label_for(i, cols);
        let ghost before = out@;
        out.push(l);
        assert(out@ =~= before.push(l));
        assert(views(out@) =~= views(before).push(l@));
        i = i + 1;
        assert(views(out@) =~= seat_universe(i as nat, cols@));
    }
    out
}

} // verus!
