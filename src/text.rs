//! Text helpers: characters of a string, path joining and decimal rendering.

use vstd::prelude::*;

verus! {

broadcast use vstd::string::group_string_axioms;

/// The characters of `s`, in order.
pub fn chars_of(s: &str) -> (r: Vec<char>)
    ensures
        r@ == s@,
{
    let mut r: Vec<char> = Vec::new();
    for c in it: s.chars()
        invariant
            it.seq() == s@,
            r@ == it.seq().take(it.index() as int),
    {
        r.push(c);
    }
    assert(r@ =~= s@);
    r
}

/// `name` placed under the directory `base`, with one `/` between them.
pub open spec fn join_path(base: Seq<char>, name: Seq<char>) -> Seq<char> {
    if base.len() == 0 {
        name
    } else if base.last() == '/' {
        base + name
    } else {
        base + seq!['/'] + name
    }
}

/// `name` placed under the directory `base`.
pub fn join(base: &str, name: &str) -> (r: String)
    ensures
        r@ == join_path(base@, name@),
{
    let n = base.unicode_len();
    if n == 0 {
        return name.to_owned();
    }
    let mut r = base.to_owned();
    if base.get_char(n - 1) != '/' {
        proof {
            reveal_strlit("/");
        }
        r.append("/");
    }
    r.append(name);
    r
}

/// The character of the decimal digit `d`.
pub open spec fn digit_char(d: int) -> char {
    ('0' as int + d) as char
}

/// The decimal digits of `n`, most significant first, without leading zeros.
pub open spec fn decimal(n: nat) -> Seq<char>
    decreases n,
{
    if n < 10 {
        seq![digit_char(n as int)]
    } else {
        decimal(n / 10) + seq![digit_char((n % 10) as int)]
    }
}

/// `n` in decimal, with zeros in front up to `width` characters.
pub open spec fn zero_padded(n: nat, width: nat) -> Seq<char> {
    let d = decimal(n);
    if d.len() < width {
        Seq::new((width - d.len()) as nat, |i: int| '0') + d
    } else {
        d
    }
}

/// The decimal text of a number has as many characters as it has digits.
pub proof fn lemma_decimal_len(n: nat)
    ensures
        decimal(n).len() == crate::id::decimal_width(n as int),
    decreases n,
{
    if n >= 10 {
        lemma_decimal_len(n / 10);
    }
}

/// The decimal text of a number starts with `0` only for zero.
pub proof fn lemma_decimal_leading(n: nat)
    ensures
        decimal(n).len() >= 1,
        decimal(n)[0] == '0' ==> n == 0,
    decreases n,
{
    if n >= 10 {
        lemma_decimal_leading(n / 10);
        assert(decimal(n)[0] == decimal(n / 10)[0]);
    }
}

/// Different digits have different characters.
proof fn lemma_digit_char_injective(a: int, b: int)
    requires
        0 <= a < 10,
        0 <= b < 10,
        digit_char(a) == digit_char(b),
    ensures
        a == b,
{
    assert(digit_char(a) as int == '0' as int + a);
    assert(digit_char(b) as int == '0' as int + b);
}

/// Different numbers have different decimal texts.
pub proof fn lemma_decimal_injective(a: nat, b: nat)
    requires
        decimal(a) == decimal(b),
    ensures
        a == b,
    decreases a,
{
    lemma_decimal_len(a);
    lemma_decimal_len(b);
    if a < 10 && b < 10 {
        assert(decimal(a) == seq![digit_char(a as int)]);
        assert(decimal(b) == seq![digit_char(b as int)]);
        assert(seq![digit_char(a as int)][0] == digit_char(a as int));
        assert(seq![digit_char(b as int)][0] == digit_char(b as int));
        assert(digit_char(a as int) == digit_char(b as int));
        lemma_digit_char_injective(a as int, b as int);
    } else if a >= 10 && b >= 10 {
        let da = decimal(a);
        let db = decimal(b);
        assert(da.last() == db.last());
        lemma_digit_char_injective((a % 10) as int, (b % 10) as int);
        assert(da.drop_last() =~= decimal(a / 10));
        assert(db.drop_last() =~= decimal(b / 10));
        lemma_decimal_injective(a / 10, b / 10);
        vstd::arithmetic::div_mod::lemma_fundamental_div_mod(a as int, 10);
        vstd::arithmetic::div_mod::lemma_fundamental_div_mod(b as int, 10);
    } else if a >= 10 {
        lemma_decimal_leading(a / 10);
        assert(decimal(a).len() >= 2);
    } else {
        lemma_decimal_leading(b / 10);
        assert(decimal(b).len() >= 2);
    }
}

/// Padded to a width that both fit in, different numbers stay different.
pub proof fn lemma_zero_padded_injective(a: nat, b: nat, width: nat)
    requires
        decimal(a).len() <= width,
        decimal(b).len() <= width,
        zero_padded(a, width) == zero_padded(b, width),
    ensures
        a == b,
{
    let da = decimal(a);
    let db = decimal(b);
    let pa = zero_padded(a, width);
    let pb = zero_padded(b, width);
    lemma_decimal_leading(a);
    lemma_decimal_leading(b);
    assert(pa.len() == width);
    assert(pb.len() == width);
    if da.len() == db.len() {
        assert(da =~= pa.subrange(width - da.len(), width as int));
        assert(db =~= pb.subrange(width - db.len(), width as int));
        lemma_decimal_injective(a, b);
    } else if da.len() < db.len() {
        let k = width - db.len();
        assert(pb[k] == db[0]);
        assert(pa[k] == '0');
        assert(db.len() >= 2);
        assert(b == 0);
    } else {
        let k = width - da.len();
        assert(pa[k] == da[0]);
        assert(pb[k] == '0');
        assert(a == 0);
    }
}

/// The digits of `ds` as characters.
pub open spec fn digit_chars(ds: Seq<u8>) -> Seq<char> {
    ds.map_values(|d: u8| digit_char(d as int))
}

/// The one-character text of the digit `d`.
fn digit_str(d: u8) -> (r: &'static str)
    requires
        d < 10,
    ensures
        r@ == seq![digit_char(d as int)],
{
    proof {
        reveal_strlit("0");
        reveal_strlit("1");
        reveal_strlit("2");
        reveal_strlit("3");
        reveal_strlit("4");
        reveal_strlit("5");
        reveal_strlit("6");
        reveal_strlit("7");
        reveal_strlit("8");
        reveal_strlit("9");
    }
    let r = match d {
        0 => "0",
        1 => "1",
        2 => "2",
        3 => "3",
        4 => "4",
        5 => "5",
        6 => "6",
        7 => "7",
        8 => "8",
        _ => "9",
    };
    assert(r@ =~= seq![digit_char(d as int)]);
    r
}

/// `n` in decimal, with zeros in front up to `width` characters.
pub fn zero_padded_decimal(n: u64, width: usize) -> (r: String)
    ensures
        r@ == zero_padded(n as nat, width as nat),
{
    let mut ds: Vec<u8> = Vec::new();
    let mut m: u64 = n;
    while m >= 10
        invariant
            decimal(n as nat) == decimal(m as nat) + digit_chars(ds@),
            forall|i: int| 0 <= i < ds@.len() ==> ds@[i] < 10,
        decreases m,
    {
        let d = (m % 10) as u8;
        let ghost old_ds = ds@;
        ds.insert(0, d);
        assert(digit_chars(ds@) =~= seq![digit_char(d as int)] + digit_chars(old_ds));
        assert(decimal(m as nat) == decimal((m / 10) as nat) + seq![digit_char(d as int)]);
        m = m / 10;
        assert(decimal(n as nat) =~= decimal(m as nat) + digit_chars(ds@));
    }
    let ghost old_ds = ds@;
    ds.insert(0, m as u8);
    assert(decimal(n as nat) =~= digit_chars(ds@)) by {
        assert(digit_chars(ds@) =~= seq![digit_char(m as int)] + digit_chars(old_ds));
    }
    let mut r = String::new();
    let mut k: usize = ds.len();
    while k < width
        invariant
            ds@.len() <= k <= width || (k == ds@.len() && k >= width),
            r@ == Seq::new((k - ds@.len()) as nat, |i: int| '0'),
        decreases width - k,
    {
        proof {
            reveal_strlit("0");
        }
        r.append("0");
        k = k + 1;
        assert(r@ =~= Seq::new((k - ds@.len()) as nat, |i: int| '0'));
    }
    let ghost pad = r@;
    let mut i: usize = 0;
    while i < ds.len()
        invariant
            i <= ds@.len(),
            r@ == pad + digit_chars(ds@.take(i as int)),
            forall|j: int| 0 <= j < ds@.len() ==> ds@[j] < 10,
        decreases ds@.len() - i,
    {
        let s = digit_str(ds[i]);
        r.append(s);
        assert(digit_chars(ds@.take(i + 1)) =~= digit_chars(ds@.take(i as int)) + s@);
        i = i + 1;
    }
    assert(ds@.take(i as int) =~= ds@);
    assert(r@ =~= zero_padded(n as nat, width as nat));
    r
}

} // verus!
