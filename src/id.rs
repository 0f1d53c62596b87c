//! Migration identifiers and their decimal text.

use vstd::prelude::*;

verus! {

/// Is `c` one of the ASCII digits `0` to `9`?
pub open spec fn is_ascii_digit(c: char) -> bool {
    '0' <= c && c <= '9'
}

/// A run of ASCII digits has a non-negative value.
pub proof fn lemma_digits_value_nonneg(s: Seq<char>)
    requires
        forall|i: int| 0 <= i < s.len() ==> is_ascii_digit(#[trigger] s[i]),
    ensures
        digits_value(s) >= 0,
    decreases s.len(),
{
    if s.len() > 0 {
        assert(is_ascii_digit(s[s.len() - 1]));
        lemma_digits_value_nonneg(s.drop_last());
    }
}

/// Is `s` a non-empty run of ASCII digits?
pub open spec fn is_digit_run(s: Seq<char>) -> bool {
    s.len() > 0 && forall|i: int| 0 <= i < s.len() ==> is_ascii_digit(#[trigger] s[i])
}

/// The value of a run of ASCII digits, most significant first.
pub open spec fn digits_value(s: Seq<char>) -> int
    decreases s.len(),
{
    if s.len() == 0 {
        0
    } else {
        digits_value(s.drop_last()) * 10 + (s.last() as int - '0' as int)
    }
}

/// The integer that `s` spells as an optional sign followed by decimal digits,
/// if it spells one.
pub open spec fn signed_decimal(s: Seq<char>) -> Option<int> {
    if s.len() > 0 && s[0] == '-' && is_digit_run(s.drop_first()) {
        Some(-digits_value(s.drop_first()))
    } else if s.len() > 0 && s[0] == '+' && is_digit_run(s.drop_first()) {
        Some(digits_value(s.drop_first()))
    } else if is_digit_run(s) {
        Some(digits_value(s))
    } else {
        None
    }
}

/// The `i64` that `s` spells in decimal, if it spells one that fits.
pub open spec fn decimal_i64(s: Seq<char>) -> Option<int> {
    match signed_decimal(s) {
        Some(v) => if i64::MIN <= v && v <= i64::MAX {
            Some(v)
        } else {
            None
        },
        None => None,
    }
}

/// Relies on `i64`'s `FromStr` (through `str::parse`): it accepts exactly an
/// optional `+` or `-` followed by ASCII digits whose value fits in an `i64`,
/// and returns that value.
#[verifier::external_body]
fn parse_i64(s: &str) -> (r: Result<i64, std::num::ParseIntError>)
    ensures
        r is Ok <==> decimal_i64(s@) is Some,
        r is Ok ==> r->Ok_0 as int == decimal_i64(s@)->Some_0,
{
    s.parse::<i64>()
}

/// Why text or an integer is not a migration identifier.
#[derive(Debug)]
pub enum ParseMigrationIdError {
    /// The text is not a decimal integer that fits in 64 bits.
    ParseInt(std::num::ParseIntError),
    /// The integer is negative.
    Negative(i64),
}

/// A migration identifier: a non-negative 64-bit integer, ordered as integers.
#[derive(Copy, Clone, Debug, Hash, PartialEq, Eq, PartialOrd, Ord, Structural)]
pub struct MigrationId(i64);

impl MigrationId {
    #[verifier::type_invariant]
    spec fn non_negative(self) -> bool {
        self.0 >= 0
    }
}

impl View for MigrationId {
    type V = int;

    closed spec fn view(&self) -> int {
        self.0 as int
    }
}

/// The number of decimal digits of `n`; zero has one digit.
pub open spec fn decimal_width(n: int) -> nat
    decreases n,
{
    if n < 10 {
        1
    } else {
        1 + decimal_width(n / 10)
    }
}

/// The outcome of building an identifier from the integer `v`.
pub open spec fn id_from_i64_ok(v: i64, r: Result<MigrationId, ParseMigrationIdError>) -> bool {
    if v < 0 {
        r matches Err(ParseMigrationIdError::Negative(n)) && n == v
    } else {
        r matches Ok(id) && id@ == v as int
    }
}

/// Building an identifier from a non-negative integer and reading it back
/// gives that integer; a negative integer is refused as negative.
pub proof fn law_identifier_round_trip(n: i64, r: Result<MigrationId, ParseMigrationIdError>)
    requires
        id_from_i64_ok(n, r),
    ensures
        n >= 0 ==> (r matches Ok(id) && id@ == n),
        n < 0 ==> (r matches Err(ParseMigrationIdError::Negative(v)) && v == n),
{
}

proof fn lemma_width_bound(n: int, k: nat)
    requires
        0 <= n,
        k >= 1,
        n < vstd::arithmetic::power::pow(10, k),
    ensures
        decimal_width(n) <= k,
    decreases k,
{
    reveal(vstd::arithmetic::power::pow);
    if n >= 10 {
        assert(k >= 2) by {
            if k == 1 {
                vstd::arithmetic::power::lemma_pow1(10);
            }
        }
        let p = vstd::arithmetic::power::pow(10, (k - 1) as nat);
        assert(n / 10 < p) by {
            assert(vstd::arithmetic::power::pow(10, k) == 10 * p);
            vstd::arithmetic::div_mod::lemma_div_is_ordered(n, 10 * p - 1, 10);
            vstd::arithmetic::div_mod::lemma_div_multiples_vanish_fancy(p - 1, 9, 10);
        }
        lemma_width_bound(n / 10, (k - 1) as nat);
    }
}

impl MigrationId {
    /// The identifier with value `value`, which must not be negative.
    pub fn new(value: i64) -> (r: Result<MigrationId, ParseMigrationIdError>)
        ensures
            id_from_i64_ok(value, r),
    {
        if value < 0 {
            Err(ParseMigrationIdError::Negative(value))
        } else {
            Ok(MigrationId(value))
        }
    }

    /// Reads an identifier from decimal text.
    pub fn from_decimal(s: &str) -> (r: Result<MigrationId, ParseMigrationIdError>)
        ensures
            decimal_i64(s@) is None ==> r matches Err(ParseMigrationIdError::ParseInt(_)),
            decimal_i64(s@) is Some ==> id_from_i64_ok(decimal_i64(s@)->Some_0 as i64, r),
    {
        match parse_i64(s) {
            Ok(v) => MigrationId::new(v),
            Err(e) => Err(ParseMigrationIdError::ParseInt(e)),
        }
    }

    /// The identifier's integer value.
    pub fn as_i64(&self) -> (r: i64)
        ensures
            r as int == self@,
            r >= 0,
    {
        proof {
            use_type_invariant(self);
        }
        self.0
    }

    /// The number of decimal digits of the identifier.
    pub fn width(&self) -> (r: usize)
        ensures
            r as int == decimal_width(self@),
            1 <= r <= 19,
    {
        proof {
            use_type_invariant(self);
            vstd::arithmetic::power::lemma_pow_positive(10, 19);
            assert(vstd::arithmetic::power::pow(10, 19) == 10000000000000000000int) by {
                reveal_with_fuel(vstd::arithmetic::power::pow, 20);
            }
            lemma_width_bound(self.0 as int, 19);
        }
        let mut n: i64 = self.0;
        let mut w: usize = 1;
        while n >= 10
            invariant
                0 <= n,
                w >= 1,
                w + decimal_width(n as int) == decimal_width(self@) + 1,
                decimal_width(self@) <= 19,
            decreases n,
        {
            n = n / 10;
            w = w + 1;
        }
        w
    }
}

impl TryFrom<i64> for MigrationId {
    type Error = ParseMigrationIdError;

    fn try_from(value: i64) -> (r: Result<MigrationId, ParseMigrationIdError>) {
        MigrationId::new(value)
    }
}

impl vstd::std_specs::convert::TryFromSpecImpl<i64> for MigrationId {
    open spec fn obeys_try_from_spec() -> bool {
        true
    }

    closed spec fn try_from_spec(v: i64) -> Result<MigrationId, ParseMigrationIdError> {
        if v < 0 {
            Err(ParseMigrationIdError::Negative(v))
        } else {
            Ok(MigrationId(v))
        }
    }
}

impl From<MigrationId> for i64 {
    fn from(value: MigrationId) -> (r: i64) {
        value.as_i64()
    }
}

impl vstd::std_specs::convert::FromSpecImpl<MigrationId> for i64 {
    open spec fn obeys_from_spec() -> bool {
        true
    }

    open spec fn from_spec(v: MigrationId) -> i64 {
        v@ as i64
    }
}

impl std::str::FromStr for MigrationId {
    type Err = ParseMigrationIdError;

    fn from_str(s: &str) -> (r: Result<MigrationId, ParseMigrationIdError>) {
        MigrationId::from_decimal(s)
    }
}

} // verus!
