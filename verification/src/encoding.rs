//! Text forms of numbers: hashes in hexadecimal, amounts in decimal, and accounts in the
//! `nano_` address form (base 32 with a BLAKE2b checksum).
use crate::blocks::{push_u256, u256_bytes};
use crate::crypto::{blake2b_40, blake2b_40_digest};
use crate::primitives::{lemma_number_order, lemma_number_succ, number_of, two_pow_128, Account, Amount, BlockHash};
use vstd::prelude::*;

verus! {

/// The last `n` digits of `x` in base `base`, most significant first, each written with the
/// character that `alphabet` has for it.
pub open spec fn digits(x: nat, base: nat, n: nat, alphabet: Seq<char>) -> Seq<char>
    decreases n,
{
    if n == 0 {
        Seq::empty()
    } else {
        digits(x / base, base, (n - 1) as nat, alphabet).push(alphabet[(x % base) as int])
    }
}

/// The hexadecimal digits, upper case.
pub open spec fn hex_alphabet() -> Seq<char> {
    seq!['0', '1', '2', '3', '4', '5', '6', '7', '8', '9', 'A', 'B', 'C', 'D', 'E', 'F']
}

/// The decimal digits.
pub open spec fn decimal_alphabet() -> Seq<char> {
    seq!['0', '1', '2', '3', '4', '5', '6', '7', '8', '9']
}

/// The decimal form of `x`: its digits without leading zeros ("0" for zero).
pub open spec fn decimal(x: nat) -> Seq<char>
    decreases x,
{
    if x < 10 {
        seq![decimal_alphabet()[x as int]]
    } else {
        decimal(x / 10).push(decimal_alphabet()[(x % 10) as int])
    }
}

/// `digits` has `n` characters.
pub proof fn lemma_digits_len(x: nat, base: nat, n: nat, alphabet: Seq<char>)
    requires
        base > 0,
    ensures
        digits(x, base, n, alphabet).len() == n,
    decreases n,
{
    if n > 0 {
        lemma_digits_len(x / base, base, (n - 1) as nat, alphabet);
    }
}

/// Dividing a 256-bit number given by its halves by a power of two up to 2^7: the quotient's
/// halves, and the remainder is that of the lower half.
proof fn lemma_div_halves(hi: u128, lo: u128, b: nat)
    requires
        b == 16 || b == 32,
    ensures
        (hi as nat % b) * (two_pow_128() / b) + lo as nat / b < two_pow_128(),
        number_of((hi as nat / b) as u128, ((hi as nat % b) * (two_pow_128() / b) + lo as nat / b) as u128)
            == number_of(hi, lo) / b,
        number_of(hi, lo) % b == lo as nat % b,
{
    let q = two_pow_128() / b;
    assert(two_pow_128() == q * b);
    let h = hi as nat;
    let l = lo as nat;
    assert((h % b) * q + l / b < two_pow_128()) by (nonlinear_arith)
        requires
            h % b < b,
            l < q * b,
            two_pow_128() == q * b,
            b > 0,
    {
        assert(l / b < q) by {
            vstd::arithmetic::div_mod::lemma_div_by_multiple_is_strongly_ordered(l as int, (q * b) as int, q as int, b as int);
        }
        assert((h % b) * q <= (b - 1) * q);
    }
    assert(number_of(hi, lo) == (h / b * two_pow_128() + (h % b) * q + l / b) * b + l % b) by (nonlinear_arith)
        requires
            h == (h / b) * b + h % b,
            l == (l / b) * b + l % b,
            two_pow_128() == q * b,
            number_of(hi, lo) == h * two_pow_128() + l,
    ;
    vstd::arithmetic::div_mod::lemma_fundamental_div_mod(h as int, b as int);
    vstd::arithmetic::div_mod::lemma_fundamental_div_mod(l as int, b as int);
    vstd::arithmetic::div_mod::lemma_fundamental_div_mod_converse(
        number_of(hi, lo) as int,
        b as int,
        (h / b * two_pow_128() + (h % b) * q + l / b) as int,
        (l % b) as int,
    );
}

/// Appends the last `n` digits in base `base` (16 or 32) of the 256-bit number with halves
/// `hi` and `lo`.
fn push_digits(out: &mut Vec<char>, hi: u128, lo: u128, base: u128, n: usize, alphabet: &[char])
    requires
        base == 16 || base == 32,
        alphabet@.len() == base,
    ensures
        final(out)@ == old(out)@ + digits(number_of(hi, lo), base as nat, n as nat, alphabet@),
    decreases n,
{
    if n == 0 {
        assert(old(out)@ + Seq::<char>::empty() =~= old(out)@);
        return ;
    }
    proof {
        lemma_div_halves(hi, lo, base as nat);
    }
    let shift: u128 = if base == 16 {
        0x10000000000000000000000000000000
    } else {
        0x8000000000000000000000000000000
    };
    assert(shift == two_pow_128() / base as nat);
    let new_lo: u128 = (hi % base) * shift + lo / base;
    let new_hi: u128 = hi / base;
    push_digits(out, new_hi, new_lo, base, n - 1, alphabet);
    out.push(alphabet[(lo % base) as usize]);
    assert(final(out)@ == old(out)@ + digits(number_of(hi, lo), base as nat, n as nat, alphabet@));
}

/// `b` to the power `e`.
pub open spec fn power(b: nat, e: nat) -> nat
    decreases e,
{
    if e == 0 {
        1
    } else {
        b * power(b, (e - 1) as nat)
    }
}

/// The digits of a number whose lower part `c` takes the last `m` digits: those of the upper
/// part `a`, then those of `c`.
pub proof fn lemma_digits_split(a: nat, c: nat, b: nat, n: nat, m: nat, alphabet: Seq<char>)
    requires
        b > 0,
        c < power(b, m),
    ensures
        digits(a * power(b, m) + c, b, n + m, alphabet) == digits(a, b, n, alphabet) + digits(
            c,
            b,
            m,
            alphabet,
        ),
    decreases m,
{
    if m == 0 {
        assert(c == 0);
        assert(a * power(b, 0) + c == a);
        assert(digits(a, b, n, alphabet) + digits(c, b, 0, alphabet) =~= digits(a, b, n, alphabet));
    } else {
        let m1 = (m - 1) as nat;
        let x = a * power(b, m1);
        assert(a * power(b, m) == x * b) by (nonlinear_arith)
            requires
                power(b, m) == b * power(b, m1),
                x == a * power(b, m1),
        ;
        assert(c / b < power(b, m1)) by (nonlinear_arith)
            requires
                c < b * power(b, m1),
                b > 0,
        {
            vstd::arithmetic::div_mod::lemma_div_by_multiple_is_strongly_ordered(
                c as int,
                (b * power(b, m1)) as int,
                power(b, m1) as int,
                b as int,
            );
        }
        vstd::arithmetic::div_mod::lemma_fundamental_div_mod(c as int, b as int);
        assert(x * b + c == (x + c / b) * b + c % b) by (nonlinear_arith)
            requires
                c == b * (c / b) + c % b,
        ;
        vstd::arithmetic::div_mod::lemma_fundamental_div_mod_converse(
            (x * b + c) as int,
            b as int,
            (x + c / b) as int,
            (c % b) as int,
        );
        lemma_digits_split(a, c / b, b, n, m1, alphabet);
        assert((n + m - 1) as nat == n + m1);
        assert(digits(a * power(b, m) + c, b, n + m, alphabet) == digits(x + c / b, b, n + m1, alphabet).push(
            alphabet[(c % b) as int],
        ));
        assert(digits(c, b, m, alphabet) == digits(c / b, b, m1, alphabet).push(alphabet[(c % b) as int]));
        assert(digits(a, b, n, alphabet) + digits(c / b, b, m1, alphabet).push(alphabet[(c % b) as int])
            =~= (digits(a, b, n, alphabet) + digits(c / b, b, m1, alphabet)).push(alphabet[(c % b) as int]));
    }
}

/// `String::from_iter` over characters: the string of exactly these characters.
#[verifier::external_body]
fn string_from_chars(chars: Vec<char>) -> (r: String)
    ensures
        r@ == chars@,
{
    String::from_iter(chars)
}

/// Appends the decimal form of `x`.
fn push_decimal(out: &mut Vec<char>, x: u128, alphabet: &[char])
    requires
        alphabet@ == decimal_alphabet(),
    ensures
        final(out)@ == old(out)@ + decimal(x as nat),
    decreases x,
{
    if x >= 10 {
        push_decimal(out, x / 10, alphabet);
    }
    out.push(alphabet[(x % 10) as usize]);
    assert(final(out)@ =~= old(out)@ + decimal(x as nat));
}

impl BlockHash {
    /// The 64 hexadecimal digits of the hash, upper case.
    pub fn encode_hex(&self) -> (r: String)
        ensures
            r@ == digits(self.number(), 16, 64, hex_alphabet()),
    {
        let alphabet: [char; 16] = [
            '0', '1', '2', '3', '4', '5', '6', '7', '8', '9', 'A', 'B', 'C', 'D', 'E', 'F',
        ];
        assert(alphabet@ =~= hex_alphabet());
        let mut out: Vec<char> = Vec::new();
        push_digits(&mut out, self.hi, self.lo, 16, 64, &alphabet);
        assert(out@ =~= digits(self.number(), 16, 64, hex_alphabet()));
        string_from_chars(out)
    }
}

impl Amount {
    /// The amount of raw in decimal.
    pub fn to_string_dec(&self) -> (r: String)
        ensures
            r@ == decimal(self.raw as nat),
    {
        let alphabet: [char; 10] = ['0', '1', '2', '3', '4', '5', '6', '7', '8', '9'];
        assert(alphabet@ =~= decimal_alphabet());
        let mut out: Vec<char> = Vec::new();
        push_decimal(&mut out, self.raw, &alphabet);
        assert(out@ =~= decimal(self.raw as nat));
        string_from_chars(out)
    }
}

/// The little-endian value of a byte string.
pub open spec fn le_value(s: Seq<u8>) -> nat
    decreases s.len(),
{
    if s.len() == 0 {
        0
    } else {
        s[0] as nat + 256 * le_value(s.drop_first())
    }
}

/// The digits of account addresses: base 32 without the look-alikes 0, 2, l and v.
pub open spec fn account_alphabet() -> Seq<char> {
    seq![
        '1', '3', '4', '5', '6', '7', '8', '9', 'a', 'b', 'c', 'd', 'e', 'f', 'g', 'h', 'i', 'j',
        'k', 'm', 'n', 'o', 'p', 'q', 'r', 's', 't', 'u', 'w', 'x', 'y', 'z',
    ]
}

/// The checksum of an account: the 5-byte BLAKE2b digest of its 32 bytes (the five bytes of
/// the digest), read little-endian.
pub open spec fn account_checksum(a: Account) -> nat {
    let digest = blake2b_40(u256_bytes(a.hi, a.lo));
    if digest.len() >= 5 {
        le_value(digest.take(5))
    } else {
        le_value(digest)
    }
}

/// The little-endian value of bytes is below 256 to the power of their number.
pub(crate) proof fn lemma_le_value_bound(s: Seq<u8>)
    ensures
        le_value(s) < power(256, s.len()),
    decreases s.len(),
{
    if s.len() > 0 {
        lemma_le_value_bound(s.drop_first());
        let v = le_value(s.drop_first());
        let p = power(256, (s.len() - 1) as nat);
        assert(s[0] + 256 * v < 256 * p) by (nonlinear_arith)
            requires
                v < p,
                s[0] < 256,
        ;
    }
}

/// A checksum fits in 40 bits.
pub proof fn lemma_checksum_bound(a: Account)
    ensures
        account_checksum(a) < power(32, 8),
        power(32, 8) == 0x100_0000_0000,
{
    let d = blake2b_40(u256_bytes(a.hi, a.lo));
    let t = if d.len() >= 5 {
        d.take(5)
    } else {
        d
    };
    if d.len() >= 5 {
        lemma_le_value_bound(t);
        assert(power(256, 5) == 0x100_0000_0000) by {
            reveal_with_fuel(power, 6);
        }
    } else {
        lemma_le_value_bound(t);
        assert(power(256, t.len()) <= power(256, 5)) by {
            lemma_power_grows(256, t.len(), 5);
        }
        assert(power(256, 5) == 0x100_0000_0000) by {
            reveal_with_fuel(power, 6);
        }
    }
    assert(power(32, 8) == 0x100_0000_0000) by {
        reveal_with_fuel(power, 9);
    }
}

/// `power(b, e)` grows with `e` for a base above zero.
pub proof fn lemma_power_grows(b: nat, e1: nat, e2: nat)
    requires
        b > 0,
        e1 <= e2,
    ensures
        power(b, e1) <= power(b, e2),
    decreases e2,
{
    if e1 < e2 {
        lemma_power_grows(b, e1, (e2 - 1) as nat);
        assert(power(b, (e2 - 1) as nat) <= b * power(b, (e2 - 1) as nat)) by (nonlinear_arith)
            requires
                b > 0,
        ;
    }
}

/// The checksum of an account.
fn checksum_of(a: &Account) -> (r: u64)
    ensures
        r == account_checksum(*a),
        r < 0x100_0000_0000,
{
    let mut bytes: Vec<u8> = Vec::new();
    push_u256(&mut bytes, a.hi, a.lo);
    assert(bytes@ =~= u256_bytes(a.hi, a.lo));
    let check = blake2b_40_digest(bytes.as_slice());
    let c: u64 = check[0] as u64 + 256 * (check[1] as u64 + 256 * (check[2] as u64 + 256 * (
    check[3] as u64 + 256 * check[4] as u64)));
    proof {
        let s = check@;
        assert(s.take(5) =~= s);
        assert(s.drop_first().drop_first().drop_first().drop_first().drop_first().len() == 0);
        reveal_with_fuel(le_value, 6);
        assert(c == le_value(s));
        lemma_checksum_bound(*a);
    }
    c
}

/// The address of an account: `nano_`, then the 60 base-32 digits of the account number
/// followed by the 40 bits of its checksum.
pub open spec fn account_text(a: Account) -> Seq<char> {
    seq!['n', 'a', 'n', 'o', '_'] + digits(
        a.number() * power(32, 8) + account_checksum(a),
        32,
        60,
        account_alphabet(),
    )
}

impl Account {
    /// The account's address (see `account_text`).
    pub fn encode_account(&self) -> (r: String)
        ensures
            r@ == account_text(*self),
    {
        let alphabet: [char; 32] = [
            '1', '3', '4', '5', '6', '7', '8', '9', 'a', 'b', 'c', 'd', 'e', 'f', 'g', 'h', 'i',
            'j', 'k', 'm', 'n', 'o', 'p', 'q', 'r', 's', 't', 'u', 'w', 'x', 'y', 'z',
        ];
        assert(alphabet@ =~= account_alphabet());
        let c = checksum_of(self);
        proof {
            lemma_checksum_bound(*self);
        }
        let mut out: Vec<char> = vec!['n', 'a', 'n', 'o', '_'];
        let ghost prefix = out@;
        push_digits(&mut out, self.hi, self.lo, 32, 52, &alphabet);
        push_digits(&mut out, 0, c as u128, 32, 8, &alphabet);
        proof {
            assert(number_of(0, c as u128) == c as nat);
            lemma_digits_split(self.number(), c as nat, 32, 52, 8, account_alphabet());
            assert(out@ =~= account_text(*self));
        }
        string_from_chars(out)
    }
}

/// A hash is written with 64 hexadecimal digits, and an account address has 65 characters:
/// `nano_` and 60 digits.
pub proof fn lemma_text_lengths(hash: BlockHash, account: Account)
    ensures
        digits(hash.number(), 16, 64, hex_alphabet()).len() == 64,
        account_text(account).len() == 65,
{
    lemma_digits_len(hash.number(), 16, 64, hex_alphabet());
    lemma_digits_len(
        account.number() * power(32, 8) + account_checksum(account),
        32,
        60,
        account_alphabet(),
    );
}

/// The number that digits in base `base` stand for, most significant first.
pub open spec fn digits_value(ds: Seq<nat>, base: nat) -> nat
    decreases ds.len(),
{
    if ds.len() == 0 {
        0
    } else {
        digits_value(ds.drop_last(), base) * base + ds.last()
    }
}

/// Each digit is below the base.
pub open spec fn digits_below(ds: Seq<nat>, base: nat) -> bool {
    forall|i: int| 0 <= i < ds.len() ==> #[trigger] ds[i] < base
}

/// No two digits share a character.
pub open spec fn alphabet_distinct(alphabet: Seq<char>) -> bool {
    forall|i: int, j: int| 0 <= i < j < alphabet.len() ==> alphabet[i] != alphabet[j]
}

/// Writing the number that digits stand for gives back the digits.
pub proof fn lemma_digits_of_value(ds: Seq<nat>, base: nat, alphabet: Seq<char>)
    requires
        base > 0,
        digits_below(ds, base),
    ensures
        digits(digits_value(ds, base), base, ds.len(), alphabet) == ds.map_values(
            |d: nat| alphabet[d as int],
        ),
    decreases ds.len(),
{
    if ds.len() > 0 {
        let front = ds.drop_last();
        let v = digits_value(front, base);
        let d = ds.last();
        assert(digits_below(front, base));
        lemma_digits_of_value(front, base, alphabet);
        vstd::arithmetic::div_mod::lemma_fundamental_div_mod_converse(
            (v * base + d) as int,
            base as int,
            v as int,
            d as int,
        );
        assert(digits(v * base + d, base, ds.len(), alphabet) == digits(v, base, front.len(), alphabet).push(
            alphabet[d as int],
        ));
        assert(ds.map_values(|d: nat| alphabet[d as int]) =~= front.map_values(
            |d: nat| alphabet[d as int],
        ).push(alphabet[d as int]));
    } else {
        assert(ds.map_values(|d: nat| alphabet[d as int]) =~= Seq::<char>::empty());
    }
}

/// Digits stand for a number below the base to the power of their count.
pub proof fn lemma_digits_value_bound(ds: Seq<nat>, base: nat)
    requires
        base > 0,
        digits_below(ds, base),
    ensures
        digits_value(ds, base) < power(base, ds.len()),
    decreases ds.len(),
{
    if ds.len() > 0 {
        let front = ds.drop_last();
        assert(digits_below(front, base));
        lemma_digits_value_bound(front, base);
        let v = digits_value(front, base);
        let p = power(base, front.len());
        assert(v * base + ds.last() < p * base) by (nonlinear_arith)
            requires
                v < p,
                ds.last() < base,
        ;
        assert(power(base, ds.len()) == base * p);
    }
}

/// Numbers below the base to the power `n` are written with different digits.
pub proof fn lemma_digits_injective(x: nat, y: nat, base: nat, n: nat, alphabet: Seq<char>)
    requires
        base > 0,
        alphabet.len() == base,
        alphabet_distinct(alphabet),
        x < power(base, n),
        y < power(base, n),
        digits(x, base, n, alphabet) == digits(y, base, n, alphabet),
    ensures
        x == y,
    decreases n,
{
    if n == 0 {
        assert(power(base, 0) == 1);
    } else {
        let m = (n - 1) as nat;
        let p = power(base, m);
        assert(digits(x, base, n, alphabet).last() == alphabet[(x % base) as int]);
        assert(digits(y, base, n, alphabet).last() == alphabet[(y % base) as int]);
        assert(digits(x / base, base, m, alphabet) =~= digits(x, base, n, alphabet).drop_last());
        assert(digits(y / base, base, m, alphabet) =~= digits(y, base, n, alphabet).drop_last());
        assert(x % base == y % base) by {
            if x % base != y % base {
                if x % base < y % base {
                    assert(alphabet[(x % base) as int] != alphabet[(y % base) as int]);
                } else {
                    assert(alphabet[(y % base) as int] != alphabet[(x % base) as int]);
                }
            }
        }
        assert(power(base, n) == base * p);
        vstd::arithmetic::div_mod::lemma_multiply_divide_lt(x as int, base as int, p as int);
        vstd::arithmetic::div_mod::lemma_multiply_divide_lt(y as int, base as int, p as int);
        lemma_digits_injective(x / base, y / base, base, m, alphabet);
        vstd::arithmetic::div_mod::lemma_fundamental_div_mod(x as int, base as int);
        vstd::arithmetic::div_mod::lemma_fundamental_div_mod(y as int, base as int);
    }
}

/// Characters that ascend step by step ascend throughout.
proof fn lemma_steps_ascend(a: Seq<char>, i: int, j: int)
    requires
        0 <= i <= j < a.len(),
        forall|m: int| #![trigger a[m]] 0 <= m < a.len() - 1 ==> (a[m] as int) < (a[m + 1] as int),
    ensures
        i < j ==> (a[i] as int) < (a[j] as int),
    decreases j - i,
{
    if i < j - 1 {
        lemma_steps_ascend(a, i, j - 1);
        let m = j - 1;
        assert((a[m] as int) < (a[m + 1] as int));
    } else if i == j - 1 {
        assert((a[i] as int) < (a[i + 1] as int));
    }
}

/// The address digits are distinct: they come in ascending order.
pub proof fn lemma_account_alphabet_distinct()
    ensures
        alphabet_distinct(account_alphabet()),
        account_alphabet().len() == 32,
{
    let a = account_alphabet();
    assert forall|m: int| #![trigger a[m]] 0 <= m < a.len() - 1 implies (a[m] as int) < (a[m + 1] as int) by {
    }
    assert forall|i: int, j: int| 0 <= i < j < a.len() implies a[i] != a[j] by {
        lemma_steps_ascend(a, i, j);
    }
}

/// The digits of a number put together from two parts: the value of the first part shifted
/// past the second, plus the second.
pub proof fn lemma_digits_value_concat(a: Seq<nat>, b: Seq<nat>, base: nat)
    ensures
        digits_value(a + b, base) == digits_value(a, base) * power(base, b.len()) + digits_value(
            b,
            base,
        ),
    decreases b.len(),
{
    if b.len() == 0 {
        assert(a + b =~= a);
        assert(power(base, 0) == 1);
    } else {
        let b1 = b.drop_last();
        lemma_digits_value_concat(a, b1, base);
        assert((a + b).drop_last() =~= a + b1);
        assert((a + b).last() == b.last());
        assert(power(base, b.len()) == base * power(base, b1.len()));
        let va = digits_value(a, base);
        let p1 = power(base, b1.len());
        let vb1 = digits_value(b1, base);
        assert((va * p1 + vb1) * base + b.last() == va * (base * p1) + (vb1 * base + b.last()))
            by (nonlinear_arith);
    }
}

/// The digit that a character of an address stands for.
pub open spec fn address_digit(c: char) -> Option<nat> {
    if exists|i: int| 0 <= i < 32 && account_alphabet()[i] == c {
        Some((choose|i: int| 0 <= i < 32 && account_alphabet()[i] == c) as nat)
    } else {
        None
    }
}

/// The part of an address after its prefix (`nano_`, `nano-`, `xrb_` or `xrb-`), when the
/// address has the length that goes with its prefix.
pub open spec fn address_body(s: Seq<char>) -> Option<Seq<char>> {
    if s.len() == 65 && s[0] == 'n' && s[1] == 'a' && s[2] == 'n' && s[3] == 'o' && (s[4] == '_'
        || s[4] == '-') {
        Some(s.skip(5))
    } else if s.len() == 64 && s[0] == 'x' && s[1] == 'r' && s[2] == 'b' && (s[3] == '_' || s[3]
        == '-') {
        Some(s.skip(4))
    } else {
        None
    }
}

/// The account with a number below 2^256.
pub open spec fn account_of_number(n: nat) -> Account {
    Account { hi: (n / two_pow_128()) as u128, lo: (n % two_pow_128()) as u128 }
}

/// The digits of an address body whose characters are all digits.
pub open spec fn body_digits(body: Seq<char>) -> Seq<nat> {
    body.map_values(|c: char| address_digit(c).unwrap())
}

/// The account an address stands for: its 60 digits are the account number followed by 40
/// bits of checksum, which must be the account's checksum.
pub open spec fn account_of_address(s: Seq<char>) -> Option<Account> {
    match address_body(s) {
        None => None,
        Some(body) => if forall|i: int| 0 <= i < body.len() ==> (#[trigger] address_digit(body[i])) is Some {
            let v = digits_value(body_digits(body), 32);
            let n = v / power(32, 8);
            if n < two_pow_128() * two_pow_128() && v % power(32, 8) == account_checksum(
                account_of_number(n),
            ) {
                Some(account_of_number(n))
            } else {
                None
            }
        } else {
            None
        },
    }
}

/// The digit of an address character, found in the alphabet.
fn address_digit_of(alphabet: &[char; 32], c: char) -> (r: Option<u8>)
    requires
        alphabet@ == account_alphabet(),
    ensures
        r matches Some(d) ==> d < 32 && address_digit(c) == Some(d as nat),
        r is None ==> address_digit(c) is None,
{
    proof {
        lemma_account_alphabet_distinct();
    }
    let mut i: usize = 0;
    while i < 32
        invariant
            i <= 32,
            alphabet@ == account_alphabet(),
            alphabet_distinct(account_alphabet()),
            forall|k: int| 0 <= k < i ==> account_alphabet()[k] != c,
        decreases 32 - i,
    {
        if alphabet[i] == c {
            proof {
                let j = choose|j: int| 0 <= j < 32 && account_alphabet()[j] == c;
                if j != i {
                    if j < i {
                        assert(account_alphabet()[j] != account_alphabet()[i as int]);
                    } else {
                        assert(account_alphabet()[i as int] != account_alphabet()[j]);
                    }
                }
            }
            return Some(i as u8);
        }
        i = i + 1;
    }
    None
}

/// Shifting a base-32 digit into a 256-bit number given by its halves.
proof fn lemma_shift_in(hi: u128, lo: u128, d: nat)
    requires
        hi < 0x8000000000000000000000000000000,
        d < 32,
    ensures
        hi * 32 + lo / 0x8000000000000000000000000000000 < two_pow_128(),
        (lo % 0x8000000000000000000000000000000) * 32 + d < two_pow_128(),
        number_of(
            (hi * 32 + lo / 0x8000000000000000000000000000000) as u128,
            ((lo % 0x8000000000000000000000000000000) * 32 + d) as u128,
        ) == number_of(hi, lo) * 32 + d,
{
    let q: int = 0x8000000000000000000000000000000;
    let h = hi as int;
    let l = lo as int;
    vstd::arithmetic::div_mod::lemma_fundamental_div_mod(l, q);
    vstd::arithmetic::div_mod::lemma_mod_bound(l, q);
    assert(l / q < 32) by {
        vstd::arithmetic::div_mod::lemma_multiply_divide_lt(l, q, 32);
    }
    assert(h * 32 + l / q < two_pow_128()) by (nonlinear_arith)
        requires
            h < q,
            l / q < 32,
            two_pow_128() == q * 32,
    ;
    assert((l % q) * 32 + d < two_pow_128()) by (nonlinear_arith)
        requires
            l % q < q,
            d < 32,
            two_pow_128() == q * 32,
    ;
    assert((h * 32 + l / q) * two_pow_128() + ((l % q) * 32 + d) == (h * two_pow_128() + l) * 32 + d)
        by (nonlinear_arith)
        requires
            l == q * (l / q) + l % q,
            two_pow_128() == q * 32,
    ;
}

/// A number with a high half of at least 2^123 needs more than 251 bits.
proof fn lemma_overflowing_prefix(hi: u128, lo: u128, prefix: Seq<nat>, rest: Seq<nat>)
    requires
        hi >= 0x8000000000000000000000000000000,
        number_of(hi, lo) == digits_value(prefix, 32),
        rest.len() >= 9,
    ensures
        digits_value(prefix + rest, 32) / power(32, 8) >= two_pow_128() * two_pow_128(),
{
    lemma_digits_value_concat(prefix, rest, 32);
    let p = power(32, rest.len());
    lemma_power_grows(32, 9, rest.len());
    assert(power(32, 9) == 0x2000_0000_0000) by {
        reveal_with_fuel(power, 10);
    }
    assert(power(32, 8) == 0x100_0000_0000) by {
        reveal_with_fuel(power, 9);
    }
    let v = digits_value(prefix + rest, 32);
    assert(number_of(hi, lo) >= 0x8000000000000000000000000000000 * two_pow_128()) by (nonlinear_arith)
        requires
            hi >= 0x8000000000000000000000000000000,
            number_of(hi, lo) == hi * two_pow_128() + lo,
    ;
    assert(v >= two_pow_128() * two_pow_128() * 0x100_0000_0000) by (nonlinear_arith)
        requires
            v == digits_value(prefix, 32) * p + digits_value(rest, 32),
            digits_value(prefix, 32) >= 0x8000000000000000000000000000000 * two_pow_128(),
            p >= 0x2000_0000_0000,
            two_pow_128() == 0x1_0000_0000_0000_0000_0000_0000_0000_0000,
    ;
    vstd::arithmetic::div_mod::lemma_div_is_ordered(
        (two_pow_128() * two_pow_128() * 0x100_0000_0000) as int,
        v as int,
        0x100_0000_0000,
    );
    vstd::arithmetic::div_mod::lemma_div_multiples_vanish(
        (two_pow_128() * two_pow_128()) as int,
        0x100_0000_0000,
    );
}

impl Account {
    /// The account that an address stands for (see `account_of_address`), if it is a valid
    /// address.
    pub fn decode_account(source: &str) -> (r: Option<Account>)
        ensures
            r == account_of_address(source@),
    {
        let chars = chars_of(source);
        decode_address(chars.as_slice())
    }
}

/// The account that the characters of an address stand for (see `account_of_address`).
pub(crate) fn decode_address(source: &[char]) -> (r: Option<Account>)
    ensures
        r == account_of_address(source@),
{
    let len = source.len();
    let start: usize;
    if len == 65 && source[0] == 'n' && source[1] == 'a' && source[2]
        == 'n' && source[3] == 'o' && (source[4] == '_' || source[4]
        == '-') {
        start = 5;
    } else if len == 64 && source[0] == 'x' && source[1] == 'r'
        && source[2] == 'b' && (source[3] == '_' || source[3] == '-') {
        start = 4;
    } else {
        return None;
    }
    let ghost body = source@.skip(start as int);
    assert(address_body(source@) == Some(body));
    assert(body.len() == 60);
    let alphabet: [char; 32] = [
        '1', '3', '4', '5', '6', '7', '8', '9', 'a', 'b', 'c', 'd', 'e', 'f', 'g', 'h', 'i',
        'j', 'k', 'm', 'n', 'o', 'p', 'q', 'r', 's', 't', 'u', 'w', 'x', 'y', 'z',
    ];
    assert(alphabet@ =~= account_alphabet());
    let mut hi: u128 = 0;
    let mut lo: u128 = 0;
    let mut i: usize = 0;
    assert(body_digits(body.take(0)) =~= Seq::<nat>::empty());
    while i < 52
        invariant
            i <= 52,
            start == 4 || start == 5,
            start + 60 == len,
            len == source@.len(),
            body == source@.skip(start as int),
            body.len() == 60,
            address_body(source@) == Some(body),
            alphabet@ == account_alphabet(),
            forall|k: int| 0 <= k < i ==> (#[trigger] address_digit(body[k])) is Some,
            number_of(hi, lo) == digits_value(body_digits(body.take(i as int)), 32),
        decreases 52 - i,
    {
        let c = source[start + i];
        assert(c == body[i as int]);
        match address_digit_of(&alphabet, c) {
            None => {
                assert(account_of_address(source@) is None);
                return None;
            },
            Some(d) => {
                proof {
                    assert(body.take(i + 1) =~= body.take(i as int).push(c));
                    assert(body_digits(body.take(i + 1)) =~= body_digits(body.take(i as int)).push(
                        d as nat,
                    ));
                    assert(body_digits(body.take(i as int)).push(d as nat).drop_last() =~= body_digits(
                        body.take(i as int),
                    ));
                }
                if hi >= 0x8000000000000000000000000000000 {
                    proof {
                        if forall|k: int| 0 <= k < body.len() ==> (#[trigger] address_digit(body[k])) is Some {
                            let all = body_digits(body);
                            let prefix = body_digits(body.take(i as int));
                            let rest = body_digits(body.skip(i as int));
                            assert(all =~= prefix + rest);
                            lemma_overflowing_prefix(hi, lo, prefix, rest);
                        }
                    }
                    return None;
                }
                proof {
                    lemma_shift_in(hi, lo, d as nat);
                }
                let new_hi: u128 = hi * 32 + lo / 0x8000000000000000000000000000000;
                let new_lo: u128 = (lo % 0x8000000000000000000000000000000) * 32 + d as u128;
                hi = new_hi;
                lo = new_lo;
            },
        }
        i = i + 1;
    }
    let mut check: u64 = 0;
    let mut j: usize = 52;
    assert(body_digits(body.subrange(52, 52)) =~= Seq::<nat>::empty());
    while j < 60
        invariant
            52 <= j <= 60,
            start == 4 || start == 5,
            start + 60 == len,
            len == source@.len(),
            body == source@.skip(start as int),
            body.len() == 60,
            alphabet@ == account_alphabet(),
            forall|k: int| 0 <= k < j ==> (#[trigger] address_digit(body[k])) is Some,
            check == digits_value(body_digits(body.subrange(52, j as int)), 32),
            check < power(32, (j - 52) as nat),
        decreases 60 - j,
    {
        let c = source[start + j];
        assert(c == body[j as int]);
        match address_digit_of(&alphabet, c) {
            None => {
                assert(account_of_address(source@) is None);
                return None;
            },
            Some(d) => {
                proof {
                    assert(body.subrange(52, j + 1) =~= body.subrange(52, j as int).push(c));
                    assert(body_digits(body.subrange(52, j + 1)) =~= body_digits(
                        body.subrange(52, j as int),
                    ).push(d as nat));
                    assert(body_digits(body.subrange(52, j as int)).push(d as nat).drop_last() =~= body_digits(
                        body.subrange(52, j as int),
                    ));
                    let p = power(32, (j - 52) as nat);
                    assert(power(32, (j + 1 - 52) as nat) == 32 * p);
                    assert(p <= power(32, 7)) by {
                        lemma_power_grows(32, (j - 52) as nat, 7);
                    }
                    assert(power(32, 7) == 0x8_0000_0000) by {
                        reveal_with_fuel(power, 8);
                    }
                    assert(check * 32 + d < 32 * p) by (nonlinear_arith)
                        requires
                            check < p,
                            d < 32,
                    ;
                }
                check = check * 32 + d as u64;
            },
        }
        j = j + 1;
    }
    let account = Account { hi, lo };
    let sum = checksum_of(&account);
    proof {
        let prefix = body_digits(body.take(52));
        let rest = body_digits(body.subrange(52, 60));
        assert(body.subrange(52, 60) =~= body.skip(52));
        assert(body_digits(body) =~= prefix + rest);
        lemma_digits_value_concat(prefix, rest, 32);
        let v = digits_value(body_digits(body), 32);
        let n = number_of(hi, lo);
        assert(power(32, 8) == 0x100_0000_0000) by {
            reveal_with_fuel(power, 9);
        }
        vstd::arithmetic::div_mod::lemma_fundamental_div_mod_converse(
            v as int,
            power(32, 8) as int,
            n as int,
            check as int,
        );
        lemma_number_succ(hi, lo);
        vstd::arithmetic::div_mod::lemma_fundamental_div_mod_converse(
            n as int,
            two_pow_128() as int,
            hi as int,
            lo as int,
        );
        assert(account_of_number(n) == account);
    }
    if sum == check {
        Some(account)
    } else {
        None
    }
}

/// Each character of a number's digits is one of the alphabet's first `base` characters.
proof fn lemma_digits_chars(x: nat, base: nat, n: nat, alphabet: Seq<char>)
    requires
        base > 0,
    ensures
        forall|i: int|
            0 <= i < n ==> exists|k: int| 0 <= k < base && #[trigger] digits(x, base, n, alphabet)[i] == alphabet[k],
    decreases n,
{
    if n > 0 {
        let m = (n - 1) as nat;
        lemma_digits_chars(x / base, base, m, alphabet);
        lemma_digits_len(x / base, base, m, alphabet);
        let d = digits(x, base, n, alphabet);
        assert forall|i: int| 0 <= i < n implies exists|k: int| 0 <= k < base && #[trigger] d[i] == alphabet[k] by {
            if i < m {
                assert(d[i] == digits(x / base, base, m, alphabet)[i]);
            } else {
                assert(d[i] == alphabet[(x % base) as int]);
            }
        }
    }
}

/// Reading an account's address gives back the account.
pub proof fn lemma_decode_encode(a: Account)
    ensures
        account_of_address(account_text(a)) == Some(a),
{
    let alph = account_alphabet();
    let chk = account_checksum(a);
    let p8 = power(32, 8);
    let n = a.number();
    let big = n * p8 + chk;
    let body = digits(big, 32, 60, alph);
    let s = account_text(a);
    lemma_digits_len(big, 32, 60, alph);
    lemma_checksum_bound(a);
    lemma_account_alphabet_distinct();
    assert(s.skip(5) =~= body);
    assert(address_body(s) == Some(body));
    lemma_digits_chars(big, 32, 60, alph);
    assert forall|i: int| 0 <= i < body.len() implies (#[trigger] address_digit(body[i])) is Some by {
        let k = choose|k: int| 0 <= k < 32 && body[i] == alph[k];
        assert(0 <= k < 32 && alph[k] == body[i]);
    }
    let ds = body_digits(body);
    assert forall|i: int| 0 <= i < ds.len() implies #[trigger] ds[i] < 32 && alph[ds[i] as int] == body[i] by {
        let k = choose|k: int| 0 <= k < 32 && body[i] == alph[k];
        assert(0 <= k < 32 && alph[k] == body[i]);
    }
    assert(digits_below(ds, 32));
    lemma_digits_of_value(ds, 32, alph);
    assert(ds.map_values(|d: nat| alph[d as int]) =~= body);
    lemma_digits_value_bound(ds, 32);
    // the number behind the address is below 32^60
    lemma_number_succ(a.hi, a.lo);
    assert(power(32, 60) == power(32, 8) * power(32, 52)) by {
        lemma_power_add(32, 8, 52);
    }
    assert(power(32, 52) >= 2 * two_pow_128() * two_pow_128()) by {
        assert(power(32, 51) == 0x8000000000000000000000000000000000000000000000000000000000000000nat) by {
            reveal_with_fuel(power, 52);
        }
        assert(power(32, 52) == 32 * power(32, 51));
    }
    assert(big < power(32, 60)) by (nonlinear_arith)
        requires
            n < two_pow_128() * two_pow_128(),
            chk < p8,
            power(32, 60) == p8 * power(32, 52),
            power(32, 52) >= 2 * two_pow_128() * two_pow_128(),
            big == n * p8 + chk,
    ;
    lemma_digits_injective(digits_value(ds, 32), big, 32, 60, alph);
    vstd::arithmetic::div_mod::lemma_fundamental_div_mod_converse(big as int, p8 as int, n as int, chk as int);
    vstd::arithmetic::div_mod::lemma_fundamental_div_mod_converse(
        n as int,
        two_pow_128() as int,
        a.hi as int,
        a.lo as int,
    );
    assert(account_of_number(n) == a);
}

/// `power` adds exponents.
pub proof fn lemma_power_add(b: nat, e1: nat, e2: nat)
    ensures
        power(b, e1 + e2) == power(b, e1) * power(b, e2),
    decreases e2,
{
    if e2 > 0 {
        lemma_power_add(b, e1, (e2 - 1) as nat);
        let x = power(b, e1);
        let y = power(b, (e2 - 1) as nat);
        assert(power(b, e1 + e2) == b * power(b, (e1 + e2 - 1) as nat));
        assert((e1 + e2 - 1) as nat == e1 + (e2 - 1) as nat);
        assert(power(b, e2) == b * y);
        assert(b * (x * y) == x * (b * y)) by (nonlinear_arith);
    } else {
        assert(power(b, 0) == 1);
        assert(e1 + e2 == e1);
    }
}

/// The characters of a string.
pub fn chars_of(s: &str) -> (r: Vec<char>)
    ensures
        r@ == s@,
{
    broadcast use vstd::string::axiom_spec_iter;
    let mut out: Vec<char> = Vec::new();
    for c in iter: s.chars()
        invariant
            out@ == iter.seq().take(iter.index()),
    {
        out.push(c);
    }
    out
}

/// The digit that a character stands for in decimal.
pub open spec fn decimal_digit(c: char) -> Option<nat> {
    if exists|i: int| 0 <= i < 10 && decimal_alphabet()[i] == c {
        Some((choose|i: int| 0 <= i < 10 && decimal_alphabet()[i] == c) as nat)
    } else {
        None
    }
}

/// The number that a text of decimal digits stands for: none for an empty text or one with
/// another character.
pub open spec fn decimal_value_of(s: Seq<char>) -> Option<nat> {
    if s.len() > 0 && forall|i: int| 0 <= i < s.len() ==> (#[trigger] decimal_digit(s[i])) is Some {
        Some(digits_value(s.map_values(|c: char| decimal_digit(c).unwrap()), 10))
    } else {
        None
    }
}

/// The amount that a text of decimal digits stands for, when it fits.
pub open spec fn amount_of_decimal(s: Seq<char>) -> Option<Amount> {
    match decimal_value_of(s) {
        Some(v) => if v <= u128::MAX {
            Some(Amount { raw: v as u128 })
        } else {
            None
        },
        None => None,
    }
}

/// The decimal digits are distinct: they come in ascending order.
proof fn lemma_decimal_alphabet_distinct()
    ensures
        alphabet_distinct(decimal_alphabet()),
        decimal_alphabet().len() == 10,
{
    let a = decimal_alphabet();
    assert forall|m: int| #![trigger a[m]] 0 <= m < a.len() - 1 implies (a[m] as int) < (a[m + 1] as int) by {
    }
    assert forall|i: int, j: int| 0 <= i < j < a.len() implies a[i] != a[j] by {
        lemma_steps_ascend(a, i, j);
    }
}

/// The decimal digit of a character.
fn decimal_digit_of(c: char) -> (r: Option<u8>)
    ensures
        r matches Some(d) ==> d < 10 && decimal_digit(c) == Some(d as nat),
        r is None ==> decimal_digit(c) is None,
{
    let alphabet: [char; 10] = ['0', '1', '2', '3', '4', '5', '6', '7', '8', '9'];
    assert(alphabet@ =~= decimal_alphabet());
    proof {
        lemma_decimal_alphabet_distinct();
    }
    let mut i: usize = 0;
    while i < 10
        invariant
            i <= 10,
            alphabet@ == decimal_alphabet(),
            alphabet_distinct(decimal_alphabet()),
            forall|k: int| 0 <= k < i ==> decimal_alphabet()[k] != c,
        decreases 10 - i,
    {
        if alphabet[i] == c {
            proof {
                let j = choose|j: int| 0 <= j < 10 && decimal_alphabet()[j] == c;
                if j != i {
                    if j < i {
                        assert(decimal_alphabet()[j] != decimal_alphabet()[i as int]);
                    } else {
                        assert(decimal_alphabet()[i as int] != decimal_alphabet()[j]);
                    }
                }
            }
            return Some(i as u8);
        }
        i = i + 1;
    }
    None
}

/// The number that decimal digits stand for, if they fit in `limit` (at most `u128::MAX`).
pub(crate) fn decode_decimal(source: &[char], limit: u128) -> (r: Option<u128>)
    ensures
        r == match decimal_value_of(source@) {
            Some(v) => if v <= limit {
                Some(v as u128)
            } else {
                None::<u128>
            },
            None => None::<u128>,
        },
{
    if source.len() == 0 {
        return None;
    }
    let ghost s = source@;
    let mut v: u128 = 0;
    let mut i: usize = 0;
    assert(s.take(0).map_values(|c: char| decimal_digit(c).unwrap()) =~= Seq::<nat>::empty());
    while i < source.len()
        invariant
            i <= s.len(),
            s == source@,
            s.len() > 0,
            forall|k: int| 0 <= k < i ==> (#[trigger] decimal_digit(s[k])) is Some,
            v == digits_value(s.take(i as int).map_values(|c: char| decimal_digit(c).unwrap()), 10),
            v <= limit,
        decreases s.len() - i,
    {
        let c = source[i];
        match decimal_digit_of(c) {
            None => {
                return None;
            },
            Some(d) => {
                let ghost before = s.take(i as int).map_values(|c: char| decimal_digit(c).unwrap());
                let ghost after = s.take(i + 1).map_values(|c: char| decimal_digit(c).unwrap());
                proof {
                    assert(after =~= before.push(d as nat));
                    assert(after.drop_last() =~= before);
                }
                proof {
                    vstd::arithmetic::div_mod::lemma_fundamental_div_mod(limit as int, 10);
                }
                if v > limit / 10 || (v == limit / 10 && d as u128 > limit % 10) {
                    proof {
                        assert(v * 10 + d > limit) by (nonlinear_arith)
                            requires
                                v > limit / 10 || (v == limit / 10 && d > limit % 10),
                                limit == 10 * (limit / 10) + limit % 10,
                                limit % 10 < 10,
                                d <= 9,
                        ;
                        if forall|k: int| 0 <= k < s.len() ==> (#[trigger] decimal_digit(s[k])) is Some {
                            let all = s.map_values(|c: char| decimal_digit(c).unwrap());
                            let rest = s.skip(i + 1).map_values(|c: char| decimal_digit(c).unwrap());
                            assert(all =~= after + rest);
                            lemma_digits_value_concat(after, rest, 10);
                            assert(power(10, rest.len()) >= 1) by {
                                lemma_power_grows(10, 0, rest.len());
                            }
                            assert(digits_value(after, 10) * power(10, rest.len()) >= digits_value(after, 10))
                                by (nonlinear_arith)
                                requires
                                    power(10, rest.len()) >= 1,
                            ;
                        }
                    }
                    return None;
                }
                proof {
                    let q = limit / 10;
                    let m = limit % 10;
                    if v < q {
                        assert(v * 10 + d <= limit) by (nonlinear_arith)
                            requires
                                v + 1 <= q,
                                limit == 10 * q + m,
                                d <= 9,
                                m >= 0,
                        ;
                    } else {
                        assert(v == q && d <= m);
                        assert(v * 10 + d <= limit) by (nonlinear_arith)
                            requires
                                v == q,
                                d <= m,
                                limit == 10 * q + m,
                        ;
                    }
                }
                v = v * 10 + d as u128;
            },
        }
        i = i + 1;
    }
    assert(s.take(s.len() as int) =~= s);
    Some(v)
}

impl Amount {
    /// The amount that a text of decimal digits stands for (see `amount_of_decimal`).
    pub fn decode_dec(source: &str) -> (r: Option<Amount>)
        ensures
            r == amount_of_decimal(source@),
    {
        let chars = chars_of(source);
        match decode_decimal(chars.as_slice(), u128::MAX) {
            Some(v) => Some(Amount::raw(v)),
            None => None,
        }
    }
}

/// A decimal character stands for its place in the decimal alphabet.
proof fn lemma_decimal_digit_of_char(k: int)
    requires
        0 <= k < 10,
    ensures
        decimal_digit(decimal_alphabet()[k]) == Some(k as nat),
{
    lemma_decimal_alphabet_distinct();
    let c = decimal_alphabet()[k];
    let j = choose|j: int| 0 <= j < 10 && decimal_alphabet()[j] == c;
    if j != k {
        if j < k {
            assert(decimal_alphabet()[j] != decimal_alphabet()[k]);
        } else {
            assert(decimal_alphabet()[k] != decimal_alphabet()[j]);
        }
    }
}

/// The decimal form of a number reads back as that number.
pub proof fn lemma_decimal_reads_back(x: nat)
    ensures
        decimal_value_of(decimal(x)) == Some(x),
    decreases x,
{
    let t = decimal(x);
    let tm = t.map_values(|c: char| decimal_digit(c).unwrap());
    if x < 10 {
        lemma_decimal_digit_of_char(x as int);
        assert(t == seq![decimal_alphabet()[x as int]]);
        assert(tm =~= seq![x]);
        assert(tm.drop_last() =~= Seq::<nat>::empty());
        assert(tm.len() == 1 && tm.last() == x);
        assert(digits_value(tm.drop_last(), 10) == 0);
        assert(digits_value(tm, 10) == x);
        assert(forall|i: int| 0 <= i < t.len() ==> (#[trigger] decimal_digit(t[i])) is Some);
    } else {
        lemma_decimal_reads_back(x / 10);
        let u = decimal(x / 10);
        let um = u.map_values(|c: char| decimal_digit(c).unwrap());
        assert(digits_value(um, 10) == x / 10);
        lemma_decimal_digit_of_char((x % 10) as int);
        assert(t == u.push(decimal_alphabet()[(x % 10) as int]));
        assert forall|i: int| 0 <= i < t.len() implies (#[trigger] decimal_digit(t[i])) is Some by {
            if i < u.len() {
                assert(t[i] == u[i]);
            }
        }
        assert(tm =~= um.push(x % 10));
        assert(tm.drop_last() =~= um);
        assert(digits_value(tm, 10) == digits_value(um, 10) * 10 + x % 10);
        vstd::arithmetic::div_mod::lemma_fundamental_div_mod(x as int, 10);
        assert(digits_value(tm, 10) == x);
    }
}

/// Reading an amount's decimal form gives back the amount.
pub proof fn lemma_decode_dec_reads_back(a: Amount)
    ensures
        amount_of_decimal(decimal(a.raw as nat)) == Some(a),
{
    lemma_decimal_reads_back(a.raw as nat);
}

} // verus!
