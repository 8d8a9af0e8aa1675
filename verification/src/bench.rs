//! The deterministic pseudo-random sequence the benchmarks draw positions
//! from.
use vstd::prelude::*;

verus! {

/// The state after one step of the generator.
pub open spec fn lcg_step(state: u64) -> u64 {
    ((state as int * 6364136223846793005 + 1442695040888963407) % 0x1_0000_0000_0000_0000) as u64
}

/// A 64-bit linear congruential generator; each draw returns the high 31
/// bits of the new state.
pub struct Lcg(pub u64);

impl Lcg {
    pub fn new(seed: u64) -> (r: Self)
        ensures
            r.0 == seed,
    {
        Self(seed)
    }

    pub fn next(&mut self) -> (r: u32)
        ensures
            final(self).0 == lcg_step(old(self).0),
            r == final(self).0 / 0x2_0000_0000,
    {
        self.0 = self.0.wrapping_mul(6364136223846793005).wrapping_add(1442695040888963407);
        proof {
            let s = old(self).0 as int;
            let m = 0x1_0000_0000_0000_0000int;
            vstd::arithmetic::div_mod::lemma_add_mod_noop(
                s * 6364136223846793005,
                1442695040888963407,
                m,
            );
            vstd::arithmetic::div_mod::lemma_small_mod(1442695040888963407nat, m as nat);
            vstd::arithmetic::div_mod::lemma_mod_bound(s * 6364136223846793005, m);
        }
        let st = self.0;
        let v = st >> 33;
        assert(st >> 33u64 == st / 0x2_0000_0000) by (bit_vector);
        v as u32
    }
}

/// A position with each coordinate drawn from `rng` and reduced below `bound`.
pub fn rand_pos(rng: &mut Lcg, bound: u32) -> (r: [u32; 3])
    requires
        bound > 0,
    ensures
        final(rng).0 == lcg_step(lcg_step(lcg_step(old(rng).0))),
        r[0] == (lcg_step(old(rng).0) / 0x2_0000_0000) as int % bound as int,
        r[1] == (lcg_step(lcg_step(old(rng).0)) / 0x2_0000_0000) as int % bound as int,
        r[2] == (lcg_step(lcg_step(lcg_step(old(rng).0))) / 0x2_0000_0000) as int % bound as int,
{
    let a = rng.next() % bound;
    let b = rng.next() % bound;
    let c = rng.next() % bound;
    [a, b, c]
}

/// The decimal digits of `n`, most significant first; 0 has the one digit 0.
pub open spec fn decimal_digits(n: nat) -> Seq<nat>
    decreases n,
{
    if n < 10 {
        seq![n]
    } else {
        decimal_digits(n / 10).push(n % 10)
    }
}

/// The character of decimal digit `d`.
pub open spec fn digit_char(d: nat) -> char {
    (48 + d) as char
}

/// The first `k` of the digits `d` as text, with a comma before each digit,
/// other than the first, from which a multiple of three digits remain.
pub open spec fn grouped_prefix(d: Seq<nat>, k: nat) -> Seq<char>
    decreases k,
{
    if k == 0 {
        Seq::empty()
    } else {
        let j = (k - 1) as nat;
        let sep = if j > 0 && (d.len() - j) % 3 == 0 {
            seq![',']
        } else {
            Seq::empty()
        };
        grouped_prefix(d, j) + sep + seq![digit_char(d[j as int])]
    }
}

/// `n` in decimal with its digits grouped by three with commas.
pub open spec fn grouped_decimal(n: nat) -> Seq<char> {
    grouped_prefix(decimal_digits(n), decimal_digits(n).len())
}

fn digit_str(d: u64) -> (r: &'static str)
    requires
        d < 10,
    ensures
        r@ == seq![digit_char(d as nat)],
{
    proof {
        reveal_strlit("0");
        reveal_strlit("1");
        reveal_strlit("2");
        reveal_strlit("3");
        reveal_strlit("4");
        reveal_strlit("5");
        reveal_strlit("6");
        reveal_strlit("7");
        reveal_strlit("8");
        reveal_strlit("9");
    }
    match d {
        0 => "0",
        1 => "1",
        2 => "2",
        3 => "3",
        4 => "4",
        5 => "5",
        6 => "6",
        7 => "7",
        8 => "8",
        _ => "9",
    }
}

/// `n` in decimal, with commas between groups of three digits.
pub fn fmt_num(n: u64) -> (r: String)
    ensures
        r@ == grouped_decimal(n as nat),
{
    let mut digits: Vec<u64> = Vec::new();
    let mut m = n;
    while m >= 10
        invariant
            decimal_digits(n as nat) == decimal_digits(m as nat) + digits@.map_values(|x: u64| x as nat),
            forall|i: int| 0 <= i < digits@.len() ==> #[trigger] digits@[i] < 10,
        decreases m,
    {
        let ghost before = digits@;
        digits.insert(0, m % 10);
        proof {
            assert(digits@.map_values(|x: u64| x as nat) =~= seq![(m % 10) as nat] + before.map_values(
                |x: u64| x as nat,
            ));
            assert(decimal_digits(m as nat) == decimal_digits((m / 10) as nat).push((m % 10) as nat));
            assert(decimal_digits((m / 10) as nat).push((m % 10) as nat) + before.map_values(|x: u64| x as nat)
                =~= decimal_digits((m / 10) as nat) + digits@.map_values(|x: u64| x as nat));
        }
        m = m / 10;
    }
    let ghost before = digits@;
    digits.insert(0, m);
    proof {
        assert(digits@.map_values(|x: u64| x as nat) =~= seq![m as nat] + before.map_values(|x: u64| x as nat));
        assert(decimal_digits(n as nat) =~= digits@.map_values(|x: u64| x as nat));
    }
    let ghost d = decimal_digits(n as nat);
    let len = digits.len();
    let mut out = String::new();
    let mut k: usize = 0;
    while k < len
        invariant
            len == digits@.len(),
            d == digits@.map_values(|x: u64| x as nat),
            forall|i: int| 0 <= i < digits@.len() ==> #[trigger] digits@[i] < 10,
            k <= len,
            out@ == grouped_prefix(d, k as nat),
        decreases len - k,
    {
        if k > 0 && (len - k) % 3 == 0 {
            out.append(",");
            proof {
                reveal_strlit(",");
            }
        }
        let ghost mid = out@;
        out.append(digit_str(digits[k]));
        proof {
            assert(d[k as int] == digits@[k as int] as nat);
            let sep = if k > 0 && (d.len() - k) % 3 == 0 {
                seq![',']
            } else {
                Seq::<char>::empty()
            };
            assert(mid == grouped_prefix(d, k as nat) + sep);
            assert(grouped_prefix(d, (k + 1) as nat) == grouped_prefix(d, k as nat) + sep + seq![
                digit_char(d[k as int]),
            ]);
        }
        k += 1;
    }
    out
}

} // verus!
