//! What the fingerprint of an environment tells apart.

use crate::client_env;
use crate::env_cache::VarText;
use crate::laws::calling::is_of_measurement;
use vstd::prelude::*;

verus! {

/// No byte but nought makes the product vanish.
proof fn lemma_product(d: u8, k: u64)
    by (bit_vector)
    requires
        d != 0,
        k & 0x01ff_ffff_ffff_ffff != 0,
    ensures
        ((d as u64) * k) % 0x1_0000_0000_0000_0000 != 0,
{
}

/// Different bytes have different products.
proof fn lemma_products(a: u8, b: u8, k: u64)
    requires
        a > b,
        k & 0x01ff_ffff_ffff_ffff != 0,
    ensures
        (a as nat * k as nat) % 0x1_0000_0000_0000_0000 != (b as nat * k as nat)
            % 0x1_0000_0000_0000_0000,
{
    let d = (a - b) as u8;
    lemma_product(d, k);
    let m: int = 0x1_0000_0000_0000_0000;
    let x: int = a as int * k as int;
    let y: int = b as int * k as int;
    assert(x - y == d as int * k as int) by (nonlinear_arith)
        requires
            x == a as int * k as int,
            y == b as int * k as int,
            d as int == a as int - b as int,
    ;
    assert(x % m == y % m ==> (x - y) % m == 0) by {
        vstd::arithmetic::div_mod::lemma_mod_equivalence(x, y, m);
    }
}

proof fn lemma_factor(i: u64)
    by (bit_vector)
    requires
        i < 0x1_0000_0000,
    ensures
        ((0x9e3779b97f4a7c15u64 + i) as u64) & 0x01ff_ffff_ffff_ffff != 0,
{
}

proof fn lemma_spread(h: u64, x: u64, y: u64)
    by (bit_vector)
    ensures
        (((h ^ x) << 31u64) | ((h ^ x) >> 33u64)) == (((h ^ y) << 31u64) | ((h ^ y) >> 33u64))
            ==> x == y,
        (((x ^ h) << 31u64) | ((x ^ h) >> 33u64)) == (((y ^ h) << 31u64) | ((y ^ h) >> 33u64))
            ==> x == y,
{
}

/// What comes after does not make two hashes the same that were not.
proof fn lemma_still_apart(a: Seq<u8>, b: Seq<u8>, k: nat, n: nat)
    requires
        k <= n <= a.len(),
        a.len() == b.len(),
        forall|i: int| k <= i < a.len() ==> #[trigger] a[i] == b[i],
        client_env::hash_of(a, k) != client_env::hash_of(b, k),
    ensures
        client_env::hash_of(a, n) != client_env::hash_of(b, n),
    decreases n - k,
{
    if k < n {
        let m = (n - 1) as nat;
        lemma_still_apart(a, b, k, m);
        assert(a[m as int] == b[m as int]);
        let p = (a[m as int] as u64).wrapping_mul(
            0x9e3779b97f4a7c15u64.wrapping_add(m as u64),
        );
        lemma_spread(p, client_env::hash_of(a, m), client_env::hash_of(b, m));
    }
}

proof fn lemma_same_before(a: Seq<u8>, b: Seq<u8>, n: nat)
    requires
        n <= a.len(),
        a.len() == b.len(),
        forall|i: int| 0 <= i < n ==> #[trigger] a[i] == b[i],
    ensures
        client_env::hash_of(a, n) == client_env::hash_of(b, n),
    decreases n,
{
    if n > 0 {
        lemma_same_before(a, b, (n - 1) as nat);
        assert(a[n - 1] == b[n - 1]);
    }
}

/// Two runs of bytes that differ in one place have different hashes.
pub proof fn law_one_byte_makes_a_difference(a: Seq<u8>, b: Seq<u8>, k: nat)
    requires
        a.len() == b.len(),
        a.len() < 0x1_0000_0000,
        k < a.len(),
        a[k as int] != b[k as int],
        forall|i: int| 0 <= i < a.len() && i != k ==> #[trigger] a[i] == b[i],
    ensures
        client_env::hash_of(a, a.len()) != client_env::hash_of(b, b.len()),
{
    lemma_same_before(a, b, k);
    let h = client_env::hash_of(a, k);
    let x = a[k as int];
    let y = b[k as int];
    let i = k as u64;
    lemma_factor(i);
    let factor = 0x9e3779b97f4a7c15u64.wrapping_add(i);
    assert(factor == (0x9e3779b97f4a7c15u64 + i) as u64);
    if x > y {
        lemma_products(x, y, factor);
    } else {
        lemma_products(y, x, factor);
    }
    let p = (x as u64).wrapping_mul(factor);
    let q = (y as u64).wrapping_mul(factor);
    assert(p != q);
    lemma_spread(h, p, q);
    let next = k + 1;
    assert(client_env::hash_of(a, next) != client_env::hash_of(b, next));
    lemma_still_apart(a, b, next, a.len());
}

/// A variable enters the fingerprint with its name and its value, unless it
/// belongs to a run of measurements: environments that differ in one variable
/// have the same fingerprint only where that variable is written alike.
pub proof fn law_a_variable_makes_a_difference(vars: Seq<VarText>, v: VarText, w: VarText)
    requires
        !is_of_measurement(v.0),
        !is_of_measurement(w.0),
    ensures
        client_env::fingerprint_of(vars.push(v)) == client_env::fingerprint_of(vars.push(w))
            <==> client_env::text_hash(v.0 + "="@ + v.1) == client_env::text_hash(
            w.0 + "="@ + w.1,
        ),
{
    crate::laws::calling::lemma_noise(v.0);
    crate::laws::calling::lemma_noise(w.0);
    assert(vars.push(v).drop_last() =~= vars);
    assert(vars.push(w).drop_last() =~= vars);
    let f = client_env::fingerprint_of(vars);
    let a = client_env::text_hash(client_env::assignment(v));
    let b = client_env::text_hash(client_env::assignment(w));
    assert(f ^ a == f ^ b ==> a == b) by (bit_vector);
}

/// The variables of measurements do not enter it.
pub proof fn law_measurements_make_no_difference(vars: Seq<VarText>, v: VarText)
    requires
        is_of_measurement(v.0),
    ensures
        client_env::fingerprint_of(vars.push(v)) == client_env::fingerprint_of(vars),
{
    crate::laws::calling::lemma_noise(v.0);
    assert(vars.push(v).drop_last() =~= vars);
}

} // verus!
