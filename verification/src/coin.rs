//! Coins: a (denomination, amount) pair, the canonical ordering of
//! denominations, and per-denomination totals over coin lists.

use vstd::prelude::*;
use vstd::utf8::{decode_utf8, encode_utf8, encode_utf8_decode_utf8};

verus! {

/// A quantity of a single asset of the host ledger.
#[derive(Debug, PartialEq, Eq)]
pub struct Coin {
    /// The asset identifier. Amounts of different denominations never combine.
    pub denom: String,
    /// The amount, in the asset's smallest unit.
    pub amount: u128,
}

/// Mathematical image of a [`Coin`]: the denomination as a character sequence
/// and the amount as an unbounded integer, so that sums never wrap.
#[verifier::ext_equal]
pub struct CoinV {
    pub denom: Seq<char>,
    pub amount: int,
}

impl View for Coin {
    type V = CoinV;

    open spec fn view(&self) -> CoinV {
        CoinV { denom: self.denom@, amount: self.amount as int }
    }
}

impl DeepView for Coin {
    type V = CoinV;

    open spec fn deep_view(&self) -> CoinV {
        self@
    }
}

impl Clone for Coin {
    fn clone(&self) -> (res: Coin)
        ensures
            res@ == self@,
    {
        Coin { denom: self.denom.clone(), amount: self.amount }
    }
}

/// Copies a coin list.
pub fn clone_coins(v: &Vec<Coin>) -> (r: Vec<Coin>)
    ensures
        r.deep_view() == v.deep_view(),
{
    let mut r: Vec<Coin> = Vec::new();
    let mut i: usize = 0;
    proof {
        assert(r.deep_view() =~= v.deep_view().take(0));
    }
    while i < v.len()
        invariant
            i <= v.len(),
            r.deep_view() == v.deep_view().take(i as int),
        decreases v.len() - i,
    {
        let ghost prev = r.deep_view();
        let c = v[i].clone();
        proof {
            assert(c@ == v@[i as int]@);
            assert(v.deep_view()[i as int] == v@[i as int]@);
        }
        r.push(c);
        proof {
            assert forall|k: int|
                0 <= k < r.deep_view().len() implies r.deep_view()[k] == prev.push(
                v.deep_view()[i as int],
            )[k] by {
                assert(r.deep_view()[k] == r@[k].deep_view());
            }
            assert(r.deep_view() =~= prev.push(v.deep_view()[i as int]));
            assert(r.deep_view() =~= v.deep_view().take(i + 1));
        }
        i = i + 1;
    }
    proof {
        assert(r.deep_view() =~= v.deep_view());
    }
    r
}

/// Strict lexicographic order on byte sequences.
pub open spec fn bytes_lt(a: Seq<u8>, b: Seq<u8>) -> bool
    decreases a.len(),
{
    if b.len() == 0 {
        false
    } else if a.len() == 0 {
        true
    } else if a[0] < b[0] {
        true
    } else if a[0] > b[0] {
        false
    } else {
        bytes_lt(a.skip(1), b.skip(1))
    }
}

/// The canonical order on denominations: lexicographic on their UTF-8 bytes.
pub open spec fn denom_lt(a: Seq<char>, b: Seq<char>) -> bool {
    bytes_lt(encode_utf8(a), encode_utf8(b))
}

pub proof fn lemma_bytes_lt_trichotomy(a: Seq<u8>, b: Seq<u8>)
    ensures
        bytes_lt(a, b) || bytes_lt(b, a) || a == b,
        bytes_lt(a, b) ==> !bytes_lt(b, a) && a != b,
        bytes_lt(b, a) ==> a != b,
    decreases a.len(),
{
    if a.len() == 0 && b.len() == 0 {
        assert(a =~= b);
    } else if a.len() == 0 || b.len() == 0 {
    } else {
        if a[0] == b[0] {
            lemma_bytes_lt_trichotomy(a.skip(1), b.skip(1));
            if a.skip(1) == b.skip(1) {
                assert(a.len() == b.len());
                assert forall|i: int| 0 <= i < a.len() implies a[i] == b[i] by {
                    if i > 0 {
                        assert(a.skip(1)[i - 1] == a[i]);
                        assert(b.skip(1)[i - 1] == b[i]);
                    }
                }
                assert(a =~= b);
            }
            if a == b {
                assert(a.skip(1) =~= b.skip(1));
            }
        }
    }
}

pub proof fn lemma_bytes_lt_trans(a: Seq<u8>, b: Seq<u8>, c: Seq<u8>)
    requires
        bytes_lt(a, b),
        bytes_lt(b, c),
    ensures
        bytes_lt(a, c),
    decreases a.len(),
{
    if a.len() == 0 {
    } else {
        if a[0] == b[0] && b[0] == c[0] {
            lemma_bytes_lt_trans(a.skip(1), b.skip(1), c.skip(1));
        }
    }
}

pub proof fn lemma_denom_lt_trichotomy(a: Seq<char>, b: Seq<char>)
    ensures
        denom_lt(a, b) || denom_lt(b, a) || a == b,
        denom_lt(a, b) ==> !denom_lt(b, a) && a != b,
        denom_lt(b, a) ==> a != b,
{
    lemma_bytes_lt_trichotomy(encode_utf8(a), encode_utf8(b));
    if encode_utf8(a) == encode_utf8(b) {
        encode_utf8_decode_utf8(a);
        encode_utf8_decode_utf8(b);
        assert(decode_utf8(encode_utf8(a)) == decode_utf8(encode_utf8(b)));
    }
}

pub proof fn lemma_denom_lt_trans(a: Seq<char>, b: Seq<char>, c: Seq<char>)
    requires
        denom_lt(a, b),
        denom_lt(b, c),
    ensures
        denom_lt(a, c),
{
    lemma_bytes_lt_trans(encode_utf8(a), encode_utf8(b), encode_utf8(c));
}

/// Outcome of comparing two denominations in the canonical order.
#[derive(Clone, Copy, Debug, PartialEq, Eq, Structural)]
pub enum DenomOrder {
    Less,
    Equal,
    Greater,
}

proof fn lemma_bytes_lt_common_prefix(a: Seq<u8>, b: Seq<u8>, i: int)
    requires
        0 <= i <= a.len(),
        i <= b.len(),
        a.take(i) == b.take(i),
    ensures
        bytes_lt(a, b) == bytes_lt(a.skip(i), b.skip(i)),
    decreases i,
{
    if i > 0 {
        assert(a.take(i)[0] == a[0]);
        assert(b.take(i)[0] == b[0]);
        assert(a.skip(1).take(i - 1) =~= a.take(i).skip(1));
        assert(b.skip(1).take(i - 1) =~= b.take(i).skip(1));
        lemma_bytes_lt_common_prefix(a.skip(1), b.skip(1), i - 1);
        assert(a.skip(1).skip(i - 1) =~= a.skip(i));
        assert(b.skip(1).skip(i - 1) =~= b.skip(i));
    } else {
        assert(a.skip(0) =~= a);
        assert(b.skip(0) =~= b);
    }
}

/// Compares two denominations in the canonical order.
pub fn compare_denoms(a: &str, b: &str) -> (r: DenomOrder)
    ensures
        (r == DenomOrder::Less) == denom_lt(a@, b@),
        (r == DenomOrder::Equal) == (a@ == b@),
        (r == DenomOrder::Greater) == denom_lt(b@, a@),
{
    let ab = a.as_bytes();
    let bb = b.as_bytes();
    proof {
        lemma_bytes_lt_trichotomy(ab@, bb@);
        if ab@ == bb@ {
            encode_utf8_decode_utf8(a@);
            encode_utf8_decode_utf8(b@);
            assert(decode_utf8(encode_utf8(a@)) == decode_utf8(encode_utf8(b@)));
        }
        if a@ == b@ {
            assert(ab@ == bb@);
        }
    }
    let mut i: usize = 0;
    while i < ab.len() && i < bb.len()
        invariant
            i <= ab.len(),
            i <= bb.len(),
            ab@.take(i as int) == bb@.take(i as int),
            ab@ == encode_utf8(a@),
            bb@ == encode_utf8(b@),
        decreases ab.len() - i,
    {
        if ab[i] < bb[i] {
            proof {
                lemma_bytes_lt_common_prefix(ab@, bb@, i as int);
                assert(bytes_lt(ab@.skip(i as int), bb@.skip(i as int)));
                lemma_bytes_lt_trichotomy(ab@, bb@);
            }
            return DenomOrder::Less;
        }
        if ab[i] > bb[i] {
            proof {
                lemma_bytes_lt_common_prefix(bb@, ab@, i as int);
                assert(bb@.take(i as int) == ab@.take(i as int));
                assert(bytes_lt(bb@.skip(i as int), ab@.skip(i as int)));
                lemma_bytes_lt_trichotomy(ab@, bb@);
            }
            return DenomOrder::Greater;
        }
        proof {
            assert(ab@.take(i + 1) =~= ab@.take(i as int).push(ab@[i as int]));
            assert(bb@.take(i + 1) =~= bb@.take(i as int).push(bb@[i as int]));
        }
        i = i + 1;
    }
    if ab.len() < bb.len() {
        proof {
            lemma_bytes_lt_common_prefix(ab@, bb@, i as int);
            assert(ab@.skip(i as int) =~= Seq::<u8>::empty());
            assert(bytes_lt(ab@.skip(i as int), bb@.skip(i as int)));
            lemma_bytes_lt_trichotomy(ab@, bb@);
        }
        DenomOrder::Less
    } else if bb.len() < ab.len() {
        proof {
            lemma_bytes_lt_common_prefix(bb@, ab@, i as int);
            assert(bb@.take(i as int) == ab@.take(i as int));
            assert(bb@.skip(i as int) =~= Seq::<u8>::empty());
            assert(bytes_lt(bb@.skip(i as int), ab@.skip(i as int)));
            lemma_bytes_lt_trichotomy(ab@, bb@);
        }
        DenomOrder::Greater
    } else {
        proof {
            assert(ab@ =~= ab@.take(i as int));
            assert(bb@ =~= bb@.take(i as int));
            lemma_bytes_lt_trichotomy(ab@, bb@);
            encode_utf8_decode_utf8(a@);
            encode_utf8_decode_utf8(b@);
            assert(decode_utf8(encode_utf8(a@)) == decode_utf8(encode_utf8(b@)));
        }
        DenomOrder::Equal
    }
}

/// The summed amount carried in denomination `d` across a coin list.
pub open spec fn total_in_denom(s: Seq<CoinV>, d: Seq<char>) -> int
    decreases s.len(),
{
    if s.len() == 0 {
        0
    } else {
        (if s[0].denom == d {
            s[0].amount
        } else {
            0
        }) + total_in_denom(s.skip(1), d)
    }
}

/// Whether some coin in the list carries denomination `d`.
pub open spec fn has_denom(s: Seq<CoinV>, d: Seq<char>) -> bool {
    exists|i: int| 0 <= i < s.len() && s[i].denom == d
}

/// No two coins in the list share a denomination.
pub open spec fn unique_denoms(s: Seq<CoinV>) -> bool {
    forall|i: int, j: int| 0 <= i < j < s.len() ==> s[i].denom != s[j].denom
}

/// Every amount fits the machine's coin amount type.
pub open spec fn amounts_bounded(s: Seq<CoinV>) -> bool {
    forall|i: int| 0 <= i < s.len() ==> 0 <= #[trigger] s[i].amount <= u128::MAX
}

pub proof fn lemma_total_push(s: Seq<CoinV>, c: CoinV, d: Seq<char>)
    ensures
        total_in_denom(s.push(c), d) == total_in_denom(s, d) + (if c.denom == d {
            c.amount
        } else {
            0
        }),
    decreases s.len(),
{
    if s.len() == 0 {
        assert(s.push(c)[0] == c);
        assert(s.push(c).skip(1) =~= Seq::<CoinV>::empty());
        assert(total_in_denom(s.push(c).skip(1), d) == 0);
        assert(total_in_denom(s, d) == 0);
    } else {
        assert(s.push(c)[0] == s[0]);
        assert(s.push(c).skip(1) =~= s.skip(1).push(c));
        lemma_total_push(s.skip(1), c, d);
        assert(total_in_denom(s.push(c), d) == (if s[0].denom == d {
            s[0].amount
        } else {
            0
        }) + total_in_denom(s.skip(1).push(c), d));
    }
}

pub proof fn lemma_total_add(a: Seq<CoinV>, b: Seq<CoinV>, d: Seq<char>)
    ensures
        total_in_denom(a + b, d) == total_in_denom(a, d) + total_in_denom(b, d),
    decreases a.len(),
{
    if a.len() == 0 {
        assert(a + b =~= b);
    } else {
        assert((a + b).skip(1) =~= a.skip(1) + b);
        lemma_total_add(a.skip(1), b, d);
    }
}

/// Totals over a prefix never exceed totals over the whole list.
pub proof fn lemma_total_take_le(s: Seq<CoinV>, i: int, d: Seq<char>)
    requires
        0 <= i <= s.len(),
        amounts_bounded(s),
    ensures
        total_in_denom(s.take(i), d) <= total_in_denom(s, d),
        0 <= total_in_denom(s.take(i), d),
    decreases s.len() - i,
{
    lemma_total_nonneg(s.take(i), d);
    if i < s.len() {
        assert(s.take(i + 1) =~= s.take(i).push(s[i]));
        lemma_total_push(s.take(i), s[i], d);
        lemma_total_take_le(s, i + 1, d);
        assert(s.take(s.len() as int) =~= s);
    } else {
        assert(s.take(i) =~= s);
    }
}

pub proof fn lemma_total_nonneg(s: Seq<CoinV>, d: Seq<char>)
    requires
        amounts_bounded(s),
    ensures
        0 <= total_in_denom(s, d),
    decreases s.len(),
{
    if s.len() > 0 {
        assert(amounts_bounded(s.skip(1))) by {
            assert(forall|i: int|
                0 <= i < s.skip(1).len() ==> #[trigger] s.skip(1)[i] == s[i + 1]);
        }
        lemma_total_nonneg(s.skip(1), d);
    }
}

/// In a list without repeated denominations, the total in a coin's
/// denomination is exactly that coin's amount.
pub proof fn lemma_total_unique(s: Seq<CoinV>, i: int)
    requires
        unique_denoms(s),
        0 <= i < s.len(),
    ensures
        total_in_denom(s, s[i].denom) == s[i].amount,
    decreases s.len(),
{
    if i == 0 {
        lemma_total_absent(s.skip(1), s[0].denom);
    } else {
        assert(s[0].denom != s[i].denom);
        assert(s.skip(1)[i - 1] == s[i]);
        assert(unique_denoms(s.skip(1))) by {
            assert(forall|k: int|
                0 <= k < s.skip(1).len() ==> #[trigger] s.skip(1)[k] == s[k + 1]);
        }
        lemma_total_unique(s.skip(1), i - 1);
    }
}

/// A denomination no coin carries totals to zero.
pub proof fn lemma_total_absent(s: Seq<CoinV>, d: Seq<char>)
    requires
        !has_denom(s, d),
    ensures
        total_in_denom(s, d) == 0,
    decreases s.len(),
{
    if s.len() > 0 {
        assert(s[0].denom != d);
        assert(!has_denom(s.skip(1), d)) by {
            assert(forall|k: int|
                0 <= k < s.skip(1).len() ==> #[trigger] s.skip(1)[k] == s[k + 1]);
        }
        lemma_total_absent(s.skip(1), d);
    }
}

} // verus!
