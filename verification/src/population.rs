//! Deterministic population generation: each participant is derived from an
//! integer index through a fixed seed-expansion scheme, so the same index
//! always names the same account, across runs and processes.

use vstd::prelude::*;

verus! {

/// The decimal digit characters of `n`, most significant first.
pub open spec fn decimal_digits(n: nat) -> Seq<char>
    decreases n,
{
    if n < 10 {
        seq![digit_char(n)]
    } else {
        decimal_digits(n / 10).push(digit_char(n % 10))
    }
}

/// The character for one decimal digit.
pub open spec fn digit_char(d: nat) -> char
    recommends
        d < 10,
{
    if d == 0 {
        '0'
    } else if d == 1 {
        '1'
    } else if d == 2 {
        '2'
    } else if d == 3 {
        '3'
    } else if d == 4 {
        '4'
    } else if d == 5 {
        '5'
    } else if d == 6 {
        '6'
    } else if d == 7 {
        '7'
    } else if d == 8 {
        '8'
    } else {
        '9'
    }
}

/// The secret-URI seed for the participant at `index`: a hard derivation
/// junction holding the index in decimal, under the development phrase.
pub open spec fn seed_of_index(index: nat) -> Seq<char> {
    seq!['/', '/'] + decimal_digits(index)
}

/// The 32-byte sr25519 public key (equally, the account identifier) that
/// the external key-derivation scheme assigns to a seed string, or nothing
/// where the string is not a well-formed secret URI.
pub uninterp spec fn public_key_of(seed: Seq<char>) -> Option<Seq<u8>>;

/// Relies on sp_core::sr25519::Pair::from_string (with no password
/// override) composed with Pair::public: sr25519 key derivation from a
/// secret-URI string is deterministic — a function of the string alone,
/// the development phrase it falls back on being a compile-time constant —
/// and the derived public key is 32 bytes.
#[verifier::external_body]
fn derive_public_key(seed: &str) -> (r: Option<Vec<u8>>)
    ensures
        match r {
            Some(pk) => public_key_of(seed@) == Some(pk@) && pk@.len() == 32,
            None => public_key_of(seed@) is None,
        },
{
    match <sp_core::sr25519::Pair as sp_core::crypto::Pair>::from_string(seed, None) {
        Ok(pair) => Some(sp_core::crypto::Pair::public(&pair).0.to_vec()),
        Err(_) => None,
    }
}

/// One digit character as a string slice.
fn digit_str(d: u8) -> (r: &'static str)
    requires
        d < 10,
    ensures
        r@ =~= seq![digit_char(d as nat)],
{
    proof {
        reveal_strlit("0");
        reveal_strlit("1");
        reveal_strlit("2");
        reveal_strlit("3");
        reveal_strlit("4");
        reveal_strlit("5");
        reveal_strlit("6");
        reveal_strlit("7");
        reveal_strlit("8");
        reveal_strlit("9");
    }
    if d == 0 {
        "0"
    } else if d == 1 {
        "1"
    } else if d == 2 {
        "2"
    } else if d == 3 {
        "3"
    } else if d == 4 {
        "4"
    } else if d == 5 {
        "5"
    } else if d == 6 {
        "6"
    } else if d == 7 {
        "7"
    } else if d == 8 {
        "8"
    } else {
        "9"
    }
}

/// The digit characters of `ds`, reversed.
spec fn digits_reversed(ds: Seq<u8>) -> Seq<char> {
    Seq::new(ds.len(), |k: int| digit_char(ds[ds.len() - 1 - k] as nat))
}

/// Renders `n` in decimal, most significant digit first.
#[verifier::loop_isolation(false)]
pub fn decimal_string(n: u64) -> (r: String)
    ensures
        r@ == decimal_digits(n as nat),
{
    let mut digits: Vec<u8> = Vec::new();
    let mut m = n;
    proof {
        assert(decimal_digits(n as nat) =~= decimal_digits(m as nat) + digits_reversed(digits@));
    }
    while m >= 10
        invariant
            decimal_digits(n as nat) == decimal_digits(m as nat) + digits_reversed(digits@),
            forall|k: int| 0 <= k < digits@.len() ==> #[trigger] digits@[k] < 10,
        decreases m,
    {
        let d = (m % 10) as u8;
        proof {
            assert(decimal_digits(m as nat) == decimal_digits((m / 10) as nat).push(
                digit_char((m % 10) as nat),
            ));
            assert(digits_reversed(digits@.push(d)) =~= seq![digit_char(d as nat)]
                + digits_reversed(digits@));
            assert(decimal_digits((m / 10) as nat) + digits_reversed(digits@.push(d))
                =~= decimal_digits(m as nat) + digits_reversed(digits@));
        }
        digits.push(d);
        m = m / 10;
    }
    let mut s = String::new();
    s.append(digit_str(m as u8));
    proof {
        assert(decimal_digits(m as nat) =~= seq![digit_char(m as nat)]);
        assert(s@ =~= decimal_digits(m as nat) + digits_reversed(digits@).subrange(
            0,
            (digits@.len() - digits@.len()) as int,
        ));
    }
    let mut i = digits.len();
    while i > 0
        invariant
            i <= digits@.len(),
            s@ == decimal_digits(m as nat) + digits_reversed(digits@).subrange(
                0,
                digits@.len() - i,
            ),
        decreases i,
    {
        i = i - 1;
        s.append(digit_str(digits[i]));
        proof {
            assert(digits_reversed(digits@)[digits@.len() - 1 - i] == digit_char(
                digits@[i as int] as nat,
            ));
            assert(s@ =~= decimal_digits(m as nat) + digits_reversed(digits@).subrange(
                0,
                digits@.len() - i,
            ));
        }
    }
    proof {
        assert(digits_reversed(digits@).subrange(0, digits@.len() as int) =~= digits_reversed(
            digits@,
        ));
    }
    s
}

/// The secret-URI seed string for the participant at `index`.
pub fn index_seed(index: u64) -> (r: String)
    ensures
        r@ == seed_of_index(index as nat),
{
    proof {
        reveal_strlit("//");
    }
    let mut s = String::from_str("//");
    let digits = decimal_string(index);
    s.append(digits.as_str());
    proof {
        assert(s@ =~= seed_of_index(index as nat)) by {
            assert("//"@ =~= seq!['/', '/']);
        }
    }
    s
}

/// A synthetic participant: the index it was derived from, the seed string
/// that expansion used, and the derived 32-byte account identifier.
pub struct Identity {
    pub index: u64,
    pub seed: String,
    pub address: Vec<u8>,
}

impl Identity {
    /// The identity really is the one that the derivation scheme assigns
    /// to its index.
    pub open spec fn wf(self) -> bool {
        &&& self.seed@ == seed_of_index(self.index as nat)
        &&& public_key_of(self.seed@) == Some(self.address@)
        &&& self.address@.len() == 32
    }
}

/// Derives the identity for one index. Succeeds exactly where the external
/// derivation scheme accepts the index's seed string; the result is a pure
/// function of the index.
pub fn derive_identity(index: u64) -> (r: Option<Identity>)
    ensures
        r is Some <==> public_key_of(seed_of_index(index as nat)) is Some,
        r matches Some(id) ==> id.wf() && id.index == index,
{
    let seed = index_seed(index);
    match derive_public_key(seed.as_str()) {
        Some(address) => Some(Identity { index, seed, address }),
        None => None,
    }
}

/// Population determinism: two well-formed identities for the same index
/// carry the same seed and the same derived address, whichever runs or
/// processes produced them.
pub proof fn lemma_derive_identity_deterministic(a: Identity, b: Identity)
    requires
        a.wf(),
        b.wf(),
        a.index == b.index,
    ensures
        a.seed@ == b.seed@,
        a.address@ == b.address@,
{
}

/// Derives the identities for the index range `[lo, lo + count)`, in order.
/// Fails only where the derivation scheme rejects some index's seed.
pub fn derive_range(lo: u64, count: u64) -> (r: Option<Vec<Identity>>)
    requires
        lo + count <= u64::MAX,
    ensures
        r matches Some(ids) ==> {
            &&& ids@.len() == count
            &&& forall|k: int| 0 <= k < ids@.len() ==> (#[trigger] ids@[k]).wf() && ids@[k].index
                == lo + k
        },
        r is None ==> exists|j: u64|
            lo <= j < lo + count && (#[trigger] public_key_of(seed_of_index(j as nat))) is None,
{
    let mut ids: Vec<Identity> = Vec::new();
    let mut k: u64 = 0;
    while k < count
        invariant
            k <= count,
            lo + count <= u64::MAX,
            ids@.len() == k,
            forall|j: int| 0 <= j < ids@.len() ==> (#[trigger] ids@[j]).wf() && ids@[j].index == lo
                + j,
        decreases count - k,
    {
        match derive_identity(lo + k) {
            Some(id) => ids.push(id),
            None => {
                proof {
                    let j = lo + k;
                    assert(lo <= j < lo + count && public_key_of(seed_of_index(j as nat))
                        is None);
                }
                return None;
            },
        }
        k = k + 1;
    }
    Some(ids)
}

} // verus!
