use flooder::population::{decimal_string, derive_identity, derive_range, index_seed};

#[test]
fn decimal_rendering_is_exact() {
    assert_eq!(decimal_string(0), "0");
    assert_eq!(decimal_string(7), "7");
    assert_eq!(decimal_string(42), "42");
    assert_eq!(decimal_string(1024), "1024");
    assert_eq!(decimal_string(1_000_000_000_000), "1000000000000");
    assert_eq!(decimal_string(u64::MAX), "18446744073709551615");
}

#[test]
fn index_seed_is_a_hard_junction_of_the_index() {
    assert_eq!(index_seed(0), "//0");
    assert_eq!(index_seed(123), "//123");
}

#[test]
fn derive_identity_twice_yields_identical_addresses() {
    let a = derive_identity(17).expect("numeric seeds derive");
    let b = derive_identity(17).expect("numeric seeds derive");
    assert_eq!(a.index, 17);
    assert_eq!(b.index, 17);
    assert_eq!(a.seed, b.seed);
    assert_eq!(a.address, b.address);
    assert_eq!(a.address.len(), 32);
}

#[test]
fn distinct_indices_derive_distinct_addresses() {
    let a = derive_identity(0).expect("numeric seeds derive");
    let b = derive_identity(1).expect("numeric seeds derive");
    assert_ne!(a.address, b.address);
}

#[test]
fn derive_range_is_ordered_and_deterministic() {
    let ids = derive_range(4, 3).expect("numeric seeds derive");
    assert_eq!(ids.len(), 3);
    for (k, id) in ids.iter().enumerate() {
        assert_eq!(id.index, 4 + k as u64);
        let again = derive_identity(4 + k as u64).expect("numeric seeds derive");
        assert_eq!(again.address, id.address);
    }
}
