use roca::permissions::flags;
use roca::permissions::{Permissions, PermissionsBits};

#[test]
fn check_str_other_use() {
    assert_eq!(Permissions(flags::OTH_U).render(), "------u--");
}

#[test]
fn check_str_all_manage() {
    assert_eq!(
        Permissions(flags::USR_M | flags::GRP_M | flags::OTH_M).render(),
        "-m--m--m-"
    );
}

#[test]
fn check_str_complex() {
    assert_eq!(
        Permissions(flags::USR_U | flags::GRP_UMA | flags::OTH_A).render(),
        "u--uma--a"
    );
}

#[test]
fn render_empty_and_full() {
    assert_eq!(Permissions(0).render(), "---------");
    assert_eq!(Permissions(0o777).render(), "umaumauma");
}

#[test]
fn decode_splits_fields() {
    let b = Permissions(0o701).decode();
    assert_eq!(
        (b.0, b.1, b.2, b.3, b.4, b.5, b.6, b.7, b.8),
        (1, 1, 1, 0, 0, 0, 0, 0, 1)
    );
}

#[test]
fn encode_packs_fields() {
    let p = PermissionsBits(1, 0, 0, 1, 1, 1, 0, 0, 1).encode();
    assert_eq!(p.0, 0o471);
}

#[test]
fn encode_decode_roundtrip_all_values() {
    for v in 0..512u16 {
        assert_eq!(Permissions(v).decode().encode().0, v);
    }
}

#[test]
fn from_impls_convert_both_ways() {
    let bits = PermissionsBits::from(Permissions(0o644));
    assert_eq!(Permissions::from(bits).0, 0o644);
}
