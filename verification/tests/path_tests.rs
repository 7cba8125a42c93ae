//! Identifier rendering and path derivation.

use rose_store::fs_manager::FsManager;
use rose_store::ident::{byte_hex_short_str, hex_str, ImageId};

fn id_from_str(s: &str) -> ImageId {
    let u = uuid::Uuid::parse_str(s).unwrap();
    ImageId(u.as_u128())
}

#[test]
fn hex_digits() {
    assert_eq!(hex_str(0), "0");
    assert_eq!(hex_str(9), "9");
    assert_eq!(hex_str(10), "a");
    assert_eq!(hex_str(15), "f");
}

#[test]
fn shard_rendering_unpadded() {
    assert_eq!(byte_hex_short_str(0), "0");
    assert_eq!(byte_hex_short_str(10), "a");
    assert_eq!(byte_hex_short_str(15), "f");
    assert_eq!(byte_hex_short_str(16), "10");
    assert_eq!(byte_hex_short_str(171), "ab");
    assert_eq!(byte_hex_short_str(255), "ff");
}

#[test]
fn hyphenated_matches_uuid_crate() {
    let cases = [
        "00000000-0000-0000-0000-000000000001",
        "123e4567-e89b-12d3-a456-426614174000",
        "ffffffff-ffff-ffff-ffff-ffffffffffff",
        "0a1b2c3d-4e5f-6071-8293-a4b5c6d7e8f9",
    ];
    for c in cases {
        let u = uuid::Uuid::parse_str(c).unwrap();
        let id = ImageId(u.as_u128());
        assert_eq!(id.to_hyphenated(), u.to_string());
        assert_eq!(id.to_hyphenated(), c.to_string());
    }
}

#[test]
fn shard_bytes_match_uuid_node_field() {
    let u = uuid::Uuid::parse_str("123e4567-e89b-12d3-a456-426614174000").unwrap();
    let id = ImageId(u.as_u128());
    let (_, _, _, d4) = u.to_fields_le();
    assert_eq!(id.shard_a(), d4[2]);
    assert_eq!(id.shard_b(), d4[3]);
    assert_eq!(id.byte_at(10), d4[2]);
    assert_eq!(id.byte_at(11), d4[3]);
}

#[test]
fn derived_path_of_low_uuid() {
    let fm = FsManager::new("root".to_string(), 1 << 30, 1 << 20);
    let id = id_from_str("00000000-0000-0000-0000-000000000001");
    assert_eq!(
        fm.uuid_to_path(id, "jpeg"),
        "root/0/0/00000000-0000-0000-0000-000000000001.jpeg"
    );
}

#[test]
fn derived_path_uses_bytes_ten_and_eleven() {
    let fm = FsManager::new("/data/imgs".to_string(), 1 << 30, 1 << 20);
    let id = id_from_str("123e4567-e89b-12d3-a456-426614174000");
    // bytes 10 and 11 of this identifier are 0x42 and 0x66
    assert_eq!(
        fm.uuid_to_path(id, "png"),
        "/data/imgs/42/66/123e4567-e89b-12d3-a456-426614174000.png"
    );
}
