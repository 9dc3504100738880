use pixel_dna::dna::{Dna, BYTE_COUNT};
use pixel_dna::storage::Path;

#[test]
fn image_key_of_the_zero_grid() {
    let dna = Dna::from_bytes(&vec![0u8; BYTE_COUNT]).unwrap();
    let path = Path::for_image(&dna);
    let key = path.as_str();
    assert!(key.starts_with("image/"));
    assert_eq!(key.len(), "image/".len() + 44);
    assert!(key.ends_with('='));
    let grid = Dna::from_data(vec![vec![0u8; 64]; 64]);
    assert_eq!(Path::for_image(&grid).as_str(), key);
}

#[test]
fn image_keys_differ_with_the_grid() {
    let mut bytes = vec![0u8; BYTE_COUNT];
    let zero = Path::for_image(&Dna::from_bytes(&bytes).unwrap());
    bytes[17] = 1;
    let other = Path::for_image(&Dna::from_bytes(&bytes).unwrap());
    assert_ne!(zero.as_str(), other.as_str());
}

#[test]
fn image_key_is_the_digest_of_the_flat_bytes() {
    let bytes: Vec<u8> = (0..BYTE_COUNT).map(|i| (i % 251) as u8).collect();
    let dna = Dna::from_bytes(&bytes).unwrap();
    let digest = <sha2::Sha256 as sha2::Digest>::digest(&bytes);
    let expected = format!(
        "image/{}",
        base64::Engine::encode(&base64::engine::general_purpose::STANDARD, digest)
    );
    assert_eq!(Path::for_image(&dna).as_str(), expected);
}

#[test]
fn item_keys_are_the_index_in_decimal() {
    assert_eq!(Path::for_item(0).as_str(), "image/0");
    assert_eq!(Path::for_item(42).as_str(), "image/42");
    assert_eq!(Path::for_item(u32::MAX).as_str(), "image/4294967295");
}
