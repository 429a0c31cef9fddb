use walnuk::id::{alphabets, normalize, ID};

#[test]
fn test_id_generate() {
    let id1 = ID::generate(123).unwrap();
    let id2 = ID::generate(123).unwrap();
    let id3 = ID::generate(1234567).unwrap();

    assert_eq!(id1, id2);
    assert_ne!(id1, id3);
}

#[test]
fn normalize_maps_confusables_to_representatives() {
    assert_eq!(normalize("Il17ij"), "iiiiii");
    assert_eq!(normalize("O0o"), "ooo");
    assert_eq!(normalize("UVvru"), "uuuuu");
    assert_eq!(normalize("q9"), "99");
    assert_eq!(normalize("Cat-Z2"), "cat-zz");
    assert_eq!(normalize("abd"), "abd");
    assert_eq!(normalize(""), "");
    assert_eq!(normalize("é-S5"), "é-ss");
}

#[test]
fn normalize_is_idempotent_on_samples() {
    for s in ["", "HelloWorld", "Il17", "PSWXZ", "my-Custom_Slug-2024", "日本S"] {
        let once = normalize(s);
        assert_eq!(normalize(&once), once);
    }
}

#[test]
fn alphabet_leaves_out_confusable_groups() {
    let expected: Vec<char> = "ABDEFGHJKLMNQRTYabdefghkmnty3468".chars().collect();
    assert_eq!(alphabets(), expected);
}

#[test]
fn id_new_normalizes() {
    assert_eq!(ID::new("Hello".to_string()), ID("Heiio".to_string()));
}

#[test]
fn generated_ids_are_canonical_and_distinct() {
    let mut seen = std::collections::HashSet::new();
    for seq in 0..300i64 {
        let id = ID::generate(seq).unwrap();
        assert!(id.0.chars().count() >= 5);
        assert_eq!(normalize(&id.0), id.0);
        assert!(seen.insert(id.0.clone()));
    }
}
