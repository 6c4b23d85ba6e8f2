use hoi4_editor::digest::{content_sha256, fingerprint_of};

#[test]
fn content_digest_is_upper_case_sha256() {
    assert_eq!(
        content_sha256(b""),
        "E3B0C44298FC1C149AFBF4C8996FB92427AE41E4649B934CA495991B7852B855"
    );
    assert_eq!(
        content_sha256(b"abc"),
        "BA7816BF8F01CFEA414140DE5DAE2223B00361A396177A9CB410FF61F20015AD"
    );
}

#[test]
fn fingerprint_digests_paths_and_contents_with_separators() {
    let inputs = vec![("map/input.txt".to_owned(), b"fixture".to_vec())];
    assert_eq!(
        fingerprint_of(&inputs),
        "sha256:fdeac36f53a0fa908aa66f7dd54b85485490edb3ad4bc70999cb4c153fd59ec3"
    );
    assert_eq!(fingerprint_of(&inputs), fingerprint_of(&inputs));
    let two = vec![
        ("a.txt".to_owned(), b"x".to_vec()),
        ("b.txt".to_owned(), Vec::new()),
    ];
    assert_eq!(
        fingerprint_of(&two),
        "sha256:91cca783b03078079742a13c886e1657665c22a0ea85a2f347cf6a40d55a0db9"
    );
}
