use mycrypt::{determine_output_path, CryptoError};

#[test]
fn explicit_output_wins() {
    let out = Some(String::from("chosen.bin"));
    assert_eq!(determine_output_path("input.txt", &out, true).unwrap(), "chosen.bin");
    assert_eq!(determine_output_path("input.txt", &out, false).unwrap(), "chosen.bin");
}

#[test]
fn encrypt_appends_enc_extension() {
    assert_eq!(determine_output_path("file.txt", &None, true).unwrap(), "file.txt.enc");
    assert_eq!(determine_output_path("dir/file.txt", &None, true).unwrap(), "dir/file.txt.enc");
    assert_eq!(determine_output_path("file", &None, true).unwrap(), "file.enc");
}

#[test]
fn trailing_separators_and_dots_are_ignored() {
    assert_eq!(determine_output_path("dir/", &None, true).unwrap(), "dir.enc");
    assert_eq!(determine_output_path("dir//", &None, true).unwrap(), "dir.enc");
    assert_eq!(determine_output_path("a/.", &None, true).unwrap(), "a.enc");
    assert_eq!(determine_output_path("dir/", &None, false).unwrap(), "dir");
    assert_eq!(determine_output_path("x/y.enc/", &None, false).unwrap(), "x/y");
}

#[test]
fn decrypt_strips_extension() {
    assert_eq!(determine_output_path("file.txt.enc", &None, false).unwrap(), "file.txt");
    assert_eq!(determine_output_path("dir/file.enc", &None, false).unwrap(), "dir/file");
    assert_eq!(determine_output_path("file", &None, false).unwrap(), "file");
    assert_eq!(determine_output_path(".hidden", &None, false).unwrap(), ".hidden");
}

#[test]
fn unusable_file_names_are_rejected() {
    for input in ["", ".", "..", "dir/..", "/", "./"] {
        assert_eq!(
            determine_output_path(input, &None, true).unwrap_err(),
            CryptoError::InvalidPath
        );
        assert_eq!(
            determine_output_path(input, &None, false).unwrap_err(),
            CryptoError::InvalidPath
        );
    }
}
