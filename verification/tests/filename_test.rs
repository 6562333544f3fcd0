use ydm::filename::guess_filename;
use ydm::filename::name_in_url;
use ydm::filename::urlencoding_decode;

#[test]
fn names_from_addresses() {
    assert_eq!(guess_filename("https://h/a/b.zip?x=/y"), "b.zip");
    assert_eq!(guess_filename("https://h/a%20b.txt"), "a b.txt");
    assert_eq!(guess_filename("plain"), "plain");
    assert_eq!(name_in_url("https://h/a/"), None);
    assert_eq!(name_in_url("?q"), None);
    assert_eq!(name_in_url("https://h/a.bin"), Some("a.bin".to_string()));
}

#[test]
fn made_up_names() {
    let name = guess_filename("https://h/dir/");
    assert_eq!(name.len(), "download_".len() + 8 + ".bin".len());
    assert!(name.starts_with("download_"));
    assert!(name.ends_with(".bin"));
    let digits = &name["download_".len()..name.len() - ".bin".len()];
    assert!(digits.chars().all(|c| c.is_ascii_hexdigit() && !c.is_ascii_uppercase()));
    assert_ne!(name, guess_filename("https://h/dir/"));
}

#[test]
fn percent_decoding() {
    assert_eq!(urlencoding_decode("a%2Fb"), "a/b");
    assert_eq!(urlencoding_decode("%41%42"), "AB");
    // Each byte becomes a character of its own.
    assert_eq!(urlencoding_decode("%C3%A9"), "\u{c3}\u{a9}");
    // What is no number is dropped, but for the percent sign.
    assert_eq!(urlencoding_decode("x%zzy"), "x%y");
    // A sign before one digit is a number.
    assert_eq!(urlencoding_decode("%+9"), "\t");
    // Missing digits count as zeros.
    assert_eq!(urlencoding_decode("%"), "\0");
    assert_eq!(urlencoding_decode("%4"), "@");
    assert_eq!(urlencoding_decode(""), "");
}

#[test]
fn decoding_leaves_plain_text() {
    assert_eq!(urlencoding_decode("plain-text_é.zip"), "plain-text_é.zip");
}

#[test]
fn decoding_never_grows() {
    for s in ["", "%", "%%", "%4", "%41", "a%zz", "é%é%é"] {
        assert!(urlencoding_decode(s).chars().count() <= s.chars().count());
    }
}

#[test]
fn decoding_passes_a_plain_beginning() {
    assert_eq!(urlencoding_decode("abc%41"), format!("abc{}", urlencoding_decode("%41")));
}

#[test]
fn decoding_undoes_escaping() {
    let text: String = (0u8..=255).map(|b| b as char).collect();
    let escaped: String = (0u8..=255).map(|b| format!("%{:02X}", b)).collect();
    assert_eq!(urlencoding_decode(&escaped), text);
    assert_eq!(urlencoding_decode("100%25 sure"), "100% sure");
}
