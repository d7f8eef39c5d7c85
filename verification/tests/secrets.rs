use std::borrow::Cow;

use tube::secrets::{accepts_name, Secrets};

fn files(pairs: &[(&str, &str)]) -> Vec<(String, String)> {
    pairs
        .iter()
        .map(|(n, v)| (n.to_string(), v.to_string()))
        .collect()
}

#[test]
fn loads_files_and_trims() {
    let secrets = Secrets::from_files(files(&[
        ("QUAY_USERNAME", "alice\n"),
        ("QUAY_PASSWORD", "  s3cret  \n"),
    ]));
    assert!(!secrets.is_empty());

    let masked = secrets
        .mask("alice logging in with s3cret token")
        .into_owned();
    assert_eq!(masked, "*** logging in with *** token");
}

#[test]
fn skips_dotfiles_used_by_kubernetes_mounts() {
    let secrets = Secrets::from_files(files(&[
        ("QUAY_PASSWORD", "real_value"),
        ("..data", "kubernetes-internal-marker"),
    ]));
    assert_eq!(secrets.env().len(), 1);
    let masked = secrets
        .mask("password=real_value, marker=kubernetes-internal-marker")
        .into_owned();
    assert!(masked.contains("password=***"));
    assert!(masked.contains("marker=kubernetes-internal-marker"));
}

#[test]
fn skips_empty_files() {
    let secrets = Secrets::from_files(files(&[("BLANK", "   \n"), ("TOKEN", "abc")]));
    let names: Vec<&str> = secrets.env().into_iter().map(|(k, _)| k).collect();
    assert_eq!(names, vec!["TOKEN"]);
}

#[test]
fn mask_returns_borrowed_when_no_match() {
    let secrets = Secrets::from_files(files(&[("TOKEN", "abc")]));
    let line = "no secrets here";
    match secrets.mask(line) {
        Cow::Borrowed(s) => assert_eq!(s, line),
        Cow::Owned(_) => panic!("expected borrowed return when no match"),
    }
}

#[test]
fn mask_handles_overlapping_secrets() {
    // The shorter secret is a substring of the longer one; sorting by
    // length-desc ensures the longer secret is replaced first.
    let secrets = Secrets::from_files(files(&[("SHORT", "abcd"), ("LONG", "abcdefgh")]));
    let masked = secrets.mask("value=abcdefgh, fragment=abcd").into_owned();
    assert_eq!(masked, "value=***, fragment=***");
}

#[test]
fn empty_secrets_mask_is_passthrough() {
    let secrets = Secrets::default();
    let line = "anything goes";
    match secrets.mask(line) {
        Cow::Borrowed(s) => assert_eq!(s, line),
        Cow::Owned(_) => panic!("default Secrets should not allocate"),
    }
}

#[test]
fn env_iterator_yields_loaded_pairs() {
    let secrets = Secrets::from_files(files(&[("QUAY_USERNAME", "alice")]));
    let pairs: Vec<(&str, &str)> = secrets.env();
    assert_eq!(pairs, vec![("QUAY_USERNAME", "alice")]);
}

#[test]
fn env_is_longest_value_first_keeping_file_order() {
    let secrets = Secrets::from_files(files(&[
        ("A", "xy"),
        ("B", "long-value"),
        ("C", "zw"),
        (".hidden", "ignored-even-if-long"),
        ("D", "é"),
    ]));
    assert_eq!(
        secrets.env(),
        vec![("B", "long-value"), ("A", "xy"), ("C", "zw"), ("D", "é")]
    );
}

#[test]
fn trimming_removes_unicode_whitespace() {
    let secrets = Secrets::from_files(files(&[("T", "\u{3000}\ttok\r\n")]));
    assert_eq!(secrets.env(), vec![("T", "tok")]);
}

#[test]
fn mask_replaces_every_occurrence_left_to_right() {
    let secrets = Secrets::from_files(files(&[("P", "aa")]));
    assert_eq!(secrets.mask("aaa").into_owned(), "***a");
    assert_eq!(secrets.mask("aaaa aa").into_owned(), "****** ***");
}

#[test]
fn masked_output_holds_no_secret() {
    let secrets = Secrets::from_files(files(&[("X", "ab"), ("Y", "ba"), ("Z", "b")]));
    let out = secrets.mask("abba bab b").into_owned();
    for (_, v) in secrets.env() {
        assert!(!out.contains(v), "{out} still contains {v}");
    }
}

#[test]
fn secret_with_star_can_reappear() {
    // The guarantee that no secret survives masking needs secrets without '*'.
    let secrets = Secrets::from_files(files(&[("X", "x***"), ("Y", "ab")]));
    let out = secrets.mask("xab").into_owned();
    assert_eq!(out, "x***");
}

#[test]
fn masked_text_accessors() {
    let secrets = Secrets::from_files(files(&[("K", "key")]));
    let m = secrets.mask("my key");
    assert!(matches!(m, Cow::Owned(_)));
    assert_eq!(&*m, "my ***");
    let clone = secrets.clone();
    assert_eq!(clone.env(), secrets.env());
}

#[test]
fn dotted_names_are_not_read() {
    assert!(!accepts_name("..data"));
    assert!(!accepts_name(".env"));
    assert!(accepts_name("TOKEN"));
    assert!(accepts_name("A.B"));
}
