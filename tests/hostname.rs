use i2g_operator::hostname::sanitize_hostname;

#[test]
fn sanitizes_dots() {
    assert_eq!(sanitize_hostname("foo.bar.com"), "foo-bar-com");
}

#[test]
fn wildcard_is_all_hosts() {
    assert_eq!(sanitize_hostname("*"), "all-hosts");
}

#[test]
fn empty_is_all_hosts() {
    assert_eq!(sanitize_hostname(""), "all-hosts");
}

#[test]
fn trims_dashes() {
    assert_eq!(sanitize_hostname("-foo-"), "foo");
}

#[test]
fn collapses_runs() {
    assert_eq!(sanitize_hostname("*.a..b_c/é9"), "a-b-c-9");
    assert_eq!(sanitize_hostname("/"), "all-hosts");
    assert_eq!(sanitize_hostname("/api/v1"), "api-v1");
}
