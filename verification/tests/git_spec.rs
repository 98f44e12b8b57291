use pacquet_package_manager::git_spec::{
    git_spec_to_tarball_url, git_tarball_source, github_repo_from_spec, is_git_spec,
    is_github_shorthand_spec, normalize_git_spec,
};

fn s(text: &str) -> String {
    text.to_string()
}

#[test]
fn detects_supported_git_specs() {
    assert!(is_git_spec("pnpm/pnpm"));
    assert!(is_git_spec("pnpm/pnpm#main"));
    assert!(is_git_spec("github:pnpm/pnpm"));
    assert!(is_git_spec("github:pnpm/pnpm#main"));
    assert!(is_git_spec("git+https://github.com/pnpm/pnpm.git#main"));
    assert!(is_git_spec("https://github.com/pnpm/pnpm.git#main"));
    assert!(is_git_spec("git+ssh://git@github.com:pnpm/pnpm.git#main"));
    assert!(!is_git_spec("fastify@^4.0.0"));
}

#[test]
fn converts_github_specs_to_codeload_tarball() {
    assert_eq!(
        git_spec_to_tarball_url("pnpm/pnpm"),
        Some("https://codeload.github.com/pnpm/pnpm/tar.gz/HEAD".to_string())
    );
    assert_eq!(
        git_spec_to_tarball_url("github:pnpm/pnpm"),
        Some("https://codeload.github.com/pnpm/pnpm/tar.gz/HEAD".to_string())
    );
    assert_eq!(
        git_spec_to_tarball_url("github:pnpm/pnpm#main"),
        Some("https://codeload.github.com/pnpm/pnpm/tar.gz/main".to_string())
    );
    assert_eq!(
        git_spec_to_tarball_url("git+https://github.com/pnpm/pnpm.git#v10.0.0"),
        Some("https://codeload.github.com/pnpm/pnpm/tar.gz/v10.0.0".to_string())
    );
    assert_eq!(
        git_spec_to_tarball_url("git+ssh://git@github.com:pnpm/pnpm.git#main"),
        Some("https://codeload.github.com/pnpm/pnpm/tar.gz/main".to_string())
    );
}

#[test]
fn normalizes_git_specs_to_github_protocol() {
    assert_eq!(normalize_git_spec("pnpm/pnpm"), Some("github:pnpm/pnpm".to_string()));
    assert_eq!(
        normalize_git_spec("https://github.com/pnpm/pnpm.git#main"),
        Some("github:pnpm/pnpm#main".to_string())
    );
    assert_eq!(
        normalize_git_spec("git+ssh://git@github.com:pnpm/pnpm.git#main"),
        Some("github:pnpm/pnpm#main".to_string())
    );
}

#[test]
fn a_shorthand_has_an_owner_and_a_repository() {
    assert!(is_github_shorthand_spec("pnpm/pnpm"));
    assert!(is_github_shorthand_spec("pnpm/pnpm#a/b"));
    assert!(!is_github_shorthand_spec("pnpm"));
    assert!(!is_github_shorthand_spec("a/b/c"));
    assert!(!is_github_shorthand_spec("@scope/pkg"));
    assert!(!is_github_shorthand_spec("./a/b"));
    assert!(!is_github_shorthand_spec("/a/b"));
    assert!(!is_github_shorthand_spec("http://a/b"));
    assert!(!is_github_shorthand_spec(""));
}

#[test]
fn repositories_lose_the_suffix_of_a_clone() {
    assert_eq!(
        github_repo_from_spec("https://github.com/pnpm/pnpm.git"),
        Some((s("pnpm/pnpm"), s("HEAD")))
    );
    assert_eq!(github_repo_from_spec("github:pnpm/pnpm#"), Some((s("pnpm/pnpm#"), s("HEAD"))));
    assert_eq!(github_repo_from_spec("github:pnpm"), None);
    assert_eq!(github_repo_from_spec("https://github.com/pnpm"), None);
    assert_eq!(github_repo_from_spec("https://gitlab.com/a/b"), None);
}

#[test]
fn normal_form_is_stable() {
    let first = normalize_git_spec("git+https://github.com/pnpm/pnpm.git#v10.0.0").expect("normal");
    assert_eq!(first, "github:pnpm/pnpm#v10.0.0");
    assert_eq!(normalize_git_spec(&first), Some(first.clone()));
    assert_eq!(github_repo_from_spec(&first), Some((s("pnpm/pnpm"), s("v10.0.0"))));
}

#[test]
fn unsupported_git_specs_are_told() {
    assert_eq!(
        git_tarball_source("pnpm/pnpm#main"),
        Ok(s("https://codeload.github.com/pnpm/pnpm/tar.gz/main"))
    );
    assert_eq!(
        git_tarball_source("git@example.com:a.git"),
        Err(s(
            "unsupported git spec: git@example.com:a.git. currently supported: github:, owner/repo shorthand, and github.com URLs"
        ))
    );
}

#[test]
fn all_spellings_of_a_repository_agree() {
    let spellings = |path: &str, mark: &str| {
        vec![
            format!("{path}{mark}"),
            format!("github:{path}{mark}"),
            format!("git+https://github.com/{path}.git{mark}"),
            format!("https://github.com/{path}.git{mark}"),
            format!("git+ssh://git@github.com/{path}.git{mark}"),
            format!("git+ssh://git@github.com:{path}.git{mark}"),
        ]
    };
    for (mark, reference) in [("", "HEAD"), ("#v1.0-rc", "v1.0-rc"), ("#HEAD", "HEAD")] {
        let url = Some(format!("https://codeload.github.com/own-er/re-po1/tar.gz/{reference}"));
        for spelling in spellings("own-er/re-po1", mark) {
            assert!(is_git_spec(&spelling));
            assert_eq!(git_spec_to_tarball_url(&spelling), url);
            let normal = normalize_git_spec(&spelling).expect("a normal form");
            assert_eq!(git_spec_to_tarball_url(&normal), url);
        }
    }
}
