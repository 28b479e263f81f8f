use realm_agent::ci::{
    archive_path, build_multipart, ci_route, header_value, hook_build, hook_target, make_job_toml,
    manual_build, parse_platform_list, parse_query, platform_job, platform_job_names,
    platforms_from_text, replace_slashes, submitted_reply, tally_submissions,
    trim_start_matches_str, verify_hmac_sha256, CiRoute, HookPayload,
};

const BODY: &[u8] = b"{\"ref\":\"refs/tags/v1\"}";
const BODY_MAC: &str = "766ed28654bef06a2848e16eff4c52dd7bda1e1f7bb92bd99c1fceead8d70a3c";

#[test]
fn query_strings() {
    let q = parse_query("repo=acme/app&tag=v1&&flag&tag=v2&=x");
    assert_eq!(q.get("repo").map(|s| s.as_str()), Some("acme/app"));
    assert_eq!(q.get("tag").map(|s| s.as_str()), Some("v2"));
    assert_eq!(q.get("flag").map(|s| s.as_str()), Some(""));
    assert!(q.get("").is_none());
    assert_eq!(q.len(), 3);
}

#[test]
fn routes() {
    match ci_route(true, false, Some("/manual?tag=v3")) {
        CiRoute::Manual(q) => assert_eq!(q.get("tag").map(|s| s.as_str()), Some("v3")),
        _ => panic!("expected a manual route"),
    }
    assert!(matches!(ci_route(false, true, Some("/hook")), CiRoute::Hook));
    assert!(matches!(ci_route(true, false, Some("/hook")), CiRoute::NotFound));
    assert!(matches!(ci_route(true, false, None), CiRoute::NotFound));
    assert!(matches!(ci_route(false, false, Some("/manual")), CiRoute::NotFound));
}

#[test]
fn job_names_and_description() {
    assert_eq!(replace_slashes("linux/x86_64"), "linux-x86_64");
    assert_eq!(
        platform_job_names("build-v1", "linux/aarch64"),
        ("build-v1-linux-aarch64".to_string(), "realm-linux-aarch64".to_string())
    );
    let toml = make_job_toml("build-v1-linux-x86_64", "linux/x86_64", "acme/app", "v1", "realm-linux-x86_64");
    assert!(toml.starts_with("name = \"build-v1-linux-x86_64\"\n\n[runtime]\ntype = \"native\"\n"));
    assert!(toml.contains("https://api.github.com/repos/acme/app/releases/tags/v1"));
    assert!(toml.contains("https://uploads.github.com/repos/acme/app/releases/$RID/assets?name=realm-linux-x86_64"));
    assert!(toml.contains("RID=$(printf '%s' \"$REL\" | grep -m1 '\"id\":' | sed -E"));
    assert!(toml.ends_with("name = \"realm-linux-x86_64\" } ]\n\n[targeting]\nplatform = \"linux/x86_64\"\n"));
    let (name, toml2) = platform_job("build-v1", "linux/x86_64", "acme/app", "v1");
    assert_eq!(name, "build-v1-linux-x86_64");
    assert_eq!(toml2, toml);
}

#[test]
fn multipart_body() {
    let (boundary, body) = build_multipart("name = \"x\"\n", Some(b"TGZ"), Some(b"tok"));
    assert_eq!(boundary, "--------------------------realmci");
    let text = String::from_utf8(body).unwrap();
    let expected = "----------------------------realmci\r\n\
Content-Disposition: form-data; name=\"job_toml\"\r\n\r\nname = \"x\"\n\r\n\
----------------------------realmci\r\n\
Content-Disposition: form-data; name=\"asset\"; filename=\"workspace.tar.gz\"\r\n\
Content-Type: application/gzip\r\n\r\nTGZ\r\n\
----------------------------realmci\r\n\
Content-Disposition: form-data; name=\"asset\"; filename=\"gh_token\"\r\n\r\ntok\r\n\
----------------------------realmci--\r\n";
    assert_eq!(text, expected);
    let (_, bare) = build_multipart("t", None, None);
    assert_eq!(
        String::from_utf8(bare).unwrap(),
        "----------------------------realmci\r\nContent-Disposition: form-data; name=\"job_toml\"\r\n\r\nt\r\n----------------------------realmci--\r\n"
    );
}

#[test]
fn submission_tally() {
    assert_eq!(tally_submissions(&vec![]), (500, 0));
    assert_eq!(tally_submissions(&vec![201, 500, 200]), (200, 2));
    assert_eq!(submitted_reply(2, 200), "submitted 2 job(s) (status 200)\n");
}

#[test]
fn webhook_signatures() {
    assert!(verify_hmac_sha256(BODY, "", None));
    assert!(verify_hmac_sha256(BODY, &format!("sha256={}", BODY_MAC), Some("secret")));
    assert!(verify_hmac_sha256(BODY, BODY_MAC, Some("  secret \n")));
    assert!(verify_hmac_sha256(BODY, &BODY_MAC.to_uppercase(), Some("secret")));
    assert!(!verify_hmac_sha256(BODY, BODY_MAC, Some("other")));
    assert!(!verify_hmac_sha256(b"tampered", BODY_MAC, Some("secret")));
    assert!(!verify_hmac_sha256(BODY, "sha256=zz", Some("secret")));
    assert!(!verify_hmac_sha256(BODY, "abc", Some("secret")));
}

#[test]
fn headers_by_name() {
    let headers = vec![
        ("Content-Type".to_string(), b"application/json".to_vec()),
        ("X-GitHub-Event".to_string(), b"push".to_vec()),
        ("x-github-event".to_string(), b"release".to_vec()),
        ("X-Bin".to_string(), vec![0x66, 0xff, 0x6f]),
    ];
    assert_eq!(header_value(&headers, "x-github-event"), Some("push".to_string()));
    assert_eq!(header_value(&headers, "X-Bin"), Some("f\u{FFFD}o".to_string()));
    assert_eq!(header_value(&headers, "missing"), None);
}

#[test]
fn webhook_targets() {
    let release = HookPayload {
        release_tag_name: Some("v2".to_string()),
        tag_name: Some("ignored".to_string()),
        git_ref: None,
        repository_full_name: Some("acme/app".to_string()),
    };
    assert_eq!(
        hook_target("release", &release),
        (Some("v2".to_string()), Some("acme/app".to_string()))
    );
    let push = HookPayload {
        release_tag_name: None,
        tag_name: None,
        git_ref: Some("refs/tags/v3".to_string()),
        repository_full_name: None,
    };
    assert_eq!(hook_target("push", &push), (Some("v3".to_string()), None));
    let branch = HookPayload { git_ref: Some("refs/heads/main".to_string()), ..push };
    assert_eq!(hook_target("push", &branch), (None, None));
    assert_eq!(hook_target("issues", &release), (None, None));
    assert_eq!(trim_start_matches_str("abababc", "ab"), "c");
}

#[test]
fn build_requests() {
    let q = parse_query("repo=acme/app&tag=v1&platforms=linux/x86_64, ,macos/aarch64");
    let b = manual_build(&q);
    assert_eq!(b.base_name, "build-v1");
    assert_eq!(b.tag_name, "v1");
    assert_eq!(b.repo_full, "acme/app");
    assert_eq!(b.platforms, Some(vec!["linux/x86_64".to_string(), "macos/aarch64".to_string()]));
    assert_eq!(b.download_path.as_deref(), Some("/acme/app/tar.gz/v1"));

    let bare = manual_build(&parse_query(""));
    assert_eq!(bare.base_name, "build-manual");
    assert_eq!(bare.repo_full, "");
    assert!(bare.platforms.is_none());
    assert!(bare.download_path.is_none());

    assert!(hook_build(None, Some("acme/app".to_string())).is_none());
    let h = hook_build(Some("v9".to_string()), Some("acme/app".to_string())).unwrap();
    assert_eq!(h.base_name, "build-v9");
    assert_eq!(h.download_path.as_deref(), Some("/acme/app/tar.gz/v9"));
    assert!(h.platforms.is_none());
    assert_eq!(archive_path("a/b", "t"), "/a/b/tar.gz/t");
}

#[test]
fn platform_lists() {
    assert_eq!(parse_platform_list(" a , ,b"), vec!["a".to_string(), "b".to_string()]);
    assert_eq!(
        platforms_from_text("linux/x86_64\n\nmacos/aarch64, windows/x86_64\n"),
        vec!["linux/x86_64".to_string(), "macos/aarch64".to_string(), "windows/x86_64".to_string()]
    );
}
