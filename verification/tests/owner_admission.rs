use realm_agent::admission::{
    admit_manifest, admit_push, admit_upgrade, decode_manifest_signature, decode_push_signature,
    decode_upgrade_payload, manifest_accepted_msg, staged_artifact_name, PushAcceptanceError,
};
use realm_agent::digest::sha256_hex;

fn linux_x86_64_binary() -> Vec<u8> {
    let mut b = vec![0u8; 64];
    b[0] = 0x7F;
    b[1] = b'E';
    b[2] = b'L';
    b[3] = b'F';
    b[5] = 1;
    b[18] = 62;
    b
}

#[test]
fn manifest_trust_on_first_use() {
    let d = admit_manifest("ownerA", true, None, 1, 0);
    assert!(d.record_owner);
    assert_eq!(d.verdict, Ok(()));
    let d = admit_manifest("ownerA", true, Some("ownerA"), 2, 1);
    assert!(!d.record_owner);
    assert_eq!(d.verdict, Ok(()));
    let d = admit_manifest("ownerB", true, Some("ownerA"), 3, 1);
    assert_eq!(d.verdict, Err("manifest rejected (owner mismatch)".to_string()));
    let d = admit_manifest("ownerA", false, None, 3, 1);
    assert!(!d.record_owner);
    assert_eq!(d.verdict, Err("manifest rejected (sig)".to_string()));
}

#[test]
fn manifest_versions_only_move_forward() {
    let d = admit_manifest("o", true, Some("o"), 4, 4);
    assert_eq!(d.verdict, Err("manifest rejected (stale v4 <= v4)".to_string()));
    // a first owner is recorded even when the manifest itself is stale
    let d = admit_manifest("o", true, None, 2, 5);
    assert!(d.record_owner);
    assert_eq!(d.verdict, Err("manifest rejected (stale v2 <= v5)".to_string()));
    assert_eq!(manifest_accepted_msg(12), "manifest accepted v12");
}

#[test]
fn signature_decoding() {
    assert_eq!(decode_manifest_signature("AAEC"), Ok(vec![0, 1, 2]));
    assert!(decode_manifest_signature("A").unwrap_err().starts_with("bad signature_b64: "));
    assert_eq!(decode_upgrade_payload("AAEC", "aGk="), Ok((vec![0, 1, 2], b"hi".to_vec())));
    assert!(decode_upgrade_payload("!", "aGk=")
        .unwrap_err()
        .starts_with("upgrade rejected (bad signature_b64: "));
    assert!(decode_upgrade_payload("AAEC", "!")
        .unwrap_err()
        .starts_with("upgrade rejected (bad binary_b64: "));
    assert!(matches!(decode_push_signature("AAEC"), Ok(v) if v == vec![0, 1, 2]));
    assert!(matches!(decode_push_signature("@@"), Err(PushAcceptanceError::Decode(_))));
}

#[test]
fn upgrades_are_checked_in_order() {
    let bin = linux_x86_64_binary();
    let digest = sha256_hex(&bin);
    let ok = admit_upgrade("o", &digest, Some("linux/x86_64"), 5, &bin, true, None, "linux", "x86_64", 4);
    assert!(ok.record_owner);
    assert_eq!(ok.verdict, Ok(4));

    let sig = admit_upgrade("o", &digest, None, 5, &bin, false, None, "linux", "x86_64", 4);
    assert_eq!(sig.verdict, Err("upgrade rejected (sig)".to_string()));
    let owner = admit_upgrade("x", &digest, None, 5, &bin, true, Some("o"), "linux", "x86_64", 4);
    assert_eq!(owner.verdict, Err("upgrade rejected (owner mismatch)".to_string()));
    let wrong_digest = admit_upgrade("o", "00", None, 5, &bin, true, Some("o"), "linux", "x86_64", 4);
    assert_eq!(wrong_digest.verdict, Err("upgrade rejected (digest mismatch)".to_string()));
    let target = admit_upgrade("o", &digest, None, 5, &bin, true, Some("o"), "linux", "aarch64", 4);
    assert_eq!(
        target.verdict,
        Err("upgrade rejected (target mismatch: host linux/aarch64 but bin linux/x86_64)".to_string())
    );
    let platform =
        admit_upgrade("o", &digest, Some("linux/aarch64"), 5, &bin, true, Some("o"), "linux", "x86_64", 4);
    assert_eq!(
        platform.verdict,
        Err("upgrade rejected (platform linux/x86_64 != linux/aarch64)".to_string())
    );
    let stale = admit_upgrade("o", &digest, None, 4, &bin, true, Some("o"), "linux", "x86_64", 4);
    assert_eq!(stale.verdict, Err("upgrade rejected (stale v4 <= v4)".to_string()));
}

#[test]
fn pushed_components() {
    let wasm = b"\0asm\x01\0\0\0".to_vec();
    let b64 = "AGFzbQEAAAA=";
    let digest = sha256_hex(&wasm);
    match admit_push(Ok(true), b64, &digest, "o", None) {
        Ok((record, bin)) => {
            assert!(record);
            assert_eq!(bin, wasm);
        }
        Err(e) => panic!("{}", e.message()),
    }
    assert!(matches!(admit_push(Ok(true), b64, &digest, "o", Some("o")), Ok((false, _))));
    let e = admit_push(Ok(true), b64, &digest, "o", Some("t")).unwrap_err();
    assert_eq!(e.message(), "owner mismatch (trusted=t, provided=o)");
    assert!(!e.is_io());
    let e = admit_push(Ok(false), b64, &digest, "o", None).unwrap_err();
    assert_eq!(e.message(), "invalid signature");
    let e = admit_push(Err("bad key".to_string()), b64, &digest, "o", None).unwrap_err();
    assert_eq!(e.message(), "signature verification failed: bad key");
    let e = admit_push(Ok(true), b64, "beef", "o", None).unwrap_err();
    assert_eq!(e.message(), "binary digest mismatch");
    let e = admit_push(Ok(true), "***", &digest, "o", None).unwrap_err();
    assert!(e.message().starts_with("invalid base64: "));
    assert!(PushAcceptanceError::Io("disk full".to_string()).is_io());
    assert_eq!(PushAcceptanceError::Io("disk full".to_string()).message(), "filesystem error: disk full");
}

#[test]
fn staged_names() {
    assert_eq!(
        staged_artifact_name("web", "0123456789abcdef0123"),
        "web-0123456789abcdef.wasm"
    );
}
