//! The CI controller component's logic: query strings, webhook checks,
//! which release a hook announces, and the build jobs submitted for it.
use vstd::prelude::*;
use vstd::string::*;

use crate::keyed::StrMap;
use crate::text::{
    ascii_lower, eq_ignore_ascii_case, split_all, split_char, split_once, split_once_char,
    starts_with, str_eq, str_starts_with, trim, trim_str,
};

verus! {

/// `s` with every `/` replaced by `-`.
pub open spec fn dashed(s: Seq<char>) -> Seq<char> {
    s.map_values(|c: char| if c == '/' { '-' } else { c })
}

pub fn replace_slashes(s: &str) -> (r: String)
    ensures
        r@ == dashed(s@),
{
    let n = s.unicode_len();
    let mut out = String::new();
    let mut i: usize = 0;
    while i < n
        invariant
            n == s@.len(),
            i <= n,
            out@ =~= dashed(s@.subrange(0, i as int)),
        decreases n - i,
    {
        if s.get_char(i) == '/' {
            out.append("-");
        } else {
            out.append(s.substring_char(i, i + 1));
        }
        proof {
            reveal_strlit("-");
            assert(s@.subrange(0, i + 1) =~= s@.subrange(0, i as int).push(s@[i as int]));
        }
        i = i + 1;
    }
    assert(s@.subrange(0, n as int) =~= s@);
    out
}

/// A query string read as key/value pairs: split at `&`, each pair at its
/// first `=` (no `=` means an empty value); empty pairs and empty keys are
/// skipped, and a later key replaces an earlier one.
pub open spec fn query_pair(pair: Seq<char>) -> Option<(Seq<char>, Seq<char>)> {
    if pair.len() == 0 {
        None
    } else {
        let (k, v) = match split_once(pair, '=') {
            Some((k, v)) => (k, v),
            None => (pair, Seq::empty()),
        };
        if k.len() == 0 {
            None
        } else {
            Some((k, v))
        }
    }
}

pub fn parse_query(q: &str) -> (r: StrMap<String>)
    ensures
        r.wf(),
        forall|k: Seq<char>| #[trigger] r.lookup(k) matches Some(v) ==> query_last(split_all(q@, '&'), k) == Some(v@),
        forall|k: Seq<char>| #[trigger] r.lookup(k) is None ==> query_last(split_all(q@, '&'), k) is None,
{
    let pairs = split_char(q, '&');
    let ghost ps = split_all(q@, '&');
    let mut out: StrMap<String> = StrMap::new();
    let mut i: usize = 0;
    while i < pairs.len()
        invariant
            ps == split_all(q@, '&'),
            pairs@.len() == ps.len(),
            forall|j: int| 0 <= j < pairs@.len() ==> #[trigger] pairs@[j]@ == ps[j],
            i <= pairs@.len(),
            out.wf(),
            forall|k: Seq<char>| #[trigger] out.lookup(k) matches Some(v) ==> query_last(ps.subrange(0, i as int), k) == Some(v@),
            forall|k: Seq<char>| #[trigger] out.lookup(k) is None ==> query_last(ps.subrange(0, i as int), k) is None,
        decreases pairs.len() - i,
    {
        let pair = pairs[i];
        let ghost prev = out;
        proof {
            assert(ps.subrange(0, i + 1).drop_last() =~= ps.subrange(0, i as int));
            assert(ps.subrange(0, i + 1).last() == pair@);
        }
        if pair.unicode_len() > 0 {
            let (k, v) = match split_once_char(pair, '=') {
                Some((k, v)) => (k, v),
                None => (pair, ""),
            };
            proof {
                reveal_strlit("");
            }
            if k.unicode_len() > 0 {
                let vs = String::from_str(v);
                let ghost vv = vs;
                out.insert(String::from_str(k), vs);
                proof {
                    crate::keyed::lemma_insert_lookup(prev, out, k@, vv);
                    assert(query_pair(pair@) == Some((k@, v@)));
                }
            } else {
                assert(query_pair(pair@) is None);
            }
        } else {
            assert(query_pair(pair@) is None);
        }
        i = i + 1;
    }
    assert(ps.subrange(0, ps.len() as int) =~= ps);
    out
}

/// The value the last pair with key `k` gives, if any.
pub open spec fn query_last(pairs: Seq<Seq<char>>, k: Seq<char>) -> Option<Seq<char>>
    decreases pairs.len(),
{
    if pairs.len() == 0 {
        None
    } else {
        match query_pair(pairs.last()) {
            Some((k2, v)) => if k2 == k {
                Some(v)
            } else {
                query_last(pairs.drop_last(), k)
            },
            None => query_last(pairs.drop_last(), k),
        }
    }
}

/// A fixed part of the job description.
pub open spec fn toml_name_prefix() -> Seq<char> {
    "name = \""@
}

/// A fixed part of the job description.
pub open spec fn toml_script_head() -> Seq<char> {
    "\"\n\n[runtime]\ntype = \"native\"\nbinary = \"/usr/bin/bash\"\nargs = [\"-c\", \"set -e; \
mkdir -p /tmp/workspace; \
tar -xzf /tmp/assets/workspace.tar.gz -C /tmp/workspace; \
cd /tmp/workspace; \
cargo build --release --bin realm; \
ASSET=/tmp/workspace/target/release/realm; \
if [ -f /tmp/assets/gh_token ]; then \
  TOKEN=$(cat /tmp/assets/gh_token); \
  if [ -n \"$TOKEN\" ]; then \
    echo 'Uploading asset to GitHub release...'; \
    REL=$(curl -s -H \"Authorization: Bearer $TOKEN\" https://api.github.com/repos/"@
}

/// A fixed part of the job description.
pub open spec fn toml_releases_tags() -> Seq<char> {
    "/releases/tags/"@
}

/// A fixed part of the job description.
pub open spec fn toml_script_mid() -> Seq<char> {
    "); \
    RID=$(printf '%s' \"$REL\" | grep -m1 '\"id\":' | sed -E 's/.*\"id\": ([0-9]+).*/\\1/'); \
    if [ -n \"$RID\" ]; then \
      curl -s -X POST -H \"Authorization: Bearer $TOKEN\" -H \"Content-Type: application/octet-stream\" --data-binary @\"$ASSET\" \"https://uploads.github.com/repos/"@
}

/// A fixed part of the job description.
pub open spec fn toml_assets_query() -> Seq<char> {
    "/releases/$RID/assets?name="@
}

/// A fixed part of the job description.
pub open spec fn toml_script_tail() -> Seq<char> {
    "\" > /dev/null || true; \
    else \
      echo 'Release ID not found for tag'; \
    fi; \
  fi; \
fi\"]\nmemory_mb = 4096\n\n[execution]\nworking_dir = \"/tmp\"\ntimeout_minutes = 45\nartifacts = [ { path = \"/tmp/workspace/target/release/realm\", name = \""@
}

/// A fixed part of the job description.
pub open spec fn toml_targeting() -> Seq<char> {
    "\" } ]\n\n[targeting]\nplatform = \""@
}

/// A fixed part of the job description.
pub open spec fn toml_end() -> Seq<char> {
    "\"\n"@
}

fn toml_name_prefix_str() -> (r: &'static str)
    ensures
        r@ == toml_name_prefix(),
{
    "name = \""
}

fn toml_script_head_str() -> (r: &'static str)
    ensures
        r@ == toml_script_head(),
{
    "\"\n\n[runtime]\ntype = \"native\"\nbinary = \"/usr/bin/bash\"\nargs = [\"-c\", \"set -e; \
mkdir -p /tmp/workspace; \
tar -xzf /tmp/assets/workspace.tar.gz -C /tmp/workspace; \
cd /tmp/workspace; \
cargo build --release --bin realm; \
ASSET=/tmp/workspace/target/release/realm; \
if [ -f /tmp/assets/gh_token ]; then \
  TOKEN=$(cat /tmp/assets/gh_token); \
  if [ -n \"$TOKEN\" ]; then \
    echo 'Uploading asset to GitHub release...'; \
    REL=$(curl -s -H \"Authorization: Bearer $TOKEN\" https://api.github.com/repos/"
}

fn toml_releases_tags_str() -> (r: &'static str)
    ensures
        r@ == toml_releases_tags(),
{
    "/releases/tags/"
}

fn toml_script_mid_str() -> (r: &'static str)
    ensures
        r@ == toml_script_mid(),
{
    "); \
    RID=$(printf '%s' \"$REL\" | grep -m1 '\"id\":' | sed -E 's/.*\"id\": ([0-9]+).*/\\1/'); \
    if [ -n \"$RID\" ]; then \
      curl -s -X POST -H \"Authorization: Bearer $TOKEN\" -H \"Content-Type: application/octet-stream\" --data-binary @\"$ASSET\" \"https://uploads.github.com/repos/"
}

fn toml_assets_query_str() -> (r: &'static str)
    ensures
        r@ == toml_assets_query(),
{
    "/releases/$RID/assets?name="
}

fn toml_script_tail_str() -> (r: &'static str)
    ensures
        r@ == toml_script_tail(),
{
    "\" > /dev/null || true; \
    else \
      echo 'Release ID not found for tag'; \
    fi; \
  fi; \
fi\"]\nmemory_mb = 4096\n\n[execution]\nworking_dir = \"/tmp\"\ntimeout_minutes = 45\nartifacts = [ { path = \"/tmp/workspace/target/release/realm\", name = \""
}

fn toml_targeting_str() -> (r: &'static str)
    ensures
        r@ == toml_targeting(),
{
    "\" } ]\n\n[targeting]\nplatform = \""
}

fn toml_end_str() -> (r: &'static str)
    ensures
        r@ == toml_end(),
{
    "\"\n"
}

/// The job description of one build: job `name` for `platform`, building
/// the workspace, and uploading the binary as `asset_name` to release
/// `tag_name` of `repo_full` when a GitHub token is supplied.
pub open spec fn job_toml(name: Seq<char>, platform: Seq<char>, repo_full: Seq<char>, tag_name: Seq<char>, asset_name: Seq<char>) -> Seq<char> {
    toml_name_prefix() + name + toml_script_head() + repo_full + toml_releases_tags() + tag_name
        + toml_script_mid() + repo_full + toml_assets_query() + asset_name + toml_script_tail()
        + asset_name + toml_targeting() + platform + toml_end()
}

pub fn make_job_toml(name: &str, platform: &str, repo_full: &str, tag_name: &str, asset_name: &str) -> (r: String)
    ensures
        r@ == job_toml(name@, platform@, repo_full@, tag_name@, asset_name@),
{
    String::from_str(toml_name_prefix_str()).concat(name).concat(toml_script_head_str()).concat(
        repo_full,
    ).concat(toml_releases_tags_str()).concat(tag_name).concat(toml_script_mid_str()).concat(
        repo_full,
    ).concat(toml_assets_query_str()).concat(asset_name).concat(toml_script_tail_str()).concat(
        asset_name,
    ).concat(toml_targeting_str()).concat(platform).concat(toml_end_str())
}

/// The boundary of the forms the controller posts.
pub open spec fn form_boundary() -> Seq<char> {
    "--------------------------realmci"@
}

/// The bytes of an ASCII text.
pub open spec fn ascii_bytes(s: Seq<char>) -> Seq<u8> {
    s.map_values(|c: char| c as u8)
}

fn push_ascii(out: &mut Vec<u8>, s: &str)
    requires
        vstd::string::is_ascii(s),
    ensures
        final(out)@ == old(out)@ + ascii_bytes(s@),
{
    proof {
        vstd::string::is_ascii_spec_bytes(s);
    }
    let b = s.as_bytes();
    let mut i: usize = 0;
    let ghost start = out@;
    while i < b.len()
        invariant
            b@ == ascii_bytes(s@),
            i <= b@.len(),
            out@ == start + b@.subrange(0, i as int),
        decreases b.len() - i,
    {
        out.push(b[i]);
        assert(b@.subrange(0, i + 1) =~= b@.subrange(0, i as int).push(b@[i as int]));
        i = i + 1;
    }
    assert(b@.subrange(0, b@.len() as int) =~= b@);
}

fn push_bytes(out: &mut Vec<u8>, b: &[u8])
    ensures
        final(out)@ == old(out)@ + b@,
{
    let mut i: usize = 0;
    let ghost start = out@;
    while i < b.len()
        invariant
            i <= b@.len(),
            out@ == start + b@.subrange(0, i as int),
        decreases b.len() - i,
    {
        out.push(b[i]);
        assert(b@.subrange(0, i + 1) =~= b@.subrange(0, i as int).push(b@[i as int]));
        i = i + 1;
    }
    assert(b@.subrange(0, b@.len() as int) =~= b@);
}

/// The multipart form submitting a job: its description as field
/// `job_toml`, then the workspace archive and the GitHub token as `asset`
/// files when given.
pub open spec fn multipart_form(job_toml: Seq<u8>, workspace: Option<Seq<u8>>, gh_token: Option<Seq<u8>>) -> Seq<u8> {
    let sep = ascii_bytes("--"@ + form_boundary() + "\r\n"@);
    let head = sep + ascii_bytes("Content-Disposition: form-data; name=\"job_toml\"\r\n\r\n"@) + job_toml
        + ascii_bytes("\r\n"@);
    let ws = match workspace {
        Some(b) => sep + ascii_bytes(
            "Content-Disposition: form-data; name=\"asset\"; filename=\"workspace.tar.gz\"\r\n"@,
        ) + ascii_bytes("Content-Type: application/gzip\r\n\r\n"@) + b + ascii_bytes("\r\n"@),
        None => Seq::empty(),
    };
    let tok = match gh_token {
        Some(b) => sep + ascii_bytes(
            "Content-Disposition: form-data; name=\"asset\"; filename=\"gh_token\"\r\n\r\n"@,
        ) + b + ascii_bytes("\r\n"@),
        None => Seq::empty(),
    };
    head + ws + tok + ascii_bytes("--"@ + form_boundary() + "--\r\n"@)
}

pub open spec fn opt_bytes(o: Option<&[u8]>) -> Option<Seq<u8>> {
    match o {
        Some(b) => Some(b@),
        None => None,
    }
}

/// Build the multipart form for a job (see `multipart_form`), with its
/// boundary.
pub fn build_multipart(job_toml: &str, workspace: Option<&[u8]>, gh_token: Option<&[u8]>) -> (r: (String, Vec<u8>))
    ensures
        r.0@ == form_boundary(),
        r.1@ == multipart_form(job_toml.spec_bytes(), opt_bytes(workspace), opt_bytes(gh_token)),
{
    proof {
        reveal_strlit("----------------------------realmci\r\n");
        reveal_strlit("Content-Disposition: form-data; name=\"job_toml\"\r\n\r\n");
        reveal_strlit("\r\n");
        reveal_strlit("Content-Disposition: form-data; name=\"asset\"; filename=\"workspace.tar.gz\"\r\n");
        reveal_strlit("Content-Type: application/gzip\r\n\r\n");
        reveal_strlit("Content-Disposition: form-data; name=\"asset\"; filename=\"gh_token\"\r\n\r\n");
        reveal_strlit("----------------------------realmci--\r\n");
        reveal_strlit("--");
        reveal_strlit("--------------------------realmci");
        reveal_strlit("--\r\n");
    }
    let boundary = "--------------------------realmci";
    let sep = "----------------------------realmci\r\n";
    assert(sep@ =~= "--"@ + form_boundary() + "\r\n"@);
    let mut data: Vec<u8> = Vec::new();
    push_ascii(&mut data, sep);
    push_ascii(&mut data, "Content-Disposition: form-data; name=\"job_toml\"\r\n\r\n");
    push_bytes(&mut data, job_toml.as_bytes());
    push_ascii(&mut data, "\r\n");
    let ghost head = data@;
    match workspace {
        Some(bytes) => {
            push_ascii(&mut data, sep);
            push_ascii(
                &mut data,
                "Content-Disposition: form-data; name=\"asset\"; filename=\"workspace.tar.gz\"\r\n",
            );
            push_ascii(&mut data, "Content-Type: application/gzip\r\n\r\n");
            push_bytes(&mut data, bytes);
            push_ascii(&mut data, "\r\n");
        },
        None => {},
    }
    let ghost with_ws = data@;
    match gh_token {
        Some(bytes) => {
            push_ascii(&mut data, sep);
            push_ascii(
                &mut data,
                "Content-Disposition: form-data; name=\"asset\"; filename=\"gh_token\"\r\n\r\n",
            );
            push_bytes(&mut data, bytes);
            push_ascii(&mut data, "\r\n");
        },
        None => {},
    }
    let end = "----------------------------realmci--\r\n";
    assert(end@ =~= "--"@ + form_boundary() + "--\r\n"@);
    push_ascii(&mut data, end);
    assert(data@ =~= multipart_form(job_toml.spec_bytes(), opt_bytes(workspace), opt_bytes(gh_token)));
    (String::from_str(boundary), data)
}

/// The job and asset names of the build for `platform` (slashes become
/// dashes): `<base>-<platform>` and `realm-<platform>`.
pub fn platform_job_names(base_name: &str, platform: &str) -> (r: (String, String))
    ensures
        r.0@ == base_name@ + "-"@ + dashed(platform@),
        r.1@ == "realm-"@ + dashed(platform@),
{
    let d = replace_slashes(platform);
    (String::from_str(base_name).concat("-").concat(d.as_str()), String::from_str("realm-").concat(d.as_str()))
}

/// The job description and form for the build of `platform`.
pub fn platform_job(base_name: &str, platform: &str, repo_full: &str, tag_name: &str) -> (r: (String, String))
    ensures
        r.0@ == base_name@ + "-"@ + dashed(platform@),
        r.1@ == job_toml(r.0@, platform@, repo_full@, tag_name@, "realm-"@ + dashed(platform@)),
{
    let (job_name, asset_name) = platform_job_names(base_name, platform);
    let toml = make_job_toml(job_name.as_str(), platform, repo_full, tag_name, asset_name.as_str());
    (job_name, toml)
}

/// The outcome of submitting jobs with answers `statuses`: the last status
/// (500 when nothing was sent) and how many were accepted (2xx).
pub open spec fn submit_outcome(statuses: Seq<u16>) -> (u16, nat)
    decreases statuses.len(),
{
    if statuses.len() == 0 {
        (500, 0)
    } else {
        let (_, ok) = submit_outcome(statuses.drop_last());
        let s = statuses.last();
        (s, ok + (if 200 <= s && s < 300 { 1nat } else { 0nat }))
    }
}

pub fn tally_submissions(statuses: &Vec<u16>) -> (r: (u16, usize))
    ensures
        r.0 == submit_outcome(statuses@).0,
        r.1 == submit_outcome(statuses@).1,
{
    let mut last: u16 = 500;
    let mut ok: usize = 0;
    let mut i: usize = 0;
    while i < statuses.len()
        invariant
            i <= statuses@.len(),
            last == submit_outcome(statuses@.subrange(0, i as int)).0,
            ok == submit_outcome(statuses@.subrange(0, i as int)).1,
            ok <= i,
        decreases statuses.len() - i,
    {
        assert(statuses@.subrange(0, i + 1).drop_last() =~= statuses@.subrange(0, i as int));
        let s = statuses[i];
        last = s;
        if s >= 200 && s < 300 {
            ok = ok + 1;
        }
        i = i + 1;
    }
    assert(statuses@.subrange(0, statuses@.len() as int) =~= statuses@);
    (last, ok)
}

/// What the controller answers after submitting: the number accepted and
/// the last status.
pub fn submitted_reply(ok_count: usize, status: u16) -> (r: String)
    ensures
        r@ == "submitted "@ + crate::text::decimal(ok_count as nat) + " job(s) (status "@
            + crate::text::decimal(status as nat) + ")\n"@,
{
    String::from_str("submitted ").concat(crate::text::u64_to_decimal(ok_count as u64).as_str()).concat(
        " job(s) (status ",
    ).concat(crate::text::u64_to_decimal(status as u64).as_str()).concat(")\n")
}


/// The value of a hexadecimal digit, either case.
pub open spec fn hex_value(c: char) -> Option<u8> {
    if '0' <= c && c <= '9' {
        Some(((c as int) - ('0' as int)) as u8)
    } else if 'a' <= c && c <= 'f' {
        Some(((c as int) - ('a' as int) + 10) as u8)
    } else if 'A' <= c && c <= 'F' {
        Some(((c as int) - ('A' as int) + 10) as u8)
    } else {
        None
    }
}

/// `hex::decode`: an even number of hexadecimal digits, two per byte, high
/// digit first; anything else is refused.
pub open spec fn hex_decoded(s: Seq<char>) -> Option<Seq<u8>> {
    if s.len() % 2 == 0 && forall|i: int| 0 <= i < s.len() ==> #[trigger] hex_value(s[i]) is Some {
        Some(
            Seq::new(
                (s.len() / 2) as nat,
                |i: int| (hex_value(s[2 * i])->0 * 16 + hex_value(s[2 * i + 1])->0) as u8,
            ),
        )
    } else {
        None
    }
}

/// `hex::decode` of `s`: the bytes its digits spell, or `None` for an odd
/// length or a character that is not a hexadecimal digit (upper and lower
/// case are both accepted).
#[verifier::external_body]
fn hex_decode(s: &str) -> (r: Option<Vec<u8>>)
    ensures
        match r {
            Some(b) => hex_decoded(s@) == Some(b@),
            None => hex_decoded(s@) is None,
        },
{
    hex::decode(s).ok()
}

/// The name of HMAC-SHA256 of `msg` under `key`.
pub uninterp spec fn hmac_sha256(key: Seq<u8>, msg: Seq<u8>) -> Seq<u8>;

/// `Hmac::<Sha256>::new_from_slice(key)` (any key length is accepted), then
/// `update(msg)` and `verify_slice(tag)`: whether `tag` is exactly the MAC.
#[verifier::external_body]
fn hmac_sha256_verify(key: &[u8], msg: &[u8], tag: &[u8]) -> (r: bool)
    ensures
        r == (tag@ == hmac_sha256(key@, msg@)),
{
    let made: Result<hmac::Hmac<sha2::Sha256>, _> = hmac::Mac::new_from_slice(key);
    let mut mac = match made {
        Ok(m) => m,
        Err(_) => return false,
    };
    hmac::Mac::update(&mut mac, msg);
    hmac::Mac::verify_slice(mac, tag).is_ok()
}

/// `s` without a leading `p`, when it has one.
pub open spec fn strip_prefix_or_self(s: Seq<char>, p: Seq<char>) -> Seq<char> {
    if starts_with(s, p) {
        s.subrange(p.len() as int, s.len() as int)
    } else {
        s
    }
}

/// Does a webhook body pass the signature check? Without a configured
/// secret it does; otherwise the signature (hex, `sha256=` prefix
/// optional) must decode and equal the HMAC-SHA256 of the body under the
/// trimmed secret.
pub open spec fn signature_ok(body: Seq<u8>, signature: Seq<char>, secret: Option<Seq<char>>, key_bytes: Seq<u8>) -> bool {
    match secret {
        None => true,
        Some(_) => match hex_decoded(strip_prefix_or_self(signature, "sha256="@)) {
            Some(tag) => tag == hmac_sha256(key_bytes, body),
            None => false,
        },
    }
}

pub fn verify_hmac_sha256(body: &[u8], signature_256: &str, secret: Option<&str>) -> (r: bool)
    ensures
        r == signature_ok(
            body@,
            signature_256@,
            crate::text::opt_str_view(secret),
            match secret {
                Some(k) => vstd::utf8::encode_utf8(trim(k@)),
                None => Seq::empty(),
            },
        ),
{
    match secret {
        None => true,
        Some(k) => {
            proof {
                reveal_strlit("sha256=");
            }
            let sig = if str_starts_with(signature_256, "sha256=") {
                signature_256.substring_char(7, signature_256.unicode_len())
            } else {
                signature_256
            };
            match hex_decode(sig) {
                None => false,
                Some(expected) => {
                    let key = trim_str(k);
                    hmac_sha256_verify(key.as_bytes(), body, expected.as_slice())
                },
            }
        },
    }
}


/// The name of `String::from_utf8_lossy` on `b`.
pub uninterp spec fn utf8_lossy_text(b: Seq<u8>) -> Seq<char>;

/// `String::from_utf8_lossy(b)` as an owned string: the text of `b`, with
/// each invalid sequence replaced by U+FFFD. A function of `b` alone.
#[verifier::external_body]
pub(crate) fn utf8_lossy(b: &[u8]) -> (r: String)
    ensures
        r@ == utf8_lossy_text(b@),
{
    String::from_utf8_lossy(b).to_string()
}

/// The value of the first header named `name` (ASCII case ignored), as text.
pub open spec fn header_of(headers: Seq<(String, Vec<u8>)>, name: Seq<char>) -> Option<Seq<char>>
    decreases headers.len(),
{
    if headers.len() == 0 {
        None
    } else if ascii_lower(headers[0].0@) == ascii_lower(name) {
        Some(utf8_lossy_text(headers[0].1@))
    } else {
        header_of(headers.drop_first(), name)
    }
}

pub fn header_value(headers: &Vec<(String, Vec<u8>)>, name: &str) -> (r: Option<String>)
    ensures
        match r {
            Some(v) => header_of(headers@, name@) == Some(v@),
            None => header_of(headers@, name@) is None,
        },
{
    let mut i: usize = 0;
    assert(headers@.subrange(0, headers@.len() as int) =~= headers@);
    while i < headers.len()
        invariant
            i <= headers@.len(),
            header_of(headers@, name@) == header_of(headers@.subrange(i as int, headers@.len() as int), name@),
        decreases headers.len() - i,
    {
        let ghost rest = headers@.subrange(i as int, headers@.len() as int);
        if eq_ignore_ascii_case(headers[i].0.as_str(), name) {
            return Some(utf8_lossy(headers[i].1.as_slice()));
        }
        assert(rest.drop_first() =~= headers@.subrange(i + 1, headers@.len() as int));
        i = i + 1;
    }
    None
}

/// `str::trim_start_matches`: `s` with every leading copy of `p` removed.
pub open spec fn trim_start_matches(s: Seq<char>, p: Seq<char>) -> Seq<char>
    decreases s.len(),
{
    if p.len() > 0 && starts_with(s, p) {
        trim_start_matches(s.subrange(p.len() as int, s.len() as int), p)
    } else {
        s
    }
}

pub fn trim_start_matches_str<'a>(s: &'a str, p: &str) -> (r: &'a str)
    ensures
        r@ == trim_start_matches(s@, p@),
{
    let m = p.unicode_len();
    let mut cur: &str = s;
    while m > 0 && str_starts_with(cur, p)
        invariant
            m == p@.len(),
            trim_start_matches(s@, p@) == trim_start_matches(cur@, p@),
        decreases cur@.len(),
    {
        let n = cur.unicode_len();
        cur = cur.substring_char(m, n);
    }
    cur
}

/// The fields of a GitHub webhook payload the controller reads.
pub struct HookPayload {
    pub release_tag_name: Option<String>,
    pub tag_name: Option<String>,
    pub git_ref: Option<String>,
    pub repository_full_name: Option<String>,
}

pub open spec fn opt_view(o: Option<String>) -> Option<Seq<char>> {
    match o {
        Some(s) => Some(s@),
        None => None,
    }
}

/// The tag and repository a webhook announces: a `release` event names its
/// release's tag (or a top-level tag); a `push` of a `refs/tags/` ref names
/// that tag; any other event names none.
pub open spec fn hook_release(event: Seq<char>, p: HookPayload) -> (Option<Seq<char>>, Option<Seq<char>>) {
    if event == "release"@ {
        (
            match p.release_tag_name {
                Some(t) => Some(t@),
                None => opt_view(p.tag_name),
            },
            opt_view(p.repository_full_name),
        )
    } else if event == "push"@ {
        (
            match p.git_ref {
                Some(r) => if starts_with(r@, "refs/tags/"@) {
                    Some(trim_start_matches(r@, "refs/tags/"@))
                } else {
                    None
                },
                None => None,
            },
            opt_view(p.repository_full_name),
        )
    } else {
        (None, None)
    }
}

pub(crate) fn clone_opt(o: &Option<String>) -> (r: Option<String>)
    ensures
        r == *o,
{
    match o {
        Some(s) => Some(s.clone()),
        None => None,
    }
}

pub fn hook_target(event: &str, p: &HookPayload) -> (r: (Option<String>, Option<String>))
    ensures
        (opt_view(r.0), opt_view(r.1)) == hook_release(event@, *p),
        event@ == "release"@ || event@ == "push"@ ==> r.1 == p.repository_full_name,
        event@ != "release"@ && event@ != "push"@ ==> r.0 is None && r.1 is None,
{
    proof {
        reveal_strlit("refs/tags/");
    }
    if str_eq(event, "release") {
        let tag = match &p.release_tag_name {
            Some(t) => Some(t.clone()),
            None => clone_opt(&p.tag_name),
        };
        (tag, clone_opt(&p.repository_full_name))
    } else if str_eq(event, "push") {
        let tag = match &p.git_ref {
            Some(r) => if str_starts_with(r.as_str(), "refs/tags/") {
                Some(String::from_str(trim_start_matches_str(r.as_str(), "refs/tags/")))
            } else {
                None
            },
            None => None,
        };
        (tag, clone_opt(&p.repository_full_name))
    } else {
        (None, None)
    }
}

/// What the controller does with a request.
pub enum CiRoute {
    /// `/manual...` by GET or POST, with its query.
    Manual(StrMap<String>),
    /// `/hook...` by POST.
    Hook,
    NotFound,
}

/// The path of a request without its query.
pub open spec fn path_only(full: Seq<char>) -> Seq<char> {
    match split_once(full, '?') {
        Some((a, _)) => a,
        None => full,
    }
}

/// The query of a request's path, read as pairs (none without `?`).
pub open spec fn query_of(full: Seq<char>, k: Seq<char>) -> Option<Seq<char>> {
    match split_once(full, '?') {
        Some((_, qs)) => query_last(split_all(qs, '&'), k),
        None => None,
    }
}

/// Route a request: `path` is its path with query (`/` when absent).
pub fn ci_route(is_get: bool, is_post: bool, path: Option<&str>) -> (r: CiRoute)
    ensures
        ({
            let full = match path {
                Some(p) => p@,
                None => "/"@,
            };
            let manual = (is_get || is_post) && starts_with(path_only(full), "/manual"@);
            let hook = is_post && starts_with(path_only(full), "/hook"@);
            match r {
                CiRoute::Manual(q) => manual && q.wf() && (forall|k: Seq<char>|
                    #[trigger] q.lookup(k) == (match query_of(full, k) {
                        Some(v) => Some(q.lookup(k)->0),
                        None => None::<String>,
                    }) && (q.lookup(k) is Some ==> q.lookup(k)->0@ == query_of(full, k)->0)),
                CiRoute::Hook => !manual && hook,
                CiRoute::NotFound => !manual && !hook,
            }
        }),
{
    let full: &str = match path {
        Some(p) => p,
        None => "/",
    };
    proof {
        reveal_strlit("/");
    }
    let (path_part, query) = match split_once_char(full, '?') {
        Some((p, q)) => (p, parse_query(q)),
        None => (full, StrMap::new()),
    };
    if (is_get || is_post) && str_starts_with(path_part, "/manual") {
        proof {
            assert forall|k: Seq<char>| #[trigger] query.lookup(k) == (match query_of(full@, k) {
                Some(v) => Some(query.lookup(k)->0),
                None => None::<String>,
            }) && (query.lookup(k) is Some ==> query.lookup(k)->0@ == query_of(full@, k)->0) by {
                if query.lookup(k) is Some {
                } else {
                    if split_once(full@, '?') is None {
                        assert(crate::keyed::key_index(query.key_seq(), k) is None);
                    }
                }
            }
        }
        CiRoute::Manual(query)
    } else if is_post && str_starts_with(path_part, "/hook") {
        CiRoute::Hook
    } else {
        CiRoute::NotFound
    }
}

/// A build round to submit: the base of the job names, the repository and
/// tag, the platforms (`None`: the configured ones), and the archive path to
/// download from the code host, if known.
pub struct BuildRequest {
    pub base_name: String,
    pub repo_full: String,
    pub tag_name: String,
    pub platforms: Option<Vec<String>>,
    pub download_path: Option<String>,
}

/// The platforms of a comma-separated list, trimmed, blanks dropped.
pub open spec fn platform_list(s: Seq<char>) -> Seq<Seq<char>> {
    split_all(s, ',').map_values(|p: Seq<char>| trim(p)).filter(nonblank())
}

pub open spec fn nonblank() -> spec_fn(Seq<char>) -> bool {
    |p: Seq<char>| p.len() > 0
}

pub fn parse_platform_list(s: &str) -> (r: Vec<String>)
    ensures
        r.deep_view() == platform_list(s@),
{
    let parts = split_char(s, ',');
    let ghost ps = split_all(s@, ',');
    let ghost tr = ps.map_values(|p: Seq<char>| trim(p));
    let mut out: Vec<String> = Vec::new();
    let mut i: usize = 0;
    proof {
        reveal(Seq::filter);
        assert(tr.subrange(0, 0) =~= Seq::<Seq<char>>::empty());
    }
    while i < parts.len()
        invariant
            ps == split_all(s@, ','),
            tr == ps.map_values(|p: Seq<char>| trim(p)),
            parts@.len() == ps.len(),
            forall|j: int| 0 <= j < parts@.len() ==> #[trigger] parts@[j]@ == ps[j],
            i <= parts@.len(),
            out.deep_view() == tr.subrange(0, i as int).filter(nonblank()),
        decreases parts.len() - i,
    {
        let t = trim_str(parts[i]);
        let ghost before = out.deep_view();
        proof {
            assert(tr.subrange(0, i + 1) =~= tr.subrange(0, i as int).push(t@));
            tr.subrange(0, i as int).lemma_filter_push(t@, nonblank());
        }
        if t.unicode_len() > 0 {
            out.push(String::from_str(t));
            assert(out.deep_view() =~= before.push(t@));
        }
        i = i + 1;
    }
    assert(tr.subrange(0, tr.len() as int) =~= tr);
    out
}

/// The archive of `tag` of `repo` on the code host: `/<repo>/tar.gz/<tag>`.
pub fn archive_path(repo: &str, tag: &str) -> (r: String)
    ensures
        r@ == "/"@ + repo@ + "/tar.gz/"@ + tag@,
{
    String::from_str("/").concat(repo).concat("/tar.gz/").concat(tag)
}

/// The build a manual trigger asks for: from its `repo`, `tag` and
/// `platforms` parameters; the job names are based on the tag (`manual`
/// without one).
pub fn manual_build(query: &StrMap<String>) -> (r: BuildRequest)
    requires
        query.wf(),
    ensures
        ({
            let repo = query.lookup("repo"@);
            let tag = query.lookup("tag"@);
            let base = match tag {
                Some(t) => t@,
                None => "manual"@,
            };
            &&& r.base_name@ == "build-"@ + base
            &&& r.repo_full@ == (match repo {
                Some(x) => x@,
                None => Seq::empty(),
            })
            &&& r.tag_name@ == base
            &&& match query.lookup("platforms"@) {
                Some(p) => r.platforms matches Some(v) && v.deep_view() == platform_list(p@),
                None => r.platforms is None,
            }
            &&& match (repo, tag) {
                (Some(x), Some(t)) => r.download_path matches Some(d) && d@ == "/"@ + x@ + "/tar.gz/"@ + t@,
                _ => r.download_path is None,
            }
        }),
{
    let repo = query.get("repo");
    let tag = query.get("tag");
    let platforms = match query.get("platforms") {
        Some(p) => Some(parse_platform_list(p.as_str())),
        None => None,
    };
    let download_path = match (repo, tag) {
        (Some(x), Some(t)) => Some(archive_path(x.as_str(), t.as_str())),
        _ => None,
    };
    let base: &str = match tag {
        Some(t) => t.as_str(),
        None => "manual",
    };
    BuildRequest {
        base_name: String::from_str("build-").concat(base),
        repo_full: match repo {
            Some(x) => x.clone(),
            None => String::new(),
        },
        tag_name: String::from_str(base),
        platforms,
        download_path,
    }
}

/// The build a webhook asks for, if it announces a tag: job names based on
/// the tag, all configured platforms, and the archive of the tag when the
/// repository is known.
pub fn hook_build(tag: Option<String>, repo: Option<String>) -> (r: Option<BuildRequest>)
    ensures
        match tag {
            None => r is None,
            Some(t) => r matches Some(b) && b.base_name@ == "build-"@ + t@ && b.tag_name@ == t@
                && b.repo_full@ == (match repo {
                Some(x) => x@,
                None => Seq::empty(),
            }) && b.platforms is None && match repo {
                Some(x) => b.download_path matches Some(d) && d@ == "/"@ + x@ + "/tar.gz/"@ + t@,
                None => b.download_path is None,
            },
        },
{
    match tag {
        None => None,
        Some(t) => {
            let download_path = match &repo {
                Some(x) => Some(archive_path(x.as_str(), t.as_str())),
                None => None,
            };
            Some(
                BuildRequest {
                    base_name: String::from_str("build-").concat(t.as_str()),
                    repo_full: match repo {
                        Some(x) => x,
                        None => String::new(),
                    },
                    tag_name: t,
                    platforms: None,
                    download_path,
                },
            )
        },
    }
}

pub open spec fn flatten_lists(s: Seq<Seq<Seq<char>>>) -> Seq<Seq<char>>
    decreases s.len(),
{
    if s.len() == 0 {
        Seq::empty()
    } else {
        flatten_lists(s.drop_last()) + s.last()
    }
}

/// The platforms a `platforms.txt` lists, separated by newlines or commas,
/// trimmed, blanks dropped.
pub open spec fn platforms_in_text(txt: Seq<char>) -> Seq<Seq<char>> {
    flatten_lists(split_all(txt, '\n').map_values(|l: Seq<char>| platform_list(l)))
}

pub fn platforms_from_text(txt: &str) -> (r: Vec<String>)
    ensures
        r.deep_view() == platforms_in_text(txt@),
{
    let lines = split_char(txt, '\n');
    let ghost ls = split_all(txt@, '\n');
    let ghost per = ls.map_values(|l: Seq<char>| platform_list(l));
    let mut out: Vec<String> = Vec::new();
    let mut i: usize = 0;
    assert(per.subrange(0, 0) =~= Seq::<Seq<Seq<char>>>::empty());
    while i < lines.len()
        invariant
            ls == split_all(txt@, '\n'),
            per == ls.map_values(|l: Seq<char>| platform_list(l)),
            lines@.len() == ls.len(),
            forall|j: int| 0 <= j < lines@.len() ==> #[trigger] lines@[j]@ == ls[j],
            i <= lines@.len(),
            out.deep_view() == flatten_lists(per.subrange(0, i as int)),
        decreases lines.len() - i,
    {
        let more = parse_platform_list(lines[i]);
        let ghost before = out.deep_view();
        let mut k: usize = 0;
        while k < more.len()
            invariant
                k <= more@.len(),
                out.deep_view() == before + more.deep_view().subrange(0, k as int),
            decreases more.len() - k,
        {
            let ghost o2 = out.deep_view();
            out.push(more[k].clone());
            assert(out.deep_view() =~= o2.push(more.deep_view()[k as int]));
            assert(more.deep_view().subrange(0, k + 1) =~= more.deep_view().subrange(0, k as int).push(more.deep_view()[k as int]));
            assert(out.deep_view() =~= before + more.deep_view().subrange(0, k + 1));
            k = k + 1;
        }
        proof {
            assert(more.deep_view().subrange(0, more@.len() as int) =~= more.deep_view());
            assert(per.subrange(0, i + 1).drop_last() =~= per.subrange(0, i as int));
            assert(per[i as int] == platform_list(lines@[i as int]@));
        }
        i = i + 1;
    }
    assert(per.subrange(0, per.len() as int) =~= per);
    out
}

/// Append a chunk of a fetched body, refusing it (the fetch fails) when the
/// body would grow beyond `max_bytes`.
pub fn append_within(out: &mut Vec<u8>, chunk: &[u8], max_bytes: usize) -> (ok: bool)
    ensures
        ok == (old(out)@.len() + chunk@.len() <= max_bytes),
        ok ==> final(out)@ == old(out)@ + chunk@,
        !ok ==> final(out)@ == old(out)@,
{
    if out.len() > max_bytes || chunk.len() > max_bytes - out.len() {
        return false;
    }
    let ghost before = out@;
    out.extend_from_slice(chunk);
    assert(out@ =~= before + chunk@);
    true
}

/// The most of a request body the controller reads (1 MiB); reading stops
/// at the chunk that passes it.
pub open spec fn body_cap() -> nat {
    1048576
}

/// Append a chunk of a request body; whether reading stops now.
pub fn append_capped(out: &mut Vec<u8>, chunk: &[u8]) -> (stop: bool)
    requires
        old(out)@.len() + chunk@.len() <= usize::MAX,
    ensures
        final(out)@ == old(out)@ + chunk@,
        stop == (final(out)@.len() > body_cap()),
{
    let ghost before = out@;
    out.extend_from_slice(chunk);
    assert(out@ =~= before + chunk@);
    out.len() > 1048576
}

/// The platforms the controller builds for: those of `platforms.json` when
/// it held a JSON array (its string elements, `json_list`), else those
/// `platforms.txt` lists when it lists any, else `linux/x86_64`.
pub fn choose_platforms(json_list: Option<Vec<String>>, txt: Option<&str>) -> (r: Vec<String>)
    ensures
        match json_list {
            Some(v) => r == v,
            None => {
                let from_txt = match txt {
                    Some(t) => platforms_in_text(t@),
                    None => Seq::empty(),
                };
                if from_txt.len() > 0 {
                    r.deep_view() == from_txt
                } else {
                    r.deep_view() == seq!["linux/x86_64"@]
                }
            },
        },
{
    match json_list {
        Some(v) => v,
        None => {
            let from_txt: Vec<String> = match txt {
                Some(t) => platforms_from_text(t),
                None => Vec::new(),
            };
            if from_txt.len() > 0 {
                from_txt
            } else {
                let mut d: Vec<String> = Vec::new();
                d.push(String::from_str("linux/x86_64"));
                assert(d.deep_view() =~= seq!["linux/x86_64"@]);
                d
            }
        },
    }
}

/// The name of what `serde_json` reads from a `platforms.json` text: when
/// it is a JSON array, each element as a string when it is one (none
/// otherwise); none when the text is not a JSON array.
pub uninterp spec fn json_array_strings(bytes: Seq<u8>) -> Option<Seq<Option<Seq<char>>>>;

pub open spec fn opt_items_view(v: Seq<Option<String>>) -> Seq<Option<Seq<char>>> {
    v.map_values(|o: Option<String>| match o {
        Some(s) => Some(s@),
        None => None,
    })
}

/// `serde_json::from_slice::<serde_json::Value>(bytes)`, then `as_array`,
/// each element read with `as_str`. A function of the bytes alone; the
/// contract names it.
#[verifier::external_body]
fn json_array_items(bytes: &[u8]) -> (r: Option<Vec<Option<String>>>)
    ensures
        match r {
            Some(v) => json_array_strings(bytes@) == Some(opt_items_view(v@)),
            None => json_array_strings(bytes@) is None,
        },
{
    match serde_json::from_slice::<serde_json::Value>(bytes) {
        Ok(v) => v.as_array().map(|arr| arr.iter().map(|x| x.as_str().map(|s| s.to_string())).collect()),
        Err(_) => None,
    }
}

/// The strings among the first `k` items, in order.
pub open spec fn string_items(items: Seq<Option<Seq<char>>>, k: int) -> Seq<Seq<char>>
    decreases k,
{
    if k <= 0 {
        Seq::empty()
    } else {
        let rest = string_items(items, k - 1);
        match items[k - 1] {
            Some(s) => rest.push(s),
            None => rest,
        }
    }
}

/// The platforms of a `platforms.json` text: the string elements of its
/// array, in order; none when it is not a JSON array.
pub fn platforms_from_json(bytes: &[u8]) -> (r: Option<Vec<String>>)
    ensures
        match json_array_strings(bytes@) {
            Some(items) => r matches Some(v) && v.deep_view() == string_items(items, items.len() as int),
            None => r is None,
        },
{
    match json_array_items(bytes) {
        None => None,
        Some(items) => {
            let ghost iv = opt_items_view(items@);
            let mut out: Vec<String> = Vec::new();
            let mut i: usize = 0;
            while i < items.len()
                invariant
                    iv == opt_items_view(items@),
                    i <= items@.len(),
                    out.deep_view() == string_items(iv, i as int),
                decreases items.len() - i,
            {
                proof {
                    assert(iv[i as int] == match items@[i as int] {
                        Some(s) => Some(s@),
                        None => None::<Seq<char>>,
                    });
                }
                match &items[i] {
                    Some(s) => {
                        let ghost before = out.deep_view();
                        out.push(s.clone());
                        assert(out.deep_view() =~= before.push(s@));
                    },
                    None => {},
                }
                i = i + 1;
            }
            Some(out)
        },
    }
}

/// The platforms the controller builds for, from the bytes of
/// `platforms.json` and the text of `platforms.txt` when they could be read
/// (see `choose_platforms`).
pub fn platforms_config(json: Option<&[u8]>, txt: Option<&str>) -> (r: Vec<String>)
    ensures
        ({
            let from_json = match json {
                Some(b) => match json_array_strings(b@) {
                    Some(items) => Some(string_items(items, items.len() as int)),
                    None => None,
                },
                None => None,
            };
            match from_json {
                Some(v) => r.deep_view() == v,
                None => {
                    let from_txt = match txt {
                        Some(t) => platforms_in_text(t@),
                        None => Seq::empty(),
                    };
                    if from_txt.len() > 0 {
                        r.deep_view() == from_txt
                    } else {
                        r.deep_view() == seq!["linux/x86_64"@]
                    }
                },
            }
        }),
{
    let list = match json {
        Some(b) => platforms_from_json(b),
        None => None,
    };
    choose_platforms(list, txt)
}

} // verus!
