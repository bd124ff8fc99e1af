//! Signing requests to an S3-compatible store (AWS signature version 4).
use vstd::prelude::*;
use vstd::utf8::encode_utf8;
use hmac::Mac;
use sha2::Digest;

use crate::sort::{is_stable_sort, key_of, stable_sort, SortKey};
use crate::text::{chars_lex_le, chars_of, codes, join, push_all, push_str, string_of, to_lowercase, trim, unicode_lower};

verus! {

/// Where the knowledge base is synchronised to.
#[derive(Debug)]
pub struct SyncConfig {
    pub endpoint: String,
    pub bucket: String,
    pub access_key: String,
    pub secret_key: String,
}

/// The region the signature is made for.
pub open spec fn region() -> Seq<char> {
    "garage"@
}

/// The service the signature is made for.
pub open spec fn service() -> Seq<char> {
    "s3"@
}

// ---------------------------------------------------------------- outside functions

/// What HMAC-SHA256 gives for a key and a message.
pub uninterp spec fn hmac_sha256_of(key: Seq<u8>, data: Seq<u8>) -> Seq<u8>;

/// What SHA-256 gives for a message.
pub uninterp spec fn sha256_of(data: Seq<u8>) -> Seq<u8>;

/// What `Url::parse` reads from an endpoint: the error text when it fails,
/// else the host (when the URL has one) and the explicit port.
pub uninterp spec fn url_parts_of(endpoint: Seq<char>) -> Result<(Option<Seq<char>>, Option<u16>), Seq<char>>;

/// The HMAC-SHA256 tag of `data` under `key` (`Hmac::<Sha256>::new_from_slice`,
/// `update`, `finalize`; a key of any length is accepted).  The tag is named
/// and is 32 bytes long.
#[verifier::external_body]
pub(crate) fn hmac_sha256(key: &[u8], data: &[u8]) -> (r: Vec<u8>)
    ensures
        r@ == hmac_sha256_of(key@, data@),
        r@.len() == 32,
{
    let mut mac = hmac::Hmac::<sha2::Sha256>::new_from_slice(key).expect("any key length");
    mac.update(data);
    mac.finalize().into_bytes().to_vec()
}

/// The SHA-256 digest of `data` (`sha2::Sha256::digest`).  The digest is
/// named and is 32 bytes long.
#[verifier::external_body]
pub(crate) fn sha256_bytes(data: &[u8]) -> (r: Vec<u8>)
    ensures
        r@ == sha256_of(data@),
        r@.len() == 32,
{
    sha2::Sha256::digest(data).to_vec()
}

/// The lower-case hexadecimal digit for `d < 16`.
pub open spec fn hex_digit(d: int) -> char {
    if d < 10 {
        (d + 48) as char
    } else {
        (d - 10 + 97) as char
    }
}

/// Two lower-case hexadecimal digits per byte, high nibble first.
pub open spec fn hex_lower(b: Seq<u8>) -> Seq<char>
    decreases b.len(),
{
    if b.len() == 0 {
        seq![]
    } else {
        hex_lower(b.drop_last()) + seq![hex_digit(b.last() as int / 16), hex_digit(b.last() as int % 16)]
    }
}

/// `hex::encode`: the bytes as lower-case hexadecimal, two digits per byte.
#[verifier::external_body]
pub(crate) fn hex_encode(data: &[u8]) -> (r: String)
    ensures
        r@ == hex_lower(data@),
{
    hex::encode(data)
}

/// The host and port of an endpoint URL (`Url::parse`, then `host_str` and
/// `port`), or the parse error's text.  The result is named.
#[verifier::external_body]
fn url_parts(endpoint: &str) -> (r: Result<(Option<String>, Option<u16>), String>)
    ensures
        match (r, url_parts_of(endpoint@)) {
            (Ok((h, p)), Ok((hs, ps))) => p == ps && match (h, hs) {
                (Some(x), Some(y)) => x@ == y,
                (None, None) => true,
                _ => false,
            },
            (Err(e), Err(es)) => e@ == es,
            _ => false,
        },
{
    match endpoint.parse::<url::Url>() {
        Ok(u) => Ok((u.host_str().map(|h| h.to_string()), u.port())),
        Err(e) => Err(e.to_string()),
    }
}

// ---------------------------------------------------------------- digests

/// The lower-case hexadecimal SHA-256 digest of `data`.
pub fn hex_sha256(data: &[u8]) -> (r: String)
    ensures
        r@ == hex_lower(sha256_of(data@)),
{
    let d = sha256_bytes(data);
    hex_encode(d.as_slice())
}

/// The signing key of AWS signature version 4 for a secret and a date:
/// HMAC chained over the date, the region, the service and `aws4_request`,
/// starting from the key `AWS4` followed by the secret.
pub open spec fn signing_key(secret: Seq<char>, date: Seq<char>) -> Seq<u8> {
    let k_date = hmac_sha256_of(encode_utf8("AWS4"@ + secret), encode_utf8(date));
    let k_region = hmac_sha256_of(k_date, encode_utf8(region()));
    let k_service = hmac_sha256_of(k_region, encode_utf8(service()));
    hmac_sha256_of(k_service, encode_utf8("aws4_request"@))
}

/// Derives the AWS signature version 4 signing key for `secret_key` on
/// `date_stamp` (`YYYYMMDD`).
pub fn derive_signing_key(secret_key: &str, date_stamp: &str) -> (r: Vec<u8>)
    ensures
        r@ == signing_key(secret_key@, date_stamp@),
{
    let mut k = String::from_str("AWS4");
    k.append(secret_key);
    proof {
        reveal_strlit("AWS4");
    }
    let k_date = hmac_sha256(k.as_str().as_bytes(), date_stamp.as_bytes());
    let k_region = hmac_sha256(k_date.as_slice(), "garage".as_bytes());
    let k_service = hmac_sha256(k_region.as_slice(), "s3".as_bytes());
    hmac_sha256(k_service.as_slice(), "aws4_request".as_bytes())
}

// ---------------------------------------------------------------- configuration

/// Why a synchronisation setting is unusable, if it is.
pub open spec fn config_problem(cfg: SyncConfig) -> Option<Seq<char>> {
    if cfg.endpoint@.len() == 0 {
        Some("未配置 S3 Endpoint"@)
    } else if cfg.bucket@.len() == 0 {
        Some("未配置 S3 Bucket"@)
    } else if cfg.access_key@.len() == 0 || cfg.secret_key@.len() == 0 {
        Some("未配置 Access Key 或 Secret Key"@)
    } else {
        None
    }
}

/// Checks that the endpoint, the bucket and both keys are set.
pub fn validate_config(cfg: &SyncConfig) -> (r: Result<(), String>)
    ensures
        match config_problem(*cfg) {
            Some(msg) => r matches Err(e) && e@ == msg,
            None => r is Ok,
        },
{
    if cfg.endpoint.as_str().is_empty() {
        return Err("未配置 S3 Endpoint".to_string());
    }
    if cfg.bucket.as_str().is_empty() {
        return Err("未配置 S3 Bucket".to_string());
    }
    if cfg.access_key.as_str().is_empty() || cfg.secret_key.as_str().is_empty() {
        return Err("未配置 Access Key 或 Secret Key".to_string());
    }
    Ok(())
}

/// The `host` or `host:port` of an endpoint URL; an endpoint that does not
/// parse, or has no host, is an error.
pub open spec fn endpoint_host(endpoint: Seq<char>) -> Result<Seq<char>, Seq<char>> {
    match url_parts_of(endpoint) {
        Err(e) => Err("无效的 Endpoint URL: "@ + e),
        Ok((None, _)) => Err("Endpoint 缺少 host"@),
        Ok((Some(h), None)) => Ok(h),
        Ok((Some(h), Some(p))) => Ok(h + seq![':'] + crate::text::decimal(p as nat)),
    }
}

/// The host (with the port, when the URL gives one) of an endpoint.
pub fn extract_host(endpoint: &str) -> (r: Result<String, String>)
    ensures
        match (r, endpoint_host(endpoint@)) {
            (Ok(x), Ok(y)) => x@ == y,
            (Err(x), Err(y)) => x@ == y,
            _ => false,
        },
{
    match url_parts(endpoint) {
        Err(e) => {
            let mut out: Vec<char> = Vec::new();
            push_str(&mut out, "无效的 Endpoint URL: ");
            push_str(&mut out, e.as_str());
            Err(string_of(&out))
        },
        Ok((None, _)) => Err("Endpoint 缺少 host".to_string()),
        Ok((Some(h), None)) => Ok(h),
        Ok((Some(h), Some(p))) => {
            let mut out = chars_of(h.as_str());
            out.push(':');
            crate::text::push_decimal(&mut out, p as u64);
            Ok(string_of(&out))
        },
    }
}

} // verus!

verus! {

// ---------------------------------------------------------------- signature

/// A request header with its name in lower case.
pub struct HeaderLine {
    pub lower: Vec<char>,
    pub value: Vec<char>,
}

impl View for HeaderLine {
    type V = (Seq<char>, Seq<char>);

    open spec fn view(&self) -> (Seq<char>, Seq<char>) {
        (self.lower@, self.value@)
    }
}

impl SortKey for HeaderLine {
    open spec fn sort_key(&self) -> Seq<int> {
        codes(self.lower@)
    }

    fn key_le(&self, other: &Self) -> (r: bool) {
        chars_lex_le(&self.lower, &other.lower)
    }
}

/// Headers are ordered by their lower-case name.
pub open spec fn header_key() -> spec_fn((Seq<char>, Seq<char>)) -> Seq<int> {
    |h: (Seq<char>, Seq<char>)| codes(h.0)
}

/// The headers with their names in lower case.
pub open spec fn lowered(hs: Seq<(&str, &str)>) -> Seq<(Seq<char>, Seq<char>)> {
    hs.map_values(|h: (&str, &str)| (unicode_lower(h.0@), h.1@))
}

/// `name:value` lines, values trimmed, each ending in a newline.
pub open spec fn canonical_headers(hs: Seq<(Seq<char>, Seq<char>)>) -> Seq<char>
    decreases hs.len(),
{
    if hs.len() == 0 {
        seq![]
    } else {
        canonical_headers(hs.drop_last()) + hs.last().0 + seq![':'] + trim(hs.last().1) + seq!['\n']
    }
}

/// The header names joined by `;`.
pub open spec fn signed_headers(hs: Seq<(Seq<char>, Seq<char>)>) -> Seq<char> {
    join(hs.map_values(|h: (Seq<char>, Seq<char>)| h.0), seq![';'])
}

/// `date/garage/s3/aws4_request`.
pub open spec fn credential_scope(date: Seq<char>) -> Seq<char> {
    date + seq!['/'] + region() + seq!['/'] + service() + "/aws4_request"@
}

/// The canonical request that AWS signature version 4 hashes.
pub open spec fn canonical_request(
    method: Seq<char>,
    path: Seq<char>,
    query: Seq<char>,
    hs: Seq<(Seq<char>, Seq<char>)>,
    payload_hash: Seq<char>,
) -> Seq<char> {
    method + seq!['\n'] + path + seq!['\n'] + query + seq!['\n'] + canonical_headers(hs) + seq!['\n']
        + signed_headers(hs) + seq!['\n'] + payload_hash
}

/// The text that is signed.
pub open spec fn string_to_sign(amz_date: Seq<char>, date: Seq<char>, creq: Seq<char>) -> Seq<char> {
    "AWS4-HMAC-SHA256\n"@ + amz_date + seq!['\n'] + credential_scope(date) + seq!['\n'] + hex_lower(
        sha256_of(encode_utf8(creq)),
    )
}

/// The `Authorization` header value for headers already sorted by name.
pub open spec fn authorization(
    method: Seq<char>,
    path: Seq<char>,
    query: Seq<char>,
    hs: Seq<(Seq<char>, Seq<char>)>,
    payload_hash: Seq<char>,
    date: Seq<char>,
    amz_date: Seq<char>,
    access_key: Seq<char>,
    secret_key: Seq<char>,
) -> Seq<char> {
    let sts = string_to_sign(amz_date, date, canonical_request(method, path, query, hs, payload_hash));
    "AWS4-HMAC-SHA256 Credential="@ + access_key + seq!['/'] + credential_scope(date)
        + ", SignedHeaders="@ + signed_headers(hs) + ", Signature="@ + hex_lower(
        hmac_sha256_of(signing_key(secret_key, date), encode_utf8(sts)),
    )
}

fn header_lines(headers: &[(&str, &str)]) -> (r: Vec<HeaderLine>)
    ensures
        crate::sort::view_seq(r@) == lowered(headers@),
{
    let mut out: Vec<HeaderLine> = Vec::new();
    let mut i: usize = 0;
    while i < headers.len()
        invariant
            i <= headers@.len(),
            out@.len() == i,
            crate::sort::view_seq(out@) == lowered(headers@).take(i as int),
        decreases headers@.len() - i,
    {
        let kv = headers[i];
        let k = kv.0;
        let v = kv.1;
        assert(kv == headers@[i as int]);
        let lk = to_lowercase(k);
        let line = HeaderLine { lower: chars_of(lk.as_str()), value: chars_of(v) };
        let ghost before = out@;
        out.push(line);
        assert(out@ == before.push(line));
        assert(line@ == lowered(headers@)[i as int]);
        assert forall|j: int| 0 <= j < i + 1 implies #[trigger] crate::sort::view_seq(out@)[j] == lowered(headers@).take(i + 1)[j] by {
            if j < i {
                assert(out@[j] == before[j]);
                assert(crate::sort::view_seq(before)[j] == lowered(headers@).take(
                    i as int,
                )[j]);
            }
        }
        assert(crate::sort::view_seq(out@) =~= lowered(headers@).take(i + 1));
        i += 1;
    }
    assert(lowered(headers@).take(headers@.len() as int) =~= lowered(headers@));
    out
}

/// Computes the AWS signature version 4 `Authorization` header value for
/// a request: the headers sorted (stably) by lower-case name go into the
/// canonical request, whose digest is signed with the key derived from the
/// secret, the date, the region `garage` and the service `s3`.
pub fn sign_v4(
    method: &str,
    path: &str,
    query: &str,
    headers: &[(&str, &str)],
    payload_hash: &str,
    date_stamp: &str,
    amz_date: &str,
    access_key: &str,
    secret_key: &str,
) -> (r: String)
    ensures
        exists|hs: Seq<(Seq<char>, Seq<char>)>|
            is_stable_sort(lowered(headers@), hs, header_key()) && r@ == authorization(
                method@,
                path@,
                query@,
                hs,
                payload_hash@,
                date_stamp@,
                amz_date@,
                access_key@,
                secret_key@,
            ),
{
    let lines = header_lines(headers);
    let sorted = stable_sort(lines);
    let ghost hs = crate::sort::view_seq(sorted@);
    proof {
        assert forall|t: HeaderLine| #[trigger] key_of::<HeaderLine>()(t) == header_key()(t@) by {}
        crate::sort::lemma_stable_sort_views(lines@, sorted@, key_of::<HeaderLine>(), header_key());
    }
    // canonical header lines and signed header names
    let mut canon: Vec<char> = Vec::new();
    let mut signed: Vec<char> = Vec::new();
    let mut i: usize = 0;
    while i < sorted.len()
        invariant
            hs == crate::sort::view_seq(sorted@),
            i <= sorted@.len(),
            canon@ == canonical_headers(hs.take(i as int)),
            signed@ == signed_headers(hs.take(i as int)),
        decreases sorted@.len() - i,
    {
        let h = &sorted[i];
        let ghost prev = hs.take(i as int);
        assert(hs.take(i + 1).drop_last() =~= prev);
        assert(hs.take(i + 1).last() == h@);
        push_all(&mut canon, &h.lower);
        canon.push(':');
        let tv = crate::text::chars_trim(&h.value);
        push_all(&mut canon, &tv);
        canon.push('\n');
        let ghost names = prev.map_values(|x: (Seq<char>, Seq<char>)| x.0);
        assert(hs.take(i + 1).map_values(|x: (Seq<char>, Seq<char>)| x.0) =~= names.push(h.lower@));
        assert(names.push(h.lower@).drop_last() =~= names);
        if i > 0 {
            signed.push(';');
        }
        push_all(&mut signed, &h.lower);
        assert(signed@ =~= signed_headers(hs.take(i + 1)));
        i += 1;
    }
    assert(hs.take(sorted@.len() as int) =~= hs);
    // canonical request
    let mut creq: Vec<char> = Vec::new();
    push_str(&mut creq, method);
    creq.push('\n');
    push_str(&mut creq, path);
    creq.push('\n');
    push_str(&mut creq, query);
    creq.push('\n');
    push_all(&mut creq, &canon);
    creq.push('\n');
    push_all(&mut creq, &signed);
    creq.push('\n');
    push_str(&mut creq, payload_hash);
    let creq_s = string_of(&creq);
    assert(creq_s@ =~= canonical_request(method@, path@, query@, hs, payload_hash@));
    // credential scope
    let mut scope: Vec<char> = Vec::new();
    push_str(&mut scope, date_stamp);
    scope.push('/');
    push_str(&mut scope, "garage");
    scope.push('/');
    push_str(&mut scope, "s3");
    push_str(&mut scope, "/aws4_request");
    assert(scope@ =~= credential_scope(date_stamp@));
    // string to sign
    let digest = hex_sha256(creq_s.as_str().as_bytes());
    let mut sts: Vec<char> = Vec::new();
    push_str(&mut sts, "AWS4-HMAC-SHA256\n");
    push_str(&mut sts, amz_date);
    sts.push('\n');
    push_all(&mut sts, &scope);
    sts.push('\n');
    push_str(&mut sts, digest.as_str());
    let sts_s = string_of(&sts);
    assert(sts_s@ =~= string_to_sign(amz_date@, date_stamp@, creq_s@));
    // signature
    let key = derive_signing_key(secret_key, date_stamp);
    let mac = hmac_sha256(key.as_slice(), sts_s.as_str().as_bytes());
    let signature = hex_encode(mac.as_slice());
    let mut out: Vec<char> = Vec::new();
    push_str(&mut out, "AWS4-HMAC-SHA256 Credential=");
    push_str(&mut out, access_key);
    out.push('/');
    push_all(&mut out, &scope);
    push_str(&mut out, ", SignedHeaders=");
    push_all(&mut out, &signed);
    push_str(&mut out, ", Signature=");
    push_str(&mut out, signature.as_str());
    let r = string_of(&out);
    assert(r@ =~= authorization(
        method@,
        path@,
        query@,
        hs,
        payload_hash@,
        date_stamp@,
        amz_date@,
        access_key@,
        secret_key@,
    ));
    r
}


// ---------------------------------------------------------------- requests

/// `s` without any trailing `/`.
pub open spec fn trim_slashes(s: Seq<char>) -> Seq<char>
    decreases s.len(),
{
    if s.len() > 0 && s.last() == '/' {
        trim_slashes(s.drop_last())
    } else {
        s
    }
}

/// A signed request to the sync bucket.
pub struct SignedRequest {
    pub url: String,
    pub host: String,
    pub content_hash: String,
    pub authorization: String,
}

/// Signs a request for `{bucket}/{key}` carrying a body whose SHA-256 is
/// `content_hash`: the settings must be complete and the endpoint must
/// name a host; the signed headers are the host, the content hash and the
/// date.
pub fn signed_request(
    cfg: &SyncConfig,
    method: &str,
    key: &str,
    content_hash: &str,
    date_stamp: &str,
    amz_date: &str,
) -> (r: Result<SignedRequest, String>)
    ensures
        config_problem(*cfg) matches Some(m) ==> (r matches Err(e) && e@ == m),
        config_problem(*cfg) is None ==> match endpoint_host(cfg.endpoint@) {
            Err(m) => r matches Err(e) && e@ == m,
            Ok(h) => r matches Ok(q) && {
                &&& q.url@ == trim_slashes(cfg.endpoint@) + seq!['/'] + cfg.bucket@ + seq!['/'] + key@
                &&& q.host@ == h
                &&& q.content_hash@ == content_hash@
                &&& exists|hs: Seq<(Seq<char>, Seq<char>)>|
                    is_stable_sort(
                        seq![
                            (unicode_lower("host"@), h),
                            (unicode_lower("x-amz-content-sha256"@), content_hash@),
                            (unicode_lower("x-amz-date"@), amz_date@),
                        ],
                        hs,
                        header_key(),
                    ) && q.authorization@ == authorization(
                        method@,
                        seq!['/'] + cfg.bucket@ + seq!['/'] + key@,
                        seq![],
                        hs,
                        content_hash@,
                        date_stamp@,
                        amz_date@,
                        cfg.access_key@,
                        cfg.secret_key@,
                    )
            },
        },
{
    match validate_config(cfg) {
        Ok(()) => {},
        Err(m) => {
            return Err(m);
        },
    }
    let host = match extract_host(cfg.endpoint.as_str()) {
        Ok(h) => h,
        Err(m) => {
            return Err(m);
        },
    };
    let e = chars_of(cfg.endpoint.as_str());
    let mut n = e.len();
    assert(e@.take(n as int) =~= e@);
    while n > 0 && e[n - 1] == '/'
        invariant
            n <= e@.len(),
            trim_slashes(e@) == trim_slashes(e@.take(n as int)),
        decreases n,
    {
        assert(e@.take(n as int).drop_last() =~= e@.take(n - 1));
        n -= 1;
    }
    let mut url: Vec<char> = Vec::new();
    let mut i: usize = 0;
    while i < n
        invariant
            n <= e@.len(),
            i <= n,
            url@ == e@.take(i as int),
        decreases n - i,
    {
        url.push(e[i]);
        assert(e@.take(i + 1) =~= e@.take(i as int).push(e@[i as int]));
        i += 1;
    }
    assert(url@ == trim_slashes(e@));
    let mut path: Vec<char> = Vec::new();
    path.push('/');
    push_str(&mut path, cfg.bucket.as_str());
    path.push('/');
    push_str(&mut path, key);
    push_all(&mut url, &path);
    let path_s = string_of(&path);
    let headers = [("host", host.as_str()), ("x-amz-content-sha256", content_hash), ("x-amz-date", amz_date)];
    assert(lowered(headers@) =~= seq![
        (unicode_lower("host"@), host@),
        (unicode_lower("x-amz-content-sha256"@), content_hash@),
        (unicode_lower("x-amz-date"@), amz_date@),
    ]);
    proof {
        reveal_strlit("");
    }
    let auth = sign_v4(
        method,
        path_s.as_str(),
        "",
        &headers,
        content_hash,
        date_stamp,
        amz_date,
        cfg.access_key.as_str(),
        cfg.secret_key.as_str(),
    );
    assert(url@ == trim_slashes(cfg.endpoint@) + seq!['/'] + cfg.bucket@ + seq!['/'] + key@);
    assert(path_s@ == seq!['/'] + cfg.bucket@ + seq!['/'] + key@);
    assert(endpoint_host(cfg.endpoint@) == Ok::<Seq<char>, Seq<char>>(host@));
    Ok(SignedRequest {
        url: string_of(&url),
        host,
        content_hash: string_of(&chars_of(content_hash)),
        authorization: auth,
    })
}

/// What a `HEAD` answer with this status says: 200 the object is there,
/// 404 it is not, 403 the keys are wrong, anything else is a failure.
pub open spec fn head_answer(status: u16) -> Result<bool, Seq<char>> {
    if status == 200 {
        Ok(true)
    } else if status == 404 {
        Ok(false)
    } else if status == 403 {
        Err("认证失败，请检查 Access Key 和 Secret Key"@)
    } else {
        Err("S3 HEAD 失败 ("@ + crate::text::decimal(status as nat) + ")"@)
    }
}

/// Reads the status of a `HEAD` answer.
pub fn head_result(status: u16) -> (r: Result<bool, String>)
    ensures
        match (r, head_answer(status)) {
            (Ok(a), Ok(b)) => a == b,
            (Err(a), Err(b)) => a@ == b,
            _ => false,
        },
{
    if status == 200 {
        Ok(true)
    } else if status == 404 {
        Ok(false)
    } else if status == 403 {
        Err(string_of(&chars_of("认证失败，请检查 Access Key 和 Secret Key")))
    } else {
        let mut v: Vec<char> = Vec::new();
        push_str(&mut v, "S3 HEAD 失败 (");
        crate::text::push_decimal(&mut v, status as u64);
        push_str(&mut v, ")");
        Err(string_of(&v))
    }
}

/// The message of a failed `GET`: a missing object asks for an export
/// first; any other status is shown with the answer's text.
pub fn get_failure(status: u16, status_text: &str, body: &str) -> (r: String)
    ensures
        status == 404 ==> r@ == "云端不存在该文件，请先导出"@,
        status != 404 ==> r@ == "S3 GET 失败 ("@ + status_text@ + "): "@ + body@,
{
    if status == 404 {
        return string_of(&chars_of("云端不存在该文件，请先导出"));
    }
    let mut v: Vec<char> = Vec::new();
    push_str(&mut v, "S3 GET 失败 (");
    push_str(&mut v, status_text);
    push_str(&mut v, "): ");
    push_str(&mut v, body);
    string_of(&v)
}

/// The message of a failed `PUT`.
pub fn put_failure(status_text: &str, body: &str) -> (r: String)
    ensures
        r@ == "S3 PUT 失败 ("@ + status_text@ + "): "@ + body@,
{
    let mut v: Vec<char> = Vec::new();
    push_str(&mut v, "S3 PUT 失败 (");
    push_str(&mut v, status_text);
    push_str(&mut v, "): ");
    push_str(&mut v, body);
    string_of(&v)
}
} // verus!
