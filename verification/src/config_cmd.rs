//! The `config` command: which keys exist and how a key is written.
use vstd::prelude::*;

use crate::error::ConfigCmdError;

verus! {

/// The keys that can be set, as (section, field).
pub open spec fn is_known_key(section: Seq<char>, field: Seq<char>) -> bool {
    ||| (section == "tools"@ && field == "aria2c"@)
    ||| (section == "tools"@ && field == "alass"@)
    ||| (section == "search"@ && field == "rate_limit_secs"@)
    ||| (section == "subtitle"@ && field == "default_lang"@)
    ||| (section == "omdb"@ && field == "api_key"@)
    ||| (section == "tmdb"@ && field == "api_key"@)
    ||| (section == "opensubtitles"@ && field == "api_key"@)
}

/// Whether (section, field) is a known key.
pub fn known_key(section: &str, field: &str) -> (r: bool)
    ensures
        r == is_known_key(section@, field@),
{
    let s = crate::text::chars_of(section);
    let f = crate::text::chars_of(field);
    (crate::text::chars_eq_str(&s, "tools") && crate::text::chars_eq_str(&f, "aria2c")) || (
    crate::text::chars_eq_str(&s, "tools") && crate::text::chars_eq_str(&f, "alass")) || (
    crate::text::chars_eq_str(&s, "search") && crate::text::chars_eq_str(&f, "rate_limit_secs"))
        || (crate::text::chars_eq_str(&s, "subtitle") && crate::text::chars_eq_str(
        &f,
        "default_lang",
    )) || (crate::text::chars_eq_str(&s, "omdb") && crate::text::chars_eq_str(&f, "api_key")) || (
    crate::text::chars_eq_str(&s, "tmdb") && crate::text::chars_eq_str(&f, "api_key")) || (
    crate::text::chars_eq_str(&s, "opensubtitles") && crate::text::chars_eq_str(&f, "api_key"))
}

/// Splits `section.field` at its first dot.  A key without a dot, or with
/// nothing before or after the dot, is `InvalidKeyFormat`; a well-formed key
/// that is not one of the known keys is `UnknownKey`.
pub fn parse_key(key: &str) -> (r: Result<(&str, &str), ConfigCmdError>)
    ensures
        match r {
            Ok((s, f)) => exists|d: int|
                0 < d < key@.len() - 1 && key@[d] == '.' && (forall|j: int| 0 <= j < d ==> key@[j]
                    != '.') && s@ == key@.subrange(0, d) && f@ == key@.subrange(d + 1, key@.len() as int)
                    && is_known_key(s@, f@),
            Err(ConfigCmdError::InvalidKeyFormat(k)) => k@ == key@ && forall|d: int|
                0 <= d < key@.len() && key@[d] == '.' && (forall|j: int| 0 <= j < d ==> key@[j] != '.')
                    ==> d == 0 || d == key@.len() - 1,
            Err(ConfigCmdError::UnknownKey(k)) => k@ == key@ && exists|d: int|
                0 < d < key@.len() - 1 && key@[d] == '.' && (forall|j: int| 0 <= j < d ==> key@[j]
                    != '.') && !is_known_key(key@.subrange(0, d), key@.subrange(d + 1, key@.len() as int)),
            Err(_) => false,
        },
{
    let n = key.unicode_len();
    let chars = crate::text::chars_of(key);
    let mut d: usize = 0;
    while d < n && chars[d] != '.'
        invariant
            d <= n,
            n == key@.len(),
            chars@ == key@,
            forall|j: int| 0 <= j < d ==> key@[j] != '.',
        decreases n - d,
    {
        d += 1;
    }
    if d == n || d == 0 || d == n - 1 {
        return Err(ConfigCmdError::InvalidKeyFormat(key.to_string()));
    }
    let section = key.substring_char(0, d);
    let field = key.substring_char(d + 1, n);
    if !known_key(section, field) {
        return Err(ConfigCmdError::UnknownKey(key.to_string()));
    }
    Ok((section, field))
}

} // verus!
