//! The workspace's manifest and lockfile, parsed as TOML.
use vstd::prelude::*;

verus! {

/// A parsed TOML document.
#[verifier::external_type_specification]
#[verifier::external_body]
pub struct ExTomlValue(toml::Value);

/// The error of a text that is not a TOML document.
#[verifier::external_type_specification]
#[verifier::external_body]
pub struct ExTomlError(toml::de::Error);

/// What `toml::Value::from_str` makes of `text`: the document, or nothing when the text is not
/// TOML (a function of the text alone).
pub uninterp spec fn toml_parse(text: Seq<char>) -> Option<toml::Value>;

/// `toml::Value::from_str` of `toml`. Claimed: the outcome is the one `toml_parse` names.
#[verifier::external_body]
pub fn parse_toml(text: &str) -> (r: Result<toml::Value, toml::de::Error>)
    ensures
        match r {
            Ok(v) => toml_parse(text@) == Some(v),
            Err(_) => toml_parse(text@) is None,
        },
{
    text.parse::<toml::Value>()
}

/// The two documents a workspace keeps, `raw_manifest` and `raw_lock`, both parsed from the
/// text of its `Cargo.toml`: the lockfile is only required to exist, and its text is not
/// parsed.
pub fn parse_workspace_files(manifest_contents: &str) -> (r: Result<(toml::Value, toml::Value), toml::de::Error>)
    ensures
        r is Ok <==> toml_parse(manifest_contents@) is Some,
        r matches Ok((m, l)) ==> toml_parse(manifest_contents@) == Some(m) && toml_parse(manifest_contents@)
            == Some(l),
{
    let manifest = match parse_toml(manifest_contents) {
        Ok(v) => v,
        Err(e) => return Err(e),
    };
    let lock = match parse_toml(manifest_contents) {
        Ok(v) => v,
        Err(e) => return Err(e),
    };
    Ok((manifest, lock))
}

} // verus!
