//! Reading a link's configuration: settings are matched by key without
//! regard to case.
use case_insensitive_hashmap::CaseInsensitiveHashMap;
use vstd::prelude::*;

use crate::error::ConfigError;

verus! {

/// A configuration, as key and value texts in the order they were given.
pub open spec fn settings_view(config: Seq<(String, String)>) -> Seq<(Seq<char>, Seq<char>)> {
    config.map_values(|p: (String, String)| (p.0@, p.1@))
}

/// The value stored under the key `token` once the settings are loaded into a
/// map whose keys compare without regard to case.
pub uninterp spec fn token_setting(settings: Seq<(Seq<char>, Seq<char>)>) -> Option<Seq<char>>;

/// Relies on `CaseInsensitiveHashMap::from_iter` and `CaseInsensitiveHashMap::get`:
/// the pairs are loaded into the map (keys matched without regard to case, a later
/// pair replacing the value of an earlier one) and the value under `token` is read.
/// A key spelled exactly `token` is always found, and what is found is one of the
/// given values.
#[verifier::external_body]
fn lookup_token(config: &Vec<(String, String)>) -> (r: Option<String>)
    ensures
        match r {
            Some(v) => token_setting(settings_view(config@)) == Some(v@),
            None => token_setting(settings_view(config@)) is None,
        },
        (exists|i: int| 0 <= i < config@.len() && config@[i].0@ == "token"@) ==> r is Some,
        r is Some ==> exists|i: int| 0 <= i < config@.len() && config@[i].1@ == r->0@,
{
    let map: CaseInsensitiveHashMap<String> = CaseInsensitiveHashMap::from_iter(
        config.iter().map(|(k, v)| (k.clone(), v.clone())),
    );
    map.get("token").cloned()
}

/// The credential a link needs: the value under `token`, whatever the case of
/// the key.
pub fn link_token(config: &Vec<(String, String)>) -> (r: Result<String, ConfigError>)
    ensures
        match r {
            Ok(t) => token_setting(settings_view(config@)) == Some(t@),
            Err(e) => token_setting(settings_view(config@)) is None && e == ConfigError::MissingToken,
        },
{
    match lookup_token(config) {
        Some(t) => Ok(t),
        None => Err(ConfigError::MissingToken),
    }
}

} // verus!
