//! Typed projections of the game-content API's responses: single-item
//! metadata and world names, plus the request URL for that API.
//!
//! The HTTP fetches themselves, the JSON decoding and the reading of the
//! API key from the environment live outside the verified library; what
//! stands here is the data model and the pure URL construction.

use vstd::prelude::*;
use vstd::string::StringExecFns;

verus! {

/// Configuration of the game-content API client: its private API key,
/// supplied by the caller (the key is read from the environment outside
/// the library).
pub struct XivConfig {
    api_key: String,
}

impl XivConfig {
    /// A configuration holding the given API key.
    pub fn new(api_key: String) -> (c: Self)
        ensures
            c.spec_api_key() == api_key@,
    {
        XivConfig { api_key }
    }

    /// The configured API key.
    pub closed spec fn spec_api_key(self) -> Seq<char> {
        self.api_key@
    }

    /// Reads the configured API key.
    pub fn api_key(&self) -> (k: &String)
        ensures
            k@ == self.spec_api_key(),
    {
        &self.api_key
    }
}

/// The request URL for one object of the game-content API: the endpoint,
/// the object's id, and the private key as the sole query parameter.
pub fn request_url_builder(endpoint: &str, item: String, api_key: &str) -> (r: String)
    ensures
        r@ == endpoint@ + item@ + "?private_key="@ + api_key@,
{
    let mut out = String::from_str(endpoint);
    out.append(item.as_str());
    out.append("?private_key=");
    out.append(api_key);
    out
}

/// Metadata of a single item, as the content API reports it: its
/// English name.
#[derive(Clone)]
pub struct ItemData {
    name_en: String,
}

impl ItemData {
    /// Item metadata with the given English name (the fetch that obtains
    /// the name from the content API happens outside the library).
    pub fn new(name_en: String) -> (d: Self)
        ensures
            d.spec_name() == name_en@,
    {
        ItemData { name_en }
    }

    /// The item's English name.
    pub closed spec fn spec_name(self) -> Seq<char> {
        self.name_en@
    }

    /// Returns the item's English name.
    pub fn get_name(&self) -> (r: String)
        ensures
            r@ == self.spec_name(),
    {
        self.name_en.clone()
    }
}

/// A world as the content API reports it: its name.
#[derive(Clone)]
pub struct WorldName {
    name: String,
}

impl WorldName {
    /// A world record with the given name.
    pub fn new(name: String) -> (w: Self)
        ensures
            w.spec_name() == name@,
    {
        WorldName { name }
    }

    /// The world's name.
    pub closed spec fn spec_name(self) -> Seq<char> {
        self.name@
    }

    /// Returns the world's name.
    pub fn get_name(&self) -> (r: String)
        ensures
            r@ == self.spec_name(),
    {
        self.name.clone()
    }
}

} // verus!
