//! The contents of a catalog proxy file: where the catalog is, and the
//! name hash it had when the proxy was last written.

use vstd::prelude::*;
use vstd::string::StringSliceAdditionalSpecFns;
use crate::name_hash::NameHash;

verus! {

/// The TOML document, pretty-printed, of a table that maps each key to a
/// string value, or `None` if the table cannot be written as TOML.
pub uninterp spec fn toml_document(pairs: Seq<(Seq<char>, Seq<char>)>) -> Option<Seq<u8>>;

/// Builds a `toml::Table` of string values from the pairs and calls
/// `toml::to_string_pretty` on it.
///
/// Assumed: the document depends on the pairs alone.
#[verifier::external_body]
fn toml_pretty(pairs: &Vec<(String, String)>) -> (document: Option<Vec<u8>>)
    ensures
        match document {
            Some(bytes) => toml_document(pairs.deep_view()) == Some(bytes@),
            None => toml_document(pairs.deep_view()) is None,
        },
{
    let table: toml::Table = pairs.iter().map(
        |pair| (pair.0.clone(), toml::Value::String(pair.1.clone())),
    ).collect();
    match toml::to_string_pretty(&table) {
        Ok(text) => Some(text.into_bytes()),
        Err(_) => None,
    }
}

/// Contents of katalog proxy file.
#[derive(Debug, Clone)]
pub struct Contents {
    /// Path to katalog.
    pub katalog: String,
    /// Hash of filenames in catalog.
    pub name_hash: Option<NameHash>,
}

impl Contents {
    /// The fields of the file's table: the catalog's path, and the name
    /// hash where there is one.
    pub open spec fn fields(&self) -> Seq<(Seq<char>, Seq<char>)> {
        match self.name_hash {
            Some(hash) => seq![("katalog"@, self.katalog@), ("name_hash"@, hash.text())],
            None => seq![("katalog"@, self.katalog@)],
        }
    }

    /// The bytes of the proxy file: a marker line, then the fields as a
    /// TOML document. `None` if the fields cannot be written as TOML.
    pub open spec fn file_bytes(&self) -> Option<Seq<u8>> {
        match toml_document(self.fields()) {
            Some(document) => Some("#katalog-proxy\n".spec_bytes() + document),
            None => None,
        }
    }

    /// Write the contents as the bytes of a proxy file.
    pub fn write(&self) -> (r: Option<Vec<u8>>)
        ensures
            match r {
                Some(bytes) => self.file_bytes() == Some(bytes@),
                None => self.file_bytes() is None,
            },
    {
        let mut pairs: Vec<(String, String)> = Vec::new();
        pairs.push(("katalog".to_owned(), self.katalog.clone()));
        match self.name_hash {
            Some(hash) => {
                pairs.push(("name_hash".to_owned(), hash.to_hex()));
            },
            None => {},
        }
        assert(pairs.deep_view() =~= self.fields());
        match toml_pretty(&pairs) {
            Some(document) => {
                let mut bytes: Vec<u8> = Vec::new();
                bytes.extend_from_slice("#katalog-proxy\n".as_bytes());
                bytes.extend_from_slice(document.as_slice());
                Some(bytes)
            },
            None => None,
        }
    }

    /// Whether a proxy that was opened has to be written again: its name
    /// hash was computed anew and differs from the stored one, or the proxy
    /// goes to standard output.
    pub fn needs_rewrite(&self, computed: Option<NameHash>, to_stdout: bool) -> (r: bool)
        ensures
            r == ((computed is Some && self.name_hash != computed) || to_stdout),
    {
        let changed = match computed {
            Some(new) => match self.name_hash {
                Some(old) => old.0 != new.0,
                None => true,
            },
            None => false,
        };
        changed || to_stdout
    }
}

} // verus!
