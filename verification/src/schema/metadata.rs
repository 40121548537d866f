//! What a schema type says about itself. Validation does not read it.

use vstd::prelude::*;

verus! {

/// The name and the documentation of a schema type; both may be missing.
#[derive(Debug)]
pub struct Meta {
    pub name: Option<String>,
    pub doc: Option<String>,
}

impl Meta {
    /// No name and no documentation.
    pub fn empty() -> (m: Meta)
        ensures
            m.name is None,
            m.doc is None,
    {
        Meta { name: None, doc: None }
    }

    /// Only documentation.
    pub fn with_doc(doc: &str) -> (m: Meta)
        ensures
            m.name is None,
            m.doc matches Some(d) && d@ == doc@,
    {
        Meta { name: None, doc: Some(doc.to_owned()) }
    }

    /// The documentation.
    pub fn doc(&self) -> (d: Option<&str>)
        ensures
            match d {
                Some(text) => self.doc matches Some(own) && own@ == text@,
                None => self.doc is None,
            },
    {
        match &self.doc {
            Some(text) => Some(text.as_str()),
            None => None,
        }
    }

    /// The name.
    pub fn name(&self) -> (n: Option<&str>)
        ensures
            match n {
                Some(text) => self.name matches Some(own) && own@ == text@,
                None => self.name is None,
            },
    {
        match &self.name {
            Some(text) => Some(text.as_str()),
            None => None,
        }
    }
}

} // verus!
