//! The data that statement purification hands back to the catalog layer.
//!
//! Purification itself — resolving sources and sinks against message
//! brokers, replicated databases and schema registries — talks to external
//! systems and lives outside this library; it only consumes the library's
//! id-allocation and item-lookup surface and produces plain values such as
//! the schema pair below.

use vstd::prelude::*;

verus! {

/// View of a fetched schema pair.
pub ghost struct SchemaView {
    pub key_schema: Option<Seq<char>>,
    pub value_schema: Seq<char>,
}

/// The key and value schemas fetched from a schema registry for one topic.
/// The key schema is absent when the subject defines none.
#[derive(Debug)]
pub struct Schema {
    pub key_schema: Option<String>,
    pub value_schema: String,
}

impl View for Schema {
    type V = SchemaView;

    open spec fn view(&self) -> SchemaView {
        SchemaView {
            key_schema: match self.key_schema {
                Some(s) => Some(s@),
                None => None,
            },
            value_schema: self.value_schema@,
        }
    }
}

impl Schema {
    /// Whether a key schema was found.
    pub fn has_key_schema(&self) -> (r: bool)
        ensures
            r == (self@.key_schema is Some),
    {
        self.key_schema.is_some()
    }
}

} // verus!
