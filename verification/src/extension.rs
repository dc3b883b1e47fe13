//! Extension metadata as published by the registry.
//!
//! The registry client itself (HTTP, JSON) lives outside the library; it
//! hands over plain `Extension` values.

use vstd::prelude::*;
use crate::util::str_eq;

verus! {

/// Metadata of one extension, as listed by the registry.
/// Identity is the `name` field.
#[derive(Debug)]
pub struct Extension {
    pub name: String,
    pub license: Option<String>,
    pub latest_version: String,
    pub description: Option<String>,
}

/// The first extension of `extensions` whose name is `name`, if any.
pub fn find_extension<'a>(extensions: &'a Vec<Extension>, name: &str) -> (r: Option<
    &'a Extension,
>)
    ensures
        match r {
            Some(ext) => exists|i: int|
                0 <= i < extensions@.len() && extensions@[i].name@ == name@ && ext == &extensions@[i]
                    && (forall|j: int| 0 <= j < i ==> extensions@[j].name@ != name@),
            None => forall|i: int| 0 <= i < extensions@.len() ==> extensions@[i].name@ != name@,
        },
{
    let mut i: usize = 0;
    while i < extensions.len()
        invariant
            i <= extensions@.len(),
            forall|j: int| 0 <= j < i ==> extensions@[j].name@ != name@,
        decreases extensions@.len() - i,
    {
        if str_eq(extensions[i].name.as_str(), name) {
            return Some(&extensions[i]);
        }
        i = i + 1;
    }
    None
}

} // verus!
