//! The things that are searched for: named patterns.

use vstd::prelude::*;

verus! {

/// A named pattern. The pattern is a regular expression whose first capture
/// group is the span that is reported and masked.
#[derive(Debug)]
pub struct Secret<'a> {
    pub name: &'a str,
    pub regex: &'a str,
}

impl<'a> Secret<'a> {
    pub fn new(name: &'a str, regex: &'a str) -> (secret: Secret<'a>)
        ensures
            secret.name@ == name@,
            secret.regex@ == regex@,
    {
        Secret { name, regex }
    }
}

/// An ordered catalog of secrets; a secret is referred to by its position.
pub type Secrets<'a> = Vec<Secret<'a>>;

/// The pattern texts of a catalog, in order.
pub open spec fn pattern_texts(secrets: Seq<Secret>) -> Seq<Seq<char>> {
    Seq::new(secrets.len(), |i: int| secrets[i].regex@)
}

/// The names of a catalog, in order.
pub open spec fn secret_names(secrets: Seq<Secret>) -> Seq<Seq<char>> {
    Seq::new(secrets.len(), |i: int| secrets[i].name@)
}

} // verus!
