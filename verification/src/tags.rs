//! The tag collection of `osmpbfreader`, as the classifiers read it.
//!
//! Nothing in this file is proved: the contracts below say what the
//! collection's own code does, and the classifiers are verified against them.

use osmpbfreader::Tags;
use vstd::prelude::*;

verus! {

/// `osmpbfreader::Tags`, taken as it is: a relation carries its tags in
/// this type, and the contracts speak of them through `tag_map`.
#[verifier::external_type_specification]
#[verifier::external_body]
pub struct ExTags(osmpbfreader::Tags);

/// What a tag collection holds: the keys that a lookup finds, each with the
/// value that the lookup gives for it.
pub uninterp spec fn tag_map(tags: Tags) -> Map<Seq<char>, Seq<char>>;

/// `Tags::contains`: whether a lookup of `key` finds a value, and that value
/// is `value`.
#[verifier::external_body]
pub(crate) fn tags_contains(tags: &Tags, key: &str, value: &str) -> (found: bool)
    ensures
        found == (tag_map(*tags).contains_key(key@) && tag_map(*tags)[key@] == value@),
{
    tags.contains(key, value)
}

/// `FlatMap::get` of the crate `flat_map`, reached through the `Deref` of
/// `Tags`: the value that a lookup of `key` finds, or nothing where the
/// collection has no such key.
#[verifier::external_body]
pub(crate) fn tags_get<'a>(tags: &'a Tags, key: &str) -> (value: Option<&'a String>)
    ensures
        match value {
            Some(v) => tag_map(*tags).contains_key(key@) && tag_map(*tags)[key@] == v@,
            None => !tag_map(*tags).contains_key(key@),
        },
{
    tags.get(key)
}

} // verus!
