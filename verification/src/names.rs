//! The names of tags and attributes, for diagnostics.
use vstd::prelude::*;

use crate::describe::describe_text;
#[allow(unused_imports)]
use crate::describe::text_described;
#[allow(unused_imports)]
use crate::variable::text_view;

verus! {

/// The name that gimli knows for the tag with the number `tag`, if any.
pub uninterp spec fn gimli_tag_name(tag: u16) -> Option<Seq<char>>;

/// The name that gimli knows for the attribute with the number `attribute`, if any.
pub uninterp spec fn gimli_attribute_name(attribute: u16) -> Option<Seq<char>>;

/// `gimli::DwTag::static_string`: the name of a tag, which its number determines.
#[verifier::external_body]
fn tag_name(tag: u16) -> (r: Option<String>)
    ensures
        text_view(r) == gimli_tag_name(tag),
{
    gimli::DwTag(tag).static_string().map(|name| name.to_string())
}

/// `gimli::DwAt::static_string`: the name of an attribute, which its number determines.
#[verifier::external_body]
fn attribute_name(attribute: u16) -> (r: Option<String>)
    ensures
        text_view(r) == gimli_attribute_name(attribute),
{
    gimli::DwAt(attribute).static_string().map(|name| name.to_string())
}

/// The name of a tag, as in a diagnostic.
pub fn describe_tag(tag: u16) -> (r: String)
    ensures
        r@ == text_described(gimli_tag_name(tag)),
{
    describe_text(&tag_name(tag))
}

/// The name of an attribute, as in a diagnostic.
pub fn describe_attribute(attribute: u16) -> (r: String)
    ensures
        r@ == text_described(gimli_attribute_name(attribute)),
{
    describe_text(&attribute_name(attribute))
}

} // verus!
