//! Page identifiers: name-based UUIDs, stable across runs and machines.

use crate::text::{decimal, lemma_decimal_injective, push_decimal, to_uppercase, uppercase};
use uuid::Uuid;
use vstd::prelude::*;
use vstd::string::*;

verus! {

/// `uuid::Uuid`, an identifier of 128 bits, carried as it is.
#[verifier::external_type_specification]
#[verifier::external_body]
pub struct ExUuid(uuid::Uuid);

/// The 128 bits that the identifier `id` holds.
pub uninterp spec fn uuid_bits(id: Uuid) -> u128;

/// The bits of the version-5 (SHA-1, name-based) UUID of the name `text` in
/// the URL namespace.
pub uninterp spec fn url_namespace_v5(text: Seq<char>) -> u128;

/// `Uuid::new_v5` with the namespace `Uuid::NAMESPACE_URL`, on the UTF-8 bytes
/// of `text`. The crate computes it from the namespace and the name alone; the
/// contract gives that value its name.
#[verifier::external_body]
fn new_v5_in_url_namespace(text: &str) -> (r: Uuid)
    ensures
        uuid_bits(r) == url_namespace_v5(text@),
{
    Uuid::new_v5(&Uuid::NAMESPACE_URL, text.as_bytes())
}

/// The identifier with the bits `id` written as groups of hexadecimal digits
/// with hyphens between them.
pub uninterp spec fn hyphenated(id: u128) -> Seq<char>;

/// `Uuid::to_string`: the identifier in its hyphenated form, which depends on
/// the identifier alone.
#[verifier::external_body]
fn to_hyphenated(id: &Uuid) -> (r: String)
    ensures
        r@ == hyphenated(uuid_bits(*id)),
{
    id.to_string()
}

/// The identifier as the device software writes it: hyphenated, in upper
/// case.
pub open spec fn spec_uppercase_id(id: u128) -> Seq<char> {
    uppercase(hyphenated(id))
}

/// The identifier as the device software writes it.
pub fn uppercase_id(id: &Uuid) -> (r: String)
    ensures
        r@ == spec_uppercase_id(uuid_bits(*id)),
{
    let text = to_hyphenated(id);
    to_uppercase(text.as_str())
}

/// The text from which the identifier of page `page` of the profile `name` is
/// derived.
pub open spec fn spec_page_locator(name: Seq<char>, page: nat) -> Seq<char> {
    "https://github.com/walfie/streamdeck-youtube-emotes#"@ + name + "_page"@ + decimal(page)
}

/// The bits of the identifier of page `page` of the profile `name`.
pub open spec fn spec_uuid_v5(name: Seq<char>, page: nat) -> u128 {
    url_namespace_v5(spec_page_locator(name, page))
}

/// Builds the text from which a page's identifier is derived.
pub fn page_locator(name: &str, page: usize) -> (r: String)
    ensures
        r@ == spec_page_locator(name@, page as nat),
{
    let mut text = String::from_str("https://github.com/walfie/streamdeck-youtube-emotes#");
    text.append(name);
    text.append("_page");
    push_decimal(&mut text, page);
    text
}

/// The identifier of page `page` of the profile `name`: the same on every call
/// and every machine.
pub fn uuid_v5(name: &str, page: usize) -> (r: Uuid)
    ensures
        uuid_bits(r) == spec_uuid_v5(name@, page as nat),
{
    let text = page_locator(name, page);
    new_v5_in_url_namespace(text.as_str())
}

/// The identifier of a page is a function of the profile's name and the
/// page's number: equal names and numbers give equal identifiers.
pub proof fn lemma_identifier_deterministic(
    name: Seq<char>,
    page: nat,
    again: Seq<char>,
    other: nat,
)
    requires
        name == again,
        page == other,
    ensures
        spec_uuid_v5(name, page) == spec_uuid_v5(again, other),
{
}

/// The identifiers of different pages of a profile are derived from
/// different texts.
pub proof fn lemma_locators_differ(name: Seq<char>, page: nat, other: nat)
    requires
        page != other,
    ensures
        spec_page_locator(name, page) != spec_page_locator(name, other),
{
    let head = "https://github.com/walfie/streamdeck-youtube-emotes#"@ + name + "_page"@;
    let a = spec_page_locator(name, page);
    let b = spec_page_locator(name, other);
    if a == b {
        assert(a.subrange(head.len() as int, a.len() as int) =~= decimal(page));
        assert(b.subrange(head.len() as int, b.len() as int) =~= decimal(other));
        lemma_decimal_injective(page, other);
    }
}

} // verus!
