//! Module specifiers: the text of an absolute reference to a module, and what
//! the `url` crate computes from it.

use crate::text::{bytes_eq, lemma_bytes_of_injective};
use url::Url;
use vstd::prelude::*;
use vstd::string::*;

verus! {

/// The serialization of the URL that `Url::parse` reads from `input`, if it
/// reads one.
pub uninterp spec fn url_parse(input: Seq<char>) -> Option<Seq<char>>;

/// The serialization of the URL that `input` denotes when it is parsed with
/// the URL `base` as its base, if `base` is a URL and `input` can be read
/// against it.
pub uninterp spec fn url_join(base: Seq<char>, input: Seq<char>) -> Option<Seq<char>>;

/// The scheme of the URL `url`, if it is one.
pub uninterp spec fn url_scheme(url: Seq<char>) -> Option<Seq<char>>;

/// What `Url::make_relative` gives for the URL `target` seen from the URL
/// `base`, if both are URLs and `base` can be a base for `target`.
pub uninterp spec fn url_relative(base: Seq<char>, target: Seq<char>) -> Option<Seq<char>>;

/// The characters of a possibly absent string.
pub open spec fn text_of(text: Option<String>) -> Option<Seq<char>> {
    match text {
        Some(text) => Some(text@),
        None => None,
    }
}

/// `Url::parse`: the serialization of the URL read from `input`, or nothing
/// where `input` is not an absolute URL. The contract only gives the result
/// its name.
#[verifier::external_body]
fn parse_url(input: &str) -> (href: Option<String>)
    ensures
        text_of(href) == url_parse(input@),
{
    Url::parse(input).ok().map(String::from)
}

/// `ParseOptions::parse` with a base URL, as `Url::join` makes it: the
/// serialization of the URL that `input` denotes relative to `base`, or
/// nothing where `base` is not a URL or `input` cannot be read against it.
/// The contract only gives the result its name.
#[verifier::external_body]
fn join_url(base: &str, input: &str) -> (href: Option<String>)
    ensures
        text_of(href) == url_join(base@, input@),
{
    let base = Url::parse(base).ok()?;
    Url::options().base_url(Some(&base)).parse(input).ok().map(String::from)
}

/// `Url::scheme`: the scheme of the URL `url`, or nothing where `url` is not
/// a URL. The contract only gives the result its name.
#[verifier::external_body]
fn scheme_of_url(url: &str) -> (scheme: Option<String>)
    ensures
        text_of(scheme) == url_scheme(url@),
{
    let url = Url::parse(url).ok()?;
    Some(url.scheme().to_owned())
}

/// `Url::make_relative`: the relative reference that leads from `base` to
/// `target`, or nothing where one of them is not a URL or `base` cannot be a
/// base for `target`. The contract only gives the result its name.
#[verifier::external_body]
fn relative_of_url(base: &str, target: &str) -> (relative: Option<String>)
    ensures
        text_of(relative) == url_relative(base@, target@),
{
    let base = Url::parse(base).ok()?;
    let target = Url::parse(target).ok()?;
    base.make_relative(&target)
}

/// Whether two strings hold the same characters.
pub fn str_eq(a: &str, b: &str) -> (same: bool)
    ensures
        same == (a@ == b@),
{
    let same = bytes_eq(a.as_bytes(), b.as_bytes());
    proof {
        if same {
            lemma_bytes_of_injective(a@, b@);
        }
    }
    same
}

/// The text of an absolute reference to a module, such as
/// `file:///project/mod.ts` or `npm:express@5`.
#[derive(Debug, PartialEq, Eq)]
pub struct ModuleSpecifier {
    href: String,
}

impl View for ModuleSpecifier {
    type V = Seq<char>;

    closed spec fn view(&self) -> Seq<char> {
        self.href@
    }
}

impl Clone for ModuleSpecifier {
    fn clone(&self) -> (copy: Self)
        ensures
            copy@ == self@,
    {
        ModuleSpecifier { href: self.href.clone() }
    }
}

impl ModuleSpecifier {
    /// Reads an absolute URL and keeps its serialization.
    pub fn parse(input: &str) -> (parsed: Option<ModuleSpecifier>)
        ensures
            match parsed {
                Some(specifier) => url_parse(input@) == Some(specifier@),
                None => url_parse(input@) is None,
            },
    {
        match parse_url(input) {
            Some(href) => Some(ModuleSpecifier { href }),
            None => None,
        }
    }

    /// A reference with the given text, taken as it is.
    pub fn from_text(href: String) -> (specifier: ModuleSpecifier)
        ensures
            specifier@ == href@,
    {
        ModuleSpecifier { href }
    }

    /// The text of the reference.
    pub fn as_str(&self) -> (text: &str)
        ensures
            text@ == self@,
    {
        self.href.as_str()
    }

    /// Whether both references have the same text.
    pub fn same_as(&self, other: &ModuleSpecifier) -> (same: bool)
        ensures
            same == (self@ == other@),
    {
        str_eq(self.href.as_str(), other.href.as_str())
    }

    /// Reads `input` with this reference as the base.
    pub fn join(&self, input: &str) -> (joined: Option<ModuleSpecifier>)
        ensures
            match joined {
                Some(specifier) => url_join(self@, input@) == Some(specifier@),
                None => url_join(self@, input@) is None,
            },
    {
        match join_url(self.href.as_str(), input) {
            Some(href) => Some(ModuleSpecifier { href }),
            None => None,
        }
    }

    /// The scheme of the reference, where it is a URL.
    pub fn scheme(&self) -> (scheme: Option<String>)
        ensures
            text_of(scheme) == url_scheme(self@),
    {
        scheme_of_url(self.href.as_str())
    }

    /// The relative reference that leads from this reference to `target`.
    pub fn make_relative(&self, target: &ModuleSpecifier) -> (relative: Option<String>)
        ensures
            text_of(relative) == url_relative(self@, target@),
    {
        relative_of_url(self.href.as_str(), target.href.as_str())
    }
}

} // verus!
