//! Dynamic imports: what a look at the argument of one finds, and what is
//! decided of it once it is known what its specifier unfurls to.

use crate::source::{
    quote_trimmed, trim_quotes, DynamicArgument, DynamicDependencyDescriptor, DynamicTemplatePart,
};
use crate::specifier::text_of;
use crate::text::{byte_len, bytes_of, find_first, find_in, lemma_find_from_is_least};
use crate::text_changes::{Edit, SourceRange, TextChange};
use vstd::prelude::*;
use vstd::string::*;

verus! {

/// The path names its starting point: it begins with `./` or `../`.
pub open spec fn explicit_relative(path: Seq<char>) -> bool {
    ||| (path.len() >= 2 && path[0] == '.' && path[1] == '/')
    ||| (path.len() >= 3 && path[0] == '.' && path[1] == '.' && path[2] == '/')
}

/// The text ends with a slash, as the name of a directory does.
pub open spec fn ends_with_slash(text: Seq<char>) -> bool {
    text.len() > 0 && text.last() == '/'
}

/// Whether `path` begins with `./` or `../`.
pub fn is_explicit_relative(path: &str) -> (explicit: bool)
    ensures
        explicit == explicit_relative(path@),
{
    let len: usize = path.unicode_len();
    if len >= 2 && path.get_char(0) == '.' {
        let second: char = path.get_char(1);
        second == '/' || (len >= 3 && second == '.' && path.get_char(2) == '/')
    } else {
        false
    }
}

/// Whether `text` ends with a slash.
pub fn has_trailing_slash(text: &str) -> (slash: bool)
    ensures
        slash == ends_with_slash(text@),
{
    let len: usize = text.unicode_len();
    len > 0 && text.get_char(len - 1) == '/'
}

/// What was decided of a dynamic import: the edit to make, if any, and
/// whether the import could be analyzed.
pub struct Verdict {
    pub edit: Option<Edit>,
    pub analyzable: bool,
}

/// What a look at the argument of a dynamic import finds, before any
/// resolver is asked.
pub enum Found {
    /// There is nothing to rewrite, and it is known whether the import could
    /// be analyzed.
    Settled { analyzable: bool },
    /// The argument is written with `specifier`, found at `span` where it was
    /// found at all; what becomes of it depends on what it unfurls to.
    Candidate { specifier: Seq<char>, span: Option<SourceRange> },
}

/// What a look at the argument of a dynamic import finds, before any
/// resolver is asked.
#[derive(Debug, PartialEq, Eq)]
pub enum Finding<'a> {
    /// There is nothing to rewrite, and it is known whether the import could
    /// be analyzed.
    Settled { analyzable: bool },
    /// The argument is written with `specifier`, found at `span` where it was
    /// found at all; what becomes of it depends on what it unfurls to.
    Candidate { specifier: &'a str, span: Option<SourceRange> },
}

impl<'a> View for Finding<'a> {
    type V = Found;

    open spec fn view(&self) -> Found {
        match self {
            Finding::Settled { analyzable } => Found::Settled { analyzable: *analyzable },
            Finding::Candidate { specifier, span } => Found::Candidate {
                specifier: specifier@,
                span: *span,
            },
        }
    }
}

/// What a possibly absent change says.
pub open spec fn change_of(change: Option<TextChange>) -> Option<Edit> {
    match change {
        Some(change) => Some(change@),
        None => None,
    }
}

/// The edit that writes what a specifier unfurls to over `range`, where it
/// unfurls to anything.
pub open spec fn edit_of(unfurled: Option<Seq<char>>, range: SourceRange) -> Option<Edit> {
    match unfurled {
        Some(literal) => Some(Edit { range, new_text: literal }),
        None => None,
    }
}

/// The change that writes what a specifier unfurls to over `range`, where it
/// unfurls to anything.
pub fn edit_for(unfurled: Option<String>, range: SourceRange) -> (change: Option<TextChange>)
    ensures
        change_of(change) == edit_of(text_of(unfurled), range),
{
    match unfurled {
        Some(new_text) => Some(TextChange { range, new_text }),
        None => None,
    }
}

/// Where `needle` is first found in the window of `text`.
pub open spec fn located(text: Seq<u8>, window: SourceRange, needle: Seq<char>) -> Option<
    SourceRange,
> {
    match find_first(text.subrange(window.start as int, window.end as int), bytes_of(needle)) {
        Some(at) => Some(
            SourceRange {
                start: (window.start + at) as usize,
                end: (window.start + at + bytes_of(needle).len()) as usize,
            },
        ),
        None => None,
    }
}

/// Finds the first place in the window of `text` where `needle` is written.
pub fn locate(text: &str, window: &SourceRange, needle: &str) -> (span: Option<SourceRange>)
    requires
        window.within(bytes_of(text@).len() as int),
    ensures
        span == located(bytes_of(text@), *window, needle@),
{
    let ghost haystack = bytes_of(text@).subrange(window.start as int, window.end as int);
    match find_in(text.as_bytes(), window.start, window.end, needle.as_bytes()) {
        Some(at) => {
            proof {
                lemma_find_from_is_least(haystack, bytes_of(needle@), 0);
            }
            let start: usize = window.start + at;
            Some(SourceRange { start, end: start + byte_len(needle) })
        },
        None => None,
    }
}

/// What a look at the argument of the dynamic import `dep` finds. A string
/// literal is a candidate where it is found in the argument, and settled as
/// analyzable where it is not. Of a template only the first part counts: an
/// expression settles it as not analyzable; text that begins with `./` or
/// `../` settles it as analyzable; text that does not end with a slash
/// settles it as not analyzable; other text is a candidate. A template
/// without parts is settled as analyzable, any other expression as not
/// analyzable.
pub open spec fn examined(text: Seq<u8>, dep: DynamicDependencyDescriptor) -> Found {
    let window = quote_trimmed(text, dep.argument_range);
    match dep.argument {
        DynamicArgument::String(specifier) => match located(text, window, specifier@) {
            Some(span) => Found::Candidate { specifier: specifier@, span: Some(span) },
            None => Found::Settled { analyzable: true },
        },
        DynamicArgument::Template(parts) => if parts@.len() == 0 {
            Found::Settled { analyzable: true }
        } else {
            match parts@[0] {
                DynamicTemplatePart::String { value } => if explicit_relative(value@) {
                    Found::Settled { analyzable: true }
                } else if !ends_with_slash(value@) {
                    Found::Settled { analyzable: false }
                } else {
                    Found::Candidate { specifier: value@, span: located(text, window, value@) }
                },
                DynamicTemplatePart::Expr => Found::Settled { analyzable: false },
            }
        },
        DynamicArgument::Expr => Found::Settled { analyzable: false },
    }
}

/// What is decided of a dynamic import once it is known what its specifier
/// unfurls to. A settled import yields no edit. A candidate that unfurls to
/// nothing is analyzable and yields no edit; one that unfurls to a literal
/// yields the edit that writes the literal where the specifier was found, and
/// cannot be analyzed where the specifier was not found.
pub open spec fn concluded(found: Found, unfurled: Option<Seq<char>>) -> Verdict {
    match found {
        Found::Settled { analyzable } => Verdict { edit: None, analyzable },
        Found::Candidate { specifier, span } => match unfurled {
            None => Verdict { edit: None, analyzable: true },
            Some(literal) => match span {
                Some(span) => Verdict {
                    edit: Some(Edit { range: span, new_text: literal }),
                    analyzable: true,
                },
                None => Verdict { edit: None, analyzable: false },
            },
        },
    }
}

/// Whether a look at the argument of `dep` reads the text at its range: it
/// does for a string literal, and for a template that begins with text which
/// neither begins with `./` or `../` nor lacks a slash at its end.
pub open spec fn reads_range(dep: DynamicDependencyDescriptor) -> bool {
    match dep.argument {
        DynamicArgument::String(_) => true,
        DynamicArgument::Template(parts) => parts@.len() > 0 && match parts@[0] {
            DynamicTemplatePart::String { value } => !explicit_relative(value@) && ends_with_slash(
                value@,
            ),
            DynamicTemplatePart::Expr => false,
        },
        DynamicArgument::Expr => false,
    }
}

/// Whether a look at the argument of `dep` reads the text at its range.
pub fn reads_the_range(dep: &DynamicDependencyDescriptor) -> (reads: bool)
    ensures
        reads == reads_range(*dep),
{
    match &dep.argument {
        DynamicArgument::String(_) => true,
        DynamicArgument::Template(parts) => {
            if parts.len() == 0 {
                false
            } else {
                match &parts[0] {
                    DynamicTemplatePart::String { value } => !is_explicit_relative(value.as_str())
                        && has_trailing_slash(value.as_str()),
                    DynamicTemplatePart::Expr => false,
                }
            }
        },
        DynamicArgument::Expr => false,
    }
}

/// Looks at the argument of the dynamic import `dep` in the text of the
/// module.
pub fn examine_dynamic_dep<'a>(text: &str, dep: &'a DynamicDependencyDescriptor) -> (finding:
    Finding<'a>)
    requires
        reads_range(*dep) ==> dep.argument_range.within(bytes_of(text@).len() as int),
    ensures
        finding@ == examined(bytes_of(text@), *dep),
{
    match &dep.argument {
        DynamicArgument::String(specifier) => {
            let range = trim_quotes(text.as_bytes(), &dep.argument_range);
            match locate(text, &range, specifier.as_str()) {
                Some(span) => Finding::Candidate { specifier: specifier.as_str(), span: Some(span) },
                None => Finding::Settled { analyzable: true },
            }
        },
        DynamicArgument::Template(parts) => {
            if parts.len() == 0 {
                return Finding::Settled { analyzable: true };
            }
            match &parts[0] {
                DynamicTemplatePart::String { value } => {
                    if is_explicit_relative(value.as_str()) {
                        Finding::Settled { analyzable: true }
                    } else if !has_trailing_slash(value.as_str()) {
                        Finding::Settled { analyzable: false }
                    } else {
                        let range = trim_quotes(text.as_bytes(), &dep.argument_range);
                        Finding::Candidate {
                            specifier: value.as_str(),
                            span: locate(text, &range, value.as_str()),
                        }
                    }
                },
                DynamicTemplatePart::Expr => Finding::Settled { analyzable: false },
            }
        },
        DynamicArgument::Expr => Finding::Settled { analyzable: false },
    }
}

/// Decides of a dynamic import, given what was found of its argument and what
/// its specifier unfurls to: the change to make, if any, and whether the
/// import could be analyzed.
pub fn conclude_dynamic_dep(finding: &Finding, unfurled: Option<String>) -> (decided: (
    Option<TextChange>,
    bool,
))
    ensures
        change_of(decided.0) == concluded(finding@, text_of(unfurled)).edit,
        decided.1 == concluded(finding@, text_of(unfurled)).analyzable,
{
    match finding {
        Finding::Settled { analyzable } => (None, *analyzable),
        Finding::Candidate { specifier, span } => match unfurled {
            None => (None, true),
            Some(new_text) => match span {
                Some(span) => (Some(TextChange { range: *span, new_text }), true),
                None => (None, false),
            },
        },
    }
}

} // verus!
