//! A module as the unfurler sees it: its text and the places in it where a
//! specifier is written.

use crate::dynamic::{examine_dynamic_dep, examined, reads_range, reads_the_range, Finding, Found};
use crate::slots::present;
use crate::text::{byte_len, bytes_of};
use crate::text_changes::SourceRange;
use vstd::prelude::*;
use vstd::string::*;
use vstd::utf8::*;

verus! {

/// One part of a template literal handed to a dynamic import.
#[derive(Debug, PartialEq, Eq)]
pub enum DynamicTemplatePart {
    /// Literal text.
    String { value: String },
    /// An interpolated expression.
    Expr,
}

/// The argument of a dynamic import.
#[derive(Debug, PartialEq, Eq)]
pub enum DynamicArgument {
    /// A string literal.
    String(String),
    /// A template literal, part by part.
    Template(Vec<DynamicTemplatePart>),
    /// Any other expression.
    Expr,
}

/// An import or export clause with its specifier.
#[derive(Debug, PartialEq, Eq)]
pub struct StaticDependencyDescriptor {
    pub specifier: String,
    /// Where the specifier is written, quotes included.
    pub specifier_range: SourceRange,
}

/// A dynamic import with its argument.
#[derive(Debug, PartialEq, Eq)]
pub struct DynamicDependencyDescriptor {
    pub argument: DynamicArgument,
    /// Where the argument is written.
    pub argument_range: SourceRange,
}

/// A dependency of a module, static or dynamic.
#[derive(Debug, PartialEq, Eq)]
pub enum DependencyDescriptor {
    Static(StaticDependencyDescriptor),
    Dynamic(DynamicDependencyDescriptor),
}

/// A specifier and where it is written, quotes included.
#[derive(Debug, PartialEq, Eq)]
pub struct SpecifierWithRange {
    pub text: String,
    pub range: SourceRange,
}

/// A triple-slash reference to a path or to types.
#[derive(Debug, PartialEq, Eq)]
pub enum TypeScriptReference {
    Path(SpecifierWithRange),
    Types(SpecifierWithRange),
}

/// Every place of a module where a specifier is written, in source order
/// within each list.
#[derive(Debug, PartialEq, Eq)]
pub struct ModuleInfo {
    pub dependencies: Vec<DependencyDescriptor>,
    pub ts_references: Vec<TypeScriptReference>,
    pub jsdoc_imports: Vec<SpecifierWithRange>,
    pub jsx_import_source: Option<SpecifierWithRange>,
}

/// The characters of each of the strings.
pub open spec fn strs_of(texts: Seq<&str>) -> Seq<Seq<char>> {
    texts.map_values(|text: &str| text@)
}

impl DependencyDescriptor {
    /// The text of the module can be read wherever the pass reads it for
    /// this dependency: at the range of the specifier of an import or export
    /// clause, and at the range of the argument of a dynamic import where the
    /// look at the argument reads it.
    pub open spec fn readable(self, text: Seq<u8>) -> bool {
        match self {
            DependencyDescriptor::Static(dep) => dep.specifier_range.within(text.len() as int),
            DependencyDescriptor::Dynamic(dep) => reads_range(dep) ==> dep.argument_range.within(
                text.len() as int,
            ),
        }
    }

    /// Where the pass may write for this dependency: over the specifier of
    /// an import or export clause without its quotes, and over the specifier
    /// of a dynamic import where it was found in the argument. A dynamic
    /// import that is settled by the look at its argument has no such place.
    pub open spec fn site(self, text: Seq<u8>) -> Option<SourceRange> {
        match self {
            DependencyDescriptor::Static(dep) => Some(quote_trimmed(text, dep.specifier_range)),
            DependencyDescriptor::Dynamic(dep) => match examined(text, dep) {
                Found::Candidate { span: Some(span), .. } => Some(span),
                _ => None,
            },
        }
    }

    /// Whether the text can be read wherever the pass reads it for this
    /// dependency.
    pub fn is_readable(&self, text: &str) -> (readable: bool)
        ensures
            readable == self.readable(bytes_of(text@)),
    {
        match self {
            DependencyDescriptor::Static(dep) => lies_within(&dep.specifier_range, text),
            DependencyDescriptor::Dynamic(dep) => !reads_the_range(dep) || lies_within(
                &dep.argument_range,
                text,
            ),
        }
    }

    /// Where the pass may write for this dependency.
    pub fn site_in(&self, text: &str) -> (site: Option<SourceRange>)
        requires
            self.readable(bytes_of(text@)),
        ensures
            site == self.site(bytes_of(text@)),
    {
        match self {
            DependencyDescriptor::Static(dep) => Some(
                trim_quotes(text.as_bytes(), &dep.specifier_range),
            ),
            DependencyDescriptor::Dynamic(dep) => match examine_dynamic_dep(text, dep) {
                Finding::Candidate { span: Some(span), .. } => Some(span),
                _ => None,
            },
        }
    }

    /// The specifier that the dependency is written with and that may be
    /// rewritten: that of an import or export clause, the string handed to a
    /// dynamic import, or the text that a template handed to one begins
    /// with.
    pub open spec fn written_specifier(self) -> Option<Seq<char>> {
        match self {
            DependencyDescriptor::Static(dep) => Some(dep.specifier@),
            DependencyDescriptor::Dynamic(dep) => match dep.argument {
                DynamicArgument::String(specifier) => Some(specifier@),
                DynamicArgument::Template(parts) => if parts@.len() > 0 {
                    match parts@[0] {
                        DynamicTemplatePart::String { value } => Some(value@),
                        DynamicTemplatePart::Expr => None,
                    }
                } else {
                    None
                },
                DynamicArgument::Expr => None,
            },
        }
    }

    /// The specifier that the dependency is written with, where it is
    /// written with one.
    pub fn specifier_text(&self) -> (text: Option<&str>)
        ensures
            match text {
                Some(text) => self.written_specifier() == Some(text@),
                None => self.written_specifier() is None,
            },
    {
        match self {
            DependencyDescriptor::Static(dep) => Some(dep.specifier.as_str()),
            DependencyDescriptor::Dynamic(dep) => match &dep.argument {
                DynamicArgument::String(specifier) => Some(specifier.as_str()),
                DynamicArgument::Template(parts) => {
                    if parts.len() > 0 {
                        match &parts[0] {
                            DynamicTemplatePart::String { value } => Some(value.as_str()),
                            DynamicTemplatePart::Expr => None,
                        }
                    } else {
                        None
                    }
                },
                DynamicArgument::Expr => None,
            },
        }
    }
}

impl TypeScriptReference {
    /// The specifier that the reference names.
    pub open spec fn target(self) -> SpecifierWithRange {
        match self {
            TypeScriptReference::Path(target) => target,
            TypeScriptReference::Types(target) => target,
        }
    }

    /// The specifier that the reference names.
    pub fn specifier(&self) -> (target: &SpecifierWithRange)
        ensures
            *target == self.target(),
    {
        match self {
            TypeScriptReference::Path(target) => target,
            TypeScriptReference::Types(target) => target,
        }
    }
}

/// Whether the range does not run backwards and lies in the text.
pub fn lies_within(range: &SourceRange, text: &str) -> (within: bool)
    ensures
        within == range.within(bytes_of(text@).len() as int),
{
    range.start <= range.end && range.end <= byte_len(text)
}

impl SpecifierWithRange {
    /// Where the pass may write for this specifier: over it, without its
    /// quotes.
    pub open spec fn site(self, text: Seq<u8>) -> Option<SourceRange> {
        Some(quote_trimmed(text, self.range))
    }
}

/// The place of the optional last occurrence.
pub open spec fn optional_site(text: Seq<u8>, target: Option<SpecifierWithRange>) -> Seq<
    Option<SourceRange>,
> {
    match target {
        Some(target) => seq![target.site(text)],
        None => Seq::<Option<SourceRange>>::empty(),
    }
}

impl ModuleInfo {
    /// The text can be read wherever a pass over the module reads it.
    pub open spec fn readable(self, text: Seq<u8>) -> bool {
        &&& forall|k: int|
            0 <= k < self.dependencies@.len() ==> (#[trigger] self.dependencies@[k]).readable(text)
        &&& forall|k: int|
            0 <= k < self.ts_references@.len() ==> (
            #[trigger] self.ts_references@[k]).target().range.within(text.len() as int)
        &&& forall|k: int|
            0 <= k < self.jsdoc_imports@.len() ==> (#[trigger] self.jsdoc_imports@[k]).range.within(
                text.len() as int,
            )
        &&& self.jsx_import_source matches Some(source) ==> source.range.within(text.len() as int)
    }

    /// Where a pass over the module may write, for each occurrence in the
    /// order in which they are worked through: dependencies, references,
    /// documentation imports, and the JSX import source.
    pub open spec fn sites(self, text: Seq<u8>) -> Seq<Option<SourceRange>> {
        self.dependencies@.map_values(|dep: DependencyDescriptor| dep.site(text))
            + self.ts_references@.map_values(
            |reference: TypeScriptReference| reference.target().site(text),
        ) + self.jsdoc_imports@.map_values(|import: SpecifierWithRange| import.site(text))
            + optional_site(text, self.jsx_import_source)
    }

    /// The specifiers that the module is written with, in the order of the
    /// occurrences: all that a pass over the module asks the resolvers about.
    pub open spec fn specifier_texts(self) -> Seq<Seq<char>> {
        present(
            self.dependencies@.map_values(|dep: DependencyDescriptor| dep.written_specifier()),
        ) + self.ts_references@.map_values(|reference: TypeScriptReference| reference.target().text@)
            + self.jsdoc_imports@.map_values(|import: SpecifierWithRange| import.text@)
            + match self.jsx_import_source {
            Some(source) => seq![source.text@],
            None => Seq::<Seq<char>>::empty(),
        }
    }

    /// The specifiers that the module is written with, as `specifier_texts`
    /// lists them.
    pub fn written_specifiers(&self) -> (specifiers: Vec<&str>)
        ensures
            strs_of(specifiers@) == self.specifier_texts(),
    {
        let mut specifiers: Vec<&str> = Vec::new();
        let ghost slots = self.dependencies@.map_values(
            |dep: DependencyDescriptor| dep.written_specifier(),
        );
        let ghost refs = self.ts_references@.map_values(
            |reference: TypeScriptReference| reference.target().text@,
        );
        let ghost docs = self.jsdoc_imports@.map_values(|import: SpecifierWithRange| import.text@);
        let mut i: usize = 0;
        proof {
            assert(slots.take(0) =~= Seq::<Option<Seq<char>>>::empty());
            assert(strs_of(specifiers@) =~= Seq::<Seq<char>>::empty());
        }
        while i < self.dependencies.len()
            invariant
                i <= self.dependencies.len(),
                slots == self.dependencies@.map_values(
                    |dep: DependencyDescriptor| dep.written_specifier(),
                ),
                strs_of(specifiers@) == present(slots.take(i as int)),
            decreases self.dependencies.len() - i,
        {
            let ghost before = strs_of(specifiers@);
            proof {
                assert(slots.take(i + 1).drop_last() =~= slots.take(i as int));
                assert(slots.take(i + 1).last() == self.dependencies@[i as int].written_specifier());
                assert(before + Seq::<Seq<char>>::empty() =~= before);
            }
            match self.dependencies[i].specifier_text() {
                Some(text) => {
                    specifiers.push(text);
                    proof {
                        assert(strs_of(specifiers@) =~= before + seq![text@]);
                    }
                },
                None => {},
            }
            i += 1;
        }
        proof {
            assert(slots.take(slots.len() as int) =~= slots);
            assert(refs.take(0) =~= Seq::<Seq<char>>::empty());
            assert(present(slots) + refs.take(0) =~= present(slots));
        }
        let mut j: usize = 0;
        while j < self.ts_references.len()
            invariant
                j <= self.ts_references.len(),
                refs == self.ts_references@.map_values(
                    |reference: TypeScriptReference| reference.target().text@,
                ),
                strs_of(specifiers@) == present(slots) + refs.take(j as int),
            decreases self.ts_references.len() - j,
        {
            let ghost before = strs_of(specifiers@);
            let text = self.ts_references[j].specifier().text.as_str();
            specifiers.push(text);
            proof {
                assert(refs[j as int] == text@);
                assert(refs.take(j + 1) =~= refs.take(j as int).push(refs[j as int]));
                assert(strs_of(specifiers@) =~= before.push(text@));
                assert(strs_of(specifiers@) =~= present(slots) + refs.take(j + 1));
            }
            j += 1;
        }
        proof {
            assert(refs.take(refs.len() as int) =~= refs);
            assert(docs.take(0) =~= Seq::<Seq<char>>::empty());
            assert(present(slots) + refs + docs.take(0) =~= present(slots) + refs);
        }
        let mut k: usize = 0;
        while k < self.jsdoc_imports.len()
            invariant
                k <= self.jsdoc_imports.len(),
                docs == self.jsdoc_imports@.map_values(|import: SpecifierWithRange| import.text@),
                strs_of(specifiers@) == present(slots) + refs + docs.take(k as int),
            decreases self.jsdoc_imports.len() - k,
        {
            let ghost before = strs_of(specifiers@);
            let text = self.jsdoc_imports[k].text.as_str();
            specifiers.push(text);
            proof {
                assert(docs[k as int] == text@);
                assert(docs.take(k + 1) =~= docs.take(k as int).push(docs[k as int]));
                assert(strs_of(specifiers@) =~= before.push(text@));
                assert(strs_of(specifiers@) =~= present(slots) + refs + docs.take(k + 1));
            }
            k += 1;
        }
        proof {
            assert(docs.take(docs.len() as int) =~= docs);
        }
        let ghost before = strs_of(specifiers@);
        match &self.jsx_import_source {
            Some(source) => {
                specifiers.push(source.text.as_str());
                proof {
                    assert(strs_of(specifiers@) =~= before.push(source.text@));
                }
            },
            None => {},
        }
        proof {
            assert(strs_of(specifiers@) =~= self.specifier_texts());
        }
        specifiers
    }

    /// Where a pass over the module may write, as `sites` lists it; nothing
    /// where the text cannot be read wherever the pass reads it.
    pub fn sites_in(&self, text: &str) -> (found: Option<Vec<Option<SourceRange>>>)
        ensures
            match found {
                Some(sites) => self.readable(bytes_of(text@)) && sites@ == self.sites(
                    bytes_of(text@),
                ),
                None => !self.readable(bytes_of(text@)),
            },
    {
        let ghost bytes = bytes_of(text@);
        let mut sites: Vec<Option<SourceRange>> = Vec::new();
        let ghost deps = self.dependencies@.map_values(|dep: DependencyDescriptor| dep.site(bytes));
        let ghost refs = self.ts_references@.map_values(
            |reference: TypeScriptReference| reference.target().site(bytes),
        );
        let ghost docs = self.jsdoc_imports@.map_values(
            |import: SpecifierWithRange| import.site(bytes),
        );
        let mut i: usize = 0;
        while i < self.dependencies.len()
            invariant
                i <= self.dependencies.len(),
                bytes == bytes_of(text@),
                deps == self.dependencies@.map_values(|dep: DependencyDescriptor| dep.site(bytes)),
                sites@ == deps.take(i as int),
                forall|k: int| 0 <= k < i ==> (#[trigger] self.dependencies@[k]).readable(bytes),
            decreases self.dependencies.len() - i,
        {
            if !self.dependencies[i].is_readable(text) {
                return None;
            }
            let site = self.dependencies[i].site_in(text);
            sites.push(site);
            proof {
                assert(deps.take(i + 1) =~= deps.take(i as int).push(deps[i as int]));
            }
            i += 1;
        }
        proof {
            assert(deps.take(deps.len() as int) =~= deps);
        }
        let mut j: usize = 0;
        while j < self.ts_references.len()
            invariant
                j <= self.ts_references.len(),
                bytes == bytes_of(text@),
                refs == self.ts_references@.map_values(
                    |reference: TypeScriptReference| reference.target().site(bytes),
                ),
                sites@ == deps + refs.take(j as int),
                forall|k: int|
                    0 <= k < j ==> (#[trigger] self.ts_references@[k]).target().range.within(
                        bytes.len() as int,
                    ),
            decreases self.ts_references.len() - j,
        {
            let target = self.ts_references[j].specifier();
            if !lies_within(&target.range, text) {
                return None;
            }
            sites.push(Some(trim_quotes(text.as_bytes(), &target.range)));
            proof {
                assert(refs.take(j + 1) =~= refs.take(j as int).push(refs[j as int]));
            }
            j += 1;
        }
        proof {
            assert(refs.take(refs.len() as int) =~= refs);
        }
        let mut k: usize = 0;
        while k < self.jsdoc_imports.len()
            invariant
                k <= self.jsdoc_imports.len(),
                bytes == bytes_of(text@),
                docs == self.jsdoc_imports@.map_values(
                    |import: SpecifierWithRange| import.site(bytes),
                ),
                sites@ == deps + refs + docs.take(k as int),
                forall|n: int|
                    0 <= n < k ==> (#[trigger] self.jsdoc_imports@[n]).range.within(
                        bytes.len() as int,
                    ),
            decreases self.jsdoc_imports.len() - k,
        {
            let target = &self.jsdoc_imports[k];
            if !lies_within(&target.range, text) {
                return None;
            }
            sites.push(Some(trim_quotes(text.as_bytes(), &target.range)));
            proof {
                assert(docs.take(k + 1) =~= docs.take(k as int).push(docs[k as int]));
            }
            k += 1;
        }
        proof {
            assert(docs.take(docs.len() as int) =~= docs);
        }
        match &self.jsx_import_source {
            Some(target) => {
                if !lies_within(&target.range, text) {
                    return None;
                }
                sites.push(Some(trim_quotes(text.as_bytes(), &target.range)));
            },
            None => {},
        }
        proof {
            assert(sites@ =~= self.sites(bytes));
        }
        Some(sites)
    }
}

/// A double or single quote.
pub open spec fn is_quote(byte: u8) -> bool {
    byte == 0x22 || byte == 0x27
}

/// The range without the quotes around its text: where the text begins with
/// a quote, the range begins one byte later, and where it also ends with the
/// same quote, at least two bytes long, the range ends one byte earlier. Any
/// other range stays as it is.
pub open spec fn quote_trimmed(text: Seq<u8>, range: SourceRange) -> SourceRange {
    if range.start < range.end <= text.len() && is_quote(text[range.start as int]) {
        SourceRange {
            start: (range.start + 1) as usize,
            end: if range.end - range.start >= 2 && text[range.end - 1] == text[range.start as int] {
                (range.end - 1) as usize
            } else {
                range.end
            },
        }
    } else {
        range
    }
}

/// Takes the quotes off the two ends of a range of `text`.
pub fn trim_quotes(text: &[u8], range: &SourceRange) -> (trimmed: SourceRange)
    requires
        range.within(text@.len() as int),
    ensures
        trimmed == quote_trimmed(text@, *range),
        range.encloses(trimmed),
        trimmed.within(text@.len() as int),
{
    if range.start < range.end {
        let first: u8 = text[range.start];
        if first == 0x22 || first == 0x27 {
            let end: usize = if range.end - range.start >= 2 && text[range.end - 1] == first {
                range.end - 1
            } else {
                range.end
            };
            return SourceRange { start: range.start + 1, end };
        }
    }
    *range
}

/// The pass can write at the sites: each lies in the text and ends on
/// character boundaries, and no two overlap.
pub open spec fn sites_fit(text: Seq<u8>, sites: Seq<Option<SourceRange>>) -> bool {
    &&& forall|i: int|
        0 <= i < sites.len() ==> ((#[trigger] sites[i]) matches Some(site) ==> site.fits(text))
    &&& forall|i: int, j: int|
        0 <= i < j < sites.len() ==> ((#[trigger] sites[i]) matches Some(first) ==> ((
        #[trigger] sites[j]) matches Some(second) ==> first.disjoint(second)))
}

/// A pass over the module can read the text where it reads it and write
/// where it may write.
pub open spec fn module_fits(text: Seq<u8>, info: ModuleInfo) -> bool {
    info.readable(text) && sites_fit(text, info.sites(text))
}

/// Whether the site lies in the text and ends on character boundaries.
fn site_fits(text: &str, site: &SourceRange) -> (fits: bool)
    ensures
        fits == site.fits(bytes_of(text@)),
{
    lies_within(site, text) && text.is_char_boundary(site.start) && text.is_char_boundary(site.end)
}

/// Whether the site is clear of all that follow it in the list.
fn clear_of_rest(sites: &Vec<Option<SourceRange>>, at: usize, site: &SourceRange) -> (clear: bool)
    requires
        at < sites.len(),
        sites@[at as int] == Some(*site),
    ensures
        clear == forall|j: int|
            at < j < sites.len() ==> ((#[trigger] sites@[j]) matches Some(other) ==> site.disjoint(
                other,
            )),
{
    let mut j: usize = at + 1;
    while j < sites.len()
        invariant
            at < j <= sites.len(),
            forall|k: int|
                at < k < j ==> ((#[trigger] sites@[k]) matches Some(other) ==> site.disjoint(other)),
        decreases sites.len() - j,
    {
        match &sites[j] {
            Some(other) => {
                if !(site.end <= other.start || other.end <= site.start) {
                    return false;
                }
            },
            None => {},
        }
        j += 1;
    }
    true
}

/// Whether the pass can write at the sites.
pub fn check_sites(text: &str, sites: &Vec<Option<SourceRange>>) -> (fit: bool)
    ensures
        fit == sites_fit(bytes_of(text@), sites@),
{
    let mut i: usize = 0;
    while i < sites.len()
        invariant
            i <= sites.len(),
            forall|k: int|
                0 <= k < i ==> ((#[trigger] sites@[k]) matches Some(site) ==> site.fits(
                    bytes_of(text@),
                )),
            forall|k: int, j: int|
                0 <= k < i && k < j < sites.len() ==> ((#[trigger] sites@[k]) matches Some(first)
                    ==> ((#[trigger] sites@[j]) matches Some(second) ==> first.disjoint(second))),
        decreases sites.len() - i,
    {
        match &sites[i] {
            Some(site) => {
                if !site_fits(text, site) {
                    return false;
                }
                if !clear_of_rest(sites, i, site) {
                    return false;
                }
            },
            None => {},
        }
        i += 1;
    }
    true
}

/// The text of a module together with the places where it names other
/// modules. A value only exists where a pass over the module can read the
/// text where it reads it and write where it may write.
#[derive(Debug)]
pub struct ParsedSource {
    text: String,
    module_info: ModuleInfo,
}

impl ParsedSource {
    /// The text of the module.
    pub closed spec fn source_text(&self) -> Seq<char> {
        self.text@
    }

    /// The occurrences of specifiers in the module.
    pub closed spec fn info(&self) -> ModuleInfo {
        self.module_info
    }

    /// A pass over the module can read and write where it has to.
    #[verifier::type_invariant]
    pub closed spec fn well_formed(&self) -> bool {
        module_fits(bytes_of(self.text@), self.module_info)
    }

    /// What `well_formed` says, for those who cannot see its body.
    pub proof fn lemma_well_formed(&self)
        ensures
            self.well_formed() == module_fits(bytes_of(self.source_text()), self.info()),
    {
    }

    /// Puts a text and its occurrences together, where a pass over them can
    /// read and write where it has to.
    pub fn new(text: String, module_info: ModuleInfo) -> (parsed: Option<ParsedSource>)
        ensures
            parsed is Some == module_fits(bytes_of(text@), module_info),
            parsed matches Some(source) ==> source.source_text() == text@ && source.info()
                == module_info && source.well_formed(),
    {
        let fit = match module_info.sites_in(text.as_str()) {
            Some(sites) => check_sites(text.as_str(), &sites),
            None => false,
        };
        if fit {
            Some(ParsedSource { text, module_info })
        } else {
            None
        }
    }

    /// The text of the module.
    pub fn text_str(&self) -> (text: &str)
        ensures
            text@ == self.source_text(),
    {
        self.text.as_str()
    }

    /// The occurrences of specifiers in the module.
    pub fn module_info(&self) -> (info: &ModuleInfo)
        ensures
            *info == self.info(),
    {
        &self.module_info
    }
}

} // verus!
