//! Rewrites the specifiers of one module so that the module can be loaded
//! from where it is published: mapped and bare specifiers become the
//! references they stand for, local ones become relative paths.

use crate::dynamic::{
    conclude_dynamic_dep, concluded, edit_for, edit_of, examine_dynamic_dep, examined,
    explicit_relative, is_explicit_relative, reads_range, Finding, Found, Verdict,
};
use crate::resolver::{
    is_builtin_node_module, mapped_resolution, node_builtin, sloppy_resolution, MappedResolution,
    MappedSpecifierResolver, SloppyImportsResolver, SloppyResolution,
};
use crate::slots::{
    lemma_origin, lemma_origin_increases, lemma_present_concat, lemma_present_none,
    lemma_present_one, lemma_rank, origin, present, rank,
};
use crate::source::{
    module_fits, quote_trimmed, trim_quotes, DependencyDescriptor, DynamicDependencyDescriptor,
    ModuleInfo, ParsedSource, SpecifierWithRange, TypeScriptReference,
};
use crate::specifier::{str_eq, text_of, url_join, url_relative, url_scheme, ModuleSpecifier};
use crate::text::bytes_of;
use crate::text_changes::{
    all_fit, apply_edits, apply_text_changes, edits_of, lemma_length_delta, lemma_no_edits,
    lemma_sort_edits, lemma_sorted_edits_applicable, pairwise_disjoint, sort_edits, total_growth,
    Edit, SourceRange, TextChange,
};
use vstd::prelude::*;
use vstd::string::*;

verus! {

/// How a local file is written: as the relative path to it, behind `./` where
/// the path does not begin with `./` or `../` itself; in full where no
/// relative path leads to it.
pub open spec fn local_literal(relative: Option<Seq<char>>, resolved: Seq<char>) -> Seq<char> {
    match relative {
        Some(path) => if explicit_relative(path) {
            path
        } else {
            "./"@ + path
        },
        None => resolved,
    }
}

/// How a resolved reference is written in the module `referrer`: a local file
/// as a path relative to the referrer, any other reference in full.
pub open spec fn relative_literal(resolved: Seq<char>, referrer: Seq<char>) -> Seq<char> {
    if url_scheme(resolved) == Some("file"@) {
        local_literal(url_relative(referrer, resolved), resolved)
    } else {
        resolved
    }
}

/// What is written in place of `specifier` where it stands for what is
/// written as `literal`: nothing where the two are the same.
pub open spec fn changed_from(literal: Seq<char>, specifier: Seq<char>) -> Option<Seq<char>> {
    if literal == specifier {
        None
    } else {
        Some(literal)
    }
}

/// Whether `scheme` is that of local files.
pub fn is_file_scheme(scheme: &Option<String>) -> (local: bool)
    ensures
        local == (text_of(*scheme) == Some("file"@)),
{
    match scheme {
        Some(scheme) => str_eq(scheme.as_str(), "file"),
        None => false,
    }
}

/// Writes the local file `resolved` by the relative path to it, where there
/// is one.
pub fn write_local(relative: Option<String>, resolved: &str) -> (literal: String)
    ensures
        literal@ == local_literal(text_of(relative), resolved@),
{
    match relative {
        Some(path) => {
            if is_explicit_relative(path.as_str()) {
                path
            } else {
                String::from_str("./").concat(path.as_str())
            }
        },
        None => resolved.to_owned(),
    }
}

/// Writes `resolved` as it is to stand in the module `referrer`.
pub fn relative_url(resolved: &ModuleSpecifier, referrer: &ModuleSpecifier) -> (literal: String)
    ensures
        literal@ == relative_literal(resolved@, referrer@),
{
    if is_file_scheme(&resolved.scheme()) {
        write_local(referrer.make_relative(resolved), resolved.as_str())
    } else {
        resolved.as_str().to_owned()
    }
}

/// Keeps `literal` where it differs from the `specifier` in whose place it is
/// to be written.
pub fn unless_same(literal: String, specifier: &str) -> (kept: Option<String>)
    ensures
        text_of(kept) == changed_from(literal@, specifier@),
{
    if str_eq(literal.as_str(), specifier) {
        None
    } else {
        Some(literal)
    }
}

/// The reference to the Node built-in module `name`.
pub fn node_specifier(name: &str) -> (reference: ModuleSpecifier)
    ensures
        reference@ == "node:"@ + name@,
{
    ModuleSpecifier::from_text(String::from_str("node:").concat(name))
}

/// The text of a possibly absent reference.
pub open spec fn reference_of(reference: Option<ModuleSpecifier>) -> Option<Seq<char>> {
    match reference {
        Some(reference) => Some(reference@),
        None => None,
    }
}

/// The first of the answers that is one: what the mapped resolver says; else,
/// where `specifier` counts as the name of a built-in module, that name
/// behind `node:`; else what `specifier` reads as against the referrer.
pub open spec fn first_of(
    mapped: Option<Seq<char>>,
    builtin: bool,
    specifier: Seq<char>,
    joined: Option<Seq<char>>,
) -> Option<Seq<char>> {
    match mapped {
        Some(reference) => Some(reference),
        None => if builtin {
            Some("node:"@ + specifier)
        } else {
            joined
        },
    }
}

/// Chooses the first resolution of `specifier` among the answers at hand:
/// `mapped` from the mapped resolver, `builtin` for a name that is to be
/// read as a Node built-in module, `joined` for the specifier read against
/// the referrer.
pub fn first_resolution_of(
    mapped: Option<ModuleSpecifier>,
    builtin: bool,
    specifier: &str,
    joined: Option<ModuleSpecifier>,
) -> (first: Option<ModuleSpecifier>)
    ensures
        reference_of(first) == first_of(
            reference_of(mapped),
            builtin,
            specifier@,
            reference_of(joined),
        ),
{
    match mapped {
        Some(reference) => Some(reference),
        None => {
            if builtin {
                Some(node_specifier(specifier))
            } else {
                joined
            }
        },
    }
}

/// Rewrites the specifiers of modules by what its resolvers say.
pub struct SpecifierUnfurler<'a> {
    mapped_resolver: &'a MappedSpecifierResolver,
    sloppy_imports_resolver: Option<&'a SloppyImportsResolver>,
    bare_node_builtins: bool,
}

impl<'a> SpecifierUnfurler<'a> {
    /// The answers of the mapped resolver.
    pub closed spec fn mapped(&self) -> Seq<MappedResolution> {
        self.mapped_resolver@
    }

    /// The answers of the resolver that guesses extensions and index files,
    /// where there is one.
    pub closed spec fn sloppy(&self) -> Option<Seq<SloppyResolution>> {
        match self.sloppy_imports_resolver {
            Some(resolver) => Some(resolver@),
            None => None,
        }
    }

    /// Whether a bare name of a Node built-in module is read as that module.
    pub closed spec fn node_builtins(&self) -> bool {
        self.bare_node_builtins
    }

    /// An unfurler that asks `mapped_resolver` first, adjusts what it finds
    /// by `sloppy_imports_resolver` where there is one, and reads bare names
    /// of Node built-in modules as those modules where `bare_node_builtins`
    /// is set.
    pub fn new(
        mapped_resolver: &'a MappedSpecifierResolver,
        sloppy_imports_resolver: Option<&'a SloppyImportsResolver>,
        bare_node_builtins: bool,
    ) -> (unfurler: Self)
        ensures
            unfurler.mapped() == mapped_resolver@,
            unfurler.sloppy() == match sloppy_imports_resolver {
                Some(resolver) => Some(resolver@),
                None => None,
            },
            unfurler.node_builtins() == bare_node_builtins,
    {
        Self { mapped_resolver, sloppy_imports_resolver, bare_node_builtins }
    }

    /// The reference that `specifier` stands for before any guessing of
    /// extensions: `first_of` what the mapped resolver says, whether
    /// built-in names are enabled and `specifier` is one, and `specifier`
    /// read as a URL relative to the referrer.
    pub open spec fn first_resolution(&self, referrer: Seq<char>, specifier: Seq<char>) -> Option<
        Seq<char>,
    > {
        first_of(
            mapped_resolution(self.mapped(), specifier, referrer),
            self.node_builtins() && node_builtin(specifier),
            specifier,
            url_join(referrer, specifier),
        )
    }

    /// The reference that `specifier`, written in `referrer`, stands for:
    /// its first resolution, adjusted by the second resolver where there is
    /// one.
    pub open spec fn resolution(&self, referrer: Seq<char>, specifier: Seq<char>) -> Option<
        Seq<char>,
    > {
        match self.first_resolution(referrer, specifier) {
            Some(reference) => Some(
                match self.sloppy() {
                    Some(entries) => sloppy_resolution(entries, reference),
                    None => reference,
                },
            ),
            None => None,
        }
    }

    /// What is to be written in place of `specifier` in the module
    /// `referrer`: nothing where the specifier does not resolve or is already
    /// written as it should be.
    pub open spec fn unfurled(&self, referrer: Seq<char>, specifier: Seq<char>) -> Option<
        Seq<char>,
    > {
        match self.resolution(referrer, specifier) {
            Some(reference) => changed_from(relative_literal(reference, referrer), specifier),
            None => None,
        }
    }

    /// Resolves `specifier` as written in `referrer` through the chain of
    /// resolvers.
    pub fn resolve(&self, referrer: &ModuleSpecifier, specifier: &str) -> (resolved: Option<
        ModuleSpecifier,
    >)
        ensures
            match resolved {
                Some(reference) => self.resolution(referrer@, specifier@) == Some(reference@),
                None => self.resolution(referrer@, specifier@) is None,
            },
    {
        let mapped = self.mapped_resolver.resolve(specifier, referrer);
        let builtin: bool = mapped.is_none() && self.bare_node_builtins && is_builtin_node_module(
            specifier,
        );
        let joined = if mapped.is_none() && !builtin {
            referrer.join(specifier)
        } else {
            None
        };
        match first_resolution_of(mapped, builtin, specifier, joined) {
            Some(reference) => match self.sloppy_imports_resolver {
                Some(resolver) => Some(resolver.resolve(&reference)),
                None => Some(reference),
            },
            None => None,
        }
    }

    /// What is to be written in place of `specifier` in the module
    /// `referrer`, if anything.
    pub fn unfurl_specifier(&self, referrer: &ModuleSpecifier, specifier: &str) -> (unfurled:
        Option<String>)
        ensures
            text_of(unfurled) == self.unfurled(referrer@, specifier@),
    {
        match self.resolve(referrer, specifier) {
            Some(resolved) => unless_same(relative_url(&resolved, referrer), specifier),
            None => None,
        }
    }
}

/// Takes the quotes off a range of the module's text.
pub fn to_range(parsed_source: &ParsedSource, range: &SourceRange) -> (trimmed: SourceRange)
    requires
        range.within(bytes_of(parsed_source.source_text()).len() as int),
    ensures
        trimmed == quote_trimmed(bytes_of(parsed_source.source_text()), *range),
{
    trim_quotes(parsed_source.text_str().as_bytes(), range)
}

impl<'a> SpecifierUnfurler<'a> {
    /// The edit that puts what `specifier` unfurls to in place of `range`,
    /// where it unfurls to anything.
    pub open spec fn replacement(
        &self,
        referrer: Seq<char>,
        specifier: Seq<char>,
        range: SourceRange,
    ) -> Option<Edit> {
        edit_of(self.unfurled(referrer, specifier), range)
    }

    /// The edit for a specifier written as a quoted literal at `target`.
    pub open spec fn target_edit(
        &self,
        referrer: Seq<char>,
        text: Seq<u8>,
        target: SpecifierWithRange,
    ) -> Option<Edit> {
        self.replacement(referrer, target.text@, quote_trimmed(text, target.range))
    }

    /// What is decided of the dynamic import `dep`: what `concluded` makes of
    /// the look at its argument and of what its specifier unfurls to.
    pub open spec fn classify(
        &self,
        referrer: Seq<char>,
        text: Seq<u8>,
        dep: DynamicDependencyDescriptor,
    ) -> Verdict {
        let found = examined(text, dep);
        concluded(
            found,
            match found {
                Found::Candidate { specifier, .. } => self.unfurled(referrer, specifier),
                Found::Settled { .. } => None,
            },
        )
    }

    /// The edit for one dependency, if any.
    pub open spec fn dependency_edit(
        &self,
        referrer: Seq<char>,
        text: Seq<u8>,
        dep: DependencyDescriptor,
    ) -> Option<Edit> {
        match dep {
            DependencyDescriptor::Static(dep) => self.replacement(
                referrer,
                dep.specifier@,
                quote_trimmed(text, dep.specifier_range),
            ),
            DependencyDescriptor::Dynamic(dep) => self.classify(referrer, text, dep).edit,
        }
    }

    /// The range to report for one dependency: that of the argument of a
    /// dynamic import that could not be analyzed.
    pub open spec fn unanalyzable(
        &self,
        referrer: Seq<char>,
        text: Seq<u8>,
        dep: DependencyDescriptor,
    ) -> Option<SourceRange> {
        match dep {
            DependencyDescriptor::Static(_) => None,
            DependencyDescriptor::Dynamic(dep) => if self.classify(referrer, text, dep).analyzable {
                None
            } else {
                Some(dep.argument_range)
            },
        }
    }

    /// Unfurls a specifier written as a quoted literal at `range` and, where
    /// it is to be rewritten, adds the edit to `text_changes`.
    pub fn analyze_specifier(
        &self,
        url: &ModuleSpecifier,
        parsed_source: &ParsedSource,
        specifier: &str,
        range: &SourceRange,
        text_changes: &mut Vec<TextChange>,
    )
        requires
            range.within(bytes_of(parsed_source.source_text()).len() as int),
        ensures
            edits_of(final(text_changes)@) == edits_of(old(text_changes)@) + present(
                seq![
                    self.replacement(
                        url@,
                        specifier@,
                        quote_trimmed(bytes_of(parsed_source.source_text()), *range),
                    ),
                ],
            ),
    {
        let ghost before = edits_of(text_changes@);
        let ghost slot = self.replacement(
            url@,
            specifier@,
            quote_trimmed(bytes_of(parsed_source.source_text()), *range),
        );
        proof {
            lemma_present_one(slot);
            assert(before + Seq::<Edit>::empty() =~= before);
        }
        let unfurled = self.unfurl_specifier(url, specifier);
        match edit_for(unfurled, to_range(parsed_source, range)) {
            Some(change) => {
                text_changes.push(change);
                proof {
                    assert(edits_of(text_changes@) =~= before + seq![slot.unwrap()]);
                }
            },
            None => {},
        }
    }

    /// Attempts to unfurl the dynamic dependency, returning `true` on success
    /// or `false` when the import was not analyzable.
    pub fn try_unfurl_dynamic_dep(
        &self,
        module_url: &ModuleSpecifier,
        parsed_source: &ParsedSource,
        dep: &DynamicDependencyDescriptor,
        text_changes: &mut Vec<TextChange>,
    ) -> (analyzable: bool)
        requires
            reads_range(*dep) ==> dep.argument_range.within(
                bytes_of(parsed_source.source_text()).len() as int,
            ),
        ensures
            analyzable == self.classify(
                module_url@,
                bytes_of(parsed_source.source_text()),
                *dep,
            ).analyzable,
            edits_of(final(text_changes)@) == edits_of(old(text_changes)@) + present(
                seq![
                    self.classify(module_url@, bytes_of(parsed_source.source_text()), *dep).edit,
                ],
            ),
    {
        let ghost before = edits_of(text_changes@);
        let ghost verdict = self.classify(
            module_url@,
            bytes_of(parsed_source.source_text()),
            *dep,
        );
        proof {
            lemma_present_one(verdict.edit);
            assert(before + Seq::<Edit>::empty() =~= before);
        }
        let finding = examine_dynamic_dep(parsed_source.text_str(), dep);
        let unfurled = match &finding {
            Finding::Candidate { specifier, .. } => self.unfurl_specifier(module_url, specifier),
            Finding::Settled { .. } => None,
        };
        let (change, analyzable) = conclude_dynamic_dep(&finding, unfurled);
        match change {
            Some(change) => {
                text_changes.push(change);
                proof {
                    assert(edits_of(text_changes@) =~= before + seq![verdict.edit.unwrap()]);
                }
            },
            None => {},
        }
        analyzable
    }
}

/// What a diagnostic says: in the module `referrer`, the dynamic import
/// whose argument is written at `range` could not be analyzed.
pub struct Report {
    pub referrer: Seq<char>,
    pub range: SourceRange,
}

/// A finding on a module that does not stop its rewriting.
#[derive(Debug, PartialEq, Eq)]
pub enum SpecifierUnfurlerDiagnostic {
    /// A dynamic import whose argument could not be analyzed.
    UnanalyzableDynamicImport { specifier: ModuleSpecifier, range: SourceRange },
}

impl View for SpecifierUnfurlerDiagnostic {
    type V = Report;

    open spec fn view(&self) -> Report {
        match self {
            SpecifierUnfurlerDiagnostic::UnanalyzableDynamicImport { specifier, range } => Report {
                referrer: specifier@,
                range: *range,
            },
        }
    }
}

impl Clone for SpecifierUnfurlerDiagnostic {
    fn clone(&self) -> (copy: Self)
        ensures
            copy@ == self@,
    {
        match self {
            SpecifierUnfurlerDiagnostic::UnanalyzableDynamicImport { specifier, range } => {
                SpecifierUnfurlerDiagnostic::UnanalyzableDynamicImport {
                    specifier: specifier.clone(),
                    range: *range,
                }
            },
        }
    }
}

impl SpecifierUnfurlerDiagnostic {
    /// The code by which tools know the kind of diagnostic.
    pub fn code(&self) -> (code: &'static str)
        ensures
            code@ == "unanalyzable-dynamic-import"@,
    {
        match self {
            SpecifierUnfurlerDiagnostic::UnanalyzableDynamicImport { .. } => {
                "unanalyzable-dynamic-import"
            },
        }
    }

    /// What the diagnostic tells the reader.
    pub fn message(&self) -> (message: &'static str)
        ensures
            message@ == "unable to analyze dynamic import"@,
    {
        match self {
            SpecifierUnfurlerDiagnostic::UnanalyzableDynamicImport { .. } => {
                "unable to analyze dynamic import"
            },
        }
    }
}

/// What each of the diagnostics says, in their order.
pub open spec fn reports_of(diagnostics: Seq<SpecifierUnfurlerDiagnostic>) -> Seq<Report> {
    diagnostics.map_values(|diagnostic: SpecifierUnfurlerDiagnostic| diagnostic@)
}

/// One report on the module `referrer` for each of the ranges, in their order.
pub open spec fn reports_for(referrer: Seq<char>, ranges: Seq<SourceRange>) -> Seq<Report> {
    ranges.map_values(|range: SourceRange| Report { referrer, range })
}

impl<'a> SpecifierUnfurler<'a> {
    /// The edit, if any, for each dependency in turn.
    pub open spec fn dependency_slots(
        &self,
        referrer: Seq<char>,
        text: Seq<u8>,
        deps: Seq<DependencyDescriptor>,
    ) -> Seq<Option<Edit>> {
        deps.map_values(|dep: DependencyDescriptor| self.dependency_edit(referrer, text, dep))
    }

    /// The edit, if any, for each reference in turn.
    pub open spec fn reference_slots(
        &self,
        referrer: Seq<char>,
        text: Seq<u8>,
        references: Seq<TypeScriptReference>,
    ) -> Seq<Option<Edit>> {
        references.map_values(
            |reference: TypeScriptReference| self.target_edit(referrer, text, reference.target()),
        )
    }

    /// The edit, if any, for each documentation import in turn.
    pub open spec fn import_slots(
        &self,
        referrer: Seq<char>,
        text: Seq<u8>,
        imports: Seq<SpecifierWithRange>,
    ) -> Seq<Option<Edit>> {
        imports.map_values(|import: SpecifierWithRange| self.target_edit(referrer, text, import))
    }

    /// The edit, if any, for the JSX import source, where the module has one.
    pub open spec fn jsx_slots(
        &self,
        referrer: Seq<char>,
        text: Seq<u8>,
        source: Option<SpecifierWithRange>,
    ) -> Seq<Option<Edit>> {
        match source {
            Some(target) => seq![self.target_edit(referrer, text, target)],
            None => Seq::<Option<Edit>>::empty(),
        }
    }

    /// The edit, if any, for every occurrence of a specifier in the module,
    /// in the order in which the occurrences are worked through.
    pub open spec fn occurrence_edits(
        &self,
        referrer: Seq<char>,
        text: Seq<u8>,
        info: ModuleInfo,
    ) -> Seq<Option<Edit>> {
        self.dependency_slots(referrer, text, info.dependencies@) + self.reference_slots(
            referrer,
            text,
            info.ts_references@,
        ) + self.import_slots(referrer, text, info.jsdoc_imports@) + self.jsx_slots(
            referrer,
            text,
            info.jsx_import_source,
        )
    }

    /// The edits that the pass over the module collects.
    pub open spec fn collected_edits(
        &self,
        referrer: Seq<char>,
        text: Seq<u8>,
        info: ModuleInfo,
    ) -> Seq<Edit> {
        present(self.occurrence_edits(referrer, text, info))
    }

    /// The range to report, if any, for each dependency in turn.
    pub open spec fn report_slots(
        &self,
        referrer: Seq<char>,
        text: Seq<u8>,
        deps: Seq<DependencyDescriptor>,
    ) -> Seq<Option<SourceRange>> {
        deps.map_values(|dep: DependencyDescriptor| self.unanalyzable(referrer, text, dep))
    }

    /// The ranges that the pass over the module reports: those of the
    /// dynamic imports that could not be analyzed, in the order of the
    /// dependencies.
    pub open spec fn reported_ranges(
        &self,
        referrer: Seq<char>,
        text: Seq<u8>,
        info: ModuleInfo,
    ) -> Seq<SourceRange> {
        present(self.report_slots(referrer, text, info.dependencies@))
    }

    /// The text of the module after the pass: the collected edits, sorted,
    /// applied to the text.
    pub open spec fn rewritten_text(
        &self,
        referrer: Seq<char>,
        text: Seq<u8>,
        info: ModuleInfo,
    ) -> Seq<u8> {
        apply_edits(text, sort_edits(self.collected_edits(referrer, text, info)))
    }

    /// The edit for an occurrence is written at the site of the occurrence.
    pub proof fn lemma_occurrence_edits_at_sites(
        &self,
        referrer: Seq<char>,
        text: Seq<u8>,
        info: ModuleInfo,
    )
        ensures
            self.occurrence_edits(referrer, text, info).len() == info.sites(text).len(),
            forall|k: int|
                0 <= k < info.sites(text).len() ==> (#[trigger] self.occurrence_edits(
                    referrer,
                    text,
                    info,
                )[k] matches Some(edit) ==> info.sites(text)[k] == Some(edit.range)),
    {
        let sites = info.sites(text);
        let slots = self.occurrence_edits(referrer, text, info);
        let deps = info.dependencies@;
        let references = info.ts_references@;
        let imports = info.jsdoc_imports@;
        assert forall|k: int| 0 <= k < sites.len() implies (#[trigger] slots[k] matches Some(edit)
            ==> sites[k] == Some(edit.range)) by {
            if k < deps.len() {
                assert(sites[k] == deps[k].site(text));
                assert(slots[k] == self.dependency_edit(referrer, text, deps[k]));
            } else if k < deps.len() + references.len() {
                let target = references[k - deps.len()].target();
                assert(sites[k] == target.site(text));
                assert(slots[k] == self.target_edit(referrer, text, target));
            } else if k < deps.len() + references.len() + imports.len() {
                let target = imports[k - deps.len() - references.len()];
                assert(sites[k] == target.site(text));
                assert(slots[k] == self.target_edit(referrer, text, target));
            } else {
                let target = info.jsx_import_source.unwrap();
                assert(sites[k] == target.site(text));
                assert(slots[k] == self.target_edit(referrer, text, target));
            }
        }
    }

    /// The edits of the pass fit the text and are clear of each other, so
    /// that they can be applied once they are sorted.
    pub proof fn lemma_collected_edits_fit(
        &self,
        referrer: Seq<char>,
        text: Seq<u8>,
        info: ModuleInfo,
    )
        requires
            module_fits(text, info),
        ensures
            all_fit(text, self.collected_edits(referrer, text, info)),
            pairwise_disjoint(self.collected_edits(referrer, text, info)),
    {
        let sites = info.sites(text);
        let slots = self.occurrence_edits(referrer, text, info);
        let edits = self.collected_edits(referrer, text, info);
        self.lemma_occurrence_edits_at_sites(referrer, text, info);
        assert forall|i: int| 0 <= i < edits.len() implies (#[trigger] edits[i]).range.fits(text) by {
            lemma_origin(slots, i);
            let a = origin(slots, i);
            assert(slots[a] == Some(edits[i]));
            assert(sites[a] == Some(edits[i].range));
        }
        assert forall|i: int, j: int| 0 <= i < j < edits.len() implies (#[trigger] edits[i]).range.disjoint(
            (#[trigger] edits[j]).range,
        ) by {
            lemma_origin(slots, i);
            lemma_origin(slots, j);
            lemma_origin_increases(slots, i, j);
            let a = origin(slots, i);
            let b = origin(slots, j);
            assert(slots[a] == Some(edits[i]));
            assert(slots[b] == Some(edits[j]));
            assert(sites[a] == Some(edits[i].range));
            assert(sites[b] == Some(edits[j].range));
        }
    }
}

impl<'a> SpecifierUnfurler<'a> {
    /// Rewrites the specifiers of the module `url`. Works through the
    /// dependencies, the references, the documentation imports and the JSX
    /// import source, collects an edit for each specifier that is to be
    /// written otherwise, applies the edits in the order of their ranges and
    /// returns the new text. For each dynamic import that cannot be analyzed
    /// one diagnostic is added to `diagnostic_reporter`, in the order of the
    /// dependencies.
    pub fn unfurl(
        &self,
        url: &ModuleSpecifier,
        parsed_source: &ParsedSource,
        diagnostic_reporter: &mut Vec<SpecifierUnfurlerDiagnostic>,
    ) -> (rewritten: String)
        ensures
            bytes_of(rewritten@) == self.rewritten_text(
                url@,
                bytes_of(parsed_source.source_text()),
                parsed_source.info(),
            ),
            reports_of(final(diagnostic_reporter)@) == reports_of(old(diagnostic_reporter)@)
                + reports_for(
                url@,
                self.reported_ranges(
                    url@,
                    bytes_of(parsed_source.source_text()),
                    parsed_source.info(),
                ),
            ),
    {
        let module_info = parsed_source.module_info();
        let ghost text = bytes_of(parsed_source.source_text());
        let ghost earlier = reports_of(diagnostic_reporter@);
        let ghost dep_slots = self.dependency_slots(url@, text, module_info.dependencies@);
        let ghost report_slots = self.report_slots(url@, text, module_info.dependencies@);
        let ghost reference_slots = self.reference_slots(url@, text, module_info.ts_references@);
        let ghost import_slots = self.import_slots(url@, text, module_info.jsdoc_imports@);
        let ghost jsx_slots = self.jsx_slots(url@, text, module_info.jsx_import_source);
        proof {
            use_type_invariant(parsed_source);
            parsed_source.lemma_well_formed();
            assert(dep_slots.take(0) =~= Seq::<Option<Edit>>::empty());
            assert(report_slots.take(0) =~= Seq::<Option<SourceRange>>::empty());
            assert(earlier + reports_for(url@, Seq::<SourceRange>::empty()) =~= earlier);
        }
        let mut text_changes: Vec<TextChange> = Vec::new();
        let mut i: usize = 0;
        while i < module_info.dependencies.len()
            invariant
                i <= module_info.dependencies.len(),
                *module_info == parsed_source.info(),
                text == bytes_of(parsed_source.source_text()),
                module_info.readable(text),
                dep_slots == self.dependency_slots(url@, text, module_info.dependencies@),
                report_slots == self.report_slots(url@, text, module_info.dependencies@),
                edits_of(text_changes@) == present(dep_slots.take(i as int)),
                reports_of(diagnostic_reporter@) == earlier + reports_for(
                    url@,
                    present(report_slots.take(i as int)),
                ),
            decreases module_info.dependencies.len() - i,
        {
            let ghost reported = present(report_slots.take(i as int));
            proof {
                assert(module_info.dependencies@[i as int].readable(text));
                assert(dep_slots.take(i + 1).drop_last() =~= dep_slots.take(i as int));
                assert(report_slots.take(i + 1).drop_last() =~= report_slots.take(i as int));
                lemma_present_one(dep_slots[i as int]);
                assert(reports_of(diagnostic_reporter@) + Seq::<Report>::empty() =~= reports_of(
                    diagnostic_reporter@,
                ));
                assert(reported + Seq::<SourceRange>::empty() =~= reported);
            }
            match &module_info.dependencies[i] {
                DependencyDescriptor::Static(dep) => {
                    self.analyze_specifier(
                        url,
                        parsed_source,
                        dep.specifier.as_str(),
                        &dep.specifier_range,
                        &mut text_changes,
                    );
                },
                DependencyDescriptor::Dynamic(dep) => {
                    let success = self.try_unfurl_dynamic_dep(
                        url,
                        parsed_source,
                        dep,
                        &mut text_changes,
                    );
                    if !success {
                        let ghost before = reports_of(diagnostic_reporter@);
                        diagnostic_reporter.push(
                            SpecifierUnfurlerDiagnostic::UnanalyzableDynamicImport {
                                specifier: url.clone(),
                                range: dep.argument_range,
                            },
                        );
                        proof {
                            let report = Report { referrer: url@, range: dep.argument_range };
                            assert(reports_of(diagnostic_reporter@) =~= before + seq![report]);
                            assert(reports_for(url@, reported + seq![dep.argument_range])
                                =~= reports_for(url@, reported) + seq![report]);
                        }
                    }
                },
            }
            i += 1;
        }
        proof {
            assert(dep_slots.take(dep_slots.len() as int) =~= dep_slots);
            assert(report_slots.take(report_slots.len() as int) =~= report_slots);
            assert(reference_slots.take(0) =~= Seq::<Option<Edit>>::empty());
            assert(present(dep_slots) + present(reference_slots.take(0)) =~= present(dep_slots));
        }
        let mut j: usize = 0;
        while j < module_info.ts_references.len()
            invariant
                j <= module_info.ts_references.len(),
                *module_info == parsed_source.info(),
                text == bytes_of(parsed_source.source_text()),
                module_info.readable(text),
                reference_slots == self.reference_slots(url@, text, module_info.ts_references@),
                edits_of(text_changes@) == present(dep_slots) + present(
                    reference_slots.take(j as int),
                ),
            decreases module_info.ts_references.len() - j,
        {
            let specifier_with_range = module_info.ts_references[j].specifier();
            proof {
                assert(module_info.ts_references@[j as int].target().range.within(
                    text.len() as int,
                ));
                assert(reference_slots.take(j + 1).drop_last() =~= reference_slots.take(j as int));
                lemma_present_one(reference_slots[j as int]);
            }
            self.analyze_specifier(
                url,
                parsed_source,
                specifier_with_range.text.as_str(),
                &specifier_with_range.range,
                &mut text_changes,
            );
            proof {
                assert(edits_of(text_changes@) =~= present(dep_slots) + present(
                    reference_slots.take(j + 1),
                ));
            }
            j += 1;
        }
        proof {
            assert(reference_slots.take(reference_slots.len() as int) =~= reference_slots);
            assert(import_slots.take(0) =~= Seq::<Option<Edit>>::empty());
            assert(present(dep_slots) + present(reference_slots) + present(import_slots.take(0))
                =~= present(dep_slots) + present(reference_slots));
        }
        let mut k: usize = 0;
        while k < module_info.jsdoc_imports.len()
            invariant
                k <= module_info.jsdoc_imports.len(),
                *module_info == parsed_source.info(),
                text == bytes_of(parsed_source.source_text()),
                module_info.readable(text),
                import_slots == self.import_slots(url@, text, module_info.jsdoc_imports@),
                edits_of(text_changes@) == present(dep_slots) + present(reference_slots) + present(
                    import_slots.take(k as int),
                ),
            decreases module_info.jsdoc_imports.len() - k,
        {
            let specifier_with_range = &module_info.jsdoc_imports[k];
            proof {
                assert(module_info.jsdoc_imports@[k as int].range.within(text.len() as int));
                assert(import_slots.take(k + 1).drop_last() =~= import_slots.take(k as int));
                lemma_present_one(import_slots[k as int]);
            }
            self.analyze_specifier(
                url,
                parsed_source,
                specifier_with_range.text.as_str(),
                &specifier_with_range.range,
                &mut text_changes,
            );
            proof {
                assert(edits_of(text_changes@) =~= present(dep_slots) + present(reference_slots)
                    + present(import_slots.take(k + 1)));
            }
            k += 1;
        }
        proof {
            assert(import_slots.take(import_slots.len() as int) =~= import_slots);
        }
        match &module_info.jsx_import_source {
            Some(specifier_with_range) => {
                self.analyze_specifier(
                    url,
                    parsed_source,
                    specifier_with_range.text.as_str(),
                    &specifier_with_range.range,
                    &mut text_changes,
                );
            },
            None => {
                proof {
                    assert(present(jsx_slots) =~= Seq::<Edit>::empty());
                    assert(edits_of(text_changes@) + Seq::<Edit>::empty() =~= edits_of(
                        text_changes@,
                    ));
                }
            },
        }
        proof {
            lemma_present_concat(dep_slots, reference_slots);
            lemma_present_concat(dep_slots + reference_slots, import_slots);
            lemma_present_concat(dep_slots + reference_slots + import_slots, jsx_slots);
            assert(edits_of(text_changes@) == self.collected_edits(url@, text, *module_info));
            self.lemma_collected_edits_fit(url@, text, *module_info);
        }
        apply_text_changes(parsed_source.text_str(), text_changes)
    }
}

impl<'a> SpecifierUnfurler<'a> {
    /// A specifier that is already written as its resolution is to be
    /// written yields no edit, wherever it stands.
    pub proof fn lemma_settled_specifier_yields_no_edit(
        &self,
        referrer: Seq<char>,
        specifier: Seq<char>,
        range: SourceRange,
    )
        requires
            self.resolution(referrer, specifier) matches Some(reference) && relative_literal(
                reference,
                referrer,
            ) == specifier,
        ensures
            self.unfurled(referrer, specifier) is None,
            self.replacement(referrer, specifier, range) is None,
    {
    }

    /// An edit never puts back the text that it replaces the specifier for.
    pub proof fn lemma_edit_changes_specifier(
        &self,
        referrer: Seq<char>,
        specifier: Seq<char>,
        range: SourceRange,
    )
        ensures
            self.replacement(referrer, specifier, range) matches Some(edit) ==> edit.new_text
                != specifier && edit.range == range,
    {
    }

    /// A pass over a module in which no occurrence yields an edit returns the
    /// text of the module as it is: what a pass has left with nothing to
    /// rewrite, the next pass leaves alone.
    pub proof fn lemma_settled_module_unchanged(
        &self,
        referrer: Seq<char>,
        text: Seq<u8>,
        info: ModuleInfo,
    )
        requires
            forall|k: int|
                0 <= k < self.occurrence_edits(referrer, text, info).len() ==> (
                #[trigger] self.occurrence_edits(referrer, text, info)[k]) is None,
        ensures
            self.collected_edits(referrer, text, info) == Seq::<Edit>::empty(),
            self.rewritten_text(referrer, text, info) == text,
    {
        lemma_present_none(self.occurrence_edits(referrer, text, info));
        lemma_no_edits(text);
    }

    /// A pass over a module each of whose specifiers unfurls to nothing
    /// returns the text as it is. So where the resolvers find the specifiers
    /// of a rewritten module to be written as they should be, a second pass
    /// changes nothing.
    pub proof fn lemma_unfurled_module_unchanged(
        &self,
        referrer: Seq<char>,
        text: Seq<u8>,
        info: ModuleInfo,
    )
        requires
            forall|k: int|
                0 <= k < info.dependencies@.len() ==> (
                #[trigger] info.dependencies@[k].written_specifier() matches Some(specifier)
                    ==> self.unfurled(referrer, specifier) is None),
            forall|k: int|
                0 <= k < info.ts_references@.len() ==> self.unfurled(
                    referrer,
                    (#[trigger] info.ts_references@[k]).target().text@,
                ) is None,
            forall|k: int|
                0 <= k < info.jsdoc_imports@.len() ==> self.unfurled(
                    referrer,
                    (#[trigger] info.jsdoc_imports@[k]).text@,
                ) is None,
            info.jsx_import_source matches Some(source) ==> self.unfurled(referrer, source.text@)
                is None,
        ensures
            self.rewritten_text(referrer, text, info) == text,
    {
        let slots = self.occurrence_edits(referrer, text, info);
        let deps = info.dependencies@;
        let references = info.ts_references@;
        let imports = info.jsdoc_imports@;
        assert forall|k: int| 0 <= k < slots.len() implies (#[trigger] slots[k]) is None by {
            if k < deps.len() {
                assert(slots[k] == self.dependency_edit(referrer, text, deps[k]));
                assert(deps[k].written_specifier() matches Some(specifier) ==> self.unfurled(
                    referrer,
                    specifier,
                ) is None);
            } else if k < deps.len() + references.len() {
                let reference = references[k - deps.len()];
                assert(slots[k] == self.target_edit(referrer, text, reference.target()));
            } else if k < deps.len() + references.len() + imports.len() {
                let import = imports[k - deps.len() - references.len()];
                assert(slots[k] == self.target_edit(referrer, text, import));
            } else {
                assert(slots[k] == self.target_edit(
                    referrer,
                    text,
                    info.jsx_import_source.unwrap(),
                ));
            }
        }
        self.lemma_settled_module_unchanged(referrer, text, info);
    }

    /// The pass depends on the resolvers only through what the specifiers
    /// that the module is written with unfurl to: two unfurlers that agree on
    /// these rewrite the module alike and report the same.
    pub proof fn lemma_same_answers_same_pass(
        &self,
        other: &SpecifierUnfurler,
        referrer: Seq<char>,
        text: Seq<u8>,
        info: ModuleInfo,
    )
        requires
            forall|i: int|
                0 <= i < info.specifier_texts().len() ==> self.unfurled(
                    referrer,
                    #[trigger] info.specifier_texts()[i],
                ) == other.unfurled(referrer, info.specifier_texts()[i]),
        ensures
            self.occurrence_edits(referrer, text, info) == other.occurrence_edits(
                referrer,
                text,
                info,
            ),
            self.rewritten_text(referrer, text, info) == other.rewritten_text(referrer, text, info),
            self.reported_ranges(referrer, text, info) == other.reported_ranges(
                referrer,
                text,
                info,
            ),
    {
        let texts = info.specifier_texts();
        let deps = info.dependencies@;
        let references = info.ts_references@;
        let imports = info.jsdoc_imports@;
        let written = deps.map_values(|dep: DependencyDescriptor| dep.written_specifier());
        let named = present(written);
        assert forall|k: int| 0 <= k < deps.len() implies (#[trigger] deps[k]).written_specifier() matches Some(
            specifier,
        ) ==> self.unfurled(referrer, specifier) == other.unfurled(referrer, specifier) by {
            if deps[k].written_specifier() is Some {
                assert(written[k] == deps[k].written_specifier());
                lemma_rank(written, k);
                assert(texts[rank(written, k)] == named[rank(written, k)]);
            }
        }
        assert forall|k: int| 0 <= k < references.len() implies self.unfurled(
            referrer,
            (#[trigger] references[k]).target().text@,
        ) == other.unfurled(referrer, references[k].target().text@) by {
            assert(texts[named.len() + k] == references[k].target().text@);
        }
        assert forall|k: int| 0 <= k < imports.len() implies self.unfurled(
            referrer,
            (#[trigger] imports[k]).text@,
        ) == other.unfurled(referrer, imports[k].text@) by {
            assert(texts[named.len() + references.len() + k] == imports[k].text@);
        }
        if info.jsx_import_source is Some {
            assert(texts[(named.len() + references.len() + imports.len()) as int]
                == info.jsx_import_source.unwrap().text@);
        }
        let mine = self.occurrence_edits(referrer, text, info);
        let theirs = other.occurrence_edits(referrer, text, info);
        assert(mine.len() == theirs.len());
        assert forall|k: int| 0 <= k < mine.len() implies mine[k] == theirs[k] by {
            if k < deps.len() {
                assert(mine[k] == self.dependency_edit(referrer, text, deps[k]));
                assert(theirs[k] == other.dependency_edit(referrer, text, deps[k]));
                assert(deps[k].written_specifier() matches Some(specifier) ==> self.unfurled(
                    referrer,
                    specifier,
                ) == other.unfurled(referrer, specifier));
            } else if k < deps.len() + references.len() {
                let target = references[k - deps.len()].target();
                assert(mine[k] == self.target_edit(referrer, text, target));
                assert(theirs[k] == other.target_edit(referrer, text, target));
            } else if k < deps.len() + references.len() + imports.len() {
                let target = imports[k - deps.len() - references.len()];
                assert(mine[k] == self.target_edit(referrer, text, target));
                assert(theirs[k] == other.target_edit(referrer, text, target));
            } else {
                let target = info.jsx_import_source.unwrap();
                assert(mine[k] == self.target_edit(referrer, text, target));
                assert(theirs[k] == other.target_edit(referrer, text, target));
            }
        }
        assert(mine =~= theirs);
        let my_reports = self.report_slots(referrer, text, deps);
        let their_reports = other.report_slots(referrer, text, deps);
        assert forall|k: int| 0 <= k < deps.len() implies my_reports[k] == their_reports[k] by {
            assert(deps[k].written_specifier() matches Some(specifier) ==> self.unfurled(
                referrer,
                specifier,
            ) == other.unfurled(referrer, specifier));
        }
        assert(my_reports =~= their_reports);
    }

    /// The pass changes the length of the text by the sum of what its edits
    /// add: for each edit the length of the new text less that of the range.
    pub proof fn lemma_pass_length_delta(
        &self,
        referrer: Seq<char>,
        text: Seq<u8>,
        info: ModuleInfo,
    )
        requires
            module_fits(text, info),
        ensures
            self.rewritten_text(referrer, text, info).len() - text.len() == total_growth(
                self.collected_edits(referrer, text, info),
            ),
    {
        let edits = self.collected_edits(referrer, text, info);
        self.lemma_collected_edits_fit(referrer, text, info);
        lemma_sorted_edits_applicable(text, edits);
        lemma_sort_edits(edits);
        lemma_length_delta(text, sort_edits(edits));
    }

    /// The reports of a pass stand in the order of the dependencies: each is
    /// the range of the argument of a dynamic import that could not be
    /// analyzed, and of two reports the earlier belongs to the earlier
    /// dependency.
    pub proof fn lemma_reports_follow_dependencies(
        &self,
        referrer: Seq<char>,
        text: Seq<u8>,
        info: ModuleInfo,
        first: int,
        second: int,
    )
        requires
            0 <= first < second < self.reported_ranges(referrer, text, info).len(),
        ensures
            ({
                let slots = self.report_slots(referrer, text, info.dependencies@);
                let reported = self.reported_ranges(referrer, text, info);
                let a = origin(slots, first);
                let b = origin(slots, second);
                &&& 0 <= a < b < info.dependencies@.len()
                &&& self.unanalyzable(referrer, text, info.dependencies@[a]) == Some(reported[first])
                &&& self.unanalyzable(referrer, text, info.dependencies@[b]) == Some(
                    reported[second],
                )
            }),
    {
        let slots = self.report_slots(referrer, text, info.dependencies@);
        lemma_origin(slots, first);
        lemma_origin(slots, second);
        lemma_origin_increases(slots, first, second);
    }

    /// Every dynamic import that cannot be analyzed is reported, once, at the
    /// place among the reports that its place among the dependencies gives it.
    pub proof fn lemma_unanalyzable_is_reported(
        &self,
        referrer: Seq<char>,
        text: Seq<u8>,
        info: ModuleInfo,
        k: int,
    )
        requires
            0 <= k < info.dependencies@.len(),
            self.unanalyzable(referrer, text, info.dependencies@[k]) is Some,
        ensures
            ({
                let slots = self.report_slots(referrer, text, info.dependencies@);
                let reported = self.reported_ranges(referrer, text, info);
                &&& 0 <= rank(slots, k) < reported.len()
                &&& Some(reported[rank(slots, k)]) == self.unanalyzable(
                    referrer,
                    text,
                    info.dependencies@[k],
                )
                &&& origin(slots, rank(slots, k)) == k
            }),
    {
        let slots = self.report_slots(referrer, text, info.dependencies@);
        lemma_rank(slots, k);
    }
}

} // verus!
