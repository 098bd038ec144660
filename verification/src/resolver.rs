//! The resolvers that the unfurler consults: recorded answers of the mapped
//! resolver and of the resolver that guesses extensions and index files, and
//! the list of Node built-in modules.

use crate::specifier::{str_eq, ModuleSpecifier};
use node_resolver::DenoIsBuiltInNodeModuleChecker;
use node_resolver::IsBuiltInNodeModuleChecker;
use vstd::prelude::*;
use vstd::string::*;

verus! {

/// Whether `name` is one of the Node built-in modules that Deno supports.
pub uninterp spec fn node_builtin(name: Seq<char>) -> bool;

/// `DenoIsBuiltInNodeModuleChecker::is_builtin_node_module`: whether
/// `module_name` is in the crate's list of supported built-in modules, as
/// `fs` and `url` are. The contract only gives the result its name.
#[verifier::external_body]
pub(crate) fn is_builtin_node_module(module_name: &str) -> (builtin: bool)
    ensures
        builtin == node_builtin(module_name@),
{
    DenoIsBuiltInNodeModuleChecker.is_builtin_node_module(module_name)
}

/// One answer of the mapped resolver: `specifier`, written in the module
/// `referrer`, stands for `resolved`.
#[derive(Debug, PartialEq, Eq)]
pub struct MappedResolution {
    pub specifier: String,
    pub referrer: ModuleSpecifier,
    pub resolved: ModuleSpecifier,
}

impl MappedResolution {
    /// The entry answers for `specifier` written in `referrer`.
    pub open spec fn answers(self, specifier: Seq<char>, referrer: Seq<char>) -> bool {
        self.specifier@ == specifier && self.referrer@ == referrer
    }
}

/// What the entries say of `specifier` written in `referrer`: the answer of
/// the first entry that is about them.
pub open spec fn mapped_resolution(
    entries: Seq<MappedResolution>,
    specifier: Seq<char>,
    referrer: Seq<char>,
) -> Option<Seq<char>>
    decreases entries.len(),
{
    if entries.len() == 0 {
        None
    } else if entries[0].answers(specifier, referrer) {
        Some(entries[0].resolved@)
    } else {
        mapped_resolution(entries.drop_first(), specifier, referrer)
    }
}

/// The import-map and package-manifest lookups that apply to the modules at
/// hand, as a list of answers.
#[derive(Debug)]
pub struct MappedSpecifierResolver {
    entries: Vec<MappedResolution>,
}

impl View for MappedSpecifierResolver {
    type V = Seq<MappedResolution>;

    closed spec fn view(&self) -> Seq<MappedResolution> {
        self.entries@
    }
}

impl MappedSpecifierResolver {
    /// A resolver that maps nothing.
    pub fn new() -> (resolver: Self)
        ensures
            resolver@ == Seq::<MappedResolution>::empty(),
    {
        MappedSpecifierResolver { entries: Vec::new() }
    }

    /// Records that `specifier`, written in `referrer`, stands for
    /// `resolved`. An earlier answer for the same pair stays in force.
    pub fn insert(&mut self, specifier: String, referrer: ModuleSpecifier, resolved: ModuleSpecifier)
        ensures
            final(self)@ == old(self)@.push(MappedResolution { specifier, referrer, resolved }),
    {
        self.entries.push(MappedResolution { specifier, referrer, resolved });
    }

    /// What the resolver says of `specifier` written in `referrer`.
    pub open spec fn resolution(&self, specifier: Seq<char>, referrer: Seq<char>) -> Option<
        Seq<char>,
    > {
        mapped_resolution(self@, specifier, referrer)
    }

    /// Looks `specifier` up for the module `referrer`.
    pub fn resolve(&self, specifier: &str, referrer: &ModuleSpecifier) -> (resolved: Option<
        ModuleSpecifier,
    >)
        ensures
            match resolved {
                Some(reference) => self.resolution(specifier@, referrer@) == Some(reference@),
                None => self.resolution(specifier@, referrer@) is None,
            },
    {
        let mut i: usize = 0;
        proof {
            assert(self.entries@.skip(0) =~= self.entries@);
        }
        while i < self.entries.len()
            invariant
                i <= self.entries.len(),
                mapped_resolution(self.entries@, specifier@, referrer@) == mapped_resolution(
                    self.entries@.skip(i as int),
                    specifier@,
                    referrer@,
                ),
            decreases self.entries.len() - i,
        {
            let entry = &self.entries[i];
            proof {
                assert(self.entries@.skip(i as int)[0] == self.entries@[i as int]);
                assert(self.entries@.skip(i as int).drop_first() =~= self.entries@.skip(i + 1));
            }
            if str_eq(entry.specifier.as_str(), specifier) && entry.referrer.same_as(referrer) {
                return Some(entry.resolved.clone());
            }
            i += 1;
        }
        None
    }
}

/// One answer of the resolver that guesses extensions and index files: the
/// reference `from` is to be read as `to`.
#[derive(Debug, PartialEq, Eq)]
pub struct SloppyResolution {
    pub from: ModuleSpecifier,
    pub to: ModuleSpecifier,
}

/// What the entries make of `reference`: the answer of the first entry about
/// it, or `reference` itself where there is none.
pub open spec fn sloppy_resolution(entries: Seq<SloppyResolution>, reference: Seq<char>) -> Seq<
    char,
>
    decreases entries.len(),
{
    if entries.len() == 0 {
        reference
    } else if entries[0].from@ == reference {
        entries[0].to@
    } else {
        sloppy_resolution(entries.drop_first(), reference)
    }
}

/// The results of probing for files whose reference leaves out an extension
/// or names a directory, as a list of answers.
#[derive(Debug)]
pub struct SloppyImportsResolver {
    entries: Vec<SloppyResolution>,
}

impl View for SloppyImportsResolver {
    type V = Seq<SloppyResolution>;

    closed spec fn view(&self) -> Seq<SloppyResolution> {
        self.entries@
    }
}

impl SloppyImportsResolver {
    /// A resolver that leaves every reference as it is.
    pub fn new() -> (resolver: Self)
        ensures
            resolver@ == Seq::<SloppyResolution>::empty(),
    {
        SloppyImportsResolver { entries: Vec::new() }
    }

    /// Records that `from` is to be read as `to`. An earlier answer for the
    /// same reference stays in force.
    pub fn insert(&mut self, from: ModuleSpecifier, to: ModuleSpecifier)
        ensures
            final(self)@ == old(self)@.push(SloppyResolution { from, to }),
    {
        self.entries.push(SloppyResolution { from, to });
    }

    /// What the resolver makes of `reference`.
    pub open spec fn resolution(&self, reference: Seq<char>) -> Seq<char> {
        sloppy_resolution(self@, reference)
    }

    /// Adjusts `specifier` by the recorded answers, or hands it back
    /// unchanged.
    pub fn resolve(&self, specifier: &ModuleSpecifier) -> (resolved: ModuleSpecifier)
        ensures
            resolved@ == self.resolution(specifier@),
    {
        let mut i: usize = 0;
        proof {
            assert(self.entries@.skip(0) =~= self.entries@);
        }
        while i < self.entries.len()
            invariant
                i <= self.entries.len(),
                sloppy_resolution(self.entries@, specifier@) == sloppy_resolution(
                    self.entries@.skip(i as int),
                    specifier@,
                ),
            decreases self.entries.len() - i,
        {
            let entry = &self.entries[i];
            proof {
                assert(self.entries@.skip(i as int)[0] == self.entries@[i as int]);
                assert(self.entries@.skip(i as int).drop_first() =~= self.entries@.skip(i + 1));
            }
            if entry.from.same_as(specifier) {
                return entry.to.clone();
            }
            i += 1;
        }
        specifier.clone()
    }
}

} // verus!
