//! The packages that a configuration file depends on: the `jsr:` and `npm:`
//! references among the targets of its import map.

use crate::specifier::{str_eq, text_of};
use crate::text::bytes_of;
use crate::version_guard::{does_reference_overflow, reference_overflows};
use crate::slots::present;
use deno_semver::jsr::JsrPackageReqReference;
use deno_semver::npm::NpmPackageReqReference;
use vstd::prelude::*;
use vstd::string::*;

verus! {

/// The normalized text of the package requirement that `value` names as a
/// `jsr:` reference, if it is one: the name of the package, `@`, and the
/// version requirement as the crate writes what it has read of it.
pub uninterp spec fn jsr_package_req(value: Seq<char>) -> Option<Seq<char>>;

/// The normalized text of the package requirement that `value` names as an
/// `npm:` reference, if it is one.
pub uninterp spec fn npm_package_req(value: Seq<char>) -> Option<Seq<char>>;

/// `JsrPackageReqReference::from_str`, then `PackageReq::to_string_normalized`
/// on its requirement: reads `value` as a `jsr:` reference and gives the
/// normalized text of its package requirement, or nothing where `value` is
/// no such reference. To find the end of a range of versions the parser adds
/// one to a number of the version without a check; `requires` leaves out the
/// references for which that number is the greatest `u64`. The contract only
/// gives the result its name.
#[verifier::external_body]
fn parse_jsr_req(value: &str) -> (req: Option<String>)
    requires
        !reference_overflows(bytes_of(value@)),
    ensures
        text_of(req) == jsr_package_req(value@),
{
    let reference = JsrPackageReqReference::from_str(value).ok()?;
    Some(reference.into_inner().req.to_string_normalized().to_string())
}

/// `NpmPackageReqReference::from_str`, then `PackageReq::to_string_normalized`
/// on its requirement: reads `value` as an `npm:` reference and gives the
/// normalized text of its package requirement, or nothing where `value` is
/// no such reference. To find the end of a range of versions the parser adds
/// one to a number of the version without a check; `requires` leaves out the
/// references for which that number is the greatest `u64`. The contract only
/// gives the result its name.
#[verifier::external_body]
fn parse_npm_req(value: &str) -> (req: Option<String>)
    requires
        !reference_overflows(bytes_of(value@)),
    ensures
        text_of(req) == npm_package_req(value@),
{
    let reference = NpmPackageReqReference::from_str(value).ok()?;
    Some(reference.into_inner().req.to_string_normalized().to_string())
}

/// Whether `value` can be read as a reference: whether it is not one for
/// which the parser adds one to the greatest `u64`.
pub fn can_be_read(value: &str) -> (readable: bool)
    ensures
        readable == !reference_overflows(bytes_of(value@)),
{
    !does_reference_overflow(value.as_bytes())
}

/// A JSON value, as far as the import map of a configuration file is read:
/// strings, objects with their members in order, and everything else.
#[derive(Debug, PartialEq, Eq)]
pub enum JsonValue {
    String(String),
    Object(Vec<JsonMember>),
    Other,
}

/// A member of a JSON object.
#[derive(Debug, PartialEq, Eq)]
pub struct JsonMember {
    pub key: String,
    pub value: JsonValue,
}

/// What a configuration file says of imports.
#[derive(Debug, PartialEq, Eq)]
pub struct ConfigFileJson {
    pub imports: Option<JsonValue>,
    pub scopes: Option<JsonValue>,
}

/// The registry that a package comes from.
#[derive(Clone, Copy, Debug, PartialEq, Eq, Structural)]
pub enum PackageKind {
    Jsr,
    Npm,
}

/// What a dependency says: a package requirement, in its normalized text,
/// and its registry.
pub struct DepReq {
    pub kind: PackageKind,
    pub req: Seq<char>,
}

/// A requirement on a package of one of the two registries. Two requirements
/// with the same normalized text ask for the same versions of the same
/// package.
#[derive(Debug, PartialEq, Eq)]
pub struct JsrDepPackageReq {
    pub kind: PackageKind,
    pub req: String,
}

impl View for JsrDepPackageReq {
    type V = DepReq;

    open spec fn view(&self) -> DepReq {
        DepReq { kind: self.kind, req: self.req@ }
    }
}

impl JsrDepPackageReq {
    pub fn jsr(req: String) -> (dep: Self)
        ensures
            dep@ == (DepReq { kind: PackageKind::Jsr, req: req@ }),
    {
        JsrDepPackageReq { kind: PackageKind::Jsr, req }
    }

    pub fn npm(req: String) -> (dep: Self)
        ensures
            dep@ == (DepReq { kind: PackageKind::Npm, req: req@ }),
    {
        JsrDepPackageReq { kind: PackageKind::Npm, req }
    }

    /// Whether both are the same requirement on the same registry.
    pub fn same_as(&self, other: &JsrDepPackageReq) -> (same: bool)
        ensures
            same == (self@ == other@),
    {
        let same_kind: bool = match (self.kind, other.kind) {
            (PackageKind::Jsr, PackageKind::Jsr) => true,
            (PackageKind::Npm, PackageKind::Npm) => true,
            _ => false,
        };
        same_kind && str_eq(self.req.as_str(), other.req.as_str())
    }
}

/// The text of the member's value where it is a string.
pub open spec fn string_of(member: JsonMember) -> Option<Seq<char>> {
    match member.value {
        JsonValue::String(text) => Some(text@),
        _ => None,
    }
}

/// The strings among the values of the members, in the order of the members.
pub open spec fn member_strings(members: Seq<JsonMember>) -> Seq<Seq<char>> {
    present(members.map_values(|member: JsonMember| string_of(member)))
}

/// The targets of an import map: the strings among the values of the object
/// `value`; none where `value` is absent or no object.
pub open spec fn import_targets(value: Option<JsonValue>) -> Seq<Seq<char>> {
    match value {
        Some(JsonValue::Object(members)) => member_strings(members@),
        _ => Seq::<Seq<char>>::empty(),
    }
}

/// The targets of the import maps of the first `count` scopes.
pub open spec fn scoped_targets(members: Seq<JsonMember>, count: int) -> Seq<Seq<char>>
    decreases count,
{
    if count <= 0 {
        Seq::<Seq<char>>::empty()
    } else {
        scoped_targets(members, count - 1) + import_targets(Some(members[count - 1].value))
    }
}

/// The targets of the import maps of all scopes: for each member of the
/// object `value` in turn, the targets of the import map that is its value.
pub open spec fn scope_targets(value: Option<JsonValue>) -> Seq<Seq<char>> {
    match value {
        Some(JsonValue::Object(members)) => scoped_targets(members@, members@.len() as int),
        _ => Seq::<Seq<char>>::empty(),
    }
}

/// The text of each of the strings.
pub open spec fn texts_of(values: Seq<&String>) -> Seq<Seq<char>> {
    values.map_values(|value: &String| value@)
}

/// The text of each of the strings of an object's members.
fn strings_of_members<'a>(members: &'a Vec<JsonMember>) -> (items: Vec<&'a String>)
    ensures
        texts_of(items@) == member_strings(members@),
{
    let ghost slots = members@.map_values(|member: JsonMember| string_of(member));
    let mut items: Vec<&String> = Vec::with_capacity(members.len());
    let mut i: usize = 0;
    proof {
        assert(slots.take(0) =~= Seq::<Option<Seq<char>>>::empty());
        assert(texts_of(items@) =~= Seq::<Seq<char>>::empty());
    }
    while i < members.len()
        invariant
            i <= members.len(),
            slots == members@.map_values(|member: JsonMember| string_of(member)),
            texts_of(items@) == present(slots.take(i as int)),
        decreases members.len() - i,
    {
        let ghost before = texts_of(items@);
        proof {
            assert(slots.take(i + 1).drop_last() =~= slots.take(i as int));
            assert(slots.take(i + 1).last() == string_of(members@[i as int]));
            assert(before + Seq::<Seq<char>>::empty() =~= before);
        }
        match &members[i].value {
            JsonValue::String(value) => {
                items.push(value);
                proof {
                    assert(texts_of(items@) =~= before + seq![value@]);
                }
            },
            _ => {},
        }
        i += 1;
    }
    proof {
        assert(slots.take(members.len() as int) =~= slots);
    }
    items
}

/// The strings among the values of the object `value`.
pub fn imports_values<'a>(value: Option<&'a JsonValue>) -> (items: Vec<&'a String>)
    ensures
        texts_of(items@) == import_targets(
            match value {
                Some(value) => Some(*value),
                None => None,
            },
        ),
{
    match value {
        Some(JsonValue::Object(members)) => strings_of_members(members),
        _ => {
            let items: Vec<&String> = Vec::new();
            proof {
                assert(texts_of(items@) =~= Seq::<Seq<char>>::empty());
            }
            items
        },
    }
}

/// The strings among the values of the objects that are the values of the
/// object `value`.
pub fn scope_values<'a>(value: Option<&'a JsonValue>) -> (items: Vec<&'a String>)
    ensures
        texts_of(items@) == scope_targets(
            match value {
                Some(value) => Some(*value),
                None => None,
            },
        ),
{
    let mut items: Vec<&String> = Vec::new();
    proof {
        assert(texts_of(items@) =~= Seq::<Seq<char>>::empty());
    }
    match value {
        Some(JsonValue::Object(members)) => {
            let mut i: usize = 0;
            while i < members.len()
                invariant
                    i <= members.len(),
                    texts_of(items@) == scoped_targets(members@, i as int),
                decreases members.len() - i,
            {
                let ghost before = texts_of(items@);
                let mut found = imports_values(Some(&members[i].value));
                let ghost added = texts_of(found@);
                items.append(&mut found);
                proof {
                    assert(texts_of(items@) =~= before + added);
                }
                i += 1;
            }
            items
        },
        _ => items,
    }
}

/// The dependency that an import target names: a `jsr:` reference first,
/// else an `npm:` reference. A reference names none where its version
/// requirement asks for more than the greatest `u64`: for `~`, `^` or a
/// version with parts left out, the parser cannot find the end of the range
/// of versions without adding one to that number.
pub open spec fn dep_of(value: Seq<char>) -> Option<DepReq> {
    if reference_overflows(bytes_of(value)) {
        None
    } else {
        match jsr_package_req(value) {
            Some(req) => Some(DepReq { kind: PackageKind::Jsr, req }),
            None => match npm_package_req(value) {
                Some(req) => Some(DepReq { kind: PackageKind::Npm, req }),
                None => None,
            },
        }
    }
}

/// The items without repetitions, each at the place where it is first found.
pub open spec fn distinct<T>(items: Seq<T>) -> Seq<T>
    decreases items.len(),
{
    if items.len() == 0 {
        Seq::<T>::empty()
    } else {
        let before = distinct(items.drop_last());
        if before.contains(items.last()) {
            before
        } else {
            before.push(items.last())
        }
    }
}

/// `distinct` repeats nothing and holds just what the items hold.
pub proof fn lemma_distinct<T>(items: Seq<T>)
    ensures
        distinct(items).no_duplicates(),
        forall|item: T| #[trigger] distinct(items).contains(item) <==> items.contains(item),
    decreases items.len(),
{
    if items.len() == 0 {
    } else {
        let before = distinct(items.drop_last());
        let all = distinct(items);
        lemma_distinct(items.drop_last());
        assert forall|item: T| #[trigger] all.contains(item) <==> items.contains(item) by {
            if all.contains(item) {
                let i = choose|i: int| 0 <= i < all.len() && all[i] == item;
                if i < before.len() {
                    assert(before.contains(all[i]));
                    let j = choose|j: int|
                        0 <= j < items.drop_last().len() && items.drop_last()[j] == item;
                    assert(items[j] == item);
                } else {
                    assert(items[items.len() - 1] == item);
                }
            }
            if items.contains(item) {
                let j = choose|j: int| 0 <= j < items.len() && items[j] == item;
                if j < items.len() - 1 {
                    assert(items.drop_last()[j] == item);
                    assert(before.contains(item));
                    let i = choose|i: int| 0 <= i < before.len() && before[i] == item;
                    assert(all[i] == item);
                } else if before.contains(item) {
                } else {
                    assert(all[all.len() - 1] == item);
                }
            }
        }
    }
}

/// The dependencies that the import targets name, each once, in the order in
/// which they are first named.
pub open spec fn deps_of(values: Seq<Seq<char>>) -> Seq<DepReq> {
    distinct(present(values.map_values(|value: Seq<char>| dep_of(value))))
}

/// What each of the dependencies says.
pub open spec fn dep_reqs(deps: Seq<JsrDepPackageReq>) -> Seq<DepReq> {
    deps.map_values(|dep: JsrDepPackageReq| dep@)
}

/// Whether `dep` is among `entries`.
fn holds(entries: &Vec<JsrDepPackageReq>, dep: &JsrDepPackageReq) -> (found: bool)
    ensures
        found == dep_reqs(entries@).contains(dep@),
{
    let mut i: usize = 0;
    while i < entries.len()
        invariant
            i <= entries.len(),
            forall|k: int| 0 <= k < i ==> dep_reqs(entries@)[k] != dep@,
        decreases entries.len() - i,
    {
        if entries[i].same_as(dep) {
            proof {
                assert(dep_reqs(entries@)[i as int] == dep@);
            }
            return true;
        }
        i += 1;
    }
    false
}

/// Adds `dep` to `entries` unless it is among them already.
pub fn insert_dep(entries: &mut Vec<JsrDepPackageReq>, dep: JsrDepPackageReq)
    ensures
        dep_reqs(final(entries)@) == if dep_reqs(old(entries)@).contains(dep@) {
            dep_reqs(old(entries)@)
        } else {
            dep_reqs(old(entries)@).push(dep@)
        },
{
    let ghost before = dep_reqs(entries@);
    if !holds(entries, &dep) {
        entries.push(dep);
        proof {
            assert(dep_reqs(entries@) =~= before.push(dep@));
        }
    }
}

/// The requirement that an import target names, given what it reads as a
/// `jsr:` reference and, failing that, as an `npm:` reference.
pub fn dep_from(jsr_req: Option<String>, npm_req: Option<String>) -> (dep: Option<JsrDepPackageReq>)
    ensures
        match dep {
            Some(dep) => Some(dep@),
            None => None,
        } == match text_of(jsr_req) {
            Some(req) => Some(DepReq { kind: PackageKind::Jsr, req }),
            None => match text_of(npm_req) {
                Some(req) => Some(DepReq { kind: PackageKind::Npm, req }),
                None => None,
            },
        },
{
    match jsr_req {
        Some(req) => Some(JsrDepPackageReq::jsr(req)),
        None => match npm_req {
            Some(req) => Some(JsrDepPackageReq::npm(req)),
            None => None,
        },
    }
}

/// Reads each value as a `jsr:` or `npm:` reference and collects the
/// requirements of those that are one, each once.
pub fn values_to_set(values: &Vec<&String>) -> (entries: Vec<JsrDepPackageReq>)
    ensures
        dep_reqs(entries@) == deps_of(texts_of(values@)),
        dep_reqs(entries@).no_duplicates(),
{
    let ghost slots = texts_of(values@).map_values(|value: Seq<char>| dep_of(value));
    let mut entries: Vec<JsrDepPackageReq> = Vec::new();
    let mut i: usize = 0;
    proof {
        assert(slots.take(0) =~= Seq::<Option<DepReq>>::empty());
        assert(dep_reqs(entries@) =~= Seq::<DepReq>::empty());
    }
    while i < values.len()
        invariant
            i <= values.len(),
            slots == texts_of(values@).map_values(|value: Seq<char>| dep_of(value)),
            dep_reqs(entries@) == distinct(present(slots.take(i as int))),
        decreases values.len() - i,
    {
        let ghost named = present(slots.take(i as int));
        proof {
            assert(slots.take(i + 1).drop_last() =~= slots.take(i as int));
            assert(slots.take(i + 1).last() == dep_of(values@[i as int]@));
            assert(named + Seq::<DepReq>::empty() =~= named);
        }
        let value = values[i].as_str();
        let dep = if can_be_read(value) {
            let jsr_req = parse_jsr_req(value);
            let npm_req = if jsr_req.is_none() {
                parse_npm_req(value)
            } else {
                None
            };
            dep_from(jsr_req, npm_req)
        } else {
            None
        };
        match dep {
            Some(dep) => {
                proof {
                    assert((named + seq![dep@]).drop_last() =~= named);
                }
                insert_dep(&mut entries, dep);
            },
            None => {},
        }
        i += 1;
    }
    proof {
        assert(slots.take(values.len() as int) =~= slots);
        lemma_distinct(present(slots));
    }
    entries
}

/// The packages that the import map of a configuration file depends on: what
/// the targets of its imports and of the imports of its scopes name.
pub fn deno_json_deps(config: &ConfigFileJson) -> (deps: Vec<JsrDepPackageReq>)
    ensures
        dep_reqs(deps@) == deps_of(import_targets(config.imports) + scope_targets(config.scopes)),
        dep_reqs(deps@).no_duplicates(),
{
    let mut values = imports_values(config.imports.as_ref());
    let ghost first = texts_of(values@);
    let mut scoped = scope_values(config.scopes.as_ref());
    let ghost second = texts_of(scoped@);
    values.append(&mut scoped);
    proof {
        assert(texts_of(values@) =~= first + second);
    }
    values_to_set(&values)
}

} // verus!
