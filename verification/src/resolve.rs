//! Which packages an operation works on.
//!
//! A selection starts from a base list: the names given explicitly, else the
//! packages of the active profile, else every package not marked `skip`.
//! The dependencies of the base packages are added, one level deep: the
//! dependencies of a dependency are not followed, so a cycle among the
//! packages cannot make the selection run on.

use vstd::prelude::*;
use crate::error::{DotrError, ErrorView};
use crate::package::Package;
use crate::value::{strings_view, with_keys, StrMap};

verus! {

/// The first of the names that is not known.
pub open spec fn first_missing(names: Seq<Seq<char>>, known: Set<Seq<char>>) -> Option<Seq<char>>
    decreases names.len(),
{
    if names.len() == 0 {
        None
    } else if !known.contains(names[0]) {
        Some(names[0])
    } else {
        first_missing(names.drop_first(), known)
    }
}

/// The names that a package depends on.
pub open spec fn package_dependencies(p: Package) -> Seq<Seq<char>> {
    match p.dependencies {
        Some(d) => strings_view(d@),
        None => Seq::empty(),
    }
}

/// The dependencies of the base packages, one list after the other.
pub open spec fn dependency_names(
    base: Seq<Seq<char>>,
    packages: Map<Seq<char>, Package>,
) -> Seq<Seq<char>>
    decreases base.len(),
{
    if base.len() == 0 {
        Seq::empty()
    } else {
        dependency_names(base.drop_last(), packages) + package_dependencies(packages[base.last()])
    }
}

/// The names of the packages that are not marked `skip`, in their order.
pub open spec fn unskipped(entries: Seq<(Seq<char>, Package)>) -> Seq<Seq<char>>
    decreases entries.len(),
{
    if entries.len() == 0 {
        Seq::empty()
    } else if entries.last().1.skip {
        unskipped(entries.drop_last())
    } else {
        unskipped(entries.drop_last()).push(entries.last().0)
    }
}

/// The base list of a selection.
pub open spec fn base_names(
    packages: &StrMap<Package>,
    names: Option<Seq<Seq<char>>>,
    profile: Option<Seq<Seq<char>>>,
) -> Seq<Seq<char>> {
    match names {
        Some(n) => n,
        None => match profile {
            Some(deps) => deps,
            None => unskipped(packages.entries()),
        },
    }
}

/// The order of a selection: the base list, then the dependencies, each
/// name at its first occurrence.
pub open spec fn selection_order(
    packages: Map<Seq<char>, Package>,
    base: Seq<Seq<char>>,
) -> Seq<Seq<char>> {
    with_keys(with_keys(Seq::empty(), base), dependency_names(base, packages))
}

/// What a selection resolves to: the names of the base list and of their
/// dependencies, or the first name that is not configured, a base name
/// before a dependency.
pub open spec fn resolution(packages: Map<Seq<char>, Package>, base: Seq<Seq<char>>) -> Result<
    Set<Seq<char>>,
    ErrorView,
> {
    match first_missing(base, packages.dom()) {
        Some(n) => Err(ErrorView::PackageNotFound(n)),
        None => match first_missing(dependency_names(base, packages), packages.dom()) {
            Some(n) => Err(ErrorView::DependencyNotFound(n)),
            None => Ok(base.to_set().union(dependency_names(base, packages).to_set())),
        },
    }
}

/// A name that is not known, after known ones only, is the first missing.
pub proof fn lemma_first_missing_at(names: Seq<Seq<char>>, known: Set<Seq<char>>, i: int)
    requires
        0 <= i < names.len(),
        !known.contains(names[i]),
        forall|j: int| 0 <= j < i ==> known.contains(names[j]),
    ensures
        first_missing(names, known) == Some(names[i]),
    decreases names.len(),
{
    if i > 0 {
        assert forall|j: int| 0 <= j < i - 1 implies known.contains(names.drop_first()[j]) by {
            assert(names.drop_first()[j] == names[j + 1]);
        }
        lemma_first_missing_at(names.drop_first(), known, i - 1);
    }
}

/// No name is missing exactly when all are known.
pub proof fn lemma_first_missing_none(names: Seq<Seq<char>>, known: Set<Seq<char>>)
    ensures
        first_missing(names, known) is None <==> forall|j: int|
            0 <= j < names.len() ==> known.contains(names[j]),
        first_missing(names, known) is Some ==> !known.contains(first_missing(names, known)->0)
            && names.contains(first_missing(names, known)->0),
    decreases names.len(),
{
    if names.len() > 0 {
        let rest = names.drop_first();
        lemma_first_missing_none(rest, known);
        if known.contains(names[0]) {
            if first_missing(rest, known) is None {
                assert forall|j: int| 0 <= j < names.len() implies known.contains(names[j]) by {
                    if j > 0 {
                        assert(rest[j - 1] == names[j]);
                    }
                }
            } else {
                let m = first_missing(rest, known)->0;
                let k = choose|k: int| 0 <= k < rest.len() && rest[k] == m;
                assert(names[k + 1] == m);
            }
            if forall|j: int| 0 <= j < names.len() ==> known.contains(names[j]) {
                assert forall|j: int| 0 <= j < rest.len() implies known.contains(rest[j]) by {
                    assert(rest[j] == names[j + 1]);
                }
            }
        } else {
            assert(names[0] == names[0]);
        }
    }
}

/// The dependencies of the first `k` base packages start the whole list.
pub proof fn lemma_dependency_names_prefix(
    base: Seq<Seq<char>>,
    packages: Map<Seq<char>, Package>,
    k: int,
)
    requires
        0 <= k <= base.len(),
    ensures
        dependency_names(base.take(k), packages).is_prefix_of(dependency_names(base, packages)),
    decreases base.len(),
{
    if k == base.len() {
        assert(base.take(k) =~= base);
    } else {
        lemma_dependency_names_prefix(base.drop_last(), packages, k);
        assert(base.drop_last().take(k) =~= base.take(k));
    }
}

/// Every dependency of a base package is among the dependency names.
pub proof fn lemma_dependency_listed(
    base: Seq<Seq<char>>,
    packages: Map<Seq<char>, Package>,
    i: int,
    j: int,
)
    requires
        0 <= i < base.len(),
        0 <= j < package_dependencies(packages[base[i]]).len(),
    ensures
        dependency_names(base, packages).contains(package_dependencies(packages[base[i]])[j]),
    decreases base.len(),
{
    let all = dependency_names(base, packages);
    let front = dependency_names(base.drop_last(), packages);
    let d = package_dependencies(packages[base[i]])[j];
    if i == base.len() - 1 {
        assert(all[front.len() + j] == d);
    } else {
        lemma_dependency_listed(base.drop_last(), packages, i, j);
        let k = choose|k: int| 0 <= k < front.len() && front[k] == d;
        assert(all[k] == d);
    }
}

/// Dependency closure: where every selected name is configured, each
/// dependency of each selected package is in the resolved set, or the
/// selection fails and reports a dependency that is not configured.
pub proof fn lemma_closure_complete(
    packages: Map<Seq<char>, Package>,
    base: Seq<Seq<char>>,
    selected: Seq<char>,
    dependency: Seq<char>,
)
    requires
        first_missing(base, packages.dom()) is None,
        base.contains(selected),
        package_dependencies(packages[selected]).contains(dependency),
    ensures
        match resolution(packages, base) {
            Ok(names) => names.contains(selected) && names.contains(dependency)
                && packages.dom().contains(dependency),
            Err(e) => e is DependencyNotFound && !packages.dom().contains(e->DependencyNotFound_0),
        },
        !packages.dom().contains(dependency) ==> resolution(packages, base) is Err,
{
    let i = choose|i: int| 0 <= i < base.len() && base[i] == selected;
    let deps = package_dependencies(packages[selected]);
    let j = choose|j: int| 0 <= j < deps.len() && deps[j] == dependency;
    lemma_dependency_listed(base, packages, i, j);
    lemma_first_missing_none(dependency_names(base, packages), packages.dom());
}

/// Fail-fast: a selection with a base name that is not configured resolves
/// to nothing but that error, whatever else it names.
pub proof fn lemma_missing_base_fails(packages: Map<Seq<char>, Package>, base: Seq<Seq<char>>, i: int)
    requires
        0 <= i < base.len(),
        !packages.dom().contains(base[i]),
    ensures
        resolution(packages, base) is Err,
        resolution(packages, base)->Err_0 is PackageNotFound,
{
    lemma_first_missing_none(base, packages.dom());
}

/// The position of the first name that is not configured.
fn find_missing(packages: &StrMap<Package>, names: &Vec<String>) -> (r: Option<usize>)
    ensures
        match r {
            Some(i) => i < names.len() && first_missing(strings_view(names@), packages@.dom())
                == Some(names[i as int]@),
            None => first_missing(strings_view(names@), packages@.dom()) is None && forall|j: int|
                0 <= j < names.len() ==> packages@.dom().contains(#[trigger] names[j]@),
        },
{
    let mut i: usize = 0;
    while i < names.len()
        invariant
            i <= names.len(),
            forall|j: int| 0 <= j < i ==> packages@.dom().contains(#[trigger] names[j]@),
        decreases names.len() - i,
    {
        if !packages.contains_key(names[i].as_str()) {
            proof {
                lemma_first_missing_at(strings_view(names@), packages@.dom(), i as int);
            }
            return Some(i);
        }
        i += 1;
    }
    proof {
        lemma_first_missing_none(strings_view(names@), packages@.dom());
    }
    None
}

/// The names of the packages that are not marked `skip`.
fn collect_unskipped(packages: &StrMap<Package>) -> (r: Vec<String>)
    ensures
        strings_view(r@) == unskipped(packages.entries()),
        forall|j: int| 0 <= j < r.len() ==> packages@.dom().contains(#[trigger] r[j]@),
{
    let n: usize = packages.len();
    let mut out: Vec<String> = Vec::new();
    let mut i: usize = 0;
    proof {
        assert(packages.entries().take(0) =~= Seq::<(Seq<char>, Package)>::empty());
        assert(strings_view(out@) =~= unskipped(packages.entries().take(0)));
    }
    while i < n
        invariant
            i <= n,
            n == packages.entries().len(),
            strings_view(out@) == unskipped(packages.entries().take(i as int)),
            forall|j: int| 0 <= j < out.len() ==> packages@.dom().contains(#[trigger] out[j]@),
        decreases n - i,
    {
        let package = packages.value_at(i);
        proof {
            assert(packages.entries().take(i + 1).drop_last() =~= packages.entries().take(i as int));
        }
        if !package.skip {
            let name = packages.key_at(i).clone();
            let ghost before = out@;
            out.push(name);
            proof {
                assert(strings_view(out@) =~= strings_view(before).push(name@));
                assert forall|j: int| 0 <= j < out.len() implies packages@.dom().contains(
                    #[trigger] out[j]@,
                ) by {
                    if j < before.len() {
                        assert(out[j] == before[j]);
                    }
                }
            }
        }
        i += 1;
    }
    proof {
        assert(packages.entries().take(n as int) =~= packages.entries());
    }
    out
}

/// The dependencies of the base packages, or the first of them that is not
/// configured.
fn collect_dependencies(packages: &StrMap<Package>, base: &Vec<String>) -> (r: Result<
    Vec<String>,
    String,
>)
    requires
        forall|j: int| 0 <= j < base.len() ==> packages@.dom().contains(#[trigger] base[j]@),
    ensures
        match r {
            Ok(d) => strings_view(d@) == dependency_names(strings_view(base@), packages@)
                && first_missing(strings_view(d@), packages@.dom()) is None && forall|j: int|
                0 <= j < d.len() ==> packages@.dom().contains(#[trigger] d[j]@),
            Err(n) => first_missing(
                dependency_names(strings_view(base@), packages@),
                packages@.dom(),
            ) == Some(n@),
        },
{
    let ghost names = strings_view(base@);
    let mut out: Vec<String> = Vec::new();
    let mut i: usize = 0;
    proof {
        assert(names.take(0) =~= Seq::<Seq<char>>::empty());
        assert(strings_view(out@) =~= dependency_names(names.take(0), packages@));
    }
    while i < base.len()
        invariant
            i <= base.len(),
            names == strings_view(base@),
            forall|j: int| 0 <= j < base.len() ==> packages@.dom().contains(#[trigger] base[j]@),
            strings_view(out@) == dependency_names(names.take(i as int), packages@),
            forall|j: int| 0 <= j < out.len() ==> packages@.dom().contains(#[trigger] out[j]@),
        decreases base.len() - i,
    {
        let ghost front = strings_view(out@);
        proof {
            assert(names.take(i + 1).drop_last() =~= names.take(i as int));
            assert(names.take(i + 1).last() == base[i as int]@);
        }
        match packages.get(base[i].as_str()) {
            Some(package) => {
                match &package.dependencies {
                    Some(deps) => {
                        let ghost wanted = strings_view(deps@);
                        assert(wanted == package_dependencies(packages@[base[i as int]@]));
                        let mut j: usize = 0;
                        assert(front + wanted.take(0) =~= front);
                        while j < deps.len()
                            invariant
                                j <= deps.len(),
                                i < base.len(),
                                names == strings_view(base@),
                                wanted == strings_view(deps@),
                                wanted == package_dependencies(packages@[base[i as int]@]),
                                front == dependency_names(names.take(i as int), packages@),
                                names.take(i + 1).drop_last() == names.take(i as int),
                                names.take(i + 1).last() == base[i as int]@,
                                strings_view(out@) == front + wanted.take(j as int),
                                forall|k: int|
                                    0 <= k < out.len() ==> packages@.dom().contains(
                                        #[trigger] out[k]@,
                                    ),
                            decreases deps.len() - j,
                        {
                            if !packages.contains_key(deps[j].as_str()) {
                                proof {
                                    let all = dependency_names(names, packages@);
                                    let upto = dependency_names(names.take(i + 1), packages@);
                                    lemma_dependency_names_prefix(names, packages@, i + 1);
                                    let at = out.len() as int;
                                    assert(upto == front + wanted);
                                    assert(strings_view(out@).len() == out.len());
                                    assert(wanted.take(j as int).len() == j);
                                    assert(at == front.len() + j);
                                    assert(upto[at] == wanted[j as int]);
                                    assert(upto =~= all.subrange(0, upto.len() as int));
                                    assert(all[at] == all.subrange(0, upto.len() as int)[at]);
                                    assert(all[at] == deps[j as int]@);
                                    assert forall|k: int| 0 <= k < at implies packages@.dom().contains(
                                        all[k],
                                    ) by {
                                        assert(all[k] == all.subrange(0, upto.len() as int)[k]);
                                        assert(all[k] == upto[k]);
                                        assert(upto[k] == strings_view(out@)[k]);
                                        assert(strings_view(out@)[k] == out[k]@);
                                    }
                                    lemma_first_missing_at(all, packages@.dom(), at);
                                }
                                return Err(deps[j].clone());
                            }
                            let ghost before = out@;
                            out.push(deps[j].clone());
                            proof {
                                assert(wanted.take(j + 1) =~= wanted.take(j as int).push(
                                    deps[j as int]@,
                                ));
                                assert(strings_view(out@) =~= strings_view(before).push(
                                    deps[j as int]@,
                                ));
                                assert(strings_view(out@) =~= front + wanted.take(j + 1));
                                assert forall|k: int| 0 <= k < out.len() implies packages@.dom().contains(
                                    #[trigger] out[k]@,
                                ) by {
                                    if k < before.len() {
                                        assert(out[k] == before[k]);
                                    }
                                }
                            }
                            j += 1;
                        }
                        assert(wanted.take(deps.len() as int) =~= wanted);
                    },
                    None => {
                        assert(front + Seq::<Seq<char>>::empty() =~= front);
                    },
                }
            },
            None => {},
        }
        i += 1;
    }
    proof {
        assert(names.take(base.len() as int) =~= names);
        lemma_first_missing_none(strings_view(out@), packages@.dom());
    }
    Ok(out)
}

/// Adds a copy of each named package to the selection.
fn select_into(packages: &StrMap<Package>, names: &Vec<String>, selected: &mut StrMap<Package>)
    requires
        forall|j: int| 0 <= j < names.len() ==> packages@.dom().contains(#[trigger] names[j]@),
        forall|k: Seq<char>| #[trigger]
            old(selected)@.dom().contains(k) ==> packages@.dom().contains(k) && old(selected)@[k]@
                == packages@[k]@,
    ensures
        final(selected)@.dom() == old(selected)@.dom().union(strings_view(names@).to_set()),
        final(selected).key_seq() == with_keys(old(selected).key_seq(), strings_view(names@)),
        forall|k: Seq<char>| #[trigger]
            final(selected)@.dom().contains(k) ==> packages@.dom().contains(k)
                && final(selected)@[k]@ == packages@[k]@,
{
    let ghost start = selected@.dom();
    let ghost start_keys = selected.key_seq();
    let mut i: usize = 0;
    proof {
        assert(strings_view(names@).take(0).to_set() =~= Set::<Seq<char>>::empty());
        assert(strings_view(names@).take(0) =~= Seq::<Seq<char>>::empty());
        assert(start.union(Set::<Seq<char>>::empty()) =~= start);
    }
    while i < names.len()
        invariant
            i <= names.len(),
            selected.key_seq() == with_keys(start_keys, strings_view(names@).take(i as int)),
            forall|j: int| 0 <= j < names.len() ==> packages@.dom().contains(#[trigger] names[j]@),
            selected@.dom() == start.union(strings_view(names@).take(i as int).to_set()),
            forall|k: Seq<char>| #[trigger]
                selected@.dom().contains(k) ==> packages@.dom().contains(k) && selected@[k]@
                    == packages@[k]@,
        decreases names.len() - i,
    {
        match packages.get(names[i].as_str()) {
            Some(package) => {
                selected.insert(names[i].clone(), package.clone());
                proof {
                    let prev = strings_view(names@).take(i as int);
                    let next = strings_view(names@).take(i + 1);
                    assert(next =~= prev.push(names[i as int]@));
                    assert(next.drop_last() =~= prev);
                    assert(next.to_set() =~= prev.to_set().insert(names[i as int]@)) by {
                        assert forall|k: Seq<char>| next.to_set().contains(k) <==> prev.to_set().insert(
                            names[i as int]@,
                        ).contains(k) by {
                            if next.contains(k) {
                                let a = choose|a: int| 0 <= a < next.len() && next[a] == k;
                                if a < i {
                                    assert(prev[a] == k);
                                }
                            }
                            if prev.contains(k) {
                                let a = choose|a: int| 0 <= a < prev.len() && prev[a] == k;
                                assert(next[a] == k);
                            }
                            if k == names[i as int]@ {
                                assert(next[i as int] == k);
                            }
                        }
                    }
                    assert(selected@.dom() =~= start.union(next.to_set()));
                }
            },
            None => {},
        }
        i += 1;
    }
    proof {
        assert(strings_view(names@).take(names.len() as int) =~= strings_view(names@));
    }
}

/// The view of an optional list of names.
pub open spec fn names_view(names: Option<&Vec<String>>) -> Option<Seq<Seq<char>>> {
    match names {
        Some(v) => Some(strings_view(v@)),
        None => None,
    }
}

/// Resolves a selection to copies of the packages it stands for, keyed by
/// name: those of the base list, then their dependencies. `names` are the
/// names given explicitly, `profile` the packages of the active profile;
/// the first that is there decides the base list.
pub fn resolve(
    packages: &StrMap<Package>,
    names: Option<&Vec<String>>,
    profile: Option<&Vec<String>>,
) -> (r: Result<StrMap<Package>, DotrError>)
    ensures
        match r {
            Ok(selected) => resolution(
                packages@,
                base_names(packages, names_view(names), names_view(profile)),
            ) == Ok::<Set<Seq<char>>, ErrorView>(selected@.dom()) && selected.key_seq()
                == selection_order(
                packages@,
                base_names(packages, names_view(names), names_view(profile)),
            ) && forall|k: Seq<char>| #[trigger]
                selected@.dom().contains(k) ==> packages@.dom().contains(k) && selected@[k]@
                    == packages@[k]@,
            Err(e) => resolution(
                packages@,
                base_names(packages, names_view(names), names_view(profile)),
            ) == Err::<Set<Seq<char>>, ErrorView>(e@),
        },
{
    let unskipped_names: Vec<String>;
    let base: &Vec<String> = match names {
        Some(given) => given,
        None => match profile {
            Some(deps) => deps,
            None => {
                unskipped_names = collect_unskipped(packages);
                proof {
                    lemma_first_missing_none(strings_view(unskipped_names@), packages@.dom());
                }
                &unskipped_names
            },
        },
    };
    assert(strings_view(base@) == base_names(packages, names_view(names), names_view(profile)));
    match find_missing(packages, base) {
        Some(i) => {
            return Err(DotrError::PackageNotFound(base[i].clone()));
        },
        None => {},
    }
    let deps = match collect_dependencies(packages, base) {
        Ok(d) => d,
        Err(name) => {
            return Err(DotrError::DependencyNotFound(name));
        },
    };
    let mut selected: StrMap<Package> = StrMap::new();
    assert(selected.key_seq() =~= Seq::<Seq<char>>::empty());
    select_into(packages, base, &mut selected);
    select_into(packages, &deps, &mut selected);
    proof {
        assert(selected@.dom() =~= strings_view(base@).to_set().union(
            strings_view(deps@).to_set(),
        ));
    }
    Ok(selected)
}

} // verus!
