//! Where a manifest names the crates that a package depends on.

use vstd::prelude::*;
use vstd::string::*;

use crate::bytes::optional_text;
use crate::text::text_is;
use crate::text::texts;

verus! {

/// A range of bytes.
#[derive(Clone, Copy, Debug, PartialEq, Eq, Structural)]
pub struct Span {
    pub start: usize,
    pub end: usize,
}

/// A dependency in a manifest: its key, and the package that it is renamed
/// from, where the manifest names one.
pub struct DependencySpan {
    pub name: String,
    pub key: Span,
    pub package: Option<Span>,
}

/// The dependencies that a manifest has for one platform. They are absent where
/// the manifest has no such table.
pub struct PlatformTable {
    pub platform: String,
    pub dependencies: Option<Vec<DependencySpan>>,
}

/// The places in a manifest that messages point to.
pub struct ManifestSpans {
    pub dependencies: Vec<DependencySpan>,
    pub platforms: Vec<PlatformTable>,
}

/// A condition that holds for a target: a name, or a name with a value.
pub struct CfgValue {
    pub name: String,
    pub value: Option<String>,
}

/// A condition as plain values.
pub type Condition = (Seq<char>, Option<Seq<char>>);

/// Conditions as plain values.
pub open spec fn conditions(list: Seq<CfgValue>) -> Seq<Condition> {
    list.map_values(|cfg: CfgValue| (cfg.name@, optional_text(cfg.value)))
}

/// What a text is as a platform, by `cargo_platform::Platform::from_str`: `None`
/// where it is none, the name of a target, or a condition, which has no name.
pub uninterp spec fn platform_of(text: Seq<char>) -> Option<Option<Seq<char>>>;

/// Whether a text is a condition, by `cargo_platform::Platform::from_str`, that
/// holds, by `cargo_platform::CfgExpr::matches`.
pub uninterp spec fn condition_holds(text: Seq<char>, cfgs: Seq<(Seq<char>, Option<Seq<char>>)>) -> bool;

/// Calls `cargo_platform::Platform::from_str`, whose result depends on the text
/// alone. The name of a target is the text itself.
#[verifier::external_body]
fn parse_platform(text: &str) -> (platform: Option<Option<String>>)
    ensures
        match platform {
            Some(Some(name)) => platform_of(text@) == Some(Some(name@)) && name@ == text@,
            Some(None) => platform_of(text@) == Some(None::<Seq<char>>),
            None => platform_of(text@) is None,
        },
{
    match text.parse::<cargo_platform::Platform>() {
        Ok(cargo_platform::Platform::Name(name)) => Some(Some(name)),
        Ok(cargo_platform::Platform::Cfg(_)) => Some(None),
        Err(_) => None,
    }
}

/// Calls `cargo_platform::CfgExpr::matches` for the condition that
/// `cargo_platform::Platform::from_str` reads a text as. The result depends on
/// the text and on the conditions that hold; it is `false` for a text that is no
/// condition.
#[verifier::external_body]
fn matches_condition(text: &str, cfgs: &Vec<CfgValue>) -> (holds: bool)
    ensures
        holds == condition_holds(text@, conditions(cfgs@)),
{
    let list: Vec<cargo_platform::Cfg> = cfgs.iter().map(
        |cfg|
            {
                let name = cargo_platform::Ident { name: cfg.name.clone(), raw: false };
                match &cfg.value {
                    Some(value) => cargo_platform::Cfg::KeyPair(name, value.clone()),
                    None => cargo_platform::Cfg::Name(name),
                }
            },
    ).collect();
    match text.parse::<cargo_platform::Platform>() {
        Ok(cargo_platform::Platform::Cfg(expression)) => expression.matches(&list),
        _ => false,
    }
}

/// A crate that a unit depends on: the name of its package, and what it is
/// called in the unit.
pub struct NamedDependency {
    pub package: String,
    pub extern_crate_name: String,
}

/// How many dependencies have a package name.
pub open spec fn occurrences(dependencies: Seq<NamedDependency>, name: Seq<char>) -> int
    decreases dependencies.len(),
{
    if dependencies.len() == 0 {
        0
    } else {
        occurrences(dependencies.drop_last(), name) + if dependencies.last().package@ == name {
            1int
        } else {
            0
        }
    }
}

/// What the only dependency with a package name is called.
pub open spec fn only_name(dependencies: Seq<NamedDependency>, name: Seq<char>) -> Option<
    Seq<char>,
>
    decreases dependencies.len(),
{
    if occurrences(dependencies, name) != 1 {
        None
    } else if dependencies.last().package@ == name {
        Some(dependencies.last().extern_crate_name@)
    } else {
        only_name(dependencies.drop_last(), name)
    }
}

/// A number of occurrences is not negative.
proof fn lemma_occurrences(dependencies: Seq<NamedDependency>, name: Seq<char>)
    ensures
        0 <= occurrences(dependencies, name) <= dependencies.len(),
    decreases dependencies.len(),
{
    if dependencies.len() > 0 {
        lemma_occurrences(dependencies.drop_last(), name);
    }
}

/// What the only dependency with a package name is called. A name that several
/// dependencies have is ambiguous.
pub fn renamed(dependencies: &Vec<NamedDependency>, name: &str) -> (result: Option<String>)
    ensures
        optional_text(result) == only_name(dependencies@, name@),
{
    let mut seen: usize = 0;
    let mut found: usize = 0;
    let mut index: usize = 0;
    proof {
        assert(dependencies@.take(0) =~= Seq::empty());
    }
    while index < dependencies.len()
        invariant
            index <= dependencies@.len(),
            seen <= index,
            seen == occurrences(dependencies@.take(index as int), name@),
            seen == 1 ==> found < index && only_name(dependencies@.take(index as int), name@)
                == Some(dependencies@[found as int].extern_crate_name@),
        decreases dependencies@.len() - index,
    {
        proof {
            assert(dependencies@.take(index + 1).drop_last() =~= dependencies@.take(
                index as int,
            ));
            assert(dependencies@.take(index + 1).last() == dependencies@[index as int]);
            lemma_occurrences(dependencies@.take(index as int), name@);
        }
        if text_is(dependencies[index].package.as_str(), name) {
            seen = seen + 1;
            found = index;
        }
        index = index + 1;
    }
    proof {
        assert(dependencies@.take(index as int) =~= dependencies@);
    }
    if seen == 1 {
        Some(dependencies[found].extern_crate_name.as_str().to_owned())
    } else {
        None
    }
}

/// What messages need to know of a manifest.
pub struct ManifestErrorContext {
    /// The places, where the manifest could be read.
    pub spans: Option<ManifestSpans>,
    pub dependencies: Vec<NamedDependency>,
    /// The names of the targets that are compiled for.
    pub requested_targets: Vec<String>,
    /// The conditions that hold for each of them.
    pub cfgs: Vec<Vec<CfgValue>>,
}

/// The place of a dependency: the package that it is renamed from, or its key.
pub open spec fn place_of(dependency: DependencySpan) -> Span {
    match dependency.package {
        Some(package) => package,
        None => dependency.key,
    }
}

/// The place of the dependency with a name.
pub open spec fn place_in(list: Seq<DependencySpan>, name: Seq<char>) -> Option<Span>
    decreases list.len(),
{
    if list.len() == 0 {
        None
    } else if list[0].name@ == name {
        Some(place_of(list[0]))
    } else {
        place_in(list.drop_first(), name)
    }
}

/// Whether a platform is one of those that are compiled for, given what it is
/// and, for each target, whether its condition holds.
pub open spec fn is_requested(
    context: ManifestErrorContext,
    platform: Option<Option<Seq<char>>>,
    holds: Seq<bool>,
) -> bool {
    match platform {
        None => false,
        Some(Some(name)) => texts(context.requested_targets@).contains(name),
        Some(None) => holds.contains(true),
    }
}

/// For each target, whether the condition that a text is holds.
pub open spec fn holding(context: ManifestErrorContext, text: Seq<char>) -> Seq<bool> {
    Seq::new(
        context.cfgs@.len(),
        |i: int| condition_holds(text, conditions(context.cfgs@[i]@)),
    )
}

/// For each table, whether its platform is one of those that are compiled for.
pub open spec fn requested_tables(
    context: ManifestErrorContext,
    platforms: Seq<PlatformTable>,
) -> Seq<bool> {
    Seq::new(
        platforms.len(),
        |i: int|
            is_requested(
                context,
                platform_of(platforms[i].platform@),
                holding(context, platforms[i].platform@),
            ),
    )
}

/// The place of a dependency in the tables that are requested.
pub open spec fn place_in_platforms(
    platforms: Seq<PlatformTable>,
    requested: Seq<bool>,
    name: Seq<char>,
) -> Option<Span>
    decreases platforms.len(),
{
    if platforms.len() == 0 {
        None
    } else {
        let here = match platforms[0].dependencies {
            Some(list) => if requested[0] {
                place_in(list@, name)
            } else {
                None
            },
            None => None,
        };
        match here {
            Some(span) => Some(span),
            None => place_in_platforms(platforms.drop_first(), requested.drop_first(), name),
        }
    }
}

/// The place of the dependency on a package, if it is unique, given which of the
/// tables for platforms are requested.
pub open spec fn crate_span_with(
    context: ManifestErrorContext,
    requested: Seq<bool>,
    package: Seq<char>,
) -> Option<Span> {
    match (context.spans, only_name(context.dependencies@, package)) {
        (Some(spans), Some(name)) => match place_in(spans.dependencies@, name) {
            Some(span) => Some(span),
            None => place_in_platforms(spans.platforms@, requested, name),
        },
        _ => None,
    }
}

/// The place of the dependency on a package, if it is unique.
pub open spec fn crate_span(context: ManifestErrorContext, package: Seq<char>) -> Option<Span> {
    match context.spans {
        Some(spans) => crate_span_with(
            context,
            requested_tables(context, spans.platforms@),
            package,
        ),
        None => None,
    }
}

/// What a text is as a platform.
pub open spec fn plain_platform(platform: Option<Option<String>>) -> Option<Option<Seq<char>>> {
    match platform {
        None => None,
        Some(name) => Some(optional_text(name)),
    }
}

/// The place of the dependency with a name.
fn find_place(list: &Vec<DependencySpan>, name: &str) -> (span: Option<Span>)
    ensures
        span == place_in(list@, name@),
{
    let mut index: usize = 0;
    proof {
        assert(list@.skip(0) =~= list@);
    }
    while index < list.len()
        invariant
            index <= list@.len(),
            place_in(list@, name@) == place_in(list@.skip(index as int), name@),
        decreases list@.len() - index,
    {
        proof {
            assert(list@.skip(index as int)[0] == list@[index as int]);
            assert(list@.skip(index as int).drop_first() =~= list@.skip(index + 1));
        }
        if text_is(list[index].name.as_str(), name) {
            return match list[index].package {
                Some(package) => Some(package),
                None => Some(list[index].key),
            };
        }
        index = index + 1;
    }
    proof {
        assert(list@.skip(index as int).len() == 0);
    }
    None
}

impl ManifestErrorContext {
    /// Whether one of the requested targets has a name.
    fn requests_target(&self, name: &str) -> (requested: bool)
        ensures
            requested == texts(self.requested_targets@).contains(name@),
    {
        let list = &self.requested_targets;
        let mut index: usize = 0;
        while index < list.len()
            invariant
                index <= list@.len(),
                list@ == self.requested_targets@,
                forall|i: int| 0 <= i < index ==> #[trigger] texts(list@)[i] != name@,
            decreases list@.len() - index,
        {
            proof {
                assert(texts(list@)[index as int] == list@[index as int]@);
            }
            if text_is(list[index].as_str(), name) {
                return true;
            }
            index = index + 1;
        }
        proof {
            assert(texts(list@).len() == list@.len());
        }
        false
    }

    /// Whether a platform is one of those that are compiled for, given what it
    /// is and, for each target, whether its condition holds.
    pub fn requests_with(&self, platform: &Option<Option<String>>, holds: &Vec<bool>) -> (requested:
        bool)
        ensures
            requested == is_requested(*self, plain_platform(*platform), holds@),
    {
        match platform {
            None => false,
            Some(Some(name)) => self.requests_target(name.as_str()),
            Some(None) => {
                let mut index: usize = 0;
                while index < holds.len()
                    invariant
                        index <= holds@.len(),
                        plain_platform(*platform) == Some(None::<Seq<char>>),
                        forall|i: int| 0 <= i < index ==> !(#[trigger] holds@[i]),
                    decreases holds@.len() - index,
                {
                    if holds[index] {
                        proof {
                            assert(holds@[index as int]);
                        }
                        return true;
                    }
                    index = index + 1;
                }
                false
            },
        }
    }

    /// Whether a platform is one of those that are compiled for.
    fn requests(&self, platform: &str) -> (requested: bool)
        ensures
            requested == is_requested(*self, platform_of(platform@), holding(*self, platform@)),
    {
        let mut holds: Vec<bool> = Vec::new();
        while holds.len() < self.cfgs.len()
            invariant
                holds@.len() <= self.cfgs@.len(),
                holds@ == holding(*self, platform@).take(holds@.len() as int),
            decreases self.cfgs@.len() - holds@.len(),
        {
            let ghost before = holds@;
            let held = matches_condition(platform, &self.cfgs[holds.len()]);
            holds.push(held);
            proof {
                assert(holds@ =~= holding(*self, platform@).take(before.len() as int + 1));
            }
        }
        proof {
            assert(holds@ =~= holding(*self, platform@));
        }
        self.requests_with(&parse_platform(platform), &holds)
    }

    /// The place of the dependency on a package, if it is unique, given which of
    /// the tables for platforms are requested.
    pub fn find_crate_span_with(&self, unrenamed: &str, requested: &Vec<bool>) -> (span: Option<
        Span,
    >)
        requires
            self.spans is Some ==> self.spans->Some_0.platforms@.len() == requested@.len(),
        ensures
            span == crate_span_with(*self, requested@, unrenamed@),
    {
        let spans = match &self.spans {
            Some(spans) => spans,
            None => {
                return None;
            },
        };
        let name = match renamed(&self.dependencies, unrenamed) {
            Some(name) => name,
            None => {
                return None;
            },
        };
        match find_place(&spans.dependencies, name.as_str()) {
            Some(span) => {
                return Some(span);
            },
            None => {},
        }
        let ghost all = spans.platforms@;
        let mut index: usize = 0;
        proof {
            assert(all.skip(0) =~= all);
            assert(requested@.skip(0) =~= requested@);
        }
        while index < spans.platforms.len()
            invariant
                index <= spans.platforms@.len(),
                all == spans.platforms@,
                requested@.len() == all.len(),
                crate_span_with(*self, requested@, unrenamed@) == place_in_platforms(
                    all.skip(index as int),
                    requested@.skip(index as int),
                    name@,
                ),
            decreases spans.platforms@.len() - index,
        {
            let table = &spans.platforms[index];
            proof {
                assert(all.skip(index as int)[0] == all[index as int]);
                assert(all.skip(index as int).drop_first() =~= all.skip(index + 1));
                assert(requested@.skip(index as int)[0] == requested@[index as int]);
                assert(requested@.skip(index as int).drop_first() =~= requested@.skip(index + 1));
            }
            if requested[index] {
                match &table.dependencies {
                    Some(list) => match find_place(list, name.as_str()) {
                        Some(span) => {
                            return Some(span);
                        },
                        None => {},
                    },
                    None => {},
                }
            }
            index = index + 1;
        }
        proof {
            assert(all.skip(index as int).len() == 0);
        }
        None
    }

    /// The place of the dependency on a package, if it is unique. Messages name
    /// the package, whatever the dependency is renamed to.
    pub fn find_crate_span(&self, unrenamed: &str) -> (span: Option<Span>)
        ensures
            span == crate_span(*self, unrenamed@),
    {
        let spans = match &self.spans {
            Some(spans) => spans,
            None => {
                return None;
            },
        };
        let ghost all = requested_tables(*self, spans.platforms@);
        let mut requested: Vec<bool> = Vec::new();
        while requested.len() < spans.platforms.len()
            invariant
                requested@.len() <= spans.platforms@.len(),
                all == requested_tables(*self, spans.platforms@),
                requested@ == all.take(requested@.len() as int),
            decreases spans.platforms@.len() - requested@.len(),
        {
            let ghost before = requested@;
            let wanted = self.requests(spans.platforms[requested.len()].platform.as_str());
            requested.push(wanted);
            proof {
                assert(requested@ =~= all.take(before.len() as int + 1));
            }
        }
        proof {
            assert(requested@ =~= all);
        }
        self.find_crate_span_with(unrenamed, &requested)
    }
}

/// A package that no dependency has does not occur.
proof fn lemma_no_occurrence(dependencies: Seq<NamedDependency>, name: Seq<char>)
    ensures
        occurrences(dependencies, name) >= 0,
        (forall|i: int|
            0 <= i < dependencies.len() ==> (#[trigger] dependencies[i]).package@ != name) ==> occurrences(
            dependencies,
            name,
        ) == 0,
        (exists|i: int|
            0 <= i < dependencies.len() && (#[trigger] dependencies[i]).package@ == name) ==> occurrences(
            dependencies,
            name,
        ) >= 1,
    decreases dependencies.len(),
{
    if dependencies.len() > 0 {
        let front = dependencies.drop_last();
        lemma_no_occurrence(front, name);
        assert(dependencies.last() == dependencies[dependencies.len() - 1]);
        assert forall|i: int| 0 <= i < front.len() implies #[trigger] front[i]
            == dependencies[i] by {}
        if exists|i: int| 0 <= i < dependencies.len() && (#[trigger] dependencies[i]).package@ == name {
            let i = choose|i: int|
                0 <= i < dependencies.len() && (#[trigger] dependencies[i]).package@ == name;
            if i < front.len() {
                assert(front[i].package@ == name);
            }
        }
        if forall|i: int| 0 <= i < dependencies.len() ==> (#[trigger] dependencies[i]).package@ != name {
            assert forall|i: int| 0 <= i < front.len() implies (#[trigger] front[i]).package@
                != name by {
                assert(front[i] == dependencies[i]);
            }
        }
    }
}

/// A package is called what the only dependency on it is called. Two dependencies on
/// one package give it no name, and neither does none.
pub proof fn law_only_dependencies_name_packages(
    dependencies: Seq<NamedDependency>,
    name: Seq<char>,
    at: int,
    other: int,
)
    requires
        0 <= at < dependencies.len(),
        dependencies[at].package@ == name,
    ensures
        (forall|i: int|
            0 <= i < dependencies.len() && i != at ==> (#[trigger] dependencies[i]).package@ != name)
            ==> only_name(dependencies, name) == Some(dependencies[at].extern_crate_name@),
        0 <= other < dependencies.len() && other != at && dependencies[other].package@ == name
            ==> only_name(dependencies, name) is None && occurrences(dependencies, name) >= 2,
    decreases dependencies.len(),
{
    let front = dependencies.drop_last();
    lemma_no_occurrence(front, name);
    assert(dependencies.last() == dependencies[dependencies.len() - 1]);
    if forall|i: int|
        0 <= i < dependencies.len() && i != at ==> (#[trigger] dependencies[i]).package@ != name {
        assert forall|i: int| 0 <= i < front.len() && i != at implies (#[trigger] front[i]).package@
            != name by {
            assert(front[i] == dependencies[i]);
        }
        if at < front.len() {
            law_only_dependencies_name_packages(front, name, at, at);
        }
    }
    if 0 <= other < dependencies.len() && other != at && dependencies[other].package@ == name {
        if at < front.len() && other < front.len() {
            law_only_dependencies_name_packages(front, name, at, other);
        } else if at < front.len() {
            assert(front[at].package@ == name);
        } else {
            assert(front[other].package@ == name);
        }
    }
}

/// The first place with a name is the one that is found.
proof fn lemma_first_place(list: Seq<DependencySpan>, name: Seq<char>, at: int)
    requires
        0 <= at <= list.len(),
        at < list.len() ==> list[at].name@ == name,
        forall|k: int| 0 <= k < at ==> (#[trigger] list[k]).name@ != name,
    ensures
        place_in(list, name) == if at < list.len() {
            Some(
                match list[at].package {
                    Some(package) => package,
                    None => list[at].key,
                },
            )
        } else {
            None
        },
    decreases list.len(),
{
    if at > 0 {
        assert(list[0].name@ != name);
        let rest = list.drop_first();
        assert forall|k: int| 0 <= k < at - 1 implies (#[trigger] rest[k]).name@ != name by {
            assert(rest[k] == list[k + 1]);
        }
        lemma_first_place(rest, name, at - 1);
    }
}

/// A note points at the place in the manifest where the only dependency on a package
/// stands: at the name of the package where the manifest gives one, at the key
/// elsewhere. Dependencies of all platforms come before those of some.
pub proof fn law_notes_point_at_dependencies(
    context: ManifestErrorContext,
    package: Seq<char>,
    dependency: int,
    at: int,
)
    requires
        context.spans is Some,
        0 <= dependency < context.dependencies@.len(),
        context.dependencies@[dependency].package@ == package,
        forall|i: int|
            0 <= i < context.dependencies@.len() && i != dependency ==> (
            #[trigger] context.dependencies@[i]).package@ != package,
        0 <= at < context.spans->Some_0.dependencies@.len(),
        context.spans->Some_0.dependencies@[at].name@
            == context.dependencies@[dependency].extern_crate_name@,
        forall|k: int|
            0 <= k < at ==> (#[trigger] context.spans->Some_0.dependencies@[k]).name@
                != context.dependencies@[dependency].extern_crate_name@,
    ensures
        crate_span(context, package) == Some(
            match context.spans->Some_0.dependencies@[at].package {
                Some(package) => package,
                None => context.spans->Some_0.dependencies@[at].key,
            },
        ),
{
    law_only_dependencies_name_packages(context.dependencies@, package, dependency, dependency);
    lemma_first_place(
        context.spans->Some_0.dependencies@,
        context.dependencies@[dependency].extern_crate_name@,
        at,
    );
}

/// A package on which nothing depends has no place.
pub proof fn law_other_packages_have_no_place(context: ManifestErrorContext, package: Seq<char>)
    requires
        forall|i: int|
            0 <= i < context.dependencies@.len() ==> (#[trigger] context.dependencies@[i]).package@
                != package,
    ensures
        crate_span(context, package) is None,
{
    lemma_no_occurrence(context.dependencies@, package);
}

} // verus!
