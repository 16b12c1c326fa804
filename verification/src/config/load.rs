//! Checks made while loading a configuration, and their errors.
use super::{AppConfig, ProviderConfig, SecurityProfileConfig, ServiceConfig};
use crate::text::contains_string;
use vstd::prelude::*;

verus! {

/// Something with a name that must be unique among its kind.
pub trait Named {
    spec fn name_view(&self) -> Seq<char>;

    fn name(&self) -> (r: &String)
        ensures
            r@ == self.name_view(),
    ;
}

impl Named for ProviderConfig {
    open spec fn name_view(&self) -> Seq<char> {
        self.name@
    }

    fn name(&self) -> (r: &String) {
        &self.name
    }
}

impl Named for ServiceConfig {
    open spec fn name_view(&self) -> Seq<char> {
        self.name@
    }

    fn name(&self) -> (r: &String) {
        &self.name
    }
}

impl Named for (String, SecurityProfileConfig) {
    open spec fn name_view(&self) -> Seq<char> {
        self.0@
    }

    fn name(&self) -> (r: &String) {
        &self.0
    }
}

pub open spec fn names_of<T: Named>(s: Seq<T>) -> Seq<Seq<char>> {
    s.map_values(|t: T| t.name_view())
}

/// The first name, read in order, that was seen before it: in `seen` or
/// earlier in `names`.
pub open spec fn first_dup_from(seen: Seq<Seq<char>>, names: Seq<Seq<char>>) -> Option<Seq<char>>
    decreases names.len(),
{
    if names.len() == 0 {
        None
    } else if seen.contains(names[0]) {
        Some(names[0])
    } else {
        first_dup_from(seen.push(names[0]), names.drop_first())
    }
}

/// Why a configuration was refused.
#[derive(Debug)]
pub enum ConfigError {
    DuplicateInlineProvider(String),
    DuplicateInlineService(String),
    DuplicateProvider { name: String, file: String },
    DuplicateService { name: String, file: String },
    DuplicateProfile { name: String, file: String },
    FragmentUnreadable { file: String, detail: String },
    FragmentInvalid { file: String, detail: String },
}

pub enum ConfigErrorView {
    DuplicateInlineProvider(Seq<char>),
    DuplicateInlineService(Seq<char>),
    DuplicateProvider { name: Seq<char>, file: Seq<char> },
    DuplicateService { name: Seq<char>, file: Seq<char> },
    DuplicateProfile { name: Seq<char>, file: Seq<char> },
    FragmentUnreadable { file: Seq<char>, detail: Seq<char> },
    FragmentInvalid { file: Seq<char>, detail: Seq<char> },
}

impl View for ConfigError {
    type V = ConfigErrorView;

    open spec fn view(&self) -> ConfigErrorView {
        match self {
            ConfigError::DuplicateInlineProvider(n) => ConfigErrorView::DuplicateInlineProvider(n@),
            ConfigError::DuplicateInlineService(n) => ConfigErrorView::DuplicateInlineService(n@),
            ConfigError::DuplicateProvider { name, file } => ConfigErrorView::DuplicateProvider {
                name: name@,
                file: file@,
            },
            ConfigError::DuplicateService { name, file } => ConfigErrorView::DuplicateService {
                name: name@,
                file: file@,
            },
            ConfigError::DuplicateProfile { name, file } => ConfigErrorView::DuplicateProfile {
                name: name@,
                file: file@,
            },
            ConfigError::FragmentUnreadable { file, detail } => ConfigErrorView::FragmentUnreadable {
                file: file@,
                detail: detail@,
            },
            ConfigError::FragmentInvalid { file, detail } => ConfigErrorView::FragmentInvalid {
                file: file@,
                detail: detail@,
            },
        }
    }
}

/// The text of a configuration error: its own context, without the cause.
pub open spec fn spec_config_message(e: ConfigErrorView) -> Seq<char> {
    match e {
        ConfigErrorView::DuplicateInlineProvider(n) => "duplicate provider name in main config: "@
            + n,
        ConfigErrorView::DuplicateInlineService(n) => "duplicate service name in main config: "@
            + n,
        ConfigErrorView::DuplicateProvider { name, file } => "duplicate provider name `"@ + name
            + "` found while loading "@ + file,
        ConfigErrorView::DuplicateService { name, file } => "duplicate service name `"@ + name
            + "` found while loading "@ + file,
        ConfigErrorView::DuplicateProfile { name, file } => "duplicate security profile `"@ + name
            + "` found while loading "@ + file,
        ConfigErrorView::FragmentUnreadable { file, .. } => "unable to read split config file "@
            + file,
        ConfigErrorView::FragmentInvalid { file, .. } => "invalid split config TOML at "@ + file,
    }
}

/// The cause under a configuration error's context, where it has one.
pub open spec fn spec_config_detail(e: ConfigErrorView) -> Option<Seq<char>> {
    match e {
        ConfigErrorView::FragmentUnreadable { detail, .. } => Some(detail),
        ConfigErrorView::FragmentInvalid { detail, .. } => Some(detail),
        _ => None,
    }
}

fn concat3(a: &str, b: &String, c: &str, d: &String) -> (r: String)
    ensures
        r@ == a@ + b@ + c@ + d@,
{
    let mut m = String::from_str(a);
    m.append(b.as_str());
    m.append(c);
    m.append(d.as_str());
    m
}

impl ConfigError {
    /// The text of the error.
    pub fn message(&self) -> (r: String)
        ensures
            r@ == spec_config_message(self@),
    {
        match self {
            ConfigError::DuplicateInlineProvider(n) => {
                let mut m = String::from_str("duplicate provider name in main config: ");
                m.append(n.as_str());
                m
            },
            ConfigError::DuplicateInlineService(n) => {
                let mut m = String::from_str("duplicate service name in main config: ");
                m.append(n.as_str());
                m
            },
            ConfigError::DuplicateProvider { name, file } => concat3(
                "duplicate provider name `",
                name,
                "` found while loading ",
                file,
            ),
            ConfigError::DuplicateService { name, file } => concat3(
                "duplicate service name `",
                name,
                "` found while loading ",
                file,
            ),
            ConfigError::DuplicateProfile { name, file } => concat3(
                "duplicate security profile `",
                name,
                "` found while loading ",
                file,
            ),
            ConfigError::FragmentUnreadable { file, .. } => {
                let mut m = String::from_str("unable to read split config file ");
                m.append(file.as_str());
                m
            },
            ConfigError::FragmentInvalid { file, .. } => {
                let mut m = String::from_str("invalid split config TOML at ");
                m.append(file.as_str());
                m
            },
        }
    }

    /// The cause the error carries under its context, if any.
    pub fn detail(&self) -> (r: Option<String>)
        ensures
            match r {
                Some(d) => spec_config_detail(self@) == Some(d@),
                None => spec_config_detail(self@) is None,
            },
    {
        match self {
            ConfigError::FragmentUnreadable { detail, .. } => Some(detail.clone()),
            ConfigError::FragmentInvalid { detail, .. } => Some(detail.clone()),
            _ => None,
        }
    }
}

pub open spec fn strings_view(v: Seq<String>) -> Seq<Seq<char>> {
    v.map_values(|s: String| s@)
}

/// Appends the names of `items` to `seen` until one repeats a name already
/// there, and returns that one.
pub fn first_duplicate<T: Named>(seen: &mut Vec<String>, items: &Vec<T>) -> (r: Option<String>)
    ensures
        match r {
            Some(n) => first_dup_from(strings_view(old(seen)@), names_of(items@)) == Some(n@),
            None => first_dup_from(strings_view(old(seen)@), names_of(items@)) is None
                && strings_view(final(seen)@) == strings_view(old(seen)@) + names_of(items@),
        },
{
    let ghost s0 = strings_view(seen@);
    let ghost ns = names_of(items@);
    let mut i: usize = 0;
    assert(ns.skip(0) =~= ns);
    assert(ns.take(0) =~= Seq::<Seq<char>>::empty());
    assert(s0 + ns.take(0) =~= s0);
    while i < items.len()
        invariant
            i <= items.len(),
            ns == names_of(items@),
            s0 == strings_view(old(seen)@),
            strings_view(seen@) == s0 + ns.take(i as int),
            first_dup_from(s0, ns) == first_dup_from(strings_view(seen@), ns.skip(i as int)),
        decreases items.len() - i,
    {
        let name = items[i].name();
        proof {
            assert(ns.skip(i as int)[0] == ns[i as int]);
            assert(ns[i as int] == items@[i as int].name_view());
            assert(ns.skip(i as int).drop_first() =~= ns.skip(i + 1));
        }
        if contains_string(seen, name) {
            assert(strings_view(seen@) =~= seen@.map_values(|x: String| x@));
            return Some(name.clone());
        }
        assert(strings_view(seen@) =~= seen@.map_values(|x: String| x@));
        let ghost before = strings_view(seen@);
        seen.push(name.clone());
        proof {
            assert(strings_view(seen@) =~= before.push(name@));
            assert(s0 + ns.take(i + 1) =~= (s0 + ns.take(i as int)).push(ns[i as int]));
        }
        i = i + 1;
    }
    assert(ns.take(ns.len() as int) =~= ns);
    None
}

/// The check of the main file: provider names distinct, then service names
/// distinct; the first repeated name is reported.
pub open spec fn spec_validate_unique(
    providers: Seq<ProviderConfig>,
    services: Seq<ServiceConfig>,
) -> Result<(), ConfigErrorView> {
    match first_dup_from(seq![], names_of(providers)) {
        Some(n) => Err(ConfigErrorView::DuplicateInlineProvider(n)),
        None => match first_dup_from(seq![], names_of(services)) {
            Some(n) => Err(ConfigErrorView::DuplicateInlineService(n)),
            None => Ok(()),
        },
    }
}

/// Refuses a main configuration that names two providers, or two
/// services, alike.
pub fn validate_unique_inline_names(cfg: &AppConfig) -> (r: Result<(), ConfigError>)
    ensures
        match r {
            Ok(()) => spec_validate_unique(cfg.providers@, cfg.services@) == Ok::<
                (),
                ConfigErrorView,
            >(()),
            Err(e) => spec_validate_unique(cfg.providers@, cfg.services@) == Err::<
                (),
                ConfigErrorView,
            >(e@),
        },
{
    let mut seen: Vec<String> = Vec::new();
    assert(strings_view(seen@) =~= Seq::<Seq<char>>::empty());
    if let Some(n) = first_duplicate(&mut seen, &cfg.providers) {
        return Err(ConfigError::DuplicateInlineProvider(n));
    }
    let mut seen2: Vec<String> = Vec::new();
    assert(strings_view(seen2@) =~= Seq::<Seq<char>>::empty());
    if let Some(n) = first_duplicate(&mut seen2, &cfg.services) {
        return Err(ConfigError::DuplicateInlineService(n));
    }
    Ok(())
}

proof fn lemma_no_dup_extend(seen: Seq<Seq<char>>, names: Seq<Seq<char>>)
    requires
        seen.no_duplicates(),
        first_dup_from(seen, names) is None,
    ensures
        (seen + names).no_duplicates(),
    decreases names.len(),
{
    if names.len() > 0 {
        let s2 = seen.push(names[0]);
        assert(s2.no_duplicates()) by {
            assert forall|i: int, j: int| 0 <= i < s2.len() && 0 <= j < s2.len() && i != j implies s2[i]
                != s2[j] by {
                if i == seen.len() as int {
                    assert(!seen.contains(names[0]));
                    assert(s2[j] == seen[j]);
                } else if j == seen.len() as int {
                    assert(!seen.contains(names[0]));
                    assert(s2[i] == seen[i]);
                }
            }
        }
        lemma_no_dup_extend(s2, names.drop_first());
        assert(s2 + names.drop_first() =~= seen + names);
    } else {
        assert(seen + names =~= seen);
    }
}

/// A main file that passes the check names each provider once and each
/// service once.
pub proof fn law_validated_names_unique(providers: Seq<ProviderConfig>, services: Seq<ServiceConfig>)
    requires
        spec_validate_unique(providers, services) is Ok,
    ensures
        names_of(providers).no_duplicates(),
        names_of(services).no_duplicates(),
{
    lemma_no_dup_extend(seq![], names_of(providers));
    lemma_no_dup_extend(seq![], names_of(services));
    assert(Seq::<Seq<char>>::empty() + names_of(providers) =~= names_of(providers));
    assert(Seq::<Seq<char>>::empty() + names_of(services) =~= names_of(services));
}

/// The converse of `lemma_first_dup_none_extends`: when the names joined
/// to `seen` repeat nothing, no repetition is found.
pub proof fn lemma_distinct_has_no_first_dup(seen: Seq<Seq<char>>, names: Seq<Seq<char>>)
    requires
        (seen + names).no_duplicates(),
    ensures
        first_dup_from(seen, names) is None,
    decreases names.len(),
{
    if names.len() > 0 {
        let all = seen + names;
        assert(all[seen.len() as int] == names[0]);
        if seen.contains(names[0]) {
            let j = choose|j: int| 0 <= j < seen.len() && seen[j] == names[0];
            assert(all[j] == names[0]);
        }
        assert(seen.push(names[0]) + names.drop_first() =~= all);
        lemma_distinct_has_no_first_dup(seen.push(names[0]), names.drop_first());
    }
}

/// The main file passes the name check exactly when its providers are named
/// distinctly and its services are named distinctly.
pub proof fn law_validate_iff_distinct(providers: Seq<ProviderConfig>, services: Seq<ServiceConfig>)
    ensures
        spec_validate_unique(providers, services) is Ok <==> names_of(providers).no_duplicates()
            && names_of(services).no_duplicates(),
{
    let e = Seq::<Seq<char>>::empty();
    assert(e + names_of(providers) =~= names_of(providers));
    assert(e + names_of(services) =~= names_of(services));
    if names_of(providers).no_duplicates() {
        lemma_distinct_has_no_first_dup(e, names_of(providers));
    }
    if names_of(services).no_duplicates() {
        lemma_distinct_has_no_first_dup(e, names_of(services));
    }
    if first_dup_from(e, names_of(providers)) is None {
        lemma_no_dup_extend(e, names_of(providers));
    }
    if first_dup_from(e, names_of(services)) is None {
        lemma_no_dup_extend(e, names_of(services));
    }
}

pub proof fn lemma_first_dup_none_extends(seen: Seq<Seq<char>>, names: Seq<Seq<char>>)
    requires
        seen.no_duplicates(),
        first_dup_from(seen, names) is None,
    ensures
        (seen + names).no_duplicates(),
{
    lemma_no_dup_extend(seen, names);
}

} // verus!
