//! Merging split configuration files into the main configuration.
//!
//! Each included file arrives read and parsed (or with the reason it could
//! not be). Files are merged in order: providers, then services, then
//! security profiles; a name may not repeat one of the main file or of an
//! earlier file, and the first repetition or unreadable file is reported.
use super::load::{
    first_dup_from, first_duplicate, lemma_distinct_has_no_first_dup, lemma_first_dup_none_extends,
    names_of, strings_view, ConfigError, ConfigErrorView, Named,
};
use super::{AppConfig, ProviderConfig, SecurityProfileConfig, ServiceConfig};
use vstd::prelude::*;

verus! {

/// Why an included file gave nothing.
#[derive(Debug)]
pub enum FragmentError {
    /// The file could not be read.
    Unreadable(String),
    /// The file is not valid TOML for its section.
    Invalid(String),
}

/// An included file: its path and the entries it holds.
#[derive(Debug)]
pub struct LoadedFile<T> {
    pub path: String,
    pub items: Result<Vec<T>, FragmentError>,
}

/// The included files of each section, in the order the globs listed them.
#[derive(Debug)]
pub struct IncludeFragments {
    pub provider_files: Vec<LoadedFile<ProviderConfig>>,
    pub service_files: Vec<LoadedFile<ServiceConfig>>,
    pub profile_files: Vec<LoadedFile<(String, SecurityProfileConfig)>>,
}

/// Why merging one section stopped.
pub enum MergeFailure {
    Fragment { file: Seq<char>, unreadable: bool, detail: Seq<char> },
    Duplicate { name: Seq<char>, file: Seq<char> },
}

/// The entries a section gains from `files`, or why it gains none.
pub open spec fn spec_merge<T: Named>(seen: Seq<Seq<char>>, files: Seq<LoadedFile<T>>) -> Result<
    Seq<T>,
    MergeFailure,
>
    decreases files.len(),
{
    if files.len() == 0 {
        Ok(seq![])
    } else {
        let f = files[0];
        match f.items {
            Err(FragmentError::Unreadable(d)) => Err(
                MergeFailure::Fragment { file: f.path@, unreadable: true, detail: d@ },
            ),
            Err(FragmentError::Invalid(d)) => Err(
                MergeFailure::Fragment { file: f.path@, unreadable: false, detail: d@ },
            ),
            Ok(v) => match first_dup_from(seen, names_of(v@)) {
                Some(n) => Err(MergeFailure::Duplicate { name: n, file: f.path@ }),
                None => match spec_merge(seen + names_of(v@), files.drop_first()) {
                    Ok(rest) => Ok(v@ + rest),
                    Err(e) => Err(e),
                },
            },
        }
    }
}

pub open spec fn prefix_ok<T>(done: Seq<T>, r: Result<Seq<T>, MergeFailure>) -> Result<Seq<T>, MergeFailure> {
    match r {
        Ok(rest) => Ok(done + rest),
        Err(e) => Err(e),
    }
}

/// A section that split files add to.
#[derive(Debug, Clone, Copy, PartialEq, Eq, Structural)]
pub enum Section {
    Providers,
    Services,
    Profiles,
}

pub open spec fn section_error(s: Section, f: MergeFailure) -> ConfigErrorView {
    match f {
        MergeFailure::Fragment { file, unreadable, detail } => if unreadable {
            ConfigErrorView::FragmentUnreadable { file, detail }
        } else {
            ConfigErrorView::FragmentInvalid { file, detail }
        },
        MergeFailure::Duplicate { name, file } => match s {
            Section::Providers => ConfigErrorView::DuplicateProvider { name, file },
            Section::Services => ConfigErrorView::DuplicateService { name, file },
            Section::Profiles => ConfigErrorView::DuplicateProfile { name, file },
        },
    }
}

/// What a section gains, or the error it stops with.
fn merge_section<T: Named>(seen: Vec<String>, files: Vec<LoadedFile<T>>, section: Section) -> (r: Result<
    Vec<T>,
    ConfigError,
>)
    ensures
        match r {
            Ok(v) => spec_merge(strings_view(seen@), files@) == Ok::<Seq<T>, MergeFailure>(v@),
            Err(e) => spec_merge(strings_view(seen@), files@) matches Err(f) && e@ == section_error(
                section,
                f,
            ),
        },
{
    let ghost s0 = strings_view(seen@);
    let ghost fs = files@;
    let mut known = seen;
    let mut out: Vec<T> = Vec::new();
    assert(fs.skip(0) =~= fs);
    assert(out@ + Seq::<T>::empty() =~= out@);
    for file in it: files
        invariant
            fs == it.seq(),
            fs == files@,
            s0 == strings_view(seen@),
            spec_merge(s0, fs) == prefix_ok(
                out@,
                spec_merge(strings_view(known@), fs.skip(it.index() as int)),
            ),
    {
        let ghost k = it.index() as int;
        proof {
            assert(fs.skip(k)[0] == file);
            assert(fs.skip(k).drop_first() =~= fs.skip(k + 1));
        }
        let LoadedFile { path, items } = file;
        match items {
            Err(FragmentError::Unreadable(d)) => {
                return Err(ConfigError::FragmentUnreadable { file: path, detail: d });
            },
            Err(FragmentError::Invalid(d)) => {
                return Err(ConfigError::FragmentInvalid { file: path, detail: d });
            },
            Ok(v) => {
                let ghost seen_before = strings_view(known@);
                let ghost out_before = out@;
                match first_duplicate(&mut known, &v) {
                    Some(n) => {
                        return Err(
                            match section {
                                Section::Providers => ConfigError::DuplicateProvider {
                                    name: n,
                                    file: path,
                                },
                                Section::Services => ConfigError::DuplicateService {
                                    name: n,
                                    file: path,
                                },
                                Section::Profiles => ConfigError::DuplicateProfile {
                                    name: n,
                                    file: path,
                                },
                            },
                        );
                    },
                    None => {},
                }
                let ghost vv = v@;
                for item in jt: v
                    invariant
                        vv == jt.seq(),
                        out@ == out_before + vv.take(jt.index() as int),
                {
                    out.push(item);
                    assert(out_before + vv.take(jt.index() + 1) =~= out_before + vv.take(
                        jt.index() as int,
                    ) + seq![item]);
                }
                proof {
                    assert(vv.take(vv.len() as int) =~= vv);
                    match spec_merge(strings_view(known@), fs.skip(k + 1)) {
                        Ok(rest) => {
                            assert(out_before + (vv + rest) =~= out@ + rest);
                        },
                        Err(_) => {},
                    }
                }
            },
        }
    }
    assert(out@ + Seq::<T>::empty() =~= out@);
    Ok(out)
}

/// The names of `items`, in order.
fn collect_names<T: Named>(items: &Vec<T>) -> (r: Vec<String>)
    ensures
        strings_view(r@) == names_of(items@),
{
    let mut out: Vec<String> = Vec::new();
    let mut i: usize = 0;
    while i < items.len()
        invariant
            i <= items.len(),
            strings_view(out@) == names_of(items@).take(i as int),
        decreases items.len() - i,
    {
        let ghost before = strings_view(out@);
        out.push(items[i].name().clone());
        assert(strings_view(out@) =~= before.push(items@[i as int].name_view()));
        assert(names_of(items@).take(i + 1) =~= names_of(items@).take(i as int).push(
            items@[i as int].name_view(),
        ));
        i = i + 1;
    }
    assert(names_of(items@).take(items.len() as int) =~= names_of(items@));
    out
}

/// What merging all sections gives: the entries each section gains, or the
/// first error, sections taken in the order providers, services, profiles.
pub open spec fn spec_merge_all(
    providers: Seq<ProviderConfig>,
    services: Seq<ServiceConfig>,
    profiles: Seq<(String, SecurityProfileConfig)>,
    includes: IncludeFragments,
) -> Result<
    (Seq<ProviderConfig>, Seq<ServiceConfig>, Seq<(String, SecurityProfileConfig)>),
    ConfigErrorView,
> {
    match spec_merge(names_of(providers), includes.provider_files@) {
        Err(f) => Err(section_error(Section::Providers, f)),
        Ok(p) => match spec_merge(names_of(services), includes.service_files@) {
            Err(f) => Err(section_error(Section::Services, f)),
            Ok(sv) => match spec_merge(names_of(profiles), includes.profile_files@) {
                Err(f) => Err(section_error(Section::Profiles, f)),
                Ok(q) => Ok((p, sv, q)),
            },
        },
    }
}

/// Adds the entries of the included files to the configuration. On success
/// every section has its files' entries appended in order; on failure the
/// configuration is left as it was.
pub fn merge_split_fragments(cfg: &mut AppConfig, includes: IncludeFragments) -> (r: Result<
    (),
    ConfigError,
>)
    ensures
        final(cfg).server == old(cfg).server,
        final(cfg).defaults == old(cfg).defaults,
        final(cfg).storage == old(cfg).storage,
        final(cfg).includes == old(cfg).includes,
        final(cfg).mimir == old(cfg).mimir,
        match r {
            Ok(()) => spec_merge_all(
                old(cfg).providers@,
                old(cfg).services@,
                old(cfg).security_profiles@,
                includes,
            ) matches Ok((p, sv, q)) && final(cfg).providers@ == old(cfg).providers@ + p
                && final(cfg).services@ == old(cfg).services@ + sv && final(cfg).security_profiles@
                == old(cfg).security_profiles@ + q,
            Err(e) => spec_merge_all(
                old(cfg).providers@,
                old(cfg).services@,
                old(cfg).security_profiles@,
                includes,
            ) matches Err(ev) && e@ == ev && final(cfg).providers == old(cfg).providers
                && final(cfg).services == old(cfg).services && final(cfg).security_profiles == old(
                cfg,
            ).security_profiles,
        },
{
    let IncludeFragments { provider_files, service_files, profile_files } = includes;
    let mut extra_providers = match merge_section(
        collect_names(&cfg.providers),
        provider_files,
        Section::Providers,
    ) {
        Ok(v) => v,
        Err(e) => {
            return Err(e);
        },
    };
    let mut extra_services = match merge_section(
        collect_names(&cfg.services),
        service_files,
        Section::Services,
    ) {
        Ok(v) => v,
        Err(e) => {
            return Err(e);
        },
    };
    let mut extra_profiles = match merge_section(
        collect_names(&cfg.security_profiles),
        profile_files,
        Section::Profiles,
    ) {
        Ok(v) => v,
        Err(e) => {
            return Err(e);
        },
    };
    cfg.providers.append(&mut extra_providers);
    cfg.services.append(&mut extra_services);
    cfg.security_profiles.append(&mut extra_profiles);
    Ok(())
}

/// Duplicate names are refused: when a section's names were distinct, they
/// still are after a successful merge of its files.
pub proof fn law_merge_keeps_names_unique<T: Named>(seen: Seq<Seq<char>>, files: Seq<LoadedFile<T>>)
    requires
        seen.no_duplicates(),
        spec_merge(seen, files) is Ok,
    ensures
        (seen + names_of(spec_merge(seen, files)->Ok_0)).no_duplicates(),
    decreases files.len(),
{
    if files.len() > 0 {
        let f = files[0];
        match f.items {
            Ok(v) => {
                lemma_first_dup_none_extends(seen, names_of(v@));
                law_merge_keeps_names_unique(seen + names_of(v@), files.drop_first());
                let rest = spec_merge(seen + names_of(v@), files.drop_first())->Ok_0;
                assert(names_of(v@ + rest) =~= names_of(v@) + names_of(rest));
                assert(seen + names_of(v@) + names_of(rest) =~= seen + names_of(v@ + rest));
            },
            Err(_) => {},
        }
    } else {
        assert(names_of(Seq::<T>::empty()) =~= Seq::<Seq<char>>::empty());
        assert(seen + Seq::<Seq<char>>::empty() =~= seen);
    }
}

/// Whether every included file could be read and parsed.
pub open spec fn all_readable<T>(files: Seq<LoadedFile<T>>) -> bool {
    forall|i: int| 0 <= i < files.len() ==> (#[trigger] files[i]).items is Ok
}

/// The entries of the files, one file after the other.
pub open spec fn all_items<T>(files: Seq<LoadedFile<T>>) -> Seq<T>
    decreases files.len(),
{
    if files.len() == 0 {
        seq![]
    } else {
        match files[0].items {
            Ok(v) => v@ + all_items(files.drop_first()),
            Err(_) => all_items(files.drop_first()),
        }
    }
}

proof fn lemma_prefix_distinct(a: Seq<Seq<char>>, b: Seq<Seq<char>>)
    requires
        (a + b).no_duplicates(),
    ensures
        a.no_duplicates(),
{
    assert forall|i: int, j: int| 0 <= i < a.len() && 0 <= j < a.len() && i != j implies a[i]
        != a[j] by {
        assert((a + b)[i] == a[i]);
        assert((a + b)[j] == a[j]);
    }
}

/// With every file readable, a section merges exactly when no name repeats
/// one of `seen` or of an earlier entry: then it gains every file's entries
/// in order; otherwise it stops at a duplicate.
pub proof fn law_merge_iff_distinct<T: Named>(seen: Seq<Seq<char>>, files: Seq<LoadedFile<T>>)
    requires
        seen.no_duplicates(),
        all_readable(files),
    ensures
        (seen + names_of(all_items(files))).no_duplicates() ==> spec_merge(seen, files) == Ok::<
            Seq<T>,
            MergeFailure,
        >(all_items(files)),
        !(seen + names_of(all_items(files))).no_duplicates() ==> spec_merge(seen, files) matches Err(
            MergeFailure::Duplicate { .. },
        ),
    decreases files.len(),
{
    if files.len() == 0 {
        assert(seen + names_of(all_items(files)) =~= seen);
    } else {
        assert(files[0].items is Ok);
        let v = files[0].items->Ok_0;
        let rest = files.drop_first();
        assert forall|i: int| 0 <= i < rest.len() implies (#[trigger] rest[i]).items is Ok by {
            assert(rest[i] == files[i + 1]);
        }
        let nv = names_of(v@);
        let nr = names_of(all_items(rest));
        assert(names_of(all_items(files)) =~= nv + nr);
        assert(seen + names_of(all_items(files)) =~= (seen + nv) + nr);
        if (seen + names_of(all_items(files))).no_duplicates() {
            lemma_prefix_distinct(seen + nv, nr);
            lemma_distinct_has_no_first_dup(seen, nv);
            law_merge_iff_distinct(seen + nv, rest);
        } else {
            match first_dup_from(seen, nv) {
                Some(_) => {},
                None => {
                    lemma_first_dup_none_extends(seen, nv);
                    law_merge_iff_distinct(seen + nv, rest);
                },
            }
        }
    }
}

/// With every included file readable and the names of each section distinct
/// across the main file and its fragments, the merge succeeds and each
/// section gains exactly its fragments' entries, in order.
pub proof fn law_merged_configuration(
    providers: Seq<ProviderConfig>,
    services: Seq<ServiceConfig>,
    profiles: Seq<(String, SecurityProfileConfig)>,
    includes: IncludeFragments,
)
    requires
        all_readable(includes.provider_files@),
        all_readable(includes.service_files@),
        all_readable(includes.profile_files@),
        (names_of(providers) + names_of(all_items(includes.provider_files@))).no_duplicates(),
        (names_of(services) + names_of(all_items(includes.service_files@))).no_duplicates(),
        (names_of(profiles) + names_of(all_items(includes.profile_files@))).no_duplicates(),
    ensures
        spec_merge_all(providers, services, profiles, includes) == Ok::<
            (Seq<ProviderConfig>, Seq<ServiceConfig>, Seq<(String, SecurityProfileConfig)>),
            ConfigErrorView,
        >(
            (
                all_items(includes.provider_files@),
                all_items(includes.service_files@),
                all_items(includes.profile_files@),
            ),
        ),
{
    lemma_prefix_distinct(names_of(providers), names_of(all_items(includes.provider_files@)));
    lemma_prefix_distinct(names_of(services), names_of(all_items(includes.service_files@)));
    lemma_prefix_distinct(names_of(profiles), names_of(all_items(includes.profile_files@)));
    law_merge_iff_distinct(names_of(providers), includes.provider_files@);
    law_merge_iff_distinct(names_of(services), includes.service_files@);
    law_merge_iff_distinct(names_of(profiles), includes.profile_files@);
}

} // verus!
