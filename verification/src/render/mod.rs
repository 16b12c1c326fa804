//! Render plans: what a service's output writes, and where.
//!
//! A plan is a list of steps that the caller performs in order: creating
//! directories, and writing files whose text first has its placeholders
//! resolved under the plan's policy.
pub mod placeholders;

use crate::config::{OutputConfig, OutputView};
pub use crate::placeholders::PlaceholderPolicy;
use crate::secret_map::{sorted_keys, EntryView, SecretMap};
use crate::text::{chars_of, has_prefix_at, starts_with, string_of};
use vstd::prelude::*;
use vstd::utf8::is_ascii_chars;

verus! {

/// `str::to_lowercase` of a string.
pub uninterp spec fn spec_lowercase(s: Seq<char>) -> Seq<char>;

/// ASCII letters lowered, every other character kept.
pub open spec fn ascii_lower(s: Seq<char>) -> Seq<char> {
    Seq::new(
        s.len(),
        |i: int|
            if 'A' <= s[i] && s[i] <= 'Z' {
                ((s[i] as u32) + 32) as char
            } else {
                s[i]
            },
    )
}

/// Trusted: `str::to_lowercase`, which maps each character to its Unicode
/// lower-case form; the result is named `spec_lowercase`. Claimed beyond the
/// name: on ASCII text it lowers `A`–`Z` and keeps every other character.
#[verifier::external_body]
fn to_lowercase(s: &str) -> (r: String)
    ensures
        r@ == spec_lowercase(s@),
        is_ascii_chars(s@) ==> r@ == ascii_lower(s@),
{
    s.to_lowercase()
}

/// `PathBuf::join` on Unix: an absolute `name` replaces `base`; otherwise
/// `name` is appended, with a `/` between unless `base` is empty or already
/// ends in one.
pub open spec fn join_path(base: Seq<char>, name: Seq<char>) -> Seq<char> {
    if name.len() > 0 && name[0] == '/' {
        name
    } else if base.len() == 0 || base.last() == '/' {
        base + name
    } else {
        base + seq!['/'] + name
    }
}

fn join(base: &str, name: &str) -> (r: String)
    ensures
        r@ == join_path(base@, name@),
{
    let b = chars_of(base);
    let n = chars_of(name);
    if n.len() > 0 && n[0] == '/' {
        return name.to_owned();
    }
    let mut r = base.to_owned();
    if !(b.len() == 0 || b[b.len() - 1] == '/') {
        r.append("/");
        proof {
            reveal_strlit("/");
        }
    }
    r.append(name);
    r
}

/// Every non-overlapping occurrence of `pat`, from the left, replaced by
/// `rep` (`str::replace`).
pub open spec fn replace_all(s: Seq<char>, pat: Seq<char>, rep: Seq<char>) -> Seq<char>
    recommends
        pat.len() > 0,
    decreases s.len(),
{
    if s.len() == 0 || pat.len() == 0 {
        s
    } else if starts_with(s, pat) {
        rep + replace_all(s.skip(pat.len() as int), pat, rep)
    } else {
        seq![s[0]] + replace_all(s.skip(1), pat, rep)
    }
}

/// The marker that stands for a secret in a template: `{{KEY}}`.
pub open spec fn marker(key: Seq<char>) -> Seq<char> {
    seq!['{', '{'] + key + seq!['}', '}']
}

/// The template with each secret's marker replaced by its value, the secrets
/// taken in ascending key order.
pub open spec fn substitute_all(t: Seq<char>, entries: Seq<EntryView>) -> Seq<char>
    decreases entries.len(),
{
    if entries.len() == 0 {
        t
    } else {
        replace_all(
            substitute_all(t, entries.drop_last()),
            marker(entries.last().0),
            entries.last().1,
        )
    }
}

fn replace_chars(s: &Vec<char>, pat: &Vec<char>, rep: &Vec<char>) -> (r: Vec<char>)
    requires
        pat.len() > 0,
    ensures
        r@ == replace_all(s@, pat@, rep@),
{
    let mut out: Vec<char> = Vec::new();
    let mut i: usize = 0;
    assert(s@.skip(0) =~= s@);
    while i < s.len()
        invariant
            i <= s.len(),
            pat.len() > 0,
            replace_all(s@, pat@, rep@) == out@ + replace_all(s@.skip(i as int), pat@, rep@),
        decreases s.len() - i,
    {
        let ghost rest = s@.skip(i as int);
        let ghost before = out@;
        assert(s@.subrange(i as int, s.len() as int) =~= rest);
        if has_prefix_at(s, i, s.len(), pat.as_slice()) {
            let mut j: usize = 0;
            while j < rep.len()
                invariant
                    j <= rep.len(),
                    out@ == before + rep@.take(j as int),
                decreases rep.len() - j,
            {
                out.push(rep[j]);
                assert(before + rep@.take(j + 1) =~= before + rep@.take(j as int) + seq![
                    rep@[j as int],
                ]);
                j = j + 1;
            }
            assert(rep@.take(rep.len() as int) =~= rep@);
            assert(rest.skip(pat.len() as int) =~= s@.skip(i + pat.len()));
            assert(before + (rep@ + replace_all(rest.skip(pat.len() as int), pat@, rep@)) =~= out@
                + replace_all(rest.skip(pat.len() as int), pat@, rep@));
            i = i + pat.len();
        } else {
            out.push(s[i]);
            assert(rest[0] == s@[i as int]);
            assert(rest.skip(1) =~= s@.skip(i + 1));
            assert(before + (seq![rest[0]] + replace_all(rest.skip(1), pat@, rep@)) =~= out@
                + replace_all(rest.skip(1), pat@, rep@));
            i = i + 1;
        }
    }
    assert(out@ + replace_all(s@.skip(i as int), pat@, rep@) =~= out@);
    out
}

fn marker_chars(key: &str) -> (r: Vec<char>)
    ensures
        r@ == marker(key@),
{
    let k = chars_of(key);
    let mut m: Vec<char> = Vec::new();
    m.push('{');
    m.push('{');
    let mut i: usize = 0;
    while i < k.len()
        invariant
            i <= k.len(),
            m@ == seq!['{', '{'] + k@.take(i as int),
        decreases k.len() - i,
    {
        m.push(k[i]);
        assert(seq!['{', '{'] + k@.take(i + 1) =~= seq!['{', '{'] + k@.take(i as int) + seq![
            k@[i as int],
        ]);
        i = i + 1;
    }
    m.push('}');
    m.push('}');
    assert(k@.take(k.len() as int) =~= k@);
    assert(m@ =~= marker(key@));
    m
}

/// Fills a template: `{{KEY}}` becomes the secret `KEY`'s value, secrets
/// taken in ascending key order, each replacing all of its markers in the
/// text so far.
pub fn substitute_secrets(template: &str, secrets: &SecretMap) -> (r: String)
    ensures
        sorted_keys(secrets@),
        r@ == substitute_all(template@, secrets@),
{
    proof {
        use_type_invariant(secrets);
    }
    let mut text = chars_of(template);
    let mut i: usize = 0;
    assert(secrets@.take(0) =~= Seq::<EntryView>::empty());
    while i < secrets.len()
        invariant
            i <= secrets@.len(),
            text@ == substitute_all(template@, secrets@.take(i as int)),
        decreases secrets@.len() - i,
    {
        let (k, v) = secrets.entry(i);
        let pat = marker_chars(k.as_str());
        let rep = chars_of(v.as_str());
        text = replace_chars(&text, &pat, &rep);
        assert(secrets@.take(i + 1).drop_last() =~= secrets@.take(i as int));
        i = i + 1;
    }
    assert(secrets@.take(secrets@.len() as int) =~= secrets@);
    string_of(&text, 0, text.len())
}

/// A step of a render plan.
#[derive(Debug)]
pub enum RenderStep {
    /// Create the directory and any missing parents.
    CreateDir(String),
    /// Resolve the placeholders in `text` under the plan's policy (a failure
    /// ends the plan), create the parent directory of `path` when
    /// `create_parent` is set, then write the result to `path` atomically,
    /// with `file_mode` as permissions when given.
    WriteResolved { path: String, text: String, file_mode: Option<u32>, create_parent: bool },
}

pub enum RenderStepView {
    CreateDir(Seq<char>),
    WriteResolved {
        path: Seq<char>,
        text: Seq<char>,
        file_mode: Option<u32>,
        create_parent: bool,
    },
}

impl View for RenderStep {
    type V = RenderStepView;

    open spec fn view(&self) -> RenderStepView {
        match self {
            RenderStep::CreateDir(d) => RenderStepView::CreateDir(d@),
            RenderStep::WriteResolved { path, text, file_mode, create_parent } => RenderStepView::WriteResolved {
                path: path@,
                text: text@,
                file_mode: *file_mode,
                create_parent: *create_parent,
            },
        }
    }
}

/// The steps that write one service's output.
#[derive(Debug)]
pub struct RenderPlan {
    pub policy: PlaceholderPolicy,
    pub steps: Vec<RenderStep>,
}

/// The flat-file write of one secret.
pub open spec fn flat_file_step(directory: Seq<char>, file_mode: Option<u32>, e: EntryView) -> RenderStepView {
    RenderStepView::WriteResolved {
        path: join_path(directory, spec_lowercase(e.0)),
        text: e.1,
        file_mode,
        create_parent: false,
    }
}

/// The plan of an output: flat files create the directory and then write
/// one file per secret in key order, named after the lower-cased key; a
/// template is filled and written to its path, its parent directory created.
pub open spec fn spec_render_steps(output: OutputView, secrets: Seq<EntryView>) -> Seq<
    RenderStepView,
> {
    match output {
        OutputView::FlatFiles { directory, file_mode } => seq![RenderStepView::CreateDir(directory)]
            + secrets.map_values(|e: EntryView| flat_file_step(directory, file_mode, e)),
        OutputView::TemplatedYaml { file_path, template, file_mode } => seq![
            RenderStepView::WriteResolved {
                path: file_path,
                text: substitute_all(template, secrets),
                file_mode,
                create_parent: true,
            },
        ],
    }
}

/// Plans the writing of a service's output from its secrets; the caller
/// carries the plan out.
pub fn render_and_write(
    output: &OutputConfig,
    secrets: &SecretMap,
    placeholder_policy: PlaceholderPolicy,
) -> (r: RenderPlan)
    ensures
        sorted_keys(secrets@),
        r.policy == placeholder_policy,
        r.steps@.map_values(|s: RenderStep| s@) == spec_render_steps(output@, secrets@),
{
    proof {
        use_type_invariant(secrets);
    }
    let mut steps: Vec<RenderStep> = Vec::new();
    match output {
        OutputConfig::FlatFiles { directory, file_mode } => {
            steps.push(RenderStep::CreateDir(directory.clone()));
            let mut i: usize = 0;
            while i < secrets.len()
                invariant
                    i <= secrets@.len(),
                    steps@.map_values(|s: RenderStep| s@) == seq![
                        RenderStepView::CreateDir(directory@),
                    ] + secrets@.take(i as int).map_values(
                        |e: EntryView| flat_file_step(directory@, *file_mode, e),
                    ),
                decreases secrets@.len() - i,
            {
                let (k, v) = secrets.entry(i);
                let name = to_lowercase(k.as_str());
                let path = join(directory.as_str(), name.as_str());
                let ghost before = steps@.map_values(|s: RenderStep| s@);
                steps.push(
                    RenderStep::WriteResolved {
                        path,
                        text: v.clone(),
                        file_mode: *file_mode,
                        create_parent: false,
                    },
                );
                proof {
                    let e = secrets@[i as int];
                    let f = |e: EntryView| flat_file_step(directory@, *file_mode, e);
                    assert(secrets@.take(i + 1).map_values(f) =~= secrets@.take(i as int).map_values(
                        f,
                    ).push(f(e)));
                    assert(steps@.map_values(|s: RenderStep| s@) =~= before.push(f(e)));
                }
                i = i + 1;
            }
            assert(secrets@.take(secrets@.len() as int) =~= secrets@);
        },
        OutputConfig::TemplatedYaml { file_path, template, file_mode } => {
            let text = substitute_secrets(template.as_str(), secrets);
            steps.push(
                RenderStep::WriteResolved {
                    path: file_path.clone(),
                    text,
                    file_mode: *file_mode,
                    create_parent: true,
                },
            );
            assert(steps@.map_values(|s: RenderStep| s@) =~= spec_render_steps(output@, secrets@));
        },
    }
    RenderPlan { policy: placeholder_policy, steps }
}

proof fn lemma_replace_without_first_char(s: Seq<char>, pat: Seq<char>, rep: Seq<char>)
    requires
        pat.len() > 0,
        forall|i: int| 0 <= i < s.len() ==> s[i] != pat[0],
    ensures
        replace_all(s, pat, rep) == s,
    decreases s.len(),
{
    if s.len() > 0 {
        assert(!starts_with(s, pat)) by {
            if starts_with(s, pat) {
                assert(s.take(pat.len() as int)[0] == s[0]);
            }
        }
        assert forall|i: int| 0 <= i < s.skip(1).len() implies s.skip(1)[i] != pat[0] by {
            assert(s.skip(1)[i] == s[i + 1]);
        }
        lemma_replace_without_first_char(s.skip(1), pat, rep);
        assert(seq![s[0]] + s.skip(1) =~= s);
    }
}

/// A template with no `{` is written as it is, whatever the secrets.
pub proof fn law_template_without_markers_is_kept(t: Seq<char>, secrets: Seq<EntryView>)
    requires
        forall|i: int| 0 <= i < t.len() ==> t[i] != '{',
    ensures
        substitute_all(t, secrets) == t,
    decreases secrets.len(),
{
    if secrets.len() > 0 {
        law_template_without_markers_is_kept(t, secrets.drop_last());
        lemma_replace_without_first_char(t, marker(secrets.last().0), secrets.last().1);
    }
}

/// Flat files write exactly one file per secret, in key order, after
/// creating the directory.
pub proof fn law_flat_files_one_per_secret(
    directory: Seq<char>,
    file_mode: Option<u32>,
    secrets: Seq<EntryView>,
)
    ensures
        ({
            let steps = spec_render_steps(OutputView::FlatFiles { directory, file_mode }, secrets);
            &&& steps.len() == secrets.len() + 1
            &&& steps[0] == RenderStepView::CreateDir(directory)
            &&& forall|i: int|
                0 <= i < secrets.len() ==> #[trigger] steps[i + 1] == flat_file_step(
                    directory,
                    file_mode,
                    secrets[i],
                )
        }),
{
}

} // verus!
