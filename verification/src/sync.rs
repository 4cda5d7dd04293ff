use vstd::prelude::*;

use crate::errors::TemplateError;
use crate::strutil::{all_spaces, is_blank, push_char};

verus! {

// ---------------------------------------------------------------------------
// Modes and specifications
// ---------------------------------------------------------------------------

/// How a template is materialized into a target directory. The three flags
/// are independent; all eight combinations are legal.
#[derive(Clone, Copy, Debug, PartialEq, Eq, Structural)]
pub struct SyncMode {
    /// Compute and report planned changes; perform no filesystem mutation.
    pub dry_run: bool,
    /// Overwrite files that already exist at the target.
    pub force: bool,
    /// Additionally remove target entries that have no source counterpart.
    pub delete: bool,
}

/// The sentinel descriptor filename that marks a template directory and is
/// always excluded from the copy.
pub fn template_config_file() -> (r: &'static str)
    ensures
        r@ == ".template.toml"@,
{
    ".template.toml"
}

/// An invocation of the external copy primitive: a program name and its
/// ordered argument list.
pub struct CopySpec {
    /// The copy program to run.
    pub program: String,
    /// Its arguments, in order.
    pub args: Vec<String>,
}

/// The argument list for the external copy tool: recursive,
/// symlink-preserving, permission-preserving, timestamp-resetting, verbose;
/// the sentinel descriptor is excluded; then the mode flags; then the source
/// directory with a trailing separator — copy the contents, not the
/// directory itself — and the target directory.
pub open spec fn plan_args(source: Seq<char>, target: Seq<char>, mode: SyncMode) -> Seq<
    Seq<char>,
> {
    let base = seq!["-rlpv"@, "--exclude=.template.toml"@];
    let a1 = if mode.dry_run {
        base + seq!["--dry-run"@, "--itemize-changes"@]
    } else {
        base
    };
    let a2 = if !mode.force {
        a1 + seq!["--ignore-existing"@]
    } else {
        a1
    };
    let a3 = if mode.delete {
        a2 + seq!["--delete"@]
    } else {
        a2
    };
    a3 + seq![source + seq!['/'], target]
}

/// Builds the invocation of the external copy primitive for one
/// materialization. The argument list is exactly [`plan_args`]; its meaning
/// over the target's file map is [`sync_effect`].
pub fn plan(source: &str, target: &str, mode: SyncMode) -> (r: CopySpec)
    ensures
        r.program@ == "rsync"@,
        r.args.deep_view() == plan_args(source@, target@, mode),
{
    let mut args: Vec<String> = Vec::new();
    args.push(String::from_str("-rlpv"));
    let excl = String::from_str("--exclude=").concat(template_config_file());
    proof {
        reveal_strlit("--exclude=");
        reveal_strlit(".template.toml");
        reveal_strlit("--exclude=.template.toml");
        assert(excl@ =~= "--exclude=.template.toml"@);
    }
    args.push(excl);
    if mode.dry_run {
        args.push(String::from_str("--dry-run"));
        args.push(String::from_str("--itemize-changes"));
    }
    if !mode.force {
        args.push(String::from_str("--ignore-existing"));
    }
    if mode.delete {
        args.push(String::from_str("--delete"));
    }
    let mut src_arg = String::from_str(source);
    push_char(&mut src_arg, '/');
    args.push(src_arg);
    args.push(String::from_str(target));
    proof {
        assert(source@.push('/') =~= source@ + seq!['/']);
        assert(args.deep_view() =~~= plan_args(source@, target@, mode));
    }
    CopySpec { program: String::from_str("rsync"), args }
}

// ---------------------------------------------------------------------------
// Outcome classification
// ---------------------------------------------------------------------------

/// What a completed synchronization reports.
pub struct SyncResult {
    /// Whether any changes occurred, judged from the tool's output.
    pub changed: bool,
    /// The tool's change summary, verbatim.
    pub summary: String,
}

/// Classifies the outcome of the external copy primitive: a non-zero exit
/// becomes `SyncError` carrying the diagnostic text verbatim; success
/// reports whether anything changed, judged by a non-blank summary.
pub fn interpret_outcome(success: bool, stdout: String, stderr: String) -> (r: Result<
    SyncResult,
    TemplateError,
>)
    ensures
        success ==> (r matches Ok(s) && s.changed == !all_spaces(stdout@) && s.summary@
            == stdout@),
        !success ==> (r matches Err(e) && e matches TemplateError::SyncError(d) && d@
            == stderr@),
{
    if success {
        let changed = !is_blank(stdout.as_str());
        Ok(SyncResult { changed, summary: stdout })
    } else {
        Err(TemplateError::SyncError(stderr))
    }
}

// ---------------------------------------------------------------------------
// Target-directory preconditions
// ---------------------------------------------------------------------------

/// What must happen to the target directory before the copy runs.
pub enum TargetAction {
    /// The target exists and is used as it is.
    UseExisting,
    /// The target is absent and must be created first, parents included.
    CreateFirst,
    /// The target is absent; a dry run only reports the creation.
    ReportCreation,
}

/// Decides whether the target directory can be used.
///
/// When `create_dir` is set — project creation — an absent target is created
/// (or, under `dry_run`, only reported), and a target that exists but is not
/// a directory is `InvalidTargetError`. Without `create_dir` —
/// initialization in place — the target must already exist, else
/// `NotFoundError`.
pub fn check_target(
    target: &str,
    target_exists: bool,
    is_dir: bool,
    create_dir: bool,
    dry_run: bool,
) -> (r: Result<TargetAction, TemplateError>)
    ensures
        create_dir && !target_exists && !dry_run ==> (r matches Ok(a) && a is CreateFirst),
        create_dir && !target_exists && dry_run ==> (r matches Ok(a) && a is ReportCreation),
        create_dir && target_exists && !is_dir ==> (r matches Err(e)
            && e matches TemplateError::InvalidTargetError(d) && d@ == target@),
        create_dir && target_exists && is_dir ==> (r matches Ok(a) && a is UseExisting),
        !create_dir && !target_exists ==> (r matches Err(e) && e matches TemplateError::NotFoundError(d)
            && d@ == target@),
        !create_dir && target_exists ==> (r matches Ok(a) && a is UseExisting),
{
    if create_dir {
        if !target_exists {
            if dry_run {
                Ok(TargetAction::ReportCreation)
            } else {
                Ok(TargetAction::CreateFirst)
            }
        } else if !is_dir {
            Err(TemplateError::InvalidTargetError(String::from_str(target)))
        } else {
            Ok(TargetAction::UseExisting)
        }
    } else {
        if !target_exists {
            Err(TemplateError::NotFoundError(String::from_str(target)))
        } else {
            Ok(TargetAction::UseExisting)
        }
    }
}

// ---------------------------------------------------------------------------
// The meaning of a synchronization
// ---------------------------------------------------------------------------

/// Whether the path `k` has `seg` as one of its `/`-separated segments.
pub open spec fn has_segment(k: Seq<char>, seg: Seq<char>) -> bool {
    exists|i: int|
        0 <= i && i + seg.len() <= k.len() && #[trigger] k.subrange(i, i + seg.len()) == seg && (
        i == 0 || k[i - 1] == '/') && (i + seg.len() == k.len() || k[i + seg.len()] == '/')
}

/// Whether a relative path is excluded from the copy: some segment of it is
/// the sentinel descriptor filename. An excluded entry is neither copied nor
/// deleted.
pub open spec fn excluded_entry(k: Seq<char>) -> bool {
    has_segment(k, ".template.toml"@)
}

/// The authoritative meaning of one synchronization over file maps: keys are
/// target-relative paths, values file contents.
///
/// Under `dry_run` the target is untouched. Otherwise every non-excluded
/// source file is copied — overwriting only under `force` — and, under
/// `delete`, every non-excluded target entry without a source counterpart is
/// removed.
pub open spec fn sync_effect(
    mode: SyncMode,
    source: Map<Seq<char>, Seq<u8>>,
    target: Map<Seq<char>, Seq<u8>>,
) -> Map<Seq<char>, Seq<u8>> {
    if mode.dry_run {
        target
    } else {
        Map::new(
            |k: Seq<char>|
                (source.dom().contains(k) && !excluded_entry(k)) || (target.dom().contains(k) && !(
                mode.delete && !excluded_entry(k) && !source.dom().contains(k))),
            |k: Seq<char>|
                if target.dom().contains(k) && !(mode.force && source.dom().contains(k)
                    && !excluded_entry(k)) {
                    target[k]
                } else {
                    source[k]
                },
        )
    }
}

/// The destructive mirror — `force` and `delete`, no `dry_run` — is
/// idempotent: running it a second time onto its own outcome changes
/// nothing.
pub proof fn lemma_mirror_idempotent(
    source: Map<Seq<char>, Seq<u8>>,
    target: Map<Seq<char>, Seq<u8>>,
)
    ensures
        ({
            let mode = SyncMode { dry_run: false, force: true, delete: true };
            let once = sync_effect(mode, source, target);
            sync_effect(mode, source, once) == once
        }),
{
    let mode = SyncMode { dry_run: false, force: true, delete: true };
    let once = sync_effect(mode, source, target);
    let twice = sync_effect(mode, source, once);
    assert(twice =~= once);
}

/// The destructive mirror makes the target's file set exactly the source's
/// minus the excluded entries, with the source's contents.
///
/// The premise keeps excluded entries out of the starting target: the copy
/// excludes the sentinel from deletion as from copying, so a pre-existing
/// target entry named like the sentinel descriptor would survive the mirror.
pub proof fn lemma_mirror_matches_source(
    source: Map<Seq<char>, Seq<u8>>,
    target: Map<Seq<char>, Seq<u8>>,
)
    requires
        forall|k: Seq<char>| target.dom().contains(k) ==> !excluded_entry(k),
    ensures
        ({
            let mode = SyncMode { dry_run: false, force: true, delete: true };
            let once = sync_effect(mode, source, target);
            &&& once.dom() == Set::new(
                |k: Seq<char>| source.dom().contains(k) && !excluded_entry(k),
            )
            &&& forall|k: Seq<char>| once.dom().contains(k) ==> once[k] == source[k]
        }),
{
    let mode = SyncMode { dry_run: false, force: true, delete: true };
    let once = sync_effect(mode, source, target);
    assert(once.dom() =~= Set::new(
        |k: Seq<char>| source.dom().contains(k) && !excluded_entry(k),
    ));
}

/// The non-destructive default — neither `force` nor `delete` nor `dry_run`
/// — leaves every file that pre-existed at the target byte-identical.
pub proof fn lemma_default_preserves_existing(
    source: Map<Seq<char>, Seq<u8>>,
    target: Map<Seq<char>, Seq<u8>>,
)
    ensures
        ({
            let mode = SyncMode { dry_run: false, force: false, delete: false };
            let after = sync_effect(mode, source, target);
            forall|k: Seq<char>|
                target.dom().contains(k) ==> after.dom().contains(k) && after[k] == target[k]
        }),
{
}

/// A dry run is pure: the target's file set and contents are identical
/// before and after, for any `force`/`delete` combination.
pub proof fn lemma_dry_run_pure(
    mode: SyncMode,
    source: Map<Seq<char>, Seq<u8>>,
    target: Map<Seq<char>, Seq<u8>>,
)
    requires
        mode.dry_run,
    ensures
        sync_effect(mode, source, target) == target,
{
}

} // verus!
