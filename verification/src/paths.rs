use vstd::prelude::*;

use crate::errors::TemplateError;
use crate::strutil::{push_char, str_eq, trim, trim_spec};

verus! {

// ---------------------------------------------------------------------------
// Path classification
// ---------------------------------------------------------------------------

/// Whether the string contains a `$`, the trigger for environment-variable
/// expansion.
pub open spec fn has_dollar(s: Seq<char>) -> bool {
    s.contains('$')
}

/// Whether the string begins with `~`, the trigger for home-directory
/// expansion.
pub open spec fn starts_tilde(s: Seq<char>) -> bool {
    s.len() > 0 && s[0] == '~'
}

/// Whether the string is an absolute path under the POSIX convention — the
/// native rule of this platform, where a Windows drive-letter or UNC form
/// counts as relative.
pub open spec fn is_absolute_spec(s: Seq<char>) -> bool {
    s.len() > 0 && s[0] == '/'
}

/// Runtime check for [`is_absolute_spec`].
pub fn is_absolute(s: &str) -> (r: bool)
    ensures
        r == is_absolute_spec(s@),
{
    s.unicode_len() > 0 && s.get_char(0) == '/'
}

/// The syntactic join of a relative path onto a base directory: no
/// canonicalization, `..` segments are preserved. A join with an absolute
/// path replaces the base, and an empty base contributes nothing.
pub open spec fn join_spec(b: Seq<char>, r: Seq<char>) -> Seq<char> {
    if is_absolute_spec(r) {
        r
    } else if b.len() == 0 {
        r
    } else if b[b.len() - 1] == '/' {
        b + r
    } else {
        b + seq!['/'] + r
    }
}

/// Joins `rest` onto the directory `base` syntactically.
pub fn join_path(base: &str, rest: &str) -> (r: String)
    ensures
        r@ == join_spec(base@, rest@),
{
    let blen = base.unicode_len();
    if is_absolute(rest) || blen == 0 {
        return String::from_str(rest);
    }
    let mut out = String::from_str(base);
    if base.get_char(blen - 1) != '/' {
        push_char(&mut out, '/');
        proof {
            assert(out@ =~= base@ + seq!['/']);
        }
    }
    let out = out.concat(rest);
    proof {
        assert((base@ + seq!['/']) + rest@ =~= base@ + seq!['/'] + rest@);
    }
    out
}

/// `./` or `.\` at the front of a path, removed before joining; both prefixes
/// normalize identically.
pub open spec fn strip_dot_prefix_spec(s: Seq<char>) -> Seq<char> {
    if s.len() >= 2 && s[0] == '.' && (s[1] == '/' || s[1] == '\\') {
        s.skip(2)
    } else {
        s
    }
}

/// The classification of an already-expanded path string against a base
/// directory: an absolute path stands as it is, anything else is joined onto
/// the base after `./` or `.\` is stripped.
pub open spec fn resolved_spec(expanded: Seq<char>, base: Seq<char>) -> Seq<char> {
    if is_absolute_spec(expanded) {
        expanded
    } else {
        join_spec(base, strip_dot_prefix_spec(expanded))
    }
}

/// Resolves an expanded path string against a base directory.
pub fn resolve_expanded(expanded: &str, base: &str) -> (r: String)
    ensures
        r@ == resolved_spec(expanded@, base@),
{
    if is_absolute(expanded) {
        return String::from_str(expanded);
    }
    let len = expanded.unicode_len();
    if len >= 2 && expanded.get_char(0) == '.' {
        let c1 = expanded.get_char(1);
        if c1 == '/' || c1 == '\\' {
            let rest = expanded.substring_char(2, len);
            return join_path(base, rest);
        }
    }
    proof {
        assert(expanded@.skip(2) == expanded@.subrange(2, expanded@.len() as int));
    }
    join_path(base, expanded)
}

// ---------------------------------------------------------------------------
// Shell-style expansion (trusted bridge)
// ---------------------------------------------------------------------------

/// Relies on `shellexpand::full`: expands a leading `~` to the user's home
/// directory and `$VAR` / `${VAR}` references to environment values, failing
/// when a referenced variable is undefined. An input without a `$` cannot
/// fail, and one that also does not begin with `~` comes back unchanged.
#[verifier::external_body]
fn shell_expand(s: &str) -> (r: Result<String, String>)
    ensures
        r is Err ==> has_dollar(s@),
        !has_dollar(s@) && !starts_tilde(s@) ==> r is Ok && r->Ok_0@ == s@,
{
    match shellexpand::full(s) {
        Ok(c) => Ok(c.into_owned()),
        Err(e) => Err(e.to_string()),
    }
}

// ---------------------------------------------------------------------------
// Resolution
// ---------------------------------------------------------------------------

/// The directory relative references resolve against: the supplied invocation
/// directory, or the unresolved `.` when none is available.
pub open spec fn base_view(invocation_dir: Option<&str>) -> Seq<char> {
    match invocation_dir {
        Some(b) => b@,
        None => seq!['.'],
    }
}

/// Whether `p` is the resolution, against `base`, of an expansion in which
/// the leading tilde was resolved away.
pub open spec fn tilde_resolved_from(p: Seq<char>, base: Seq<char>) -> bool {
    exists|ex: Seq<char>| !starts_tilde(ex) && p == resolved_spec(ex, base)
}

/// Runtime check for [`starts_tilde`].
fn has_tilde_prefix(s: &str) -> (r: bool)
    ensures
        r == starts_tilde(s@),
{
    s.unicode_len() > 0 && s.get_char(0) == '~'
}

/// Resolves a user-supplied path string.
///
/// The input is trimmed of surrounding whitespace. A bare `.` names the
/// invocation directory itself. Anything else undergoes shell-style
/// expansion (`~`, `$VAR`, `${VAR}`); an absolute expansion stands as it is,
/// and a relative one is joined syntactically onto the invocation directory,
/// after a leading `./` or `.\` is stripped. An undefined variable is
/// reported as `ExpansionError`, and so is a leading `~` that expansion
/// leaves in place — a home directory that cannot be determined, or the
/// unsupported `~user` form.
///
/// Absoluteness follows this platform's native rule, the POSIX one: a path
/// is absolute exactly when it begins with `/`; a Windows drive-letter or
/// UNC form counts as relative here, as the platform itself treats it.
///
/// When no invocation directory is supplied, the relative reference `.`
/// stands for itself and joins use `.` as the base, keeping the operation
/// total.
pub fn resolve_path(path_str: &str, invocation_dir: Option<&str>) -> (r: Result<
    String,
    TemplateError,
>)
    ensures
        trim_spec(path_str@) == seq!['.'] ==> (r matches Ok(p) && p@ == base_view(
            invocation_dir,
        )),
        !has_dollar(trim_spec(path_str@)) && !starts_tilde(trim_spec(path_str@)) ==> r is Ok,
        trim_spec(path_str@) != seq!['.'] && !has_dollar(trim_spec(path_str@)) && !starts_tilde(
            trim_spec(path_str@),
        ) ==> (r matches Ok(p) && p@ == resolved_spec(trim_spec(path_str@), base_view(
            invocation_dir,
        ))),
        starts_tilde(trim_spec(path_str@)) ==> (r matches Err(e) && e is ExpansionError) || (
        r matches Ok(p) && tilde_resolved_from(p@, base_view(invocation_dir))),
        r matches Err(e) ==> e is ExpansionError,
{
    let trimmed = trim(path_str);
    if str_eq(trimmed, ".") {
        proof {
            reveal_strlit(".");
            assert("."@ =~= seq!['.']);
        }
        return match invocation_dir {
            Some(b) => Ok(String::from_str(b)),
            None => Ok(String::from_str(".")),
        };
    }
    proof {
        reveal_strlit(".");
        assert("."@ =~= seq!['.']);
    }
    let base: &str = match invocation_dir {
        Some(b) => b,
        None => {
            proof {
                reveal_strlit(".");
                assert("."@ =~= seq!['.']);
            }
            "."
        },
    };
    match shell_expand(trimmed) {
        Ok(expanded) => {
            if has_tilde_prefix(trimmed) && has_tilde_prefix(expanded.as_str()) {
                let msg = String::from_str("cannot expand the leading '~' in: ").concat(trimmed);
                return Err(TemplateError::ExpansionError(msg));
            }
            let resolved = resolve_expanded(expanded.as_str(), base);
            proof {
                if starts_tilde(trim_spec(path_str@)) {
                    assert(!starts_tilde(expanded@));
                    assert(resolved@ == resolved_spec(expanded@, base@));
                    assert(tilde_resolved_from(resolved@, base_view(invocation_dir)));
                }
            }
            Ok(resolved)
        },
        Err(msg) => Err(TemplateError::ExpansionError(msg)),
    }
}

// ---------------------------------------------------------------------------
// Storage locations
// ---------------------------------------------------------------------------

/// The user-home-relative root under which the tool keeps its state.
pub fn persistent_storage() -> (r: &'static str)
    ensures
        r@ == "~/.template-rs"@,
{
    "~/.template-rs"
}

/// The subtree of the storage root that holds the templates.
pub fn template_storage() -> (r: &'static str)
    ensures
        r@ == "~/.template-rs/templates"@,
{
    "~/.template-rs/templates"
}

// ---------------------------------------------------------------------------
// Final path segment
// ---------------------------------------------------------------------------

/// `s` with any run of trailing `/` separators removed.
pub open spec fn strip_trailing_slashes(s: Seq<char>) -> Seq<char>
    decreases s.len(),
{
    if s.len() > 0 && s[s.len() - 1] == '/' {
        strip_trailing_slashes(s.drop_last())
    } else {
        s
    }
}

/// The suffix of `s` after its last `/`, or all of `s` when it has none.
pub open spec fn after_last_slash(s: Seq<char>) -> Seq<char>
    decreases s.len(),
{
    if s.len() == 0 {
        Seq::empty()
    } else if s[s.len() - 1] == '/' {
        Seq::empty()
    } else {
        after_last_slash(s.drop_last()).push(s[s.len() - 1])
    }
}

/// The final path segment of `s`: the part after the last separator, with
/// trailing separators ignored.
pub open spec fn final_segment_spec(s: Seq<char>) -> Seq<char> {
    after_last_slash(strip_trailing_slashes(s))
}

proof fn lemma_strip_trailing_from_scan(s: Seq<char>, e: int)
    requires
        0 <= e <= s.len(),
        forall|k: int| e <= k < s.len() ==> s[k] == '/',
        e > 0 ==> s[e - 1] != '/',
    ensures
        strip_trailing_slashes(s) == s.take(e),
    decreases s.len(),
{
    if s.len() > 0 && s[s.len() - 1] == '/' {
        assert(e < s.len());
        assert(forall|k: int| 0 <= k < s.len() - 1 ==> #[trigger] s.drop_last()[k] == s[k]);
        lemma_strip_trailing_from_scan(s.drop_last(), e);
        assert(s.drop_last().take(e) =~= s.take(e));
    } else {
        if e < s.len() {
            assert(s[s.len() - 1] == '/');
        }
        assert(s.take(e) =~= s);
    }
}

proof fn lemma_after_last_slash_from_scan(s: Seq<char>, start: int)
    requires
        0 <= start <= s.len(),
        forall|k: int| start <= k < s.len() ==> s[k] != '/',
        start > 0 ==> s[start - 1] == '/',
    ensures
        after_last_slash(s) == s.skip(start),
    decreases s.len(),
{
    if s.len() == 0 {
        assert(s.skip(start) =~= Seq::<char>::empty());
    } else if s[s.len() - 1] == '/' {
        assert(start == s.len());
        assert(s.skip(start) =~= Seq::<char>::empty());
    } else {
        assert(start < s.len());
        assert(forall|k: int| 0 <= k < s.len() - 1 ==> #[trigger] s.drop_last()[k] == s[k]);
        lemma_after_last_slash_from_scan(s.drop_last(), start);
        assert(s.drop_last().skip(start).push(s[s.len() - 1]) =~= s.skip(start));
    }
}

/// The final path segment of `s`, at runtime.
pub fn final_segment(s: &str) -> (r: String)
    ensures
        r@ == final_segment_spec(s@),
{
    let len = s.unicode_len();
    let mut e: usize = len;
    while e > 0 && s.get_char(e - 1) == '/'
        invariant
            e <= len,
            len == s@.len(),
            forall|k: int| e <= k < len ==> s@[k] == '/',
        decreases e,
    {
        e = e - 1;
    }
    let mut start: usize = e;
    while start > 0 && s.get_char(start - 1) != '/'
        invariant
            start <= e <= len,
            len == s@.len(),
            forall|k: int| start <= k < e ==> s@[k] != '/',
        decreases start,
    {
        start = start - 1;
    }
    proof {
        lemma_strip_trailing_from_scan(s@, e as int);
        let t = s@.take(e as int);
        assert(forall|k: int| start <= k < t.len() ==> t[k] != '/');
        if start > 0 {
            assert(t[start - 1] == '/');
        }
        lemma_after_last_slash_from_scan(t, start as int);
        assert(t.skip(start as int) =~= s@.subrange(start as int, e as int));
    }
    let seg = s.substring_char(start, e);
    String::from_str(seg)
}

/// The template name inferred from a path: its final segment, unless that
/// segment is empty or a relative reference, in which case no name can be
/// determined.
pub open spec fn inferred_name_spec(s: Seq<char>) -> Option<Seq<char>> {
    let seg = final_segment_spec(s);
    if seg.len() == 0 || seg == seq!['.'] || seg == seq!['.', '.'] {
        None
    } else {
        Some(seg)
    }
}

/// Infers a template name from a resolved path.
pub fn inferred_name(s: &str) -> (r: Option<String>)
    ensures
        r matches Some(n) ==> inferred_name_spec(s@) == Some(n@),
        r is None ==> inferred_name_spec(s@) is None,
{
    let seg = final_segment(s);
    proof {
        reveal_strlit(".");
        reveal_strlit("..");
        assert("."@ =~= seq!['.']);
        assert(".."@ =~= seq!['.', '.']);
    }
    if seg.as_str().unicode_len() == 0 || str_eq(seg.as_str(), ".") || str_eq(
        seg.as_str(),
        "..",
    ) {
        None
    } else {
        Some(seg)
    }
}

} // verus!
