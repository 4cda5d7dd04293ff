use vstd::prelude::*;

use crate::errors::TemplateError;
use crate::paths::{inferred_name, inferred_name_spec};
use crate::strutil::push_char;
use crate::sync::template_config_file;
use crate::templates::TemplateConfig;

verus! {

/// Synthesizes the default descriptor for a freshly authored template.
pub fn default_template_config(name: &str) -> (r: TemplateConfig)
    ensures
        r.name.deep_view() == Some(name@),
        r.language is None,
        r.description.deep_view() == Some("A template for "@ + name@),
        r.author.deep_view() == Some("Your Name"@),
        r.version.deep_view() == Some("1.0.0"@),
        r.tags.deep_view() == Some(seq!["project"@, "template"@]),
        r.min_tool_version.deep_view() == Some("0.1.0"@),
{
    let description = String::from_str("A template for ").concat(name);
    let tags: Vec<String> = vec![String::from_str("project"), String::from_str("template")];
    proof {
        assert(tags.deep_view() =~= seq!["project"@, "template"@]);
    }
    TemplateConfig {
        name: Some(String::from_str(name)),
        language: None,
        description: Some(description),
        author: Some(String::from_str("Your Name")),
        version: Some(String::from_str("1.0.0")),
        tags: Some(tags),
        min_tool_version: Some(String::from_str("0.1.0")),
    }
}

/// What authoring a template entails once its inputs are validated.
pub struct AuthorPlan {
    /// Whether the target directory must be created first.
    pub create_dir: bool,
    /// Where the descriptor file is written.
    pub config_path: String,
    /// The descriptor to write.
    pub config: TemplateConfig,
}

/// The template name authoring uses: the explicit one when given, else the
/// final segment of the resolved path.
pub open spec fn author_name_spec(resolved: Seq<char>, name: Option<&str>) -> Option<Seq<char>> {
    match name {
        Some(n) => Some(n@),
        None => inferred_name_spec(resolved),
    }
}

/// Validates an authoring request against what the filesystem shows of the
/// resolved target path, and plans the work.
///
/// A name that cannot be determined from the path, or a target that exists
/// but is not a directory, is `InvalidTargetError`; a target that already
/// holds a descriptor is `AlreadyExistsError` — the existence check precedes
/// any write. Otherwise the plan creates the directory when absent and
/// writes the default descriptor into it.
///
/// The checks run in that order: a path without a usable final segment is
/// reported as unnamable even where a descriptor already sits. On a real
/// filesystem a descriptor can only sit inside a directory, so whenever the
/// name is determinable, an existing descriptor is rejected before anything
/// would be written.
pub fn author_plan(
    resolved: &str,
    name: Option<&str>,
    path_exists: bool,
    is_dir: bool,
    sentinel_exists: bool,
) -> (r: Result<AuthorPlan, TemplateError>)
    ensures
        author_name_spec(resolved@, name) is None ==> (r matches Err(e)
            && e matches TemplateError::InvalidTargetError(d) && d@ == resolved@),
        (author_name_spec(resolved@, name) is Some) && path_exists && !is_dir ==> (r matches Err(e)
            && e matches TemplateError::InvalidTargetError(d) && d@ == resolved@),
        (author_name_spec(resolved@, name) is Some) && (!path_exists || is_dir) && sentinel_exists ==> (
        r matches Err(e) && e matches TemplateError::AlreadyExistsError(d) && d@ == resolved@),
        (author_name_spec(resolved@, name) is Some) && (!path_exists || is_dir) && !sentinel_exists ==> (
        r matches Ok(p) && {
            &&& p.create_dir == !path_exists
            &&& p.config_path@ == resolved@ + seq!['/'] + ".template.toml"@
            &&& p.config.name.deep_view() == Some(author_name_spec(resolved@, name)->0)
            &&& p.config.language is None
            &&& p.config.description.deep_view() == Some(
                "A template for "@ + author_name_spec(resolved@, name)->0,
            )
            &&& p.config.author.deep_view() == Some("Your Name"@)
            &&& p.config.version.deep_view() == Some("1.0.0"@)
            &&& p.config.tags.deep_view() == Some(seq!["project"@, "template"@])
            &&& p.config.min_tool_version.deep_view() == Some("0.1.0"@)
        }),
{
    let template_name: String = match name {
        Some(n) => String::from_str(n),
        None => {
            match inferred_name(resolved) {
                Some(seg) => seg,
                None => {
                    proof {
                        assert(name is None);
                        assert(inferred_name_spec(resolved@) is None);
                        assert(author_name_spec(resolved@, name) is None);
                    }
                    return Err(TemplateError::InvalidTargetError(String::from_str(resolved)));
                },
            }
        },
    };
    if path_exists && !is_dir {
        return Err(TemplateError::InvalidTargetError(String::from_str(resolved)));
    }
    if sentinel_exists {
        return Err(TemplateError::AlreadyExistsError(String::from_str(resolved)));
    }
    let mut config_path = String::from_str(resolved);
    push_char(&mut config_path, '/');
    let config_path = config_path.concat(template_config_file());
    proof {
        assert(resolved@.push('/') =~= resolved@ + seq!['/']);
    }
    let config = default_template_config(template_name.as_str());
    Ok(AuthorPlan { create_dir: !path_exists, config_path, config })
}

} // verus!
