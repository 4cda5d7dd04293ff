use vstd::prelude::*;

use crate::languages::{canonical_display_name, get_display_name, is_known_language, known_language};
use crate::strutil::{
    lemma_lex_connected,
    lemma_lex_le_trans,
    lemma_lex_strict,
    lex_le,
    lex_lt,
    lower_seq,
    push_char,
    str_eq,
    str_lt,
    str_to_lower,
};

verus! {

// ---------------------------------------------------------------------------
// Descriptor and template
// ---------------------------------------------------------------------------

/// The parsed contents of a template's descriptor file. Every field is
/// optional: a template with an empty descriptor is valid.
#[derive(Clone)]
pub struct TemplateConfig {
    /// Template name; lookups match it besides the identity.
    pub name: Option<String>,
    /// The template's main programming language.
    pub language: Option<String>,
    /// A short description.
    pub description: Option<String>,
    /// The template's author.
    pub author: Option<String>,
    /// The template's version.
    pub version: Option<String>,
    /// Ordered tags for categorization.
    pub tags: Option<Vec<String>>,
    /// The minimum required version of the tool.
    pub min_tool_version: Option<String>,
}

/// A template discovered in the storage tree.
pub struct Template {
    /// The storage-root-relative path of the template, with `/` separators:
    /// the primary lookup key, unique within one discovery pass.
    pub name: String,
    /// The resolved filesystem location.
    pub path: String,
    /// The parsed descriptor; possibly entirely empty.
    pub config: TemplateConfig,
}

/// What discovery observes of a template: its identity, its absolute path,
/// and its descriptor.
pub open spec fn tpl_view(t: Template) -> (Seq<char>, Seq<char>, TemplateConfig) {
    (t.name@, t.path@, t.config)
}

/// The display name of a template: the descriptor's name when present,
/// otherwise the identity.
pub open spec fn display_name_spec(t: Template) -> Seq<char> {
    match t.config.name {
        Some(n) => n@,
        None => t.name@,
    }
}

impl Template {
    /// The display name: the descriptor's name, or the identity.
    pub fn display_name(&self) -> (r: &str)
        ensures
            r@ == display_name_spec(*self),
    {
        match &self.config.name {
            Some(n) => n.as_str(),
            None => self.name.as_str(),
        }
    }

    /// The main programming language, if the descriptor declares one.
    pub fn language(&self) -> (r: Option<&str>)
        ensures
            r.deep_view() == self.config.language.deep_view(),
    {
        match &self.config.language {
            Some(l) => Some(l.as_str()),
            None => None,
        }
    }

    /// The description, if the descriptor declares one.
    pub fn description(&self) -> (r: Option<&str>)
        ensures
            r.deep_view() == self.config.description.deep_view(),
    {
        match &self.config.description {
            Some(d) => Some(d.as_str()),
            None => None,
        }
    }

    /// The author, if the descriptor declares one.
    pub fn author(&self) -> (r: Option<&str>)
        ensures
            r.deep_view() == self.config.author.deep_view(),
    {
        match &self.config.author {
            Some(a) => Some(a.as_str()),
            None => None,
        }
    }

    /// The version, if the descriptor declares one.
    pub fn version(&self) -> (r: Option<&str>)
        ensures
            r.deep_view() == self.config.version.deep_view(),
    {
        match &self.config.version {
            Some(v) => Some(v.as_str()),
            None => None,
        }
    }

    /// The tags, if the descriptor declares any.
    pub fn tags(&self) -> (r: Option<&Vec<String>>)
        ensures
            r.deep_view() == self.config.tags.deep_view(),
    {
        match &self.config.tags {
            Some(t) => Some(t),
            None => None,
        }
    }

    /// Whether a directory is a valid template: it directly contains the
    /// sentinel descriptor file.
    pub fn is_valid_template(node: &DirNode) -> (r: bool)
        ensures
            r == has_sentinel(node.config),
    {
        match &node.config {
            ConfigFile::Absent => false,
            ConfigFile::Invalid => true,
            ConfigFile::Parsed(_) => true,
        }
    }
}

// ---------------------------------------------------------------------------
// The storage tree, as discovery sees it
// ---------------------------------------------------------------------------

/// The state of the sentinel descriptor file in one directory.
pub enum ConfigFile {
    /// The directory holds no descriptor file: not a template.
    Absent,
    /// A descriptor file is present but cannot be read or parsed; the
    /// directory is skipped with a diagnostic.
    Invalid,
    /// A well-formed descriptor.
    Parsed(TemplateConfig),
}

/// One directory of the storage tree: its entry name, the state of its
/// descriptor file, and its child directories. Non-directory entries play no
/// part in discovery and are not represented.
pub struct DirNode {
    /// The directory's own name, a single path segment.
    pub name: String,
    /// The sentinel descriptor file of this directory.
    pub config: ConfigFile,
    /// The immediate subdirectories.
    pub subdirs: Vec<DirNode>,
}

/// Whether the directory holds a sentinel descriptor file, well-formed or
/// not.
pub open spec fn has_sentinel(c: ConfigFile) -> bool {
    !(c is Absent)
}

/// A valid directory-entry name: nonempty and free of `/`.
pub open spec fn valid_segment(s: Seq<char>) -> bool {
    s.len() > 0 && !s.contains('/')
}

/// Well-formedness of a directory node: its name is a valid segment and its
/// children are well-formed.
pub open spec fn wf_node(n: DirNode) -> bool
    decreases n,
{
    valid_segment(n.name@) && wf_children(n.subdirs@)
}

/// Well-formedness of a directory's children: each is well-formed, and no
/// two share a name, as in a real directory listing.
pub open spec fn wf_children(ns: Seq<DirNode>) -> bool
    decreases ns,
{
    &&& forall|i: int| 0 <= i < ns.len() ==> wf_node(#[trigger] ns[i])
    &&& forall|i: int, j: int| 0 <= i < j < ns.len() ==> ns[i].name@ != ns[j].name@
}

// ---------------------------------------------------------------------------
// Discovery
// ---------------------------------------------------------------------------

/// The identity of a directory named `name` under a parent with identity
/// `prefix`; the storage root itself has the empty identity.
pub open spec fn child_rel(prefix: Seq<char>, name: Seq<char>) -> Seq<char> {
    if prefix.len() == 0 {
        name
    } else {
        prefix + seq!['/'] + name
    }
}

/// The templates found at the directory `n`, in traversal order: a directory
/// holding a well-formed descriptor is a template and is not descended into;
/// one holding a malformed descriptor is skipped whole; any other directory
/// is recursed through.
pub open spec fn found_at(n: DirNode, parent_rel: Seq<char>, parent_abs: Seq<char>) -> Seq<
    (Seq<char>, Seq<char>, TemplateConfig),
>
    decreases n,
{
    let rel = child_rel(parent_rel, n.name@);
    let abs = parent_abs + seq!['/'] + n.name@;
    match n.config {
        ConfigFile::Parsed(c) => seq![(rel, abs, c)],
        ConfigFile::Invalid => Seq::empty(),
        ConfigFile::Absent => found_in(n.subdirs@, rel, abs),
    }
}

/// The templates found under the children `ns`, in traversal order.
pub open spec fn found_in(
    ns: Seq<DirNode>,
    parent_rel: Seq<char>,
    parent_abs: Seq<char>,
) -> Seq<(Seq<char>, Seq<char>, TemplateConfig)>
    decreases ns,
{
    if ns.len() == 0 {
        Seq::empty()
    } else {
        found_at(ns[0], parent_rel, parent_abs) + found_in(
            ns.drop_first(),
            parent_rel,
            parent_abs,
        )
    }
}

/// Builds the identity of a child directory.
fn child_rel_exec(prefix: &str, name: &str) -> (r: String)
    ensures
        r@ == child_rel(prefix@, name@),
{
    if prefix.unicode_len() == 0 {
        return String::from_str(name);
    }
    let mut out = String::from_str(prefix);
    push_char(&mut out, '/');
    let out = out.concat(name);
    proof {
        assert(prefix@.push('/') =~= prefix@ + seq!['/']);
    }
    out
}

/// Joins a directory name below an absolute parent path.
fn child_abs_exec(parent_abs: &str, name: &str) -> (r: String)
    ensures
        r@ == parent_abs@ + seq!['/'] + name@,
{
    let mut out = String::from_str(parent_abs);
    push_char(&mut out, '/');
    let out = out.concat(name);
    proof {
        assert(parent_abs@.push('/') =~= parent_abs@ + seq!['/']);
    }
    out
}

/// Collects the templates found at the directory `n` onto `out`.
fn collect_at(n: DirNode, parent_rel: &str, parent_abs: &str, out: &mut Vec<Template>)
    ensures
        final(out)@.map_values(|t: Template| tpl_view(t)) == old(out)@.map_values(
            |t: Template| tpl_view(t),
        ) + found_at(n, parent_rel@, parent_abs@),
    decreases n,
{
    let ghost n0 = n;
    let DirNode { name, config, subdirs } = n;
    let rel = child_rel_exec(parent_rel, name.as_str());
    let abs = child_abs_exec(parent_abs, name.as_str());
    match config {
        ConfigFile::Parsed(c) => {
            out.push(Template { name: rel, path: abs, config: c });
            proof {
                assert(final(out)@.map_values(|t: Template| tpl_view(t)) =~= old(
                    out,
                )@.map_values(|t: Template| tpl_view(t)) + found_at(
                    n0,
                    parent_rel@,
                    parent_abs@,
                ));
            }
        },
        ConfigFile::Invalid => {
            proof {
                assert(final(out)@.map_values(|t: Template| tpl_view(t)) =~= old(
                    out,
                )@.map_values(|t: Template| tpl_view(t)) + found_at(
                    n0,
                    parent_rel@,
                    parent_abs@,
                ));
            }
        },
        ConfigFile::Absent => {
            collect_in(subdirs, rel.as_str(), abs.as_str(), out);
        },
    }
}

/// Collects the templates found under the children `ns` onto `out`.
fn collect_in(ns: Vec<DirNode>, parent_rel: &str, parent_abs: &str, out: &mut Vec<Template>)
    ensures
        final(out)@.map_values(|t: Template| tpl_view(t)) == old(out)@.map_values(
            |t: Template| tpl_view(t),
        ) + found_in(ns@, parent_rel@, parent_abs@),
    decreases ns@,
{
    let ghost ns0 = ns@;
    let mut ns = ns;
    if ns.len() == 0 {
        proof {
            assert(final(out)@.map_values(|t: Template| tpl_view(t)) =~= old(out)@.map_values(
                |t: Template| tpl_view(t),
            ) + found_in(ns0, parent_rel@, parent_abs@));
        }
        return ;
    }
    let d = ns.remove(0);
    collect_at(d, parent_rel, parent_abs, out);
    collect_in(ns, parent_rel, parent_abs, out);
    proof {
        assert(ns0.drop_first() =~= ns0.remove(0));
        assert((old(out)@.map_values(|t: Template| tpl_view(t)) + found_at(
            ns0[0],
            parent_rel@,
            parent_abs@,
        )) + found_in(ns0.drop_first(), parent_rel@, parent_abs@) =~= old(out)@.map_values(
            |t: Template| tpl_view(t),
        ) + found_in(ns0, parent_rel@, parent_abs@));
    }
}

// ---------------------------------------------------------------------------
// Ordering
// ---------------------------------------------------------------------------

/// The identities of a sequence of templates.
pub open spec fn ids_of(s: Seq<Template>) -> Seq<Seq<char>> {
    s.map_values(|t: Template| t.name@)
}

/// The identities of a sequence of discovery observations.
pub open spec fn found_ids(f: Seq<(Seq<char>, Seq<char>, TemplateConfig)>) -> Seq<Seq<char>> {
    f.map_values(|x: (Seq<char>, Seq<char>, TemplateConfig)| x.0)
}

/// Templates in ascending identity order.
pub open spec fn sorted_by_identity(s: Seq<Template>) -> bool {
    forall|i: int, j: int| 0 <= i < j < s.len() ==> lex_le(s[i].name@, s[j].name@)
}

/// Templates in strictly ascending identity order.
pub open spec fn strictly_sorted_by_identity(s: Seq<Template>) -> bool {
    forall|i: int, j: int| 0 <= i < j < s.len() ==> lex_lt(s[i].name@, s[j].name@)
}

/// Sorts templates by identity, ascending; a permutation of the input.
fn sort_by_identity(v: Vec<Template>) -> (r: Vec<Template>)
    ensures
        r@.map_values(|t: Template| tpl_view(t)).to_multiset() == v@.map_values(
            |t: Template| tpl_view(t),
        ).to_multiset(),
        ids_of(r@).to_multiset() == ids_of(v@).to_multiset(),
        sorted_by_identity(r@),
{
    broadcast use vstd::seq_lib::group_to_multiset_ensures;
    broadcast use vstd::multiset::group_multiset_axioms;

    let ghost v0 = v@;
    let mut v = v;
    let mut out: Vec<Template> = Vec::new();
    proof {
        assert(out@.map_values(|t: Template| tpl_view(t)) =~= Seq::<
            (Seq<char>, Seq<char>, TemplateConfig),
        >::empty());
        assert(ids_of(out@) =~= Seq::<Seq<char>>::empty());
        assert(Seq::<(Seq<char>, Seq<char>, TemplateConfig)>::empty().to_multiset().add(
            v0.map_values(|t: Template| tpl_view(t)).to_multiset(),
        ) =~= v0.map_values(|t: Template| tpl_view(t)).to_multiset());
        assert(Seq::<Seq<char>>::empty().to_multiset().add(ids_of(v0).to_multiset()) =~= ids_of(
            v0,
        ).to_multiset());
    }
    while v.len() > 0
        invariant
            out@.map_values(|t: Template| tpl_view(t)).to_multiset().add(
                v@.map_values(|t: Template| tpl_view(t)).to_multiset(),
            ) == v0.map_values(|t: Template| tpl_view(t)).to_multiset(),
            ids_of(out@).to_multiset().add(ids_of(v@).to_multiset()) == ids_of(v0).to_multiset(),
            sorted_by_identity(out@),
            forall|i: int, j: int|
                0 <= i < out@.len() && 0 <= j < v@.len() ==> lex_le(out@[i].name@, v@[j].name@),
        decreases v@.len(),
    {
        broadcast use vstd::seq_lib::group_to_multiset_ensures;
        broadcast use vstd::multiset::group_multiset_axioms;

        let mut min: usize = 0;
        let mut j: usize = 1;
        while j < v.len()
            invariant
                0 < v@.len(),
                min < j <= v@.len(),
                forall|k: int| 0 <= k < j ==> lex_le(v@[min as int].name@, v@[k].name@),
            decreases v@.len() - j,
        {
            if str_lt(v[j].name.as_str(), v[min].name.as_str()) {
                proof {
                    assert forall|k: int| 0 <= k < j + 1 implies lex_le(
                        v@[j as int].name@,
                        v@[k].name@,
                    ) by {
                        if k < j {
                            lemma_lex_le_trans(v@[j as int].name@, v@[min as int].name@, v@[k].name@);
                        }
                    }
                }
                min = j;
            } else {
                proof {
                    lemma_lex_connected(v@[min as int].name@, v@[j as int].name@);
                }
            }
            j = j + 1;
        }
        let ghost vpre = v@;
        let t = v.remove(min);
        proof {
            // the removed element is least among what remained
            assert(vpre.remove(min as int).map_values(|x: Template| tpl_view(x)) =~= vpre.map_values(
                |x: Template| tpl_view(x),
            ).remove(min as int));
            assert(ids_of(vpre.remove(min as int)) =~= ids_of(vpre).remove(min as int));
            assert(vpre.map_values(|x: Template| tpl_view(x))[min as int] == tpl_view(t));
            assert(ids_of(vpre)[min as int] == t.name@);
        }
        let ghost outpre = out@;
        out.push(t);
        proof {
            assert(out@.map_values(|x: Template| tpl_view(x)) =~= outpre.map_values(
                |x: Template| tpl_view(x),
            ).push(tpl_view(t)));
            assert(ids_of(out@) =~= ids_of(outpre).push(t.name@));
            // multiset bookkeeping: moving the least element across
            let mo = outpre.map_values(|x: Template| tpl_view(x)).to_multiset();
            let mv = vpre.map_values(|x: Template| tpl_view(x)).to_multiset();
            assert(vpre.map_values(|x: Template| tpl_view(x)).contains(tpl_view(t)));
            assert(mv.count(tpl_view(t)) > 0);
            assert(mo.insert(tpl_view(t)).add(mv.remove(tpl_view(t))) =~= mo.add(mv));
            let io = ids_of(outpre).to_multiset();
            let iv = ids_of(vpre).to_multiset();
            assert(ids_of(vpre).contains(t.name@));
            assert(iv.count(t.name@) > 0);
            assert(io.insert(t.name@).add(iv.remove(t.name@)) =~= io.add(iv));
            // order bookkeeping
            assert forall|i: int, jj: int| 0 <= i < jj < out@.len() implies lex_le(
                out@[i].name@,
                out@[jj].name@,
            ) by {
                if jj < out@.len() - 1 {
                    assert(outpre[i] == out@[i] && outpre[jj] == out@[jj]);
                }
            }
            assert forall|i: int, jj: int|
                0 <= i < out@.len() && 0 <= jj < v@.len() implies lex_le(
                out@[i].name@,
                v@[jj].name@,
            ) by {
                let x = v@[jj];
                assert(x == vpre.remove(min as int)[jj]);
                if jj < min {
                    assert(x == vpre[jj]);
                } else {
                    assert(x == vpre[jj + 1]);
                }
            }
        }
    }
    out
}

// ---------------------------------------------------------------------------
// Identities are distinct
// ---------------------------------------------------------------------------

/// `p` is an initial run of `x`.
spec fn is_path_prefix(p: Seq<char>, x: Seq<char>) -> bool {
    p.len() <= x.len() && forall|i: int| 0 <= i < p.len() ==> p[i] == x[i]
}

/// `x` lies in the directory with identity `p`: it is `p` itself or starts
/// with `p` followed by a separator.
spec fn extends_dir(x: Seq<char>, p: Seq<char>) -> bool {
    is_path_prefix(p, x) && (x.len() == p.len() || x[p.len() as int] == '/')
}

/// Identities under sibling directories with different names differ.
proof fn lemma_distinct_branches(
    p: Seq<char>,
    n1: Seq<char>,
    n2: Seq<char>,
    x: Seq<char>,
    y: Seq<char>,
)
    requires
        valid_segment(n1),
        valid_segment(n2),
        n1 != n2,
        extends_dir(x, child_rel(p, n1)),
        extends_dir(y, child_rel(p, n2)),
    ensures
        x != y,
{
    if x == y {
        let off: int = if p.len() == 0 {
            0
        } else {
            p.len() + 1int
        };
        let a = child_rel(p, n1);
        let b = child_rel(p, n2);
        assert(a.len() == off + n1.len());
        assert(b.len() == off + n2.len());
        assert(forall|i: int| 0 <= i < n1.len() ==> a[off + i] == n1[i]);
        assert(forall|i: int| 0 <= i < n2.len() ==> b[off + i] == n2[i]);
        if n1.len() == n2.len() {
            assert forall|i: int| 0 <= i < n1.len() implies n1[i] == n2[i] by {
                assert(a[off + i] == x[off + i]);
                assert(b[off + i] == x[off + i]);
            }
            assert(n1 =~= n2);
        } else if n1.len() < n2.len() {
            assert(x.len() >= b.len());
            assert(x[a.len() as int] == '/');
            assert(b[a.len() as int] == x[a.len() as int]);
            assert(n2[a.len() - off] == '/');
            assert(n2.contains('/'));
        } else {
            assert(y.len() >= a.len());
            assert(y[b.len() as int] == '/');
            assert(a[b.len() as int] == y[b.len() as int]);
            assert(n1[b.len() - off] == '/');
            assert(n1.contains('/'));
        }
    }
}

/// Dropping the first child keeps the children well-formed.
proof fn lemma_wf_children_rest(ns: Seq<DirNode>)
    requires
        ns.len() > 0,
        wf_children(ns),
    ensures
        wf_children(ns.drop_first()),
{
    assert forall|i: int| 0 <= i < ns.drop_first().len() implies wf_node(
        #[trigger] ns.drop_first()[i],
    ) by {
        assert(ns.drop_first()[i] == ns[i + 1]);
    }
    assert forall|i: int, j: int| 0 <= i < j < ns.drop_first().len() implies ns.drop_first()[i].name@
        != ns.drop_first()[j].name@ by {
        assert(ns.drop_first()[i] == ns[i + 1]);
        assert(ns.drop_first()[j] == ns[j + 1]);
    }
}

/// Every identity found at `n` lies in `n`'s own directory.
proof fn lemma_found_at_scoped(n: DirNode, rel: Seq<char>, abs: Seq<char>)
    requires
        wf_node(n),
    ensures
        forall|k: int|
            0 <= k < found_at(n, rel, abs).len() ==> extends_dir(
                #[trigger] found_at(n, rel, abs)[k].0,
                child_rel(rel, n.name@),
            ),
    decreases n,
{
    let crel = child_rel(rel, n.name@);
    match n.config {
        ConfigFile::Parsed(_) => {
        },
        ConfigFile::Invalid => {
        },
        ConfigFile::Absent => {
            let cabs = abs + seq!['/'] + n.name@;
            lemma_found_in_scoped(n.subdirs@, crel, cabs);
            assert(found_at(n, rel, abs) == found_in(n.subdirs@, crel, cabs));
            assert forall|k: int| 0 <= k < found_at(n, rel, abs).len() implies extends_dir(
                #[trigger] found_at(n, rel, abs)[k].0,
                crel,
            ) by {
                let x = found_in(n.subdirs@, crel, cabs)[k].0;
                assert(found_at(n, rel, abs)[k].0 == x);
                assert(exists|j: int|
                    0 <= j < n.subdirs@.len() && extends_dir(
                        x,
                        child_rel(crel, n.subdirs@[j].name@),
                    ));
                let j = choose|j: int|
                    0 <= j < n.subdirs@.len() && extends_dir(
                        x,
                        child_rel(crel, n.subdirs@[j].name@),
                    );
                assert(wf_node(n.subdirs@[j]));
                assert(crel.len() > 0);
                let p = crel + seq!['/'] + n.subdirs@[j].name@;
                assert(child_rel(crel, n.subdirs@[j].name@) == p);
                assert(is_path_prefix(p, x));
                assert(x.len() > crel.len());
                assert(p[crel.len() as int] == '/');
                assert(x[crel.len() as int] == p[crel.len() as int]);
                assert(forall|i: int| 0 <= i < crel.len() ==> crel[i] == #[trigger] x[i]);
            }
        },
    }
}

/// Every identity found under `ns` lies in the directory of one of the
/// children.
proof fn lemma_found_in_scoped(ns: Seq<DirNode>, rel: Seq<char>, abs: Seq<char>)
    requires
        wf_children(ns),
    ensures
        forall|k: int|
            0 <= k < found_in(ns, rel, abs).len() ==> exists|j: int|
                0 <= j < ns.len() && extends_dir(
                    #[trigger] found_in(ns, rel, abs)[k].0,
                    child_rel(rel, ns[j].name@),
                ),
    decreases ns,
{
    if ns.len() > 0 {
        let head = found_at(ns[0], rel, abs);
        let rest = found_in(ns.drop_first(), rel, abs);
        assert(wf_node(ns[0]));
        lemma_found_at_scoped(ns[0], rel, abs);
        lemma_wf_children_rest(ns);
        lemma_found_in_scoped(ns.drop_first(), rel, abs);
        assert forall|k: int| 0 <= k < found_in(ns, rel, abs).len() implies exists|j: int|
            0 <= j < ns.len() && extends_dir(
                #[trigger] found_in(ns, rel, abs)[k].0,
                child_rel(rel, ns[j].name@),
            ) by {
            let x = found_in(ns, rel, abs)[k].0;
            if k < head.len() {
                assert(found_in(ns, rel, abs)[k] == head[k]);
                assert(extends_dir(x, child_rel(rel, ns[0].name@)));
            } else {
                assert(found_in(ns, rel, abs)[k] == rest[k - head.len()]);
                let j = choose|j: int|
                    0 <= j < ns.drop_first().len() && extends_dir(
                        rest[k - head.len()].0,
                        child_rel(rel, ns.drop_first()[j].name@),
                    );
                assert(ns.drop_first()[j] == ns[j + 1]);
                assert(extends_dir(x, child_rel(rel, ns[j + 1].name@)));
            }
        }
    }
}

/// The identities found at a well-formed directory are pairwise distinct.
proof fn lemma_found_at_distinct(n: DirNode, rel: Seq<char>, abs: Seq<char>)
    requires
        wf_node(n),
    ensures
        found_ids(found_at(n, rel, abs)).no_duplicates(),
    decreases n,
{
    match n.config {
        ConfigFile::Parsed(_) => {
        },
        ConfigFile::Invalid => {
        },
        ConfigFile::Absent => {
            let crel = child_rel(rel, n.name@);
            let cabs = abs + seq!['/'] + n.name@;
            lemma_found_in_distinct(n.subdirs@, crel, cabs);
        },
    }
}

/// The identities found under well-formed children are pairwise distinct.
proof fn lemma_found_in_distinct(ns: Seq<DirNode>, rel: Seq<char>, abs: Seq<char>)
    requires
        wf_children(ns),
    ensures
        found_ids(found_in(ns, rel, abs)).no_duplicates(),
    decreases ns,
{
    if ns.len() > 0 {
        let head = found_at(ns[0], rel, abs);
        let rest = found_in(ns.drop_first(), rel, abs);
        let whole = found_in(ns, rel, abs);
        assert(wf_node(ns[0]));
        lemma_found_at_distinct(ns[0], rel, abs);
        lemma_found_at_scoped(ns[0], rel, abs);
        lemma_wf_children_rest(ns);
        lemma_found_in_distinct(ns.drop_first(), rel, abs);
        lemma_found_in_scoped(ns.drop_first(), rel, abs);
        assert forall|k1: int, k2: int|
            0 <= k1 < whole.len() && 0 <= k2 < whole.len() && k1 != k2 implies found_ids(
            whole,
        )[k1] != found_ids(whole)[k2] by {
            assert(found_ids(whole)[k1] == whole[k1].0);
            assert(found_ids(whole)[k2] == whole[k2].0);
            let lo = if k1 < k2 {
                k1
            } else {
                k2
            };
            let hi = if k1 < k2 {
                k2
            } else {
                k1
            };
            if hi < head.len() {
                assert(whole[lo] == head[lo] && whole[hi] == head[hi]);
                assert(found_ids(head)[lo] == head[lo].0);
                assert(found_ids(head)[hi] == head[hi].0);
            } else if lo >= head.len() {
                assert(whole[lo] == rest[lo - head.len()] && whole[hi] == rest[hi - head.len()]);
                assert(found_ids(rest)[lo - head.len()] == rest[lo - head.len()].0);
                assert(found_ids(rest)[hi - head.len()] == rest[hi - head.len()].0);
            } else {
                assert(whole[lo] == head[lo]);
                assert(whole[hi] == rest[hi - head.len()]);
                let x = head[lo].0;
                let y = rest[hi - head.len()].0;
                assert(extends_dir(x, child_rel(rel, ns[0].name@)));
                let j = choose|j: int|
                    0 <= j < ns.drop_first().len() && extends_dir(
                        rest[hi - head.len()].0,
                        child_rel(rel, ns.drop_first()[j].name@),
                    );
                assert(ns.drop_first()[j] == ns[j + 1]);
                assert(wf_node(ns[0]) && wf_node(ns[j + 1]));
                assert(ns[0].name@ != ns[j + 1].name@);
                lemma_distinct_branches(rel, ns[0].name@, ns[j + 1].name@, x, y);
            }
        }
    }
}

/// Ascending order together with distinct identities is strictly ascending.
proof fn lemma_sorted_distinct_strict(s: Seq<Template>)
    requires
        sorted_by_identity(s),
        ids_of(s).no_duplicates(),
    ensures
        strictly_sorted_by_identity(s),
{
    assert forall|i: int, j: int| 0 <= i < j < s.len() implies lex_lt(s[i].name@, s[j].name@) by {
        assert(ids_of(s)[i] == s[i].name@);
        assert(ids_of(s)[j] == s[j].name@);
        assert(s[i].name@ != s[j].name@);
        assert(lex_le(s[i].name@, s[j].name@));
    }
}

// ---------------------------------------------------------------------------
// Discovery, whole
// ---------------------------------------------------------------------------

impl Template {
    /// Discovers every template in the storage tree rooted at `root`, whose
    /// resolved location is `root_path`. The result is sorted by identity,
    /// ascending; on a well-formed tree — distinct sibling names, no `/` in a
    /// name, as a real directory listing guarantees — the order is strictly
    /// ascending, and the result is a permutation of the traversal.
    pub fn discover_all(root: DirNode, root_path: &str) -> (r: Vec<Template>)
        ensures
            r@.map_values(|t: Template| tpl_view(t)).to_multiset() == found_in(
                root.subdirs@,
                Seq::empty(),
                root_path@,
            ).to_multiset(),
            ids_of(r@).to_multiset() == found_ids(
                found_in(root.subdirs@, Seq::empty(), root_path@),
            ).to_multiset(),
            sorted_by_identity(r@),
            wf_children(root.subdirs@) ==> strictly_sorted_by_identity(r@),
    {
        broadcast use vstd::seq_lib::group_to_multiset_ensures;
        broadcast use vstd::multiset::group_multiset_axioms;

        let ghost subdirs0 = root.subdirs@;
        let DirNode { name: _, config: _, subdirs } = root;
        let mut collected: Vec<Template> = Vec::new();
        proof {
            assert(collected@.map_values(|t: Template| tpl_view(t)) =~= Seq::<
                (Seq<char>, Seq<char>, TemplateConfig),
            >::empty());
        }
        collect_in(subdirs, "", root_path, &mut collected);
        proof {
            reveal_strlit("");
            assert(""@ =~= Seq::<char>::empty());
            assert(collected@.map_values(|t: Template| tpl_view(t)) =~= found_in(
                subdirs0,
                Seq::empty(),
                root_path@,
            ));
        }
        let r = sort_by_identity(collected);
        proof {
            let found = found_in(subdirs0, Seq::empty(), root_path@);
            assert(ids_of(collected@) =~= found_ids(found));
            if wf_children(subdirs0) {
                lemma_found_in_distinct(subdirs0, Seq::empty(), root_path@);
                found_ids(found).lemma_multiset_has_no_duplicates();
                assert(forall|x: Seq<char>|
                    ids_of(r@).to_multiset().contains(x) ==> #[trigger] ids_of(
                        r@,
                    ).to_multiset().count(x) == 1);
                ids_of(r@).lemma_multiset_has_no_duplicates_conv();
                lemma_sorted_distinct_strict(r@);
            }
        }
        r
    }
}

// ---------------------------------------------------------------------------
// Discovery is deterministic
// ---------------------------------------------------------------------------

/// Discovery's order is uniquely determined: two template sequences that
/// present the same templates — equal as multisets of observations — in
/// strictly ascending identity order present them identically. Since
/// discovery pins its result to a multiset computed from the tree alone,
/// repeated discovery over an unchanged tree reports the same templates in
/// the same order.
pub proof fn lemma_discovery_stable(a: Seq<Template>, b: Seq<Template>)
    requires
        a.map_values(|t: Template| tpl_view(t)).to_multiset() == b.map_values(
            |t: Template| tpl_view(t),
        ).to_multiset(),
        ids_of(a).to_multiset() == ids_of(b).to_multiset(),
        strictly_sorted_by_identity(a),
        strictly_sorted_by_identity(b),
    ensures
        a.map_values(|t: Template| tpl_view(t)) == b.map_values(|t: Template| tpl_view(t)),
{
    broadcast use vstd::seq_lib::group_to_multiset_ensures;
    broadcast use vstd::multiset::group_multiset_axioms;

    let leq = |x: Seq<char>, y: Seq<char>| lex_le(x, y);
    assert forall|x: Seq<char>| #[trigger] leq(x, x) by {}
    assert forall|x: Seq<char>, y: Seq<char>| #[trigger] leq(x, y) && #[trigger] leq(y, x) implies x
        == y by {
        if x != y {
            lemma_lex_strict(x, y);
        }
    }
    assert forall|x: Seq<char>, y: Seq<char>, z: Seq<char>|
        #[trigger] leq(x, y) && #[trigger] leq(y, z) implies leq(x, z) by {
        lemma_lex_le_trans(x, y, z);
    }
    assert forall|x: Seq<char>, y: Seq<char>| #[trigger] leq(x, y) || #[trigger] leq(y, x) by {
        lemma_lex_connected(x, y);
    }
    assert forall|i: int, j: int| 0 <= i < j < ids_of(a).len() implies leq(
        ids_of(a)[i],
        ids_of(a)[j],
    ) by {
        assert(lex_lt(a[i].name@, a[j].name@));
    }
    assert forall|i: int, j: int| 0 <= i < j < ids_of(b).len() implies leq(
        ids_of(b)[i],
        ids_of(b)[j],
    ) by {
        assert(lex_lt(b[i].name@, b[j].name@));
    }
    vstd::seq_lib::lemma_sorted_unique(ids_of(a), ids_of(b), leq);
    assert(ids_of(a) == ids_of(b));
    assert forall|i: int, j: int|
        0 <= i < ids_of(b).len() && 0 <= j < ids_of(b).len() && i != j implies ids_of(b)[i]
        != ids_of(b)[j] by {
        let lo = if i < j {
            i
        } else {
            j
        };
        let hi = if i < j {
            j
        } else {
            i
        };
        assert(lex_lt(b[lo].name@, b[hi].name@));
        lemma_lex_strict(b[lo].name@, b[hi].name@);
    }
    let am = a.map_values(|t: Template| tpl_view(t));
    let bm = b.map_values(|t: Template| tpl_view(t));
    assert(am.to_multiset().len() == bm.to_multiset().len());
    assert(am.len() == bm.len());
    assert forall|i: int| 0 <= i < am.len() implies am[i] == bm[i] by {
        assert(am.contains(am[i]));
        assert(am.to_multiset().count(am[i]) > 0);
        assert(bm.to_multiset().count(am[i]) > 0);
        assert(bm.contains(am[i]));
        let j = choose|j: int| 0 <= j < bm.len() && bm[j] == am[i];
        assert(ids_of(b)[j] == bm[j].0);
        assert(ids_of(a)[i] == am[i].0);
        assert(ids_of(b)[j] == ids_of(b)[i]);
        assert(j == i);
    }
    assert(am =~= bm);
}

// ---------------------------------------------------------------------------
// Lookup
// ---------------------------------------------------------------------------

/// `s` with every backslash separator normalized to a forward slash.
pub open spec fn normalize_seps(s: Seq<char>) -> Seq<char> {
    Seq::new(
        s.len(),
        |i: int|
            if s[i] == '\\' {
                '/'
            } else {
                s[i]
            },
    )
}

/// Normalizes a query's path separators to forward slashes.
pub fn normalize_seps_exec(s: &str) -> (r: String)
    ensures
        r@ == normalize_seps(s@),
{
    let len = s.unicode_len();
    let mut r = String::new();
    let mut i: usize = 0;
    while i < len
        invariant
            i <= len,
            len == s@.len(),
            r@ == normalize_seps(s@.take(i as int)),
        decreases len - i,
    {
        let c = s.get_char(i);
        let c = if c == '\\' {
            '/'
        } else {
            c
        };
        push_char(&mut r, c);
        i = i + 1;
        proof {
            assert(r@ =~= normalize_seps(s@.take(i as int)));
        }
    }
    proof {
        assert(s@.take(len as int) =~= s@);
    }
    r
}

/// Whether the template answers the query `raw`: its identity equals the
/// query with separators normalized, or its descriptor name equals the query
/// verbatim.
pub open spec fn find_matches(t: Template, raw: Seq<char>) -> bool {
    t.name@ == normalize_seps(raw) || (t.config.name matches Some(n) && n@ == raw)
}

impl Template {
    /// Finds the first template, in the given order, that answers the query;
    /// none is not an error — callers decide how to report it.
    pub fn find(templates: &Vec<Template>, query: &str) -> (r: Option<usize>)
        ensures
            r matches Some(i) ==> i < templates@.len() && find_matches(
                templates@[i as int],
                query@,
            ) && forall|k: int| 0 <= k < i ==> !find_matches(#[trigger] templates@[k], query@),
            r is None ==> forall|k: int|
                0 <= k < templates@.len() ==> !find_matches(#[trigger] templates@[k], query@),
    {
        let normalized = normalize_seps_exec(query);
        let n = templates.len();
        let mut i: usize = 0;
        while i < n
            invariant
                i <= n,
                n == templates@.len(),
                normalized@ == normalize_seps(query@),
                forall|k: int| 0 <= k < i ==> !find_matches(#[trigger] templates@[k], query@),
            decreases n - i,
        {
            let t = &templates[i];
            if str_eq(t.name.as_str(), normalized.as_str()) {
                return Some(i);
            }
            let by_name: bool = match &t.config.name {
                Some(cn) => str_eq(cn.as_str(), query),
                None => false,
            };
            if by_name {
                return Some(i);
            }
            i = i + 1;
        }
        None
    }
}

// ---------------------------------------------------------------------------
// Language filtering
// ---------------------------------------------------------------------------

/// Whether the template passes the language filter `lang`. The literal
/// `unknown` selects templates with no language tag; `unrecognized` those
/// whose tag the catalog does not know; any other token selects templates
/// whose tag shares a canonical display name with it, case-insensitively.
pub open spec fn lang_filter_matches(t: Template, lang: Seq<char>) -> bool {
    if lower_seq(lang) == "unknown"@ {
        t.config.language is None
    } else if lower_seq(lang) == "unrecognized"@ {
        t.config.language matches Some(l) && !known_language(l@)
    } else {
        t.config.language matches Some(l) && lower_seq(canonical_display_name(l@)) == lower_seq(
            canonical_display_name(lang),
        )
    }
}

/// Runtime check for [`lang_filter_matches`].
fn lang_matches(t: &Template, lang: &str) -> (r: bool)
    ensures
        r == lang_filter_matches(*t, lang@),
{
    let lower = str_to_lower(lang);
    if str_eq(lower.as_str(), "unknown") {
        match &t.config.language {
            None => true,
            Some(_) => false,
        }
    } else if str_eq(lower.as_str(), "unrecognized") {
        match &t.config.language {
            Some(l) => !is_known_language(l.as_str()),
            None => false,
        }
    } else {
        match &t.config.language {
            Some(l) => {
                let td = get_display_name(l.as_str());
                let qd = get_display_name(lang);
                let tl = str_to_lower(td.as_str());
                let ql = str_to_lower(qd.as_str());
                str_eq(tl.as_str(), ql.as_str())
            },
            None => false,
        }
    }
}

/// The templates that pass the language filter, in their given order; no
/// filter keeps them all.
pub open spec fn filtered_by_language(s: Seq<Template>, language: Option<&str>) -> Seq<Template>
    decreases s.len(),
{
    if s.len() == 0 {
        Seq::empty()
    } else {
        let rest = filtered_by_language(s.drop_last(), language);
        match language {
            None => rest.push(s.last()),
            Some(l) => if lang_filter_matches(s.last(), l@) {
                rest.push(s.last())
            } else {
                rest
            },
        }
    }
}

/// Keeps the templates selected by the language filter, in order.
pub fn filter_by_language(templates: Vec<Template>, language: Option<&str>) -> (r: Vec<Template>)
    ensures
        r@ == filtered_by_language(templates@, language),
        language is None ==> r@ == templates@,
{
    let ghost orig = templates@;
    proof {
        if language is None {
            lemma_filtered_none(orig, language);
        }
    }
    let mut templates = templates;
    let mut out: Vec<Template> = Vec::new();
    let mut k: usize = 0;
    let total = templates.len();
    proof {
        assert(orig.len() == total);
        assert(orig.take(0) =~= Seq::<Template>::empty());
        assert(orig.skip(0) =~= orig);
    }
    while templates.len() > 0
        invariant
            k <= orig.len(),
            orig.len() <= usize::MAX,
            templates@ == orig.skip(k as int),
            out@ == filtered_by_language(orig.take(k as int), language),
        decreases templates@.len(),
    {
        let t = templates.remove(0);
        proof {
            assert(orig.skip(k as int)[0] == orig[k as int]);
            assert(orig.skip(k as int).remove(0) =~= orig.skip(k as int + 1));
            assert(orig.take(k as int + 1).drop_last() =~= orig.take(k as int));
            assert(orig.take(k as int + 1).last() == orig[k as int]);
        }
        let keep: bool = match language {
            None => true,
            Some(l) => lang_matches(&t, l),
        };
        if keep {
            out.push(t);
        }
        k = k + 1;
    }
    proof {
        assert(orig.take(orig.len() as int) =~= orig);
    }
    out
}

/// Without a filter, filtering keeps the sequence as it is.
proof fn lemma_filtered_none(s: Seq<Template>, language: Option<&str>)
    requires
        language is None,
    ensures
        filtered_by_language(s, language) == s,
    decreases s.len(),
{
    if s.len() > 0 {
        lemma_filtered_none(s.drop_last(), language);
        assert(filtered_by_language(s, language) =~= s);
    } else {
        assert(filtered_by_language(s, language) =~= s);
    }
}

// ---------------------------------------------------------------------------
// Grouping for display
// ---------------------------------------------------------------------------

/// The key a template is grouped and sorted under for display: the canonical
/// display name of its language, a trailing star marking an unrecognized
/// tag; templates without a tag group under a key that sorts after every
/// display name.
pub open spec fn group_key_spec(t: Template) -> Seq<char> {
    match t.config.language {
        Some(l) => if known_language(l@) {
            canonical_display_name(l@)
        } else {
            canonical_display_name(l@) + seq!['*']
        },
        None => seq!['\u{ffff}'] + "Unknown"@,
    }
}

/// Runtime computation of [`group_key_spec`].
fn group_key(t: &Template) -> (r: String)
    ensures
        r@ == group_key_spec(*t),
{
    match &t.config.language {
        Some(l) => {
            let display = get_display_name(l.as_str());
            if is_known_language(l.as_str()) {
                display
            } else {
                let mut starred = display;
                push_char(&mut starred, '*');
                proof {
                    assert(canonical_display_name(l@).push('*') =~= canonical_display_name(l@)
                        + seq!['*']);
                }
                starred
            }
        },
        None => {
            let mut key = String::new();
            push_char(&mut key, '\u{ffff}');
            let key = key.concat("Unknown");
            proof {
                assert(Seq::<char>::empty().push('\u{ffff}') =~= seq!['\u{ffff}']);
            }
            key
        },
    }
}

/// The templates whose group key is `key`, in their given order.
pub open spec fn grouped_with_key(s: Seq<Template>, key: Seq<char>) -> Seq<Template>
    decreases s.len(),
{
    if s.len() == 0 {
        Seq::empty()
    } else {
        let rest = grouped_with_key(s.drop_last(), key);
        if group_key_spec(s.last()) == key {
            rest.push(s.last())
        } else {
            rest
        }
    }
}

/// A nonempty group names the key of one of its templates.
proof fn lemma_grouped_nonempty(s: Seq<Template>, key: Seq<char>)
    requires
        grouped_with_key(s, key).len() > 0,
    ensures
        exists|k: int| 0 <= k < s.len() && group_key_spec(#[trigger] s[k]) == key,
    decreases s.len(),
{
    if s.len() > 0 {
        if group_key_spec(s.last()) == key {
            assert(group_key_spec(s[s.len() - 1]) == key);
        } else {
            lemma_grouped_nonempty(s.drop_last(), key);
            let k = choose|k: int|
                0 <= k < s.drop_last().len() && group_key_spec(#[trigger] s.drop_last()[k])
                    == key;
            assert(s.drop_last()[k] == s[k]);
            assert(group_key_spec(s[k]) == key);
        }
    }
}

/// Whether some group carries the key.
pub open spec fn key_present(groups: Seq<(String, Vec<Template>)>, key: Seq<char>) -> bool {
    exists|i: int| 0 <= i < groups.len() && (#[trigger] groups[i]).0@ == key
}

/// Groups templates by their display key, the groups in strictly ascending
/// key order, each group holding its templates in their given order, and
/// every template standing in the group of its key.
pub fn group_by_language(templates: Vec<Template>) -> (r: Vec<(String, Vec<Template>)>)
    ensures
        forall|i: int, j: int| 0 <= i < j < r@.len() ==> lex_lt(r@[i].0@, r@[j].0@),
        forall|i: int|
            0 <= i < r@.len() ==> (#[trigger] r@[i]).1@ == grouped_with_key(
                templates@,
                r@[i].0@,
            ) && r@[i].1@.len() > 0,
        forall|k: int|
            0 <= k < templates@.len() ==> key_present(
                r@,
                #[trigger] group_key_spec(templates@[k]),
            ),
{
    let ghost orig = templates@;
    let mut templates = templates;
    let mut out: Vec<(String, Vec<Template>)> = Vec::new();
    let mut k: usize = 0;
    let total = templates.len();
    proof {
        assert(orig.len() == total);
        assert(orig.skip(0) =~= orig);
    }
    while templates.len() > 0
        invariant
            k <= orig.len(),
            orig.len() <= usize::MAX,
            templates@ == orig.skip(k as int),
            forall|i: int, j: int| 0 <= i < j < out@.len() ==> lex_lt(out@[i].0@, out@[j].0@),
            forall|i: int|
                0 <= i < out@.len() ==> (#[trigger] out@[i]).1@ == grouped_with_key(
                    orig.take(k as int),
                    out@[i].0@,
                ) && out@[i].1@.len() > 0,
            forall|kk: int|
                0 <= kk < k ==> key_present(out@, #[trigger] group_key_spec(orig[kk])),
        decreases templates@.len(),
    {
        let t = templates.remove(0);
        proof {
            assert(orig.skip(k as int)[0] == orig[k as int]);
            assert(orig.skip(k as int).remove(0) =~= orig.skip(k as int + 1));
            assert(orig.take(k as int + 1).drop_last() =~= orig.take(k as int));
            assert(orig.take(k as int + 1).last() == orig[k as int]);
        }
        let ghost prefix = orig.take(k as int);
        let ghost prefix1 = orig.take(k as int + 1);
        let key = group_key(&t);
        let n = out.len();
        let mut p: usize = 0;
        while p < n && str_lt(out[p].0.as_str(), key.as_str())
            invariant
                p <= n,
                n == out@.len(),
                key@ == group_key_spec(t),
                forall|idx: int| 0 <= idx < p ==> lex_lt((#[trigger] out@[idx]).0@, key@),
            decreases n - p,
        {
            p = p + 1;
        }
        let ghost outpre = out@;
        let mut key_found: bool = false;
        if p < n {
            key_found = str_eq(out[p].0.as_str(), key.as_str());
        }
        if key_found {
            let mut pair = out.remove(p);
            pair.1.push(t);
            out.insert(p, pair);
            proof {
                assert(out@ =~= outpre.update(p as int, (outpre[p as int].0, out@[p as int].1)));
                assert(out@[p as int].0@ == key@);
                assert(out@[p as int].1@ == outpre[p as int].1@.push(t));
                assert(forall|i: int| 0 <= i < out@.len() && i != p ==> out@[i] == outpre[i]);
                assert(forall|i: int|
                    0 <= i < out@.len() ==> (#[trigger] out@[i]).0@ == outpre[i].0@);
                assert forall|i: int| 0 <= i < out@.len() implies (#[trigger] out@[i]).1@
                    == grouped_with_key(prefix1, out@[i].0@) && out@[i].1@.len() > 0 by {
                    if i == p {
                        assert(grouped_with_key(prefix1, out@[i].0@) == grouped_with_key(
                            prefix,
                            out@[i].0@,
                        ).push(t));
                    } else {
                        assert(out@[i] == outpre[i]);
                        assert(out@[i].0@ != key@) by {
                            if i < p {
                                assert(lex_lt(outpre[i].0@, key@));
                                lemma_lex_strict(outpre[i].0@, key@);
                            } else {
                                assert(lex_lt(outpre[p as int].0@, outpre[i].0@));
                                lemma_lex_strict(outpre[p as int].0@, outpre[i].0@);
                            }
                        }
                        assert(grouped_with_key(prefix1, out@[i].0@) == grouped_with_key(
                            prefix,
                            out@[i].0@,
                        ));
                    }
                }
                assert forall|kk: int| 0 <= kk < k + 1 implies key_present(
                    out@,
                    #[trigger] group_key_spec(orig[kk]),
                ) by {
                    if kk < k {
                        assert(key_present(outpre, group_key_spec(orig[kk])));
                        let i0 = choose|i: int|
                            0 <= i < outpre.len() && (#[trigger] outpre[i]).0@
                                == group_key_spec(orig[kk]);
                        assert(out@[i0].0@ == group_key_spec(orig[kk]));
                    } else {
                        assert(out@[p as int].0@ == group_key_spec(orig[kk]));
                    }
                }
            }
        } else {
            proof {
                // the key is new: no existing group carries it
                assert forall|i: int| 0 <= i < out@.len() implies (#[trigger] out@[i]).0@
                    != key@ by {
                    if i < p {
                        lemma_lex_strict(out@[i].0@, key@);
                    } else if i == p {
                    } else {
                        assert(lex_lt(out@[p as int].0@, out@[i].0@));
                        if out@[i].0@ == key@ {
                            lemma_lex_connected(out@[p as int].0@, key@);
                            lemma_lex_strict(out@[p as int].0@, out@[i].0@);
                        }
                    }
                }
                if grouped_with_key(prefix, key@).len() > 0 {
                    lemma_grouped_nonempty(prefix, key@);
                    let kk0 = choose|kk: int|
                        0 <= kk < prefix.len() && group_key_spec(#[trigger] prefix[kk])
                            == key@;
                    assert(prefix[kk0] == orig[kk0]);
                    assert(key_present(out@, group_key_spec(orig[kk0])));
                    let iw = choose|i: int|
                        0 <= i < out@.len() && (#[trigger] out@[i]).0@ == group_key_spec(
                            orig[kk0],
                        );
                    assert(out@[iw].0@ == key@);
                    assert(false);
                }
                assert(grouped_with_key(prefix, key@) =~= Seq::<Template>::empty());
            }
            let mut group: Vec<Template> = Vec::new();
            group.push(t);
            let ghost outpre2 = out@;
            out.insert(p, (key, group));
            proof {
                assert(out@.len() == outpre2.len() + 1);
                assert(forall|i: int| 0 <= i < p ==> out@[i] == outpre2[i]);
                assert(forall|i: int|
                    p < i < out@.len() ==> #[trigger] out@[i] == outpre2[i - 1]);
                assert(out@[p as int].0@ == key@ && out@[p as int].1@ == seq![t]);
                assert forall|i: int, j: int| 0 <= i < j < out@.len() implies lex_lt(
                    out@[i].0@,
                    out@[j].0@,
                ) by {
                    if j == p {
                        assert(lex_lt(out@[i].0@, key@));
                    } else if i == p && j > p {
                        assert(outpre2[j - 1] == out@[j]);
                        if p < n {
                            assert(!lex_lt(outpre2[p as int].0@, key@));
                            lemma_lex_connected(outpre2[p as int].0@, key@);
                            if j - 1 > p {
                                crate::strutil::lemma_lex_trans(
                                    key@,
                                    outpre2[p as int].0@,
                                    outpre2[j - 1].0@,
                                );
                            }
                        }
                    }
                }
                assert forall|i: int| 0 <= i < out@.len() implies (#[trigger] out@[i]).1@
                    == grouped_with_key(prefix1, out@[i].0@) && out@[i].1@.len() > 0 by {
                    if i == p {
                        assert(grouped_with_key(prefix1, key@) == grouped_with_key(
                            prefix,
                            key@,
                        ).push(t));
                        assert(grouped_with_key(prefix1, key@) =~= seq![t]);
                    } else {
                        let i0 = if i < p {
                            i
                        } else {
                            i - 1
                        };
                        assert(out@[i] == outpre2[i0]);
                        assert(outpre2[i0].0@ != key@);
                        assert(grouped_with_key(prefix1, out@[i].0@) == grouped_with_key(
                            prefix,
                            out@[i].0@,
                        ));
                    }
                }
                assert forall|kk: int| 0 <= kk < k + 1 implies key_present(
                    out@,
                    #[trigger] group_key_spec(orig[kk]),
                ) by {
                    if kk < k {
                        assert(key_present(outpre2, group_key_spec(orig[kk])));
                        let i0 = choose|i: int|
                            0 <= i < outpre2.len() && (#[trigger] outpre2[i]).0@
                                == group_key_spec(orig[kk]);
                        let inew: int = if i0 < p {
                            i0
                        } else {
                            i0 + 1
                        };
                        assert(out@[inew].0@ == group_key_spec(orig[kk]));
                    } else {
                        assert(out@[p as int].0@ == group_key_spec(orig[kk]));
                    }
                }
            }
        }
        k = k + 1;
    }
    proof {
        assert(k == orig.len());
        assert(orig.take(orig.len() as int) =~= orig);
    }
    out
}

/// Whether the template carries a language tag that the catalog does not
/// recognize.
pub open spec fn has_unrecognized_language(t: Template) -> bool {
    t.config.language matches Some(l) && !known_language(l@)
}

/// Whether any of the templates carries an unrecognized language tag.
pub fn check_for_unrecognized(templates: &Vec<Template>) -> (r: bool)
    ensures
        r == exists|i: int|
            0 <= i < templates@.len() && has_unrecognized_language(#[trigger] templates@[i]),
{
    let n = templates.len();
    let mut i: usize = 0;
    while i < n
        invariant
            i <= n,
            n == templates@.len(),
            forall|k: int| 0 <= k < i ==> !has_unrecognized_language(#[trigger] templates@[k]),
        decreases n - i,
    {
        let t = &templates[i];
        let unrecognized: bool = match &t.config.language {
            Some(l) => !is_known_language(l.as_str()),
            None => false,
        };
        if unrecognized {
            return true;
        }
        i = i + 1;
    }
    false
}

} // verus!
