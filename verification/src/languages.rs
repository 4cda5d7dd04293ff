use vstd::prelude::*;

use crate::strutil::{lower_seq, str_eq, str_to_lower};

verus! {

/// A language definition: a canonical display name and its lookup aliases.
pub struct Language {
    pub display_name: &'static str,
    pub aliases: Vec<&'static str>,
}

impl View for Language {
    type V = (Seq<char>, Seq<Seq<char>>);

    open spec fn view(&self) -> (Seq<char>, Seq<Seq<char>>) {
        (self.display_name@, self.aliases.deep_view())
    }
}

impl DeepView for Language {
    type V = (Seq<char>, Seq<Seq<char>>);

    open spec fn deep_view(&self) -> (Seq<char>, Seq<Seq<char>>) {
        self.view()
    }
}

impl Language {
    /// Pairs a display name with its aliases.
    pub fn new(display_name: &'static str, aliases: Vec<&'static str>) -> (r: Self)
        ensures
            r@ == (display_name@, aliases.deep_view()),
    {
        Language { display_name, aliases }
    }
}

/// The static language table: each entry carries the canonical display name
/// and the lowercase aliases that select it.
///
/// Invariant of the data (not checked at runtime): every alias is lowercase.
/// A few aliases appear under two entries; as in a map filled front to back,
/// the later entry owns the alias (see [`lookup_alias`]).
pub open spec fn catalog_spec() -> Seq<(Seq<char>, Seq<Seq<char>>)> {
    seq![
        ("Bash"@, seq!["bash"@, "sh"@, "shell"@, "zsh"@]),
        ("C"@, seq!["c"@]),
        ("C#"@, seq!["csharp"@, "c#"@, "cake"@, "cakescript"@]),
        ("C++"@, seq!["cpp"@, "c++"@]),
        ("Clojure"@, seq!["clojure"@, "clj"@]),
        ("CMake"@, seq!["cmake"@]),
        ("CoffeeScript"@, seq!["coffeescript"@, "coffee"@, "coffee-script"@]),
        ("CSS"@, seq!["css"@]),
        ("Dart"@, seq!["dart"@]),
        ("Dockerfile"@, seq!["dockerfile"@, "containerfile"@]),
        ("Elixir"@, seq!["elixir"@]),
        ("Erlang"@, seq!["erlang"@]),
        ("F#"@, seq!["fsharp"@, "f#"@]),
        ("Go"@, seq!["go"@, "golang"@]),
        ("Groovy"@, seq!["groovy"@]),
        ("Haskell"@, seq!["haskell"@, "hs"@]),
        ("HTML"@, seq!["html"@, "xhtml"@]),
        ("Java"@, seq!["java"@]),
        ("JavaScript"@, seq!["javascript"@, "js"@, "node"@]),
        ("JSON"@, seq!["json"@, "geojson"@, "jsonl"@, "topojson"@]),
        ("Just"@, seq!["just"@, "justfile"@]),
        ("Kotlin"@, seq!["kotlin"@, "kt"@]),
        ("Lua"@, seq!["lua"@]),
        ("Makefile"@, seq!["makefile"@, "make"@, "mf"@, "bsdmake"@]),
        ("Markdown"@, seq!["markdown"@, "md"@, "pandoc"@]),
        ("Nix"@, seq!["nix"@, "nixos"@]),
        ("Objective-C"@, seq!["objective-c"@, "objc"@, "obj-c"@, "objectivec"@]),
        ("Objective-C++"@, seq!["objective-c++"@, "objc++"@, "obj-c++"@, "objectivec++"@]),
        ("OCaml"@, seq!["ocaml"@]),
        ("Perl"@, seq!["perl"@, "cperl"@]),
        ("PHP"@, seq!["php"@]),
        ("PowerShell"@, seq!["powershell"@, "posh"@, "pwsh"@]),
        ("Python"@, seq!["python"@, "py"@, "python3"@, "rusthon"@]),
        ("R"@, seq!["r"@, "rscript"@, "splus"@]),
        ("Ruby"@, seq!["ruby"@, "rb"@, "jruby"@, "macruby"@, "rake"@, "rbx"@]),
        ("Rust"@, seq!["rust"@, "rs"@]),
        ("Sass"@, seq!["sass"@]),
        ("Scala"@, seq!["scala"@]),
        ("SCSS"@, seq!["scss"@]),
        ("Shell"@, seq!["shell"@, "sh"@, "bash"@, "zsh"@]),
        ("SQL"@, seq!["sql"@]),
        ("Svelte"@, seq!["svelte"@]),
        ("Swift"@, seq!["swift"@]),
        ("TOML"@, seq!["toml"@]),
        ("TypeScript"@, seq!["typescript"@, "ts"@]),
        ("Vue"@, seq!["vue"@]),
        ("XML"@, seq!["xml"@]),
        ("YAML"@, seq!["yaml"@, "yml"@]),
    ]
}

/// The display name owned by an alias: the *last* entry of the table whose
/// alias list contains it, as in a lookup map filled front to back, where a
/// later insertion overwrites an earlier one.
pub open spec fn lookup_alias(
    table: Seq<(Seq<char>, Seq<Seq<char>>)>,
    alias: Seq<char>,
) -> Option<Seq<char>>
    decreases table.len(),
{
    if table.len() == 0 {
        None
    } else if table.last().1.contains(alias) {
        Some(table.last().0)
    } else {
        lookup_alias(table.drop_last(), alias)
    }
}

/// The canonical display name of a language identifier: the owner of its
/// lowercase form in the table, or the identifier itself when unrecognized.
pub open spec fn canonical_display_name(id: Seq<char>) -> Seq<char> {
    match lookup_alias(catalog_spec(), lower_seq(id)) {
        Some(d) => d,
        None => id,
    }
}

/// Whether the identifier's lowercase form is an alias of some table entry.
pub open spec fn known_language(id: Seq<char>) -> bool {
    lookup_alias(catalog_spec(), lower_seq(id)) is Some
}

/// The language table, one entry per canonical language.
pub fn get_language_map() -> (r: Vec<Language>)
    ensures
        r.deep_view() == catalog_spec(),
{
    let mut r: Vec<Language> = Vec::new();
    r.push(Language::new("Bash", vec!["bash", "sh", "shell", "zsh"]));
    r.push(Language::new("C", vec!["c"]));
    r.push(Language::new("C#", vec!["csharp", "c#", "cake", "cakescript"]));
    r.push(Language::new("C++", vec!["cpp", "c++"]));
    r.push(Language::new("Clojure", vec!["clojure", "clj"]));
    r.push(Language::new("CMake", vec!["cmake"]));
    r.push(Language::new("CoffeeScript", vec!["coffeescript", "coffee", "coffee-script"]));
    r.push(Language::new("CSS", vec!["css"]));
    r.push(Language::new("Dart", vec!["dart"]));
    r.push(Language::new("Dockerfile", vec!["dockerfile", "containerfile"]));
    r.push(Language::new("Elixir", vec!["elixir"]));
    r.push(Language::new("Erlang", vec!["erlang"]));
    r.push(Language::new("F#", vec!["fsharp", "f#"]));
    r.push(Language::new("Go", vec!["go", "golang"]));
    r.push(Language::new("Groovy", vec!["groovy"]));
    r.push(Language::new("Haskell", vec!["haskell", "hs"]));
    r.push(Language::new("HTML", vec!["html", "xhtml"]));
    r.push(Language::new("Java", vec!["java"]));
    r.push(Language::new("JavaScript", vec!["javascript", "js", "node"]));
    r.push(Language::new("JSON", vec!["json", "geojson", "jsonl", "topojson"]));
    r.push(Language::new("Just", vec!["just", "justfile"]));
    r.push(Language::new("Kotlin", vec!["kotlin", "kt"]));
    r.push(Language::new("Lua", vec!["lua"]));
    r.push(Language::new("Makefile", vec!["makefile", "make", "mf", "bsdmake"]));
    r.push(Language::new("Markdown", vec!["markdown", "md", "pandoc"]));
    r.push(Language::new("Nix", vec!["nix", "nixos"]));
    r.push(Language::new("Objective-C", vec!["objective-c", "objc", "obj-c", "objectivec"]));
    r.push(
        Language::new("Objective-C++", vec!["objective-c++", "objc++", "obj-c++", "objectivec++"]),
    );
    r.push(Language::new("OCaml", vec!["ocaml"]));
    r.push(Language::new("Perl", vec!["perl", "cperl"]));
    r.push(Language::new("PHP", vec!["php"]));
    r.push(Language::new("PowerShell", vec!["powershell", "posh", "pwsh"]));
    r.push(Language::new("Python", vec!["python", "py", "python3", "rusthon"]));
    r.push(Language::new("R", vec!["r", "rscript", "splus"]));
    r.push(Language::new("Ruby", vec!["ruby", "rb", "jruby", "macruby", "rake", "rbx"]));
    r.push(Language::new("Rust", vec!["rust", "rs"]));
    r.push(Language::new("Sass", vec!["sass"]));
    r.push(Language::new("Scala", vec!["scala"]));
    r.push(Language::new("SCSS", vec!["scss"]));
    r.push(Language::new("Shell", vec!["shell", "sh", "bash", "zsh"]));
    r.push(Language::new("SQL", vec!["sql"]));
    r.push(Language::new("Svelte", vec!["svelte"]));
    r.push(Language::new("Swift", vec!["swift"]));
    r.push(Language::new("TOML", vec!["toml"]));
    r.push(Language::new("TypeScript", vec!["typescript", "ts"]));
    r.push(Language::new("Vue", vec!["vue"]));
    r.push(Language::new("XML", vec!["xml"]));
    r.push(Language::new("YAML", vec!["yaml", "yml"]));
    proof {
        assert(r.deep_view() =~~= catalog_spec());
    }
    r
}

/// Finds the display name owned by an already-lowercased identifier.
fn lookup_display(lower: &str) -> (r: Option<&'static str>)
    ensures
        r matches Some(d) ==> lookup_alias(catalog_spec(), lower@) == Some(d@),
        r is None ==> lookup_alias(catalog_spec(), lower@) is None,
{
    let table = get_language_map();
    let mut i: usize = table.len();
    proof {
        assert(catalog_spec().take(i as int) =~= catalog_spec());
    }
    while i > 0
        invariant
            i <= table@.len(),
            table.deep_view() == catalog_spec(),
            table@.len() == catalog_spec().len(),
            lookup_alias(catalog_spec(), lower@) == lookup_alias(
                catalog_spec().take(i as int),
                lower@,
            ),
        decreases i,
    {
        let lang = &table[i - 1];
        proof {
            assert(table.deep_view()[i - 1] == catalog_spec()[i - 1]);
        }
        let n = lang.aliases.len();
        let mut j: usize = 0;
        while j < n
            invariant
                j <= n,
                n == lang.aliases@.len(),
                lang.deep_view() == catalog_spec()[i - 1],
                0 < i <= catalog_spec().len(),
                lookup_alias(catalog_spec(), lower@) == lookup_alias(
                    catalog_spec().take(i as int),
                    lower@,
                ),
                forall|k: int| 0 <= k < j ==> lang.aliases.deep_view()[k] != lower@,
            decreases n - j,
        {
            if str_eq(lang.aliases[j], lower) {
                proof {
                    assert(lang.aliases.deep_view()[j as int] == lower@);
                    assert(catalog_spec()[i - 1].1.contains(lower@));
                    assert(catalog_spec().take(i as int).len() == i);
                    assert(catalog_spec().take(i as int).last() == catalog_spec()[i - 1]);
                    assert(lookup_alias(catalog_spec().take(i as int), lower@) == Some(
                        catalog_spec()[i - 1].0,
                    ));
                    assert(lang.display_name@ == catalog_spec()[i - 1].0);
                }
                return Some(lang.display_name);
            }
            j = j + 1;
        }
        proof {
            assert(!catalog_spec()[i - 1].1.contains(lower@)) by {
                assert(forall|k: int|
                    0 <= k < catalog_spec()[i - 1].1.len() ==> #[trigger] catalog_spec()[i
                        - 1].1[k] != lower@);
            }
            assert(catalog_spec().take(i as int).last() == catalog_spec()[i - 1]);
            assert(catalog_spec().take(i as int).drop_last() =~= catalog_spec().take(i - 1));
        }
        i = i - 1;
    }
    proof {
        assert(catalog_spec().take(0) =~= Seq::<(Seq<char>, Seq<Seq<char>>)>::empty());
    }
    None
}

/// The canonical display name for a language identifier, case-insensitively;
/// an unrecognized identifier is returned as it is.
pub fn get_display_name(identifier: &str) -> (r: String)
    ensures
        r@ == canonical_display_name(identifier@),
{
    let lower = str_to_lower(identifier);
    match lookup_display(lower.as_str()) {
        Some(d) => String::from_str(d),
        None => String::from_str(identifier),
    }
}

/// Whether a language identifier is in the table, case-insensitively.
pub fn is_known_language(identifier: &str) -> (r: bool)
    ensures
        r == known_language(identifier@),
{
    let lower = str_to_lower(identifier);
    match lookup_display(lower.as_str()) {
        Some(_) => true,
        None => false,
    }
}

} // verus!
