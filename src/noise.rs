//! The filter that keeps lock files, build output and minified bundles out
//! of diffs and searches.
use vstd::prelude::*;
use vstd::string::{StrSliceExecFns, StringExecFns};
use crate::classify::strs_view;
use crate::text::{chars_of, has_at, lit_at, last_segment, short_path, same_text};

verus! {

/// The three rule sets of the noise filter: exact file names, path suffixes
/// and path prefixes.
#[derive(Debug, Clone)]
pub struct NoiseRules {
    pub exact: Vec<String>,
    pub suffixes: Vec<String>,
    pub prefixes: Vec<String>,
}

pub struct NoiseRulesView {
    pub exact: Seq<Seq<char>>,
    pub suffixes: Seq<Seq<char>>,
    pub prefixes: Seq<Seq<char>>,
}

impl View for NoiseRules {
    type V = NoiseRulesView;

    open spec fn view(&self) -> NoiseRulesView {
        NoiseRulesView {
            exact: strs_view(self.exact@),
            suffixes: strs_view(self.suffixes@),
            prefixes: strs_view(self.prefixes@),
        }
    }
}

/// Whether `p` ends with `s`.
pub open spec fn ends_with(p: Seq<char>, s: Seq<char>) -> bool {
    p.len() >= s.len() && lit_at(p, p.len() - s.len(), s)
}

/// A path is noise when its file name is one of the exact names, or it ends
/// with one of the suffixes, or it starts with one of the prefixes.
pub open spec fn is_noise_path(rules: NoiseRulesView, p: Seq<char>) -> bool {
    ||| exists|i: int| 0 <= i < rules.exact.len() && last_segment(p) == rules.exact[i]
    ||| exists|i: int| 0 <= i < rules.suffixes.len() && ends_with(p, rules.suffixes[i])
    ||| exists|i: int| 0 <= i < rules.prefixes.len() && lit_at(p, 0, rules.prefixes[i])
}

/// Lock files and operating-system artifacts, matched by file name.
pub open spec fn standard_exact() -> Seq<Seq<char>> {
    seq![
        "pnpm-lock.yaml"@, "package-lock.json"@, "yarn.lock"@, "npm-shrinkwrap.json"@,
        "bun.lockb"@, "Cargo.lock"@, "Gemfile.lock"@, "poetry.lock"@, "Pipfile.lock"@,
        "uv.lock"@, "go.sum"@, "composer.lock"@, "packages.lock.json"@, "pubspec.lock"@,
        "Package.resolved"@, "mix.lock"@, ".DS_Store"@,
    ]
}

/// Minified, bundled and source-map files, matched by suffix.
pub open spec fn standard_suffixes() -> Seq<Seq<char>> {
    seq![".min.js"@, ".min.css"@, ".map"@, ".chunk.js"@, ".bundle.js"@]
}

/// Build-output directories, matched by prefix.
pub open spec fn standard_prefixes() -> Seq<Seq<char>> {
    seq!["dist/"@, ".next/"@, "build/"@, "__generated__/"@, ".turbo/"@]
}

/// The standard rule sets.
pub open spec fn standard_rules() -> NoiseRulesView {
    NoiseRulesView {
        exact: standard_exact(),
        suffixes: standard_suffixes(),
        prefixes: standard_prefixes(),
    }
}

fn push_rule(v: &mut Vec<String>, s: &str)
    ensures
        strs_view(final(v)@) == strs_view(old(v)@).push(s@),
{
    let ghost before = v@;
    v.push(String::from_str(s));
    assert(strs_view(v@) =~= strs_view(before).push(s@));
}

impl NoiseRules {
    /// The standard rules.
    pub fn standard() -> (r: NoiseRules)
        ensures
            r@ == standard_rules(),
    {
        let mut exact: Vec<String> = Vec::new();
        assert(strs_view(exact@) =~= Seq::<Seq<char>>::empty());
        push_rule(&mut exact, "pnpm-lock.yaml");
        push_rule(&mut exact, "package-lock.json");
        push_rule(&mut exact, "yarn.lock");
        push_rule(&mut exact, "npm-shrinkwrap.json");
        push_rule(&mut exact, "bun.lockb");
        push_rule(&mut exact, "Cargo.lock");
        push_rule(&mut exact, "Gemfile.lock");
        push_rule(&mut exact, "poetry.lock");
        push_rule(&mut exact, "Pipfile.lock");
        push_rule(&mut exact, "uv.lock");
        push_rule(&mut exact, "go.sum");
        push_rule(&mut exact, "composer.lock");
        push_rule(&mut exact, "packages.lock.json");
        push_rule(&mut exact, "pubspec.lock");
        push_rule(&mut exact, "Package.resolved");
        push_rule(&mut exact, "mix.lock");
        push_rule(&mut exact, ".DS_Store");
        let mut suffixes: Vec<String> = Vec::new();
        assert(strs_view(suffixes@) =~= Seq::<Seq<char>>::empty());
        push_rule(&mut suffixes, ".min.js");
        push_rule(&mut suffixes, ".min.css");
        push_rule(&mut suffixes, ".map");
        push_rule(&mut suffixes, ".chunk.js");
        push_rule(&mut suffixes, ".bundle.js");
        let mut prefixes: Vec<String> = Vec::new();
        assert(strs_view(prefixes@) =~= Seq::<Seq<char>>::empty());
        push_rule(&mut prefixes, "dist/");
        push_rule(&mut prefixes, ".next/");
        push_rule(&mut prefixes, "build/");
        push_rule(&mut prefixes, "__generated__/");
        push_rule(&mut prefixes, ".turbo/");
        let r = NoiseRules { exact, suffixes, prefixes };
        assert(r@.exact =~= standard_exact());
        assert(r@.suffixes =~= standard_suffixes());
        assert(r@.prefixes =~= standard_prefixes());
        r
    }

    /// Whether `path` is noise under these rules.
    pub fn is_noise(&self, path: &str) -> (r: bool)
        ensures
            r == is_noise_path(self@, path@),
    {
        let ghost rv = self@;
        let name = short_path(path);
        let mut k: usize = 0;
        while k < self.exact.len()
            invariant
                k <= self.exact.len(),
                rv == self@,
                name@ == last_segment(path@),
                forall|i: int| 0 <= i < k ==> last_segment(path@) != rv.exact[i],
            decreases self.exact.len() - k,
        {
            if same_text(name.as_str(), self.exact[k].as_str()) {
                assert(last_segment(path@) == rv.exact[k as int]);
                return true;
            }
            k = k + 1;
        }
        let cs = chars_of(path);
        let n = cs.len();
        let mut k: usize = 0;
        while k < self.suffixes.len()
            invariant
                k <= self.suffixes.len(),
                rv == self@,
                cs@ == path@,
                n == cs.len(),
                forall|i: int| 0 <= i < k ==> !ends_with(path@, rv.suffixes[i]),
            decreases self.suffixes.len() - k,
        {
            let sl = self.suffixes[k].as_str().unicode_len();
            if sl <= n && has_at(&cs, n - sl, self.suffixes[k].as_str()) {
                assert(ends_with(path@, rv.suffixes[k as int]));
                return true;
            }
            k = k + 1;
        }
        let mut k: usize = 0;
        while k < self.prefixes.len()
            invariant
                k <= self.prefixes.len(),
                rv == self@,
                cs@ == path@,
                forall|i: int| 0 <= i < k ==> !lit_at(path@, 0, rv.prefixes[i]),
            decreases self.prefixes.len() - k,
        {
            if has_at(&cs, 0, self.prefixes[k].as_str()) {
                assert(lit_at(path@, 0, rv.prefixes[k as int]));
                return true;
            }
            k = k + 1;
        }
        false
    }
}

/// Whether `path` is noise under the standard rules: a lock file or an OS
/// artifact by name, a minified or bundled file by suffix, or a path under a
/// build-output directory.
pub fn is_noise_file(path: &str) -> (r: bool)
    ensures
        r == is_noise_path(standard_rules(), path@),
{
    NoiseRules::standard().is_noise(path)
}

} // verus!
