//! `agent-doctor init`: detect the project's design system and the primitive
//! UI libraries it wraps, and render an `agent-doctor.toml`. Finding and
//! reading the manifests, prompting and writing the file are the caller's.
use vstd::prelude::*;

use crate::design_system::component_of_key;
use crate::json::{json_member_keys, json_member_string, member_keys, member_string};
use crate::merge::items::join;
use crate::config::{ascii_lower, trim_start, trimmed_chars, trimmed_lower};
use crate::strings::{
    chars_of, contains_chars, has_infix, matches_at, starts_with, str_eq, string_of_chars,
    string_views,
};
use crate::text::trim_end;

verus! {

/// UI primitive libraries a design system typically wraps. Detected by dependency
/// prefix; any present become `forbid-import-prefixes` so app code routes through
/// the design system instead.
pub open spec fn known_primitives() -> Seq<Seq<char>> {
    seq![
        "@radix-ui/"@,
        "@base-ui/"@,
        "@base-ui-components/"@,
        "@mui/"@,
        "@emotion/"@,
        "@chakra-ui/"@,
        "@headlessui/"@,
        "styled-components"@,
        "class-variance-authority"@,
        "tailwind-variants"@,
    ]
}

fn primitives() -> (res: Vec<&'static str>)
    ensures
        res@.map_values(|p: &str| p@) == known_primitives(),
{
    let mut v: Vec<&'static str> = Vec::new();
    v.push("@radix-ui/");
    v.push("@base-ui/");
    v.push("@base-ui-components/");
    v.push("@mui/");
    v.push("@emotion/");
    v.push("@chakra-ui/");
    v.push("@headlessui/");
    v.push("styled-components");
    v.push("class-variance-authority");
    v.push("tailwind-variants");
    assert(v@.map_values(|p: &str| p@) =~= known_primitives());
    v
}

/// A workspace package as `init` sees it.
#[derive(Debug, Clone)]
pub struct Pkg {
    pub name: String,
    pub dep_prefixes: Vec<String>,
    pub component_exports: usize,
}

pub struct PkgView {
    pub name: Seq<char>,
    pub dep_prefixes: Seq<Seq<char>>,
    pub component_exports: nat,
}

impl View for Pkg {
    type V = PkgView;

    open spec fn view(&self) -> PkgView {
        PkgView {
            name: self.name@,
            dep_prefixes: string_views(self.dep_prefixes@),
            component_exports: self.component_exports as nat,
        }
    }
}

/// Some dependency starts with a known primitive library's prefix.
pub open spec fn wraps_primitive(p: PkgView) -> bool {
    exists|i: int, j: int|
        0 <= i < p.dep_prefixes.len() && 0 <= j < known_primitives().len() && starts_with(
            #[trigger] p.dep_prefixes[i],
            #[trigger] known_primitives()[j],
        )
}

/// `str::to_ascii_lowercase`.
pub open spec fn lowercase(s: Seq<char>) -> Seq<char> {
    s.map_values(|c: char| crate::config::ascii_lower(c))
}

/// `s` ends with `suffix`.
pub open spec fn ends_with(s: Seq<char>, suffix: Seq<char>) -> bool {
    suffix.len() <= s.len() && s.skip(s.len() - suffix.len()) == suffix
}

/// The package is named like a UI package.
pub open spec fn named_like_ui(name: Seq<char>) -> bool {
    let n = lowercase(name);
    ends_with(n, "/ui"@) || ends_with(n, "-ui"@) || has_infix(n, "design-system"@) || has_infix(
        n,
        "/components"@,
    )
}

fn ends_with_chars(s: &Vec<char>, suffix: &Vec<char>) -> (res: bool)
    ensures
        res == ends_with(s@, suffix@),
{
    if suffix.len() > s.len() {
        return false;
    }
    let at = s.len() - suffix.len();
    let r = matches_at(s.as_slice(), at, suffix.as_slice());
    assert(s@.skip(at as int).take(suffix@.len() as int) =~= s@.skip(at as int));
    r
}

impl Pkg {
    fn depends_on_primitive(&self) -> (res: bool)
        ensures
            res == wraps_primitive(self@),
    {
        let known = primitives();
        let ghost deps = self@.dep_prefixes;
        let mut i: usize = 0;
        while i < self.dep_prefixes.len()
            invariant
                deps == string_views(self.dep_prefixes@),
                known@.map_values(|p: &str| p@) == known_primitives(),
                i <= deps.len(),
                forall|a: int, b: int|
                    0 <= a < i && 0 <= b < known_primitives().len() ==> !starts_with(
                        #[trigger] deps[a],
                        #[trigger] known_primitives()[b],
                    ),
            decreases deps.len() - i,
        {
            let dep = chars_of(self.dep_prefixes[i].as_str());
            let mut j: usize = 0;
            while j < known.len()
                invariant
                    deps == string_views(self.dep_prefixes@),
                    known@.map_values(|p: &str| p@) == known_primitives(),
                    i < deps.len(),
                    dep@ == deps[i as int],
                    j <= known@.len(),
                    forall|a: int, b: int|
                        0 <= a < i && 0 <= b < known_primitives().len() ==> !starts_with(
                            #[trigger] deps[a],
                            #[trigger] known_primitives()[b],
                        ),
                    forall|b: int| 0 <= b < j ==> !starts_with(deps[i as int], #[trigger] known_primitives()[b]),
                decreases known@.len() - j,
            {
                let p = chars_of(known[j]);
                assert(dep@.skip(0) =~= dep@);
                assert(known@.map_values(|p: &str| p@)[j as int] == known@[j as int]@);
                if matches_at(dep.as_slice(), 0, p.as_slice()) {
                    assert(starts_with(deps[i as int], known_primitives()[j as int]));
                    assert(self@.dep_prefixes[i as int] == deps[i as int]);
                    assert(starts_with(self@.dep_prefixes[i as int], known_primitives()[j as int]));
                    return true;
                }
                j = j + 1;
            }
            i = i + 1;
        }
        false
    }

    fn name_looks_like_ui(&self) -> (res: bool)
        ensures
            res == named_like_ui(self@.name),
    {
        let name = chars_of(self.name.as_str());
        let mut n: Vec<char> = Vec::new();
        let mut i: usize = 0;
        while i < name.len()
            invariant
                i <= name@.len(),
                n@ == name@.take(i as int).map_values(|c: char| crate::config::ascii_lower(c)),
            decreases name@.len() - i,
        {
            n.push(crate::config::lower_ascii(name[i]));
            i = i + 1;
            assert(n@ =~= name@.take(i as int).map_values(|c: char| crate::config::ascii_lower(c)));
        }
        assert(name@.take(name@.len() as int) =~= name@);
        let ui_slash = chars_of("/ui");
        let ui_dash = chars_of("-ui");
        let ds = chars_of("design-system");
        let components = chars_of("/components");
        ends_with_chars(&n, &ui_slash) || ends_with_chars(&n, &ui_dash) || contains_chars(
            n.as_slice(),
            ds.as_slice(),
        ) || contains_chars(n.as_slice(), components.as_slice())
    }
}

/// How many `exports` keys name a single-segment component.
pub open spec fn component_count(keys: Seq<Seq<char>>) -> nat
    decreases keys.len(),
{
    if keys.len() == 0 {
        0
    } else {
        component_count(keys.drop_last()) + if component_of_key(keys.last()) is Some {
            1nat
        } else {
            0nat
        }
    }
}

/// The keys of member `field`, or none.
pub open spec fn keys_or_none(manifest: Seq<char>, field: Seq<char>) -> Seq<Seq<char>> {
    match json_member_keys(manifest, field) {
        Some(keys) => keys,
        None => Seq::empty(),
    }
}

/// The package a manifest describes: its name (required), the keys of its
/// dependency tables in order, and how many components it exports.
pub open spec fn pkg_of(manifest: Seq<char>) -> Option<PkgView> {
    match json_member_string(manifest, "name"@) {
        Some(name) => Some(
            PkgView {
                name,
                dep_prefixes: keys_or_none(manifest, "dependencies"@) + keys_or_none(
                    manifest,
                    "devDependencies"@,
                ) + keys_or_none(manifest, "peerDependencies"@),
                component_exports: component_count(keys_or_none(manifest, "exports"@)),
            },
        ),
        None => None,
    }
}

fn keys_of(manifest: &str, field: &str) -> (res: Vec<String>)
    ensures
        string_views(res@) == keys_or_none(manifest@, field@),
{
    match member_keys(manifest, field) {
        Some(keys) => keys,
        None => {
            let v: Vec<String> = Vec::new();
            assert(string_views(v@) =~= Seq::<Seq<char>>::empty());
            v
        },
    }
}

fn append_all(into: &mut Vec<String>, more: Vec<String>)
    ensures
        string_views(final(into)@) == string_views(old(into)@) + string_views(more@),
{
    let ghost start = into@;
    let mut more = more;
    let ghost added = more@;
    into.append(&mut more);
    assert(into@ == start + added);
    assert(string_views(into@) =~= string_views(start) + string_views(added));
}

/// The package described by a `package.json` text, or `None` when it is not
/// JSON or has no string `name`.
pub fn pkg_from_manifest(manifest: &str) -> (res: Option<Pkg>)
    ensures
        match res {
            Some(p) => pkg_of(manifest@) == Some(p@),
            None => pkg_of(manifest@) is None,
        },
{
    let name = match member_string(manifest, "name") {
        Some(name) => name,
        None => {
            return None;
        },
    };
    let mut dep_prefixes: Vec<String> = Vec::new();
    assert(string_views(dep_prefixes@) =~= Seq::<Seq<char>>::empty());
    append_all(&mut dep_prefixes, keys_of(manifest, "dependencies"));
    append_all(&mut dep_prefixes, keys_of(manifest, "devDependencies"));
    append_all(&mut dep_prefixes, keys_of(manifest, "peerDependencies"));
    assert(string_views(dep_prefixes@) =~= keys_or_none(manifest@, "dependencies"@) + keys_or_none(
        manifest@,
        "devDependencies"@,
    ) + keys_or_none(manifest@, "peerDependencies"@));
    let exports = keys_of(manifest, "exports");
    let ghost ev = string_views(exports@);
    let mut count: usize = 0;
    let mut i: usize = 0;
    while i < exports.len()
        invariant
            ev == string_views(exports@),
            i <= ev.len(),
            count == component_count(ev.take(i as int)),
            count <= i,
        decreases ev.len() - i,
    {
        assert(ev.take(i + 1).drop_last() =~= ev.take(i as int));
        assert(ev.take(i + 1).last() == exports@[i as int]@);
        if crate::design_system::component_from_key(exports[i].as_str()).is_some() {
            count = count + 1;
        }
        i = i + 1;
    }
    assert(ev.take(ev.len() as int) =~= ev);
    Some(Pkg { name, dep_prefixes, component_exports: count })
}

/// The package qualifies as a design system: at least three component exports,
/// and it wraps a primitive library or is named like a UI package.
pub open spec fn qualifies(p: PkgView) -> bool {
    p.component_exports >= 3 && (wraps_primitive(p) || named_like_ui(p.name))
}

/// Among `packages`, the qualifying one with the most component exports (the
/// last such on a tie, as `Iterator::max_by_key` picks).
pub open spec fn best_design_system(packages: Seq<PkgView>) -> Option<PkgView>
    decreases packages.len(),
{
    if packages.len() == 0 {
        None
    } else {
        let prev = best_design_system(packages.drop_last());
        let p = packages.last();
        if !qualifies(p) {
            prev
        } else {
            match prev {
                Some(b) => if p.component_exports >= b.component_exports {
                    Some(p)
                } else {
                    Some(b)
                },
                None => Some(p),
            }
        }
    }
}

/// The design system is the workspace package with the most component-style
/// exports that also wraps a primitive library (or is named like a UI package).
/// That distinguishes a real component library from a utils package that happens
/// to have many exports.
pub fn detect_design_system(packages: &[Pkg]) -> (res: Option<String>)
    ensures
        crate::syntax::opt_view(res) == match best_design_system(packages@.map_values(|p: Pkg| p@)) {
            Some(p) => Some(p.name),
            None => None,
        },
{
    let ghost pv = packages@.map_values(|p: Pkg| p@);
    let mut best: Option<usize> = None;
    let mut i: usize = 0;
    while i < packages.len()
        invariant
            pv == packages@.map_values(|p: Pkg| p@),
            i <= pv.len(),
            match best {
                Some(b) => b < i && best_design_system(pv.take(i as int)) == Some(pv[b as int]),
                None => best_design_system(pv.take(i as int)) is None,
            },
        decreases pv.len() - i,
    {
        assert(pv.take(i + 1).drop_last() =~= pv.take(i as int));
        assert(pv.take(i + 1).last() == packages@[i as int]@);
        let pkg = &packages[i];
        if pkg.component_exports >= 3 && (pkg.depends_on_primitive() || pkg.name_looks_like_ui()) {
            best = match best {
                Some(b) => if pkg.component_exports >= packages[b].component_exports {
                    Some(i)
                } else {
                    Some(b)
                },
                None => Some(i),
            };
        }
        i = i + 1;
    }
    assert(pv.take(pv.len() as int) =~= pv);
    match best {
        Some(b) => Some(packages[b].name.clone()),
        None => None,
    }
}

/// A package that depends on a known primitive library (a dependency whose
/// name begins with one of the known prefixes) and has at least three
/// component exports is a design system: alone, it is the one detected.
pub proof fn law_primitive_wrapper_is_a_design_system(p: PkgView, i: int, j: int)
    requires
        p.component_exports >= 3,
        0 <= i < p.dep_prefixes.len(),
        0 <= j < known_primitives().len(),
        known_primitives()[j].len() <= p.dep_prefixes[i].len(),
        p.dep_prefixes[i].take(known_primitives()[j].len() as int) == known_primitives()[j],
    ensures
        wraps_primitive(p),
        qualifies(p),
        best_design_system(seq![p]) == Some(p),
{
    assert(starts_with(p.dep_prefixes[i], known_primitives()[j]));
    assert(wraps_primitive(p));
    let one = seq![p];
    assert(one.drop_last() =~= Seq::<PkgView>::empty());
    assert(best_design_system(one.drop_last()) is None);
    assert(one.last() == p);
}

/// A package with fewer than three component exports is never detected as
/// the design system, whatever it depends on or is named.
pub proof fn law_too_few_components_never_qualify(packages: Seq<PkgView>)
    requires
        forall|k: int| 0 <= k < packages.len() ==> (#[trigger] packages[k]).component_exports < 3,
    ensures
        best_design_system(packages) is None,
    decreases packages.len(),
{
    if packages.len() > 0 {
        assert forall|k: int| 0 <= k < packages.drop_last().len() implies (#[trigger] packages.drop_last()[k]).component_exports < 3 by {
            assert(packages.drop_last()[k] == packages[k]);
        }
        law_too_few_components_never_qualify(packages.drop_last());
        assert(packages[packages.len() - 1] == packages.last());
    }
}

/// Some package depends on something starting with `primitive`.
pub open spec fn used_by_some(packages: Seq<PkgView>, primitive: Seq<char>) -> bool {
    exists|i: int, j: int|
        0 <= i < packages.len() && 0 <= j < packages[i].dep_prefixes.len() && starts_with(
            #[trigger] packages[i].dep_prefixes[j],
            primitive,
        )
}

/// The known primitive libraries some package depends on, in catalog order.
pub fn detect_forbidden_prefixes(packages: &[Pkg]) -> (res: Vec<String>)
    ensures
        string_views(res@) == known_primitives().filter(
            |p: Seq<char>| used_by_some(packages@.map_values(|q: Pkg| q@), p),
        ),
{
    let ghost pv = packages@.map_values(|q: Pkg| q@);
    let known = primitives();
    let ghost kv = known_primitives();
    let mut res: Vec<String> = Vec::new();
    let mut k: usize = 0;
    while k < known.len()
        invariant
            pv == packages@.map_values(|q: Pkg| q@),
            known@.map_values(|p: &str| p@) == kv,
            kv == known_primitives(),
            k <= kv.len(),
            string_views(res@) == kv.take(k as int).filter(|p: Seq<char>| used_by_some(pv, p)),
        decreases kv.len() - k,
    {
        let primitive = chars_of(known[k]);
        assert(primitive@ == kv[k as int]);
        let mut found = false;
        let mut i: usize = 0;
        while i < packages.len() && !found
            invariant
                pv == packages@.map_values(|q: Pkg| q@),
                i <= pv.len(),
                found ==> used_by_some(pv, primitive@),
                !found ==> forall|a: int, b: int|
                    0 <= a < i && 0 <= b < pv[a].dep_prefixes.len() ==> !starts_with(
                        #[trigger] pv[a].dep_prefixes[b],
                        primitive@,
                    ),
            decreases pv.len() - i,
        {
            let deps = &packages[i].dep_prefixes;
            let mut j: usize = 0;
            while j < deps.len() && !found
                invariant
                    pv == packages@.map_values(|q: Pkg| q@),
                    i < pv.len(),
                    pv[i as int].dep_prefixes == string_views(deps@),
                    j <= deps@.len(),
                    found ==> used_by_some(pv, primitive@),
                    !found ==> forall|a: int, b: int|
                        0 <= a < i && 0 <= b < pv[a].dep_prefixes.len() ==> !starts_with(
                            #[trigger] pv[a].dep_prefixes[b],
                            primitive@,
                        ),
                    !found ==> forall|b: int| 0 <= b < j ==> !starts_with(#[trigger] pv[i as int].dep_prefixes[b], primitive@),
                decreases deps@.len() - j,
            {
                let dep = chars_of(deps[j].as_str());
                assert(dep@ == pv[i as int].dep_prefixes[j as int]);
                assert(dep@.skip(0) =~= dep@);
                if matches_at(dep.as_slice(), 0, primitive.as_slice()) {
                    found = true;
                }
                j = j + 1;
            }
            i = i + 1;
        }
        proof {
            assert(kv.take(k + 1) =~= kv.take(k as int).push(kv[k as int]));
            kv.take(k as int).lemma_filter_push(kv[k as int], |p: Seq<char>| used_by_some(pv, p));
        }
        let ghost before = string_views(res@);
        if found {
            res.push(String::from_str(known[k]));
            assert(string_views(res@) =~= before.push(kv[k as int]));
        }
        k = k + 1;
    }
    assert(kv.take(kv.len() as int) =~= kv);
    res
}

/// The `forbid-import-prefixes` list: each prefix quoted, comma-separated.
pub open spec fn quoted_list(items: Seq<Seq<char>>) -> Seq<char> {
    join(items.map_values(|p: Seq<char>| "\""@ + p + "\""@), ", "@)
}

/// The `agent-doctor.toml` that `init` writes.
pub open spec fn config_text(design_system: Option<Seq<char>>, forbidden: Seq<Seq<char>>, strict: bool) -> Seq<char> {
    "# agent-doctor — https://github.com/JGalbss/agent-doctor\n"@
        + "# Generated by `agent-doctor init`.\n\n"@
        + "[tiers]\n"@
        + "agent = true\n"@
        + (if strict {
            "agent_strict = true\n"@
        } else {
            "# agent_strict = true  # escalate to errors / non-zero exit (CI gate)\n"@
        })
        + "\n"@
        + match design_system {
            Some(package) => "[design-system]\n"@
                + "package = \""@ + package + "\"\n"@
                + "forbid-import-prefixes = ["@ + quoted_list(forbidden) + "]\n"@,
            None => "# [design-system]\n"@
                + "# package = \"@your-scope/ui\"\n"@
                + "# forbid-import-prefixes = [\"@radix-ui/\", \"@base-ui/\"]\n"@,
        }
}

pub fn render_config(design_system: Option<&str>, forbidden: &[String], strict: bool) -> (res: String)
    ensures
        res@ == config_text(
            match design_system {
                Some(p) => Some(p@),
                None => None,
            },
            string_views(forbidden@),
            strict,
        ),
{
    let mut out = String::new();
    out.append("# agent-doctor — https://github.com/JGalbss/agent-doctor\n");
    out.append("# Generated by `agent-doctor init`.\n\n");
    out.append("[tiers]\n");
    out.append("agent = true\n");
    match strict {
        true => out.append("agent_strict = true\n"),
        false => out.append("# agent_strict = true  # escalate to errors / non-zero exit (CI gate)\n"),
    }
    out.append("\n");
    let ghost head = out@;
    match design_system {
        Some(package) => {
            out.append("[design-system]\n");
            out.append("package = \"");
            out.append(package);
            out.append("\"\n");
            let ghost fv = string_views(forbidden@);
            let mut list = String::new();
            let mut i: usize = 0;
            while i < forbidden.len()
                invariant
                    fv == string_views(forbidden@),
                    i <= fv.len(),
                    list@ == quoted_list(fv.take(i as int)),
                decreases fv.len() - i,
            {
                let ghost parts = fv.take(i + 1).map_values(|p: Seq<char>| "\""@ + p + "\""@);
                assert(parts.drop_last() =~= fv.take(i as int).map_values(|p: Seq<char>| "\""@ + p + "\""@));
                if i > 0 {
                    list.append(", ");
                }
                list.append("\"");
                list.append(forbidden[i].as_str());
                list.append("\"");
                proof {
                    assert(parts.last() == "\""@ + fv[i as int] + "\""@);
                    if i > 0 {
                        assert(list@ =~= quoted_list(fv.take(i as int)) + ", "@ + parts.last());
                    } else {
                        assert(list@ =~= parts.last());
                    }
                }
                i = i + 1;
            }
            assert(fv.take(fv.len() as int) =~= fv);
            out.append("forbid-import-prefixes = [");
            out.append(list.as_str());
            out.append("]\n");
        },
        None => {
            out.append("# [design-system]\n");
            out.append("# package = \"@your-scope/ui\"\n");
            out.append("# forbid-import-prefixes = [\"@radix-ui/\", \"@base-ui/\"]\n");
        },
    }
    out
}

/// What a yes/no answer means: blank keeps the default, `y` or `yes` (any
/// case, surrounding whitespace ignored) is yes, anything else is no.
pub open spec fn means_yes(answer: Seq<char>, default_yes: bool) -> bool {
    let a = trim_start(trim_end(answer)).map_values(|c: char| ascii_lower(c));
    if a.len() == 0 {
        default_yes
    } else {
        a == "y"@ || a == "yes"@
    }
}

/// Interpret the line typed at a yes/no prompt.
pub fn answer_yes_no(answer: &str, default_yes: bool) -> (res: bool)
    ensures
        res == means_yes(answer@, default_yes),
{
    let word = trimmed_lower(answer);
    proof {
        reveal_strlit("");
        if word@.len() == 0 {
            assert(word@ =~= ""@);
        }
    }
    if str_eq(word.as_str(), "") {
        default_yes
    } else {
        str_eq(word.as_str(), "y") || str_eq(word.as_str(), "yes")
    }
}

/// Interpret the line typed at a free-text prompt: the trimmed text, or
/// `None` when it is blank.
pub fn answer_line(answer: &str) -> (res: Option<String>)
    ensures
        crate::syntax::opt_view(res) == if trim_start(trim_end(answer@)).len() == 0 {
            None
        } else {
            Some(trim_start(trim_end(answer@)))
        },
{
    let trimmed = trimmed_chars(answer);
    if trimmed.len() == 0 {
        None
    } else {
        Some(string_of_chars(trimmed.as_slice()))
    }
}

} // verus!
