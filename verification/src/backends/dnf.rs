//! The DNF5 backend: what DNF5's command-line output means.
//!
//! Running DNF5 is the application's part; this module holds everything
//! computed from its output: NEVRA and requirement parsing, the package and
//! file-list readers, and dependency resolution.
use vstd::prelude::*;

use crate::discovery::packages::{
    DependencyRecord, DependencyType, InstallReason, PackageFileFacts, PackageRecord,
};
use crate::model::root_policy::{opt_view, string_views};
use crate::text::{
    char_alphanumeric, chars_of, chars_range, contains_str, copy_chars, ends_with_any,
    ends_with_any_of, equals_any, equals_any_of, find_char, find_text, find_text_exec,
    first_token, first_token_exec, has_prefix, has_substring, index_of, is_alphanumeric,
    is_digit, is_digit_exec, last_index_of, lemma_find_from, lemma_index_of_bounds,
    lemma_last_index_of_bounds, rfind_char, starts_with_any, starts_with_any_of,
    starts_with_str, string_of, string_of_range, all_white_space, has_suffix, is_blank,
    lines, lines_exec, parse_i64, parse_i64_exec, split, split_exec, trim, trim_end_char,
    trim_end_char_exec, trim_exec, views, chars_eq_str, ends_with_str, str_eq,
};

verus! {

/// Architecture suffixes that end a NEVRA.
pub const ARCH_SUFFIXES: [&'static str; 8] = [
    ".x86_64",
    ".i686",
    ".aarch64",
    ".noarch",
    ".i586",
    ".ppc64le",
    ".s390x",
    ".armv7hl",
];

/// RPM architecture names that can qualify a package-name requirement.
pub const KNOWN_ARCHES: [&'static str; 11] = [
    "x86-64",
    "i686",
    "i586",
    "i486",
    "i386",
    "aarch64",
    "armv7hl",
    "armv6hl",
    "noarch",
    "ppc64le",
    "s390x",
];

/// Requirement prefixes that dependency tracking ignores.
pub const EXCLUDED_PREFIXES: [&'static str; 5] = ["rpmlib(", "rtld(", "config(", "/", "filesystem("];

/// Standard directories of executables.
pub const EXECUTABLE_DIRS: [&'static str; 4] = ["/usr/bin/", "/usr/sbin/", "/bin/", "/sbin/"];

/// Directories where packages install systemd unit files.
pub const UNIT_DIRS: [&'static str; 3] = [
    "/usr/lib/systemd/system/",
    "/usr/lib/systemd/user/",
    "/etc/systemd/system/",
];

/// Suffixes of systemd unit files.
pub const UNIT_SUFFIXES: [&'static str; 10] = [
    ".service",
    ".socket",
    ".timer",
    ".target",
    ".path",
    ".mount",
    ".automount",
    ".slice",
    ".scope",
    ".swap",
];

/// Version qualifiers of shared-library capabilities, in the order they are
/// replaced.
pub const VERSION_PREFIXES: [&'static str; 6] = [
    "(GLIBC_ABI_",
    "(GLIBC_PRIVATE",
    "(GLIBC_",
    "(GCC_",
    "(CXXABI_",
    "(GLIBCXX_",
];

/// A part of a NEVRA that starts a version or release: its first character
/// is an ASCII digit.
pub open spec fn starts_with_digit(p: Seq<char>) -> bool {
    p.len() > 0 && is_digit(p[0])
}

/// `s` without a known architecture suffix after its last `.`.
pub open spec fn strip_arch(s: Seq<char>) -> Seq<char> {
    match last_index_of(s, '.') {
        Some(p) => if equals_any_of(s.skip(p), ARCH_SUFFIXES@) {
            s.take(p)
        } else {
            s
        },
        None => s,
    }
}

/// The package name of a NEVRA: the text before the version and release,
/// when both are present and start with a digit; otherwise the whole text
/// without its architecture.
pub open spec fn nevra_name(s: Seq<char>) -> Seq<char> {
    let w = strip_arch(s);
    match last_index_of(w, '-') {
        Some(rp) => if starts_with_digit(w.skip(rp + 1)) {
            match last_index_of(w.take(rp), '-') {
                Some(np) => if starts_with_digit(w.take(rp).skip(np + 1)) {
                    w.take(np)
                } else {
                    w
                },
                None => w,
            }
        } else {
            w
        },
        None => w,
    }
}

/// Whether the characters in `[from, len)` of `v` start with a digit.
fn starts_with_digit_at(v: &Vec<char>, from: usize, len: usize) -> (r: bool)
    requires
        from <= len <= v@.len(),
    ensures
        r == starts_with_digit(v@.subrange(from as int, len as int)),
{
    from < len && is_digit_exec(v[from])
}

/// Extract the package name from a NEVRA string such as
/// `bash-5.3.9-3.fc44.x86_64` (the epoch is optional).
pub fn parse_nevra_name(nevra: &str) -> (r: String)
    ensures
        r@ == nevra_name(nevra@),
{
    let s = chars_of(nevra);
    proof {
        lemma_last_index_of_bounds(s@, '.');
    }
    let w = match rfind_char(&s, '.') {
        Some(p) => {
            let suffix = chars_range(&s, p, s.len());
            assert(suffix@ =~= s@.skip(p as int));
            if equals_any(&suffix, &ARCH_SUFFIXES) {
                let w = chars_range(&s, 0, p);
                assert(w@ =~= s@.take(p as int));
                w
            } else {
                s
            }
        },
        None => s,
    };
    assert(w@ == strip_arch(nevra@));
    proof {
        lemma_last_index_of_bounds(w@, '-');
    }
    if let Some(rp) = rfind_char(&w, '-') {
        assert(w@.subrange(rp + 1, w@.len() as int) =~= w@.skip(rp + 1));
        if starts_with_digit_at(&w, rp + 1, w.len()) {
            let before = chars_range(&w, 0, rp);
            assert(before@ =~= w@.take(rp as int));
            proof {
                lemma_last_index_of_bounds(before@, '-');
            }
            if let Some(np) = rfind_char(&before, '-') {
                assert(before@.subrange(np + 1, rp as int) =~= before@.skip(np + 1));
                if starts_with_digit_at(&before, np + 1, rp) {
                    assert(w@.subrange(0, np as int) =~= w@.take(np as int));
                    return string_of_range(&w, 0, np);
                }
            }
        }
    }
    string_of(&w)
}

/// A requirement that dependency tracking ignores: RPM internals, dynamic
/// linker internals, config files, file paths and filesystem capabilities.
pub open spec fn excluded_requirement(s: Seq<char>) -> bool {
    starts_with_any_of(s, EXCLUDED_PREFIXES@)
}

/// Check if a requirement should be excluded from dependency tracking.
pub fn is_excluded_requirement(requirement: &str) -> (r: bool)
    ensures
        r == excluded_requirement(requirement@),
{
    let s = chars_of(requirement);
    starts_with_any(&s, &EXCLUDED_PREFIXES)
}

/// The first token of a requirement, or the whole requirement if it has
/// none.
pub open spec fn requirement_base(s: Seq<char>) -> Seq<char> {
    match first_token(s) {
        Some(t) => t,
        None => s,
    }
}

/// The first token of a requirement, or the whole requirement.
fn requirement_base_exec(s: &Vec<char>) -> (r: Vec<char>)
    ensures
        r@ == requirement_base(s@),
{
    match first_token_exec(s) {
        Some(t) => t,
        None => copy_chars(s),
    }
}

/// A capability (shared library) rather than a package name: its first
/// token mentions `.so`.
pub open spec fn capability(s: Seq<char>) -> bool {
    has_substring(requirement_base(s), ".so"@)
}

/// Check if a requirement is a capability (shared library) rather than a
/// package name.
pub fn is_capability(requirement: &str) -> (r: bool)
    ensures
        r == capability(requirement@),
{
    let s = chars_of(requirement);
    let base = requirement_base_exec(&s);
    contains_str(&base, ".so")
}

/// Check if a string is a known RPM architecture name.
pub fn is_known_arch(arch: &str) -> (r: bool)
    ensures
        r == equals_any_of(arch@, KNOWN_ARCHES@),
{
    let s = chars_of(arch);
    equals_any(&s, &KNOWN_ARCHES)
}

/// True when a path is a user-executable binary in a standard bin directory.
pub fn is_executable_path(path: &str) -> (r: bool)
    ensures
        r == starts_with_any_of(path@, EXECUTABLE_DIRS@),
{
    let s = chars_of(path);
    starts_with_any(&s, &EXECUTABLE_DIRS)
}

/// The first unit directory that `path` lies in.
pub open spec fn unit_dir_of(path: Seq<char>, k: int) -> Option<int>
    decreases UNIT_DIRS@.len() - k,
{
    if k < 0 || k >= UNIT_DIRS@.len() {
        None
    } else if has_prefix(path, UNIT_DIRS@[k]@) {
        Some(k)
    } else {
        unit_dir_of(path, k + 1)
    }
}

/// The unit file name that an owned path installs, if it is one: a file
/// directly inside a unit directory, with a unit suffix.
pub open spec fn unit_of_path(path: Seq<char>) -> Option<Seq<char>> {
    match unit_dir_of(path, 0) {
        Some(k) => {
            let name = path.skip(UNIT_DIRS@[k]@.len() as int);
            if name.len() == 0 || name.contains('/') {
                None
            } else if ends_with_any_of(name, UNIT_SUFFIXES@) {
                Some(name)
            } else {
                None
            }
        },
        None => None,
    }
}

/// Extract a systemd unit file name from an owned path, if it is one.
///
/// Only unit files the package would install for the system or the user are
/// considered; drop-in directories and symlinks in `*.wants/` are ignored.
pub fn service_unit_from_path(path: &str) -> (r: Option<String>)
    ensures
        match r {
            Some(n) => unit_of_path(path@) == Some(n@),
            None => unit_of_path(path@) is None,
        },
{
    let s = chars_of(path);
    let mut k: usize = 0;
    while k < UNIT_DIRS.len()
        invariant
            s@ == path@,
            k <= UNIT_DIRS@.len(),
            unit_dir_of(path@, 0) == unit_dir_of(path@, k as int),
        decreases UNIT_DIRS.len() - k,
    {
        if starts_with_str(&s, UNIT_DIRS[k]) {
            let dir = chars_of(UNIT_DIRS[k]);
            let name = chars_range(&s, dir.len(), s.len());
            assert(name@ =~= path@.skip(UNIT_DIRS@[k as int]@.len() as int));
            if name.len() == 0 {
                return None;
            }
            if let Some(_) = find_char(&name, '/') {
                proof {
                    lemma_index_of_bounds(name@, '/');
                }
                return None;
            }
            proof {
                lemma_index_of_bounds(name@, '/');
            }
            if ends_with_any(&name, &UNIT_SUFFIXES) {
                return Some(string_of(&name));
            }
            return None;
        }
        k = k + 1;
    }
    None
}

/// An allowed character of a package name: alphanumeric, `-`, `_` or `.`.
pub open spec fn name_char(c: char) -> bool {
    char_alphanumeric(c) || c == '-' || c == '_' || c == '.'
}

/// Every character of `s` is allowed in a package name.
pub open spec fn all_name_chars(s: Seq<char>) -> bool {
    forall|i: int| 0 <= i < s.len() ==> name_char(#[trigger] s[i])
}

/// Whether every character of `v` is allowed in a package name.
fn all_name_chars_exec(v: &Vec<char>) -> (r: bool)
    ensures
        r == all_name_chars(v@),
{
    let mut i: usize = 0;
    while i < v.len()
        invariant
            i <= v.len(),
            forall|k: int| 0 <= k < i ==> name_char(#[trigger] v@[k]),
        decreases v.len() - i,
    {
        let c = v[i];
        if !(is_alphanumeric(c) || c == '-' || c == '_' || c == '.') {
            return false;
        }
        i = i + 1;
    }
    true
}

/// The package name a package-name requirement names, if it is one: its
/// first token, without a known architecture qualifier, made only of name
/// characters; capabilities and virtual capabilities name none.
pub open spec fn requirement_package(req: Seq<char>) -> Option<Seq<char>> {
    match first_token(req) {
        None => None,
        Some(base) => if has_substring(base, ".so"@) {
            None
        } else {
            match index_of(base, '(') {
                Some(paren) => {
                    let arch = base.skip(paren + 1);
                    match index_of(arch, ')') {
                        Some(close) => {
                            let name = base.take(paren);
                            if equals_any_of(arch.take(close), KNOWN_ARCHES@) && name.len() > 0
                                && all_name_chars(name) {
                                Some(name)
                            } else {
                                None
                            }
                        },
                        None => None,
                    }
                },
                None => if base.len() > 0 && all_name_chars(base) {
                    Some(base)
                } else {
                    None
                },
            }
        },
    }
}

/// Extract a package name from a requirement string that looks like a
/// package-name requirement, such as `python3-libs(x86-64) = 3.14.6-1.fc44`
/// (giving `python3-libs`) or `glibc >= 2.42.9000-22` (giving `glibc`).
pub fn extract_package_name(requirement: &str) -> (r: Option<String>)
    ensures
        match r {
            Some(n) => requirement_package(requirement@) == Some(n@),
            None => requirement_package(requirement@) is None,
        },
{
    let s = chars_of(requirement);
    let base = match first_token_exec(&s) {
        Some(t) => t,
        None => {
            return None;
        },
    };
    if contains_str(&base, ".so") {
        return None;
    }
    proof {
        lemma_index_of_bounds(base@, '(');
    }
    match find_char(&base, '(') {
        Some(paren) => {
            let arch = chars_range(&base, paren + 1, base.len());
            assert(arch@ =~= base@.skip(paren + 1));
            proof {
                lemma_index_of_bounds(arch@, ')');
            }
            match find_char(&arch, ')') {
                Some(close) => {
                    let candidate = chars_range(&arch, 0, close);
                    assert(candidate@ =~= arch@.take(close as int));
                    let name = chars_range(&base, 0, paren);
                    assert(name@ =~= base@.take(paren as int));
                    if equals_any(&candidate, &KNOWN_ARCHES) && name.len() > 0
                        && all_name_chars_exec(&name) {
                        Some(string_of(&name))
                    } else {
                        None
                    }
                },
                None => None,
            }
        },
        None => {
            if base.len() > 0 && all_name_chars_exec(&base) {
                Some(string_of(&base))
            } else {
                None
            }
        },
    }
}

/// The prefix can start a version qualifier: it opens with two characters
/// neither of which closes it.
pub open spec fn qualifier_prefix(p: Seq<char>) -> bool {
    p.len() >= 2 && p[0] != ')' && p[1] != ')'
}

/// `s` with every version qualifier that starts with `p` — from `p` up to
/// the next `)` — replaced by `()`, first occurrences first.
pub open spec fn replace_qualifiers(s: Seq<char>, p: Seq<char>) -> Seq<char>
    decreases s.len(),
    when qualifier_prefix(p)
{
    match find_text(s, p) {
        None => s,
        Some(st) => match index_of(s.skip(st), ')') {
            None => s,
            Some(e) => {
                proof {
                    lemma_find_from(s, p, 0);
                    lemma_index_of_bounds(s.skip(st), ')');
                    assert(s.skip(st)[0] == s.subrange(st, st + p.len())[0]);
                    assert(s.skip(st)[1] == s.subrange(st, st + p.len())[1]);
                }
                replace_qualifiers(s.take(st) + seq!['(', ')'] + s.skip(st + e + 1), p)
            },
        },
    }
}

/// The capability with the qualifiers of each of `ps` replaced in turn.
pub open spec fn replace_all_qualifiers(s: Seq<char>, ps: Seq<&str>) -> Seq<char>
    decreases ps.len(),
{
    if ps.len() == 0 {
        s
    } else {
        replace_qualifiers(replace_all_qualifiers(s, ps.drop_last()), ps.last()@)
    }
}

/// The base capability name: the first token, with version qualifiers such
/// as `(GLIBC_2.14)` replaced by `()`; `libc.so.6(GLIBC_2.14)(64bit)` gives
/// `libc.so.6()(64bit)`.
pub open spec fn capability_base_of(cap: Seq<char>) -> Seq<char> {
    replace_all_qualifiers(requirement_base(cap), VERSION_PREFIXES@)
}

proof fn lemma_version_prefixes()
    ensures
        forall|k: int| 0 <= k < VERSION_PREFIXES@.len() ==> qualifier_prefix(
            #[trigger] VERSION_PREFIXES@[k]@,
        ),
{
    reveal_strlit("(GLIBC_ABI_");
    reveal_strlit("(GLIBC_PRIVATE");
    reveal_strlit("(GLIBC_");
    reveal_strlit("(GCC_");
    reveal_strlit("(CXXABI_");
    reveal_strlit("(GLIBCXX_");
    assert(qualifier_prefix(VERSION_PREFIXES@[0]@));
    assert(qualifier_prefix(VERSION_PREFIXES@[1]@));
    assert(qualifier_prefix(VERSION_PREFIXES@[2]@));
    assert(qualifier_prefix(VERSION_PREFIXES@[3]@));
    assert(qualifier_prefix(VERSION_PREFIXES@[4]@));
    assert(qualifier_prefix(VERSION_PREFIXES@[5]@));
}

/// `s` with every qualifier that starts with the text `p` replaced by `()`.
fn replace_qualifiers_exec(s: Vec<char>, p: &str) -> (r: Vec<char>)
    requires
        qualifier_prefix(p@),
    ensures
        r@ == replace_qualifiers(s@, p@),
{
    let pv = chars_of(p);
    let mut result = s;
    loop
        invariant
            pv@ == p@,
            qualifier_prefix(p@),
            replace_qualifiers(result@, p@) == replace_qualifiers(s@, p@),
        decreases result@.len(),
    {
        let st = match find_text_exec(&result, &pv) {
            Some(st) => st,
            None => {
                return result;
            },
        };
        let rest = chars_range(&result, st, result.len());
        assert(rest@ =~= result@.skip(st as int));
        proof {
            lemma_index_of_bounds(rest@, ')');
            lemma_find_from(result@, p@, 0);
            assert(rest@[0] == result@.subrange(st as int, st + p@.len())[0]);
            assert(rest@[1] == result@.subrange(st as int, st + p@.len())[1]);
        }
        let e = match find_char(&rest, ')') {
            Some(e) => e,
            None => {
                return result;
            },
        };
        let mut next = chars_range(&result, 0, st);
        next.push('(');
        next.push(')');
        let mut j: usize = st + e + 1;
        let ghost head = next@;
        while j < result.len()
            invariant
                st + e + 1 <= j <= result@.len(),
                next@ == head + result@.subrange(st + e + 1, j as int),
            decreases result.len() - j,
        {
            next.push(result[j]);
            j = j + 1;
            assert(next@ =~= head + result@.subrange(st + e + 1, j as int));
        }
        assert(next@ =~= result@.take(st as int) + seq!['(', ')'] + result@.skip(st + e + 1));
        result = next;
    }
}

/// Extract the base capability name, stripping version qualifiers such as
/// `(GLIBC_2.14)`: `libc.so.6(GLIBC_2.14)(64bit)` gives `libc.so.6()(64bit)`.
pub fn capability_base(capability: &str) -> (r: String)
    ensures
        r@ == capability_base_of(capability@),
{
    let s = chars_of(capability);
    let mut result = requirement_base_exec(&s);
    proof {
        lemma_version_prefixes();
    }
    let mut k: usize = 0;
    assert(VERSION_PREFIXES@.take(0) =~= Seq::<&str>::empty());
    while k < VERSION_PREFIXES.len()
        invariant
            k <= VERSION_PREFIXES@.len(),
            forall|m: int| 0 <= m < VERSION_PREFIXES@.len() ==> qualifier_prefix(
                #[trigger] VERSION_PREFIXES@[m]@,
            ),
            result@ == replace_all_qualifiers(
                requirement_base(capability@),
                VERSION_PREFIXES@.take(k as int),
            ),
        decreases VERSION_PREFIXES.len() - k,
    {
        assert(qualifier_prefix(VERSION_PREFIXES@[k as int]@));
        result = replace_qualifiers_exec(result, VERSION_PREFIXES[k]);
        let ghost t = VERSION_PREFIXES@.take(k + 1);
        assert(t.drop_last() =~= VERSION_PREFIXES@.take(k as int));
        k = k + 1;
    }
    assert(VERSION_PREFIXES@.take(6) =~= VERSION_PREFIXES@);
    string_of(&result)
}

/// The package name of a NEVRA given by its characters.
fn nevra_name_chars(v: &Vec<char>) -> (r: String)
    ensures
        r@ == nevra_name(v@),
{
    let s = string_of(v);
    parse_nevra_name(s.as_str())
}

/// The dependency records of `dnf5 repoquery --installed --requires <pkg>`
/// output: one per non-blank line, holding the trimmed line.
pub open spec fn requires_lines(ls: Seq<Seq<char>>) -> Seq<Seq<char>>
    decreases ls.len(),
{
    if ls.len() == 0 {
        Seq::<Seq<char>>::empty()
    } else if all_white_space(ls.last()) {
        requires_lines(ls.drop_last())
    } else {
        requires_lines(ls.drop_last()).push(trim(ls.last()))
    }
}

/// Parse the text output of `dnf5 repoquery --installed --requires <pkg>`.
pub fn parse_requires_output(package_name: &str, stdout: &str) -> (r: Vec<DependencyRecord>)
    ensures
        r@.len() == requires_lines(lines(stdout@)).len(),
        forall|k: int|
            0 <= k < r@.len() ==> {
                &&& (#[trigger] r@[k]).source_package@ == package_name@
                &&& r@[k].dependency_string@ == requires_lines(lines(stdout@))[k]
                &&& r@[k].dep_type == DependencyType::Requires
            },
{
    let text = chars_of(stdout);
    let ls = lines_exec(&text);
    let ghost lv = views(ls@);
    let mut r: Vec<DependencyRecord> = Vec::new();
    let mut i: usize = 0;
    while i < ls.len()
        invariant
            lv == views(ls@),
            lv == lines(stdout@),
            i <= ls.len(),
            r@.len() == requires_lines(lv.take(i as int)).len(),
            forall|k: int|
                0 <= k < r@.len() ==> {
                    &&& (#[trigger] r@[k]).source_package@ == package_name@
                    &&& r@[k].dependency_string@ == requires_lines(lv.take(i as int))[k]
                    &&& r@[k].dep_type == DependencyType::Requires
                },
        decreases ls.len() - i,
    {
        let ghost t = lv.take(i + 1);
        assert(t.drop_last() =~= lv.take(i as int));
        assert(t.last() == ls@[i as int]@);
        if !is_blank(&ls[i]) {
            let line = trim_exec(&ls[i]);
            r.push(
                DependencyRecord {
                    source_package: String::from_str(package_name),
                    dependency_string: string_of(&line),
                    dep_type: DependencyType::Requires,
                },
            );
        }
        i = i + 1;
    }
    assert(lv.take(ls.len() as int) =~= lv);
    r
}

/// The package names of `dnf5 repoquery --installed --whatdepends <pkg>`
/// output: the NEVRA name of each trimmed non-blank line, empty names
/// dropped.
pub open spec fn whatdepends_names(ls: Seq<Seq<char>>) -> Seq<Seq<char>>
    decreases ls.len(),
{
    if ls.len() == 0 {
        Seq::<Seq<char>>::empty()
    } else if all_white_space(ls.last()) || nevra_name(trim(ls.last())).len() == 0 {
        whatdepends_names(ls.drop_last())
    } else {
        whatdepends_names(ls.drop_last()).push(nevra_name(trim(ls.last())))
    }
}

/// Parse the text output of `dnf5 repoquery --installed --whatdepends <pkg>`.
pub fn parse_whatdepends_output(stdout: &str) -> (r: Vec<String>)
    ensures
        string_views(r@) == whatdepends_names(lines(stdout@)),
{
    let text = chars_of(stdout);
    let ls = lines_exec(&text);
    let ghost lv = views(ls@);
    let mut r: Vec<String> = Vec::new();
    let mut i: usize = 0;
    while i < ls.len()
        invariant
            lv == views(ls@),
            lv == lines(stdout@),
            i <= ls.len(),
            string_views(r@) == whatdepends_names(lv.take(i as int)),
        decreases ls.len() - i,
    {
        let ghost t = lv.take(i + 1);
        assert(t.drop_last() =~= lv.take(i as int));
        assert(t.last() == ls@[i as int]@);
        if !is_blank(&ls[i]) {
            let line = trim_exec(&ls[i]);
            let name = nevra_name_chars(&line);
            if !name.as_str().is_empty() {
                let ghost before = string_views(r@);
                let ghost nv = name@;
                r.push(name);
                assert(string_views(r@) =~= before.push(nv));
            }
        }
        i = i + 1;
    }
    assert(lv.take(ls.len() as int) =~= lv);
    r
}

/// The state of reading bulk `%{name}\t%{requires}` output: the package of
/// the current group, and the pairs read so far.
pub struct BulkRead {
    pub current: Option<Seq<char>>,
    pub pairs: Seq<(Seq<char>, Seq<char>)>,
}

/// Reading one line of bulk requires output. The line is trimmed; `---` or
/// an empty line ends the group; a line with a tab starts one (its
/// requirement, if any, is recorded); another line is a further requirement
/// of the current group.
pub open spec fn bulk_step(st: BulkRead, raw: Seq<char>) -> BulkRead {
    let line = trim(raw);
    if line == "---"@ || line.len() == 0 {
        BulkRead { current: None, pairs: st.pairs }
    } else {
        match index_of(line, '\t') {
            Some(t) => {
                let pkg = line.take(t);
                let req = line.skip(t + 1);
                BulkRead {
                    current: Some(pkg),
                    pairs: if req.len() > 0 {
                        st.pairs.push((pkg, req))
                    } else {
                        st.pairs
                    },
                }
            },
            None => match st.current {
                Some(pkg) => BulkRead { current: st.current, pairs: st.pairs.push((pkg, line)) },
                None => st,
            },
        }
    }
}

/// The result of reading the given lines of bulk requires output.
pub open spec fn bulk_read(ls: Seq<Seq<char>>) -> BulkRead
    decreases ls.len(),
{
    if ls.len() == 0 {
        BulkRead { current: None, pairs: Seq::<(Seq<char>, Seq<char>)>::empty() }
    } else {
        bulk_step(bulk_read(ls.drop_last()), ls.last())
    }
}

/// The views of a sequence of text pairs.
pub open spec fn pair_views(v: Seq<(String, String)>) -> Seq<(Seq<char>, Seq<char>)> {
    v.map_values(|p: (String, String)| (p.0@, p.1@))
}

/// Parse the bulk output of
/// `dnf5 repoquery --installed --queryformat '%{name}\t%{requires}\n---\n'`
/// into (package, requirement) pairs, in order.
pub fn parse_bulk_requires_output(stdout: &str) -> (r: Vec<(String, String)>)
    ensures
        pair_views(r@) == bulk_read(lines(stdout@)).pairs,
{
    let text = chars_of(stdout);
    let ls = lines_exec(&text);
    let ghost lv = views(ls@);
    let mut pairs: Vec<(String, String)> = Vec::new();
    let mut current: Option<String> = None;
    let mut i: usize = 0;
    while i < ls.len()
        invariant
            lv == views(ls@),
            lv == lines(stdout@),
            i <= ls.len(),
            pair_views(pairs@) == bulk_read(lv.take(i as int)).pairs,
            opt_view(current) == bulk_read(lv.take(i as int)).current,
        decreases ls.len() - i,
    {
        let ghost t = lv.take(i + 1);
        assert(t.drop_last() =~= lv.take(i as int));
        assert(t.last() == ls@[i as int]@);
        let ghost before = pair_views(pairs@);
        let line = trim_exec(&ls[i]);
        if chars_eq_str(&line, "---") || line.len() == 0 {
            current = None;
        } else {
            proof {
                lemma_index_of_bounds(line@, '\t');
            }
            match find_char(&line, '\t') {
                Some(tab) => {
                    let package = string_of_range(&line, 0, tab);
                    let requirement = string_of_range(&line, tab + 1, line.len());
                    assert(line@.subrange(0, tab as int) =~= line@.take(tab as int));
                    assert(line@.subrange(tab + 1, line@.len() as int) =~= line@.skip(tab + 1));
                    current = Some(package.clone());
                    if !requirement.as_str().is_empty() {
                        let ghost pv = (package@, requirement@);
                        pairs.push((package, requirement));
                        assert(pair_views(pairs@) =~= before.push(pv));
                    }
                },
                None => {
                    match &current {
                        Some(package) => {
                            let ghost pv = (package@, line@);
                            pairs.push((package.clone(), string_of(&line)));
                            assert(pair_views(pairs@) =~= before.push(pv));
                        },
                        None => {},
                    }
                },
            }
        }
        i = i + 1;
    }
    assert(lv.take(ls.len() as int) =~= lv);
    pairs
}

/// The state of reading bulk `%{name}\t%{provides}` output: the package of
/// the current group, and the (capability base, provider) entries so far.
pub struct ProvidesRead {
    pub current: Option<Seq<char>>,
    pub entries: Seq<(Seq<char>, Seq<char>)>,
}

/// Reading one line of bulk provides output (lines are not trimmed): `---`
/// ends a group, a line with a tab starts one, and every provide that
/// mentions `.so` is recorded under its capability base.
pub open spec fn provides_step(st: ProvidesRead, line: Seq<char>) -> ProvidesRead {
    if line == "---"@ {
        ProvidesRead { current: None, entries: st.entries }
    } else {
        match index_of(line, '\t') {
            Some(t) => {
                let pkg = line.take(t);
                let provides = line.skip(t + 1);
                ProvidesRead {
                    current: Some(pkg),
                    entries: if has_substring(provides, ".so"@) {
                        st.entries.push((capability_base_of(provides), pkg))
                    } else {
                        st.entries
                    },
                }
            },
            None => match st.current {
                Some(pkg) => ProvidesRead {
                    current: st.current,
                    entries: if has_substring(line, ".so"@) {
                        st.entries.push((capability_base_of(line), pkg))
                    } else {
                        st.entries
                    },
                },
                None => st,
            },
        }
    }
}

/// The result of reading the given lines of bulk provides output.
pub open spec fn provides_read(ls: Seq<Seq<char>>) -> ProvidesRead
    decreases ls.len(),
{
    if ls.len() == 0 {
        ProvidesRead { current: None, entries: Seq::<(Seq<char>, Seq<char>)>::empty() }
    } else {
        provides_step(provides_read(ls.drop_last()), ls.last())
    }
}

/// The provider recorded first for a capability base.
pub open spec fn first_provider(entries: Seq<(Seq<char>, Seq<char>)>, base: Seq<char>) -> Option<
    Seq<char>,
>
    decreases entries.len(),
{
    if entries.len() == 0 {
        None
    } else {
        match first_provider(entries.drop_last(), base) {
            Some(p) => Some(p),
            None => if entries.last().0 == base {
                Some(entries.last().1)
            } else {
                None
            },
        }
    }
}

/// Capability base → provider package, built from bulk provides output; the
/// first provider recorded for a capability wins.
pub struct ProviderMap {
    entries: Vec<(String, String)>,
}

impl ProviderMap {
    /// The (capability base, provider) entries, in the order read.
    pub closed spec fn entries_view(&self) -> Seq<(Seq<char>, Seq<char>)> {
        pair_views(self.entries@)
    }

    /// The provider of a capability base.
    pub open spec fn provider(&self, base: Seq<char>) -> Option<Seq<char>> {
        first_provider(self.entries_view(), base)
    }

    /// The provider of a capability base.
    pub fn get(&self, base: &String) -> (r: Option<&String>)
        ensures
            match r {
                Some(p) => self.provider(base@) == Some(p@),
                None => self.provider(base@) is None,
            },
    {
        let mut i: usize = 0;
        let ghost ev = self.entries_view();
        assert(ev.take(0) =~= Seq::<(Seq<char>, Seq<char>)>::empty());
        while i < self.entries.len()
            invariant
                ev == self.entries_view(),
                i <= self.entries@.len(),
                first_provider(ev.take(i as int), base@) is None,
            decreases self.entries.len() - i,
        {
            let ghost t = ev.take(i + 1);
            assert(t.drop_last() =~= ev.take(i as int));
            if self.entries[i].0 == *base {
                assert(first_provider(t, base@) == Some(ev[i as int].1));
                proof {
                    lemma_first_provider_prefix(ev, base@, i + 1);
                }
                return Some(&self.entries[i].1);
            }
            i = i + 1;
        }
        assert(ev.take(ev.len() as int) =~= ev);
        None
    }
}

proof fn lemma_first_provider_prefix(s: Seq<(Seq<char>, Seq<char>)>, base: Seq<char>, k: int)
    requires
        0 <= k <= s.len(),
        first_provider(s.take(k), base) is Some,
    ensures
        first_provider(s, base) == first_provider(s.take(k), base),
    decreases s.len() - k,
{
    if k == s.len() {
        assert(s.take(k) =~= s);
    } else {
        let t = s.take(k + 1);
        assert(t.drop_last() =~= s.take(k));
        lemma_first_provider_prefix(s, base, k + 1);
    }
}

/// Build a capability → provider package map from DNF5 bulk provides output
/// (`%{name}\t%{provides}\n---\n`). Only capabilities that mention `.so` are
/// mapped.
pub fn build_provider_map(stdout: &str) -> (m: ProviderMap)
    ensures
        m.entries_view() == provides_read(lines(stdout@)).entries,
{
    let text = chars_of(stdout);
    let ls = lines_exec(&text);
    let ghost lv = views(ls@);
    let mut entries: Vec<(String, String)> = Vec::new();
    let mut current: Option<String> = None;
    let mut i: usize = 0;
    while i < ls.len()
        invariant
            lv == views(ls@),
            lv == lines(stdout@),
            i <= ls.len(),
            pair_views(entries@) == provides_read(lv.take(i as int)).entries,
            opt_view(current) == provides_read(lv.take(i as int)).current,
        decreases ls.len() - i,
    {
        let ghost t = lv.take(i + 1);
        assert(t.drop_last() =~= lv.take(i as int));
        assert(t.last() == ls@[i as int]@);
        let ghost before = pair_views(entries@);
        let line = &ls[i];
        if chars_eq_str(line, "---") {
            current = None;
        } else {
            proof {
                lemma_index_of_bounds(line@, '\t');
            }
            match find_char(line, '\t') {
                Some(tab) => {
                    let package = string_of_range(line, 0, tab);
                    let provides = string_of_range(line, tab + 1, line.len());
                    assert(line@.subrange(0, tab as int) =~= line@.take(tab as int));
                    assert(line@.subrange(tab + 1, line@.len() as int) =~= line@.skip(tab + 1));
                    current = Some(package.clone());
                    let pv = chars_of(provides.as_str());
                    if contains_str(&pv, ".so") {
                        let base = capability_base(provides.as_str());
                        let ghost e = (base@, package@);
                        entries.push((base, package));
                        assert(pair_views(entries@) =~= before.push(e));
                    }
                },
                None => {
                    match &current {
                        Some(package) => {
                            if contains_str(line, ".so") {
                                let ls_text = string_of(line);
                                let base = capability_base(ls_text.as_str());
                                let ghost e = (base@, package@);
                                entries.push((base, package.clone()));
                                assert(pair_views(entries@) =~= before.push(e));
                            }
                        },
                        None => {},
                    }
                },
            }
        }
        i = i + 1;
    }
    assert(lv.take(ls.len() as int) =~= lv);
    ProviderMap { entries }
}

/// A resolved package-to-package dependency.
#[derive(Debug, Clone, PartialEq, Eq)]
pub struct ResolvedDependency {
    /// The package that has the dependency.
    pub source_package: String,
    /// The package that fulfills the dependency.
    pub target_package: String,
}

/// Some installed package has the given name.
pub open spec fn is_installed(installed: Seq<PackageRecord>, name: Seq<char>) -> bool {
    exists|k: int| 0 <= k < installed.len() && (#[trigger] installed[k]).name@ == name
}

/// The package that fulfils requirement `req` of package `src`, if tracking
/// keeps it: excluded requirements are dropped; a capability resolves to its
/// first provider, a package-name requirement to an installed package of
/// that name; a package never depends on itself.
pub open spec fn resolve_target(
    installed: Seq<PackageRecord>,
    providers: Seq<(Seq<char>, Seq<char>)>,
    src: Seq<char>,
    req: Seq<char>,
) -> Option<Seq<char>> {
    if excluded_requirement(req) {
        None
    } else if capability(req) {
        match first_provider(providers, capability_base_of(req)) {
            Some(t) => if t != src {
                Some(t)
            } else {
                None
            },
            None => None,
        }
    } else {
        match requirement_package(req) {
            Some(n) => if is_installed(installed, n) && n != src {
                Some(n)
            } else {
                None
            },
            None => None,
        }
    }
}

/// The resolved (source, target) pairs for the given (package, requirement)
/// pairs, in order.
pub open spec fn resolve_all(
    installed: Seq<PackageRecord>,
    providers: Seq<(Seq<char>, Seq<char>)>,
    pairs: Seq<(Seq<char>, Seq<char>)>,
) -> Seq<(Seq<char>, Seq<char>)>
    decreases pairs.len(),
{
    if pairs.len() == 0 {
        Seq::<(Seq<char>, Seq<char>)>::empty()
    } else {
        let prev = resolve_all(installed, providers, pairs.drop_last());
        let p = pairs.last();
        match resolve_target(installed, providers, p.0, p.1) {
            Some(t) => prev.push((p.0, t)),
            None => prev,
        }
    }
}

/// No package is resolved to depend on itself.
pub proof fn law_no_package_depends_on_itself(
    installed: Seq<PackageRecord>,
    providers: Seq<(Seq<char>, Seq<char>)>,
    pairs: Seq<(Seq<char>, Seq<char>)>,
)
    ensures
        forall|k: int|
            0 <= k < resolve_all(installed, providers, pairs).len() ==> (#[trigger] resolve_all(
                installed,
                providers,
                pairs,
            )[k]).0 != resolve_all(installed, providers, pairs)[k].1,
    decreases pairs.len(),
{
    if pairs.len() > 0 {
        law_no_package_depends_on_itself(installed, providers, pairs.drop_last());
        let prev = resolve_all(installed, providers, pairs.drop_last());
        assert forall|k: int|
            0 <= k < resolve_all(installed, providers, pairs).len() implies (#[trigger] resolve_all(
            installed,
            providers,
            pairs,
        )[k]).0 != resolve_all(installed, providers, pairs)[k].1 by {
            if k < prev.len() {
                assert(resolve_all(installed, providers, pairs)[k] == prev[k]);
            }
        }
    }
}

/// The views of resolved dependencies.
pub open spec fn resolved_views(v: Seq<ResolvedDependency>) -> Seq<(Seq<char>, Seq<char>)> {
    v.map_values(|d: ResolvedDependency| (d.source_package@, d.target_package@))
}

/// Whether some installed package has the given name.
fn is_installed_exec(installed: &[PackageRecord], name: &String) -> (r: bool)
    ensures
        r == is_installed(installed@, name@),
{
    let mut k: usize = 0;
    while k < installed.len()
        invariant
            k <= installed@.len(),
            forall|m: int| 0 <= m < k ==> (#[trigger] installed@[m]).name@ != name@,
        decreases installed.len() - k,
    {
        if installed[k].name == *name {
            return true;
        }
        k = k + 1;
    }
    false
}

/// The rows of `dnf5 repoquery --installed --queryformat` output that name a
/// package: each line without its trailing carriage returns, split at tabs;
/// blank lines and lines of fewer than four fields are skipped.
pub open spec fn repoquery_rows(ls: Seq<Seq<char>>) -> Seq<Seq<Seq<char>>>
    decreases ls.len(),
{
    if ls.len() == 0 {
        Seq::<Seq<Seq<char>>>::empty()
    } else {
        let line = trim_end_char(ls.last(), '\r');
        let fields = split(line, '\t');
        if all_white_space(line) || fields.len() < 4 {
            repoquery_rows(ls.drop_last())
        } else {
            repoquery_rows(ls.drop_last()).push(fields)
        }
    }
}

/// Field `i` of a row, when the row has it and it is not empty.
pub open spec fn optional_field(fields: Seq<Seq<char>>, i: int) -> Option<Seq<char>> {
    if 0 <= i < fields.len() && fields[i].len() > 0 {
        Some(fields[i])
    } else {
        None
    }
}

/// `p` holds what a row of repoquery fields says: name, version, arch and
/// repository from the first four fields; the install reason from the fifth
/// (`Unknown` without one); the origin repository, summary and source RPM
/// from the sixth, eighth and ninth when present and not empty; the install
/// time from the seventh when it parses as an `i64`.
pub open spec fn row_fields_match(p: PackageRecord, fields: Seq<Seq<char>>) -> bool {
    &&& p.name@ == fields[0]
    &&& p.version@ == fields[1]
    &&& p.arch@ == fields[2]
    &&& p.repository@ == fields[3]
    &&& p.reason == (if fields.len() > 4 {
        InstallReason::of_text(fields[4])
    } else {
        InstallReason::Unknown
    })
    &&& opt_view(p.from_repo) == optional_field(fields, 5)
    &&& p.install_time == (if fields.len() > 6 {
        parse_i64(fields[6])
    } else {
        None
    })
    &&& opt_view(p.summary) == optional_field(fields, 7)
    &&& opt_view(p.source_rpm) == optional_field(fields, 8)
}

/// `p` is the record a row of repoquery fields describes, before the file
/// lists are read: no file facts and no service units.
pub open spec fn record_of_row(p: PackageRecord, fields: Seq<Seq<char>>) -> bool {
    &&& row_fields_match(p, fields)
    &&& p.file_facts == PackageFileFacts::none()
    &&& p.service_units@.len() == 0
}

/// Field `i` of a row as an owned text, when present and not empty.
fn optional_field_exec(fields: &Vec<Vec<char>>, i: usize) -> (r: Option<String>)
    ensures
        opt_view(r) == optional_field(views(fields@), i as int),
{
    if i < fields.len() && fields[i].len() > 0 {
        Some(string_of(&fields[i]))
    } else {
        None
    }
}

/// The package record of one row of repoquery fields.
fn record_from_row(fields: &Vec<Vec<char>>) -> (p: PackageRecord)
    requires
        fields.len() >= 4,
    ensures
        record_of_row(p, views(fields@)),
{
    let reason = if fields.len() > 4 {
        let s = string_of(&fields[4]);
        InstallReason::from_dnf5(s.as_str())
    } else {
        InstallReason::Unknown
    };
    let install_time = if fields.len() > 6 {
        parse_i64_exec(&fields[6])
    } else {
        None
    };
    PackageRecord {
        name: string_of(&fields[0]),
        version: string_of(&fields[1]),
        arch: string_of(&fields[2]),
        repository: string_of(&fields[3]),
        reason,
        from_repo: optional_field_exec(fields, 5),
        install_time,
        summary: optional_field_exec(fields, 7),
        source_rpm: optional_field_exec(fields, 8),
        file_facts: PackageFileFacts::default(),
        service_units: Vec::new(),
    }
}

/// Parse the tab-separated output of `dnf5 repoquery --installed
/// --queryformat` (name, evr, arch, repoid, reason, from_repo, installtime,
/// summary, sourcerpm).
pub fn parse_repoquery_output(stdout: &str) -> (r: Vec<PackageRecord>)
    ensures
        r@.len() == repoquery_rows(lines(stdout@)).len(),
        forall|k: int|
            0 <= k < r@.len() ==> record_of_row(
                #[trigger] r@[k],
                repoquery_rows(lines(stdout@))[k],
            ),
{
    let text = chars_of(stdout);
    let ls = lines_exec(&text);
    let ghost lv = views(ls@);
    let mut r: Vec<PackageRecord> = Vec::new();
    let mut i: usize = 0;
    while i < ls.len()
        invariant
            lv == views(ls@),
            lv == lines(stdout@),
            i <= ls.len(),
            r@.len() == repoquery_rows(lv.take(i as int)).len(),
            forall|k: int|
                0 <= k < r@.len() ==> record_of_row(
                    #[trigger] r@[k],
                    repoquery_rows(lv.take(i as int))[k],
                ),
        decreases ls.len() - i,
    {
        let ghost t = lv.take(i + 1);
        assert(t.drop_last() =~= lv.take(i as int));
        assert(t.last() == ls@[i as int]@);
        let line = trim_end_char_exec(&ls[i], '\r');
        if !is_blank(&line) {
            let fields = split_exec(&line, '\t');
            if fields.len() >= 4 {
                let p = record_from_row(&fields);
                r.push(p);
            }
        }
        i = i + 1;
    }
    assert(lv.take(ls.len() as int) =~= lv);
    r
}

/// The facts one more owned path adds to a package's file facts.
pub open spec fn facts_with_path(f: PackageFileFacts, path: Seq<char>) -> PackageFileFacts {
    PackageFileFacts {
        has_files: true,
        has_executable: f.has_executable || starts_with_any_of(path, EXECUTABLE_DIRS@),
        has_desktop_entry: f.has_desktop_entry || (has_suffix(path, ".desktop"@) && has_substring(
            path,
            "/applications/"@,
        )),
        has_app_bundle: f.has_app_bundle || (has_prefix(path, "/opt/"@) && !has_suffix(
            path,
            "/"@,
        )),
    }
}

/// The state of reading package file lists: the package being read and its
/// facts so far, the packages finished (in order), and the (package, unit
/// file) pairs found (in order).
pub struct FileScanRead {
    pub current: Option<Seq<char>>,
    pub facts: PackageFileFacts,
    pub finished: Seq<(Seq<char>, PackageFileFacts)>,
    pub units: Seq<(Seq<char>, Seq<char>)>,
}

/// Reading one line of `@@@%{name}\n%{files}\n` output. A marker line
/// finishes the package being read and starts the one it names; an empty
/// line, or a line before any marker, changes nothing; any other line is a
/// path owned by the current package.
pub open spec fn file_scan_step(st: FileScanRead, line: Seq<char>) -> FileScanRead {
    if has_prefix(line, "@@@"@) {
        FileScanRead {
            current: Some(line.skip(3)),
            facts: PackageFileFacts::none(),
            finished: match st.current {
                Some(p) => st.finished.push((p, st.facts)),
                None => st.finished,
            },
            units: st.units,
        }
    } else if st.current is None || line.len() == 0 {
        st
    } else {
        FileScanRead {
            current: st.current,
            facts: facts_with_path(st.facts, line),
            finished: st.finished,
            units: match unit_of_path(line) {
                Some(u) => st.units.push((st.current->0, u)),
                None => st.units,
            },
        }
    }
}

/// The state after reading the lines `ls`.
pub open spec fn file_scan_read(ls: Seq<Seq<char>>) -> FileScanRead
    decreases ls.len(),
{
    if ls.len() == 0 {
        FileScanRead {
            current: None,
            facts: PackageFileFacts::none(),
            finished: Seq::<(Seq<char>, PackageFileFacts)>::empty(),
            units: Seq::<(Seq<char>, Seq<char>)>::empty(),
        }
    } else {
        file_scan_step(file_scan_read(ls.drop_last()), ls.last())
    }
}

/// Every package read from the lines `ls` with its facts, the last one
/// finished at the end of the output.
pub open spec fn file_scan_facts(ls: Seq<Seq<char>>) -> Seq<(Seq<char>, PackageFileFacts)> {
    let st = file_scan_read(ls);
    match st.current {
        Some(p) => st.finished.push((p, st.facts)),
        None => st.finished,
    }
}

/// The facts recorded for `name`: the last entry for it, as a later insert
/// into a map replaces an earlier one.
pub open spec fn last_facts(entries: Seq<(Seq<char>, PackageFileFacts)>, name: Seq<char>) -> Option<
    PackageFileFacts,
>
    decreases entries.len(),
{
    if entries.len() == 0 {
        None
    } else if entries.last().0 == name {
        Some(entries.last().1)
    } else {
        last_facts(entries.drop_last(), name)
    }
}

/// The unit files recorded for `name`, in order.
pub open spec fn units_named(units: Seq<(Seq<char>, Seq<char>)>, name: Seq<char>) -> Seq<Seq<char>>
    decreases units.len(),
{
    if units.len() == 0 {
        Seq::<Seq<char>>::empty()
    } else if units.last().0 == name {
        units_named(units.drop_last(), name).push(units.last().1)
    } else {
        units_named(units.drop_last(), name)
    }
}

/// The views of (package, facts) entries.
pub open spec fn facts_views(v: Seq<(String, PackageFileFacts)>) -> Seq<(Seq<char>, PackageFileFacts)> {
    v.map_values(|e: (String, PackageFileFacts)| (e.0@, e.1))
}

/// The result of scanning the package file lists: structural entry-point
/// facts per package, and the systemd unit files the packages ship.
#[derive(Debug, Clone)]
pub struct PackageFileScan {
    /// (package, facts), in the order the packages were listed.
    pub facts: Vec<(String, PackageFileFacts)>,
    /// (package, unit file), in the order the files were listed.
    pub service_units: Vec<(String, String)>,
}

impl PackageFileScan {
    /// The facts recorded for a package, the last ones if it was listed
    /// twice.
    pub fn facts_for(&self, name: &str) -> (r: Option<PackageFileFacts>)
        ensures
            r == last_facts(facts_views(self.facts@), name@),
    {
        let ghost fv = facts_views(self.facts@);
        let mut k: usize = self.facts.len();
        assert(fv.take(k as int) =~= fv);
        while k > 0
            invariant
                k <= self.facts.len(),
                fv == facts_views(self.facts@),
                last_facts(fv, name@) == last_facts(fv.take(k as int), name@),
            decreases k,
        {
            let ghost t = fv.take(k as int);
            assert(t.drop_last() =~= fv.take(k - 1));
            assert(t.last() == (self.facts@[k - 1].0@, self.facts@[k - 1].1));
            if str_eq(self.facts[k - 1].0.as_str(), name) {
                return Some(self.facts[k - 1].1);
            }
            k = k - 1;
        }
        None
    }

    /// The unit files recorded for a package, in order.
    pub fn units_for(&self, name: &str) -> (r: Vec<String>)
        ensures
            string_views(r@) == units_named(pair_views(self.service_units@), name@),
    {
        let ghost uv = pair_views(self.service_units@);
        let mut r: Vec<String> = Vec::new();
        let mut i: usize = 0;
        while i < self.service_units.len()
            invariant
                i <= self.service_units.len(),
                uv == pair_views(self.service_units@),
                string_views(r@) == units_named(uv.take(i as int), name@),
            decreases self.service_units.len() - i,
        {
            let ghost t = uv.take(i + 1);
            assert(t.drop_last() =~= uv.take(i as int));
            assert(t.last() == (self.service_units@[i as int].0@, self.service_units@[i as int].1@));
            if str_eq(self.service_units[i].0.as_str(), name) {
                let u = self.service_units[i].1.clone();
                let ghost before = string_views(r@);
                r.push(u);
                assert(string_views(r@) =~= before.push(self.service_units@[i as int].1@));
            }
            i = i + 1;
        }
        assert(uv.take(self.service_units.len() as int) =~= uv);
        r
    }
}

/// The facts of a package with one more owned path.
fn facts_with_path_exec(f: PackageFileFacts, path: &Vec<char>) -> (r: PackageFileFacts)
    ensures
        r == facts_with_path(f, path@),
{
    PackageFileFacts {
        has_files: true,
        has_executable: f.has_executable || starts_with_any(path, &EXECUTABLE_DIRS),
        has_desktop_entry: f.has_desktop_entry || (ends_with_str(path, ".desktop") && contains_str(
            path,
            "/applications/",
        )),
        has_app_bundle: f.has_app_bundle || (starts_with_str(path, "/opt/") && !ends_with_str(
            path,
            "/",
        )),
    }
}

/// Parse the file-list output of
/// `dnf5 repoquery --installed --queryformat '@@@%{name}\n%{files}\n'`.
///
/// The marker line introduces each package; every following line until the
/// next marker is a file path owned by that package. Only structural facts
/// are retained, never the file paths themselves.
pub fn parse_file_facts(stdout: &str) -> (scan: PackageFileScan)
    ensures
        facts_views(scan.facts@) == file_scan_facts(lines(stdout@)),
        pair_views(scan.service_units@) == file_scan_read(lines(stdout@)).units,
{
    let text = chars_of(stdout);
    let ls = lines_exec(&text);
    let ghost lv = views(ls@);
    let mut finished: Vec<(String, PackageFileFacts)> = Vec::new();
    let mut units: Vec<(String, String)> = Vec::new();
    let mut current: Option<String> = None;
    let mut facts = PackageFileFacts::default();
    let mut i: usize = 0;
    while i < ls.len()
        invariant
            lv == views(ls@),
            lv == lines(stdout@),
            i <= ls.len(),
            opt_view(current) == file_scan_read(lv.take(i as int)).current,
            facts == file_scan_read(lv.take(i as int)).facts,
            facts_views(finished@) == file_scan_read(lv.take(i as int)).finished,
            pair_views(units@) == file_scan_read(lv.take(i as int)).units,
        decreases ls.len() - i,
    {
        let ghost t = lv.take(i + 1);
        assert(t.drop_last() =~= lv.take(i as int));
        assert(t.last() == ls@[i as int]@);
        let line = &ls[i];
        if starts_with_str(line, "@@@") {
            proof {
                reveal_strlit("@@@");
            }
            let name = string_of_range(line, 3, line.len());
            assert(name@ =~= line@.skip(3));
            match current {
                Some(prev) => {
                    let ghost before = facts_views(finished@);
                    let ghost pv = prev@;
                    finished.push((prev, facts));
                    assert(facts_views(finished@) =~= before.push((pv, facts)));
                },
                None => {},
            }
            current = Some(name);
            facts = PackageFileFacts::default();
        } else {
            match &current {
                Some(package) => {
                    if line.len() > 0 {
                        facts = facts_with_path_exec(facts, line);
                        let path = string_of(line);
                        match service_unit_from_path(path.as_str()) {
                            Some(unit) => {
                                let ghost before = pair_views(units@);
                                let ghost uv = unit@;
                                units.push((package.clone(), unit));
                                assert(pair_views(units@) =~= before.push((package@, uv)));
                            },
                            None => {},
                        }
                    }
                },
                None => {},
            }
        }
        i = i + 1;
    }
    assert(lv.take(ls.len() as int) =~= lv);
    match current {
        Some(prev) => {
            let ghost before = facts_views(finished@);
            let ghost pv = prev@;
            finished.push((prev, facts));
            assert(facts_views(finished@) =~= before.push((pv, facts)));
        },
        None => {},
    }
    PackageFileScan { facts: finished, service_units: units }
}

/// `p` is the installed package that a repoquery row describes, with the
/// file facts and unit files the file-list scan recorded for its name (no
/// facts when none were recorded).
pub open spec fn installed_record(
    p: PackageRecord,
    fields: Seq<Seq<char>>,
    facts: Seq<(Seq<char>, PackageFileFacts)>,
    units: Seq<(Seq<char>, Seq<char>)>,
) -> bool {
    &&& row_fields_match(p, fields)
    &&& p.file_facts == match last_facts(facts, fields[0]) {
        Some(f) => f,
        None => PackageFileFacts::none(),
    }
    &&& string_views(p.service_units@) == units_named(units, fields[0])
}

/// DNF5 CLI backend: discovers packages by executing dnf5 as a subprocess.
/// The library holds what is computed from dnf5's output.
#[derive(Debug, Clone, Copy)]
pub struct DnfCliBackend;

impl DnfCliBackend {
    /// A new backend.
    pub fn new() -> (b: Self) {
        DnfCliBackend
    }

    /// Discover all hard runtime dependencies across all installed packages,
    /// from the two bulk DNF5 queries: requires
    /// (`%{name}\t%{requires}\n---\n`) and provides
    /// (`%{name}\t%{provides}\n---\n`).
    ///
    /// Builds a capability → provider map from provides, then matches each
    /// requirement against it. Returns resolved (source, target) pairs where
    /// both are installed packages, in the order of the requires output.
    /// RPM-internal dependencies, config() deps, file paths and virtual
    /// capabilities are excluded.
    pub fn discover_all_dependencies(
        &self,
        installed_packages: &[PackageRecord],
        requires_stdout: &str,
        provides_stdout: &str,
    ) -> (r: Vec<ResolvedDependency>)
        ensures
            resolved_views(r@) == resolve_all(
                installed_packages@,
                provides_read(lines(provides_stdout@)).entries,
                bulk_read(lines(requires_stdout@)).pairs,
            ),
    {
        let provider_map = build_provider_map(provides_stdout);
        let raw_pairs = parse_bulk_requires_output(requires_stdout);
        let ghost pv = pair_views(raw_pairs@);
        let ghost prov = provider_map.entries_view();
        let mut resolved: Vec<ResolvedDependency> = Vec::new();
        let mut i: usize = 0;
        while i < raw_pairs.len()
            invariant
                pv == pair_views(raw_pairs@),
                prov == provider_map.entries_view(),
                i <= raw_pairs.len(),
                resolved_views(resolved@) == resolve_all(
                    installed_packages@,
                    prov,
                    pv.take(i as int),
                ),
            decreases raw_pairs.len() - i,
        {
            let ghost t = pv.take(i + 1);
            assert(t.drop_last() =~= pv.take(i as int));
            let ghost before = resolved_views(resolved@);
            let source = &raw_pairs[i].0;
            let requirement = &raw_pairs[i].1;
            assert(t.last() == (source@, requirement@));
            if !is_excluded_requirement(requirement.as_str()) {
                if is_capability(requirement.as_str()) {
                    let base = capability_base(requirement.as_str());
                    match provider_map.get(&base) {
                        Some(target) => {
                            if *target != *source {
                                let d = ResolvedDependency {
                                    source_package: source.clone(),
                                    target_package: target.clone(),
                                };
                                resolved.push(d);
                                assert(resolved_views(resolved@) =~= before.push(
                                    (source@, target@),
                                ));
                            }
                        },
                        None => {},
                    }
                } else {
                    match extract_package_name(requirement.as_str()) {
                        Some(base_name) => {
                            if is_installed_exec(installed_packages, &base_name) && base_name
                                != *source {
                                let ghost bv = base_name@;
                                let d = ResolvedDependency {
                                    source_package: source.clone(),
                                    target_package: base_name,
                                };
                                resolved.push(d);
                                assert(resolved_views(resolved@) =~= before.push((source@, bv)));
                            }
                        },
                        None => {},
                    }
                }
            }
            i = i + 1;
        }
        assert(pv.take(raw_pairs.len() as int) =~= pv);
        resolved
    }

    /// The installed packages, from the two bulk DNF5 queries: the package
    /// metadata (`%{name}\t%{evr}\t%{arch}\t%{repoid}\t%{reason}\t%{from_repo}\t%{installtime}\t%{summary}\t%{sourcerpm}\n`)
    /// and the file lists (`@@@%{name}\n%{files}\n`), which are reduced to a
    /// handful of facts per package.
    pub fn discover_installed(&self, packages_stdout: &str, files_stdout: &str) -> (r: Vec<
        PackageRecord,
    >)
        ensures
            r@.len() == repoquery_rows(lines(packages_stdout@)).len(),
            forall|k: int|
                0 <= k < r@.len() ==> installed_record(
                    #[trigger] r@[k],
                    repoquery_rows(lines(packages_stdout@))[k],
                    file_scan_facts(lines(files_stdout@)),
                    file_scan_read(lines(files_stdout@)).units,
                ),
    {
        let packages = parse_repoquery_output(packages_stdout);
        let scan = parse_file_facts(files_stdout);
        let ghost rows = repoquery_rows(lines(packages_stdout@));
        let ghost fv = file_scan_facts(lines(files_stdout@));
        let ghost uv = file_scan_read(lines(files_stdout@)).units;
        let ghost all = packages@;
        let mut out: Vec<PackageRecord> = Vec::new();
        for p in it: packages
            invariant
                all == it.seq(),
                all.len() == rows.len(),
                forall|k: int| 0 <= k < all.len() ==> record_of_row(#[trigger] all[k], rows[k]),
                fv == facts_views(scan.facts@),
                uv == pair_views(scan.service_units@),
                out@.len() == it.index(),
                forall|k: int|
                    0 <= k < out@.len() ==> installed_record(#[trigger] out@[k], rows[k], fv, uv),
        {
            let k: Ghost<int> = Ghost(it.index() as int);
            assert(p == all[k@]);
            assert(record_of_row(all[k@], rows[k@]));
            let mut q = p;
            let facts = match scan.facts_for(q.name.as_str()) {
                Some(f) => f,
                None => PackageFileFacts::default(),
            };
            q.file_facts = facts;
            q.service_units = scan.units_for(q.name.as_str());
            assert(installed_record(q, rows[k@], fv, uv));
            out.push(q);
        }
        out
    }

    /// The argv (program + arguments) that removes a package.
    pub fn removal_argv(&self, package_name: &str) -> (r: Vec<String>)
        ensures
            string_views(r@) == seq!["dnf5"@, "remove"@, "-y"@, package_name@],
    {
        let mut v: Vec<String> = Vec::new();
        v.push(String::from_str("dnf5"));
        v.push(String::from_str("remove"));
        v.push(String::from_str("-y"));
        v.push(String::from_str(package_name));
        assert(string_views(v@) =~= seq!["dnf5"@, "remove"@, "-y"@, package_name@]);
        v
    }
}


/// An architecture suffix is a `.` followed by a name without `.`.
pub open spec fn arch_shaped(a: Seq<char>) -> bool {
    a.len() > 0 && a[0] == '.' && forall|i: int| 1 <= i < a.len() ==> a[i] != '.'
}

proof fn lemma_arch_suffixes_shaped()
    ensures
        forall|k: int| 0 <= k < ARCH_SUFFIXES@.len() ==> arch_shaped(#[trigger] ARCH_SUFFIXES@[k]@),
{
    reveal_strlit(".x86_64");
    reveal_strlit(".i686");
    reveal_strlit(".aarch64");
    reveal_strlit(".noarch");
    reveal_strlit(".i586");
    reveal_strlit(".ppc64le");
    reveal_strlit(".s390x");
    reveal_strlit(".armv7hl");
    assert(arch_shaped(ARCH_SUFFIXES@[0]@));
    assert(arch_shaped(ARCH_SUFFIXES@[1]@));
    assert(arch_shaped(ARCH_SUFFIXES@[2]@));
    assert(arch_shaped(ARCH_SUFFIXES@[3]@));
    assert(arch_shaped(ARCH_SUFFIXES@[4]@));
    assert(arch_shaped(ARCH_SUFFIXES@[5]@));
    assert(arch_shaped(ARCH_SUFFIXES@[6]@));
    assert(arch_shaped(ARCH_SUFFIXES@[7]@));
}

/// The last `c` of `x` followed by `c` and then a text without `c` is the
/// one between them.
proof fn lemma_last_index_before_tail(x: Seq<char>, c: char, y: Seq<char>)
    requires
        forall|i: int| 0 <= i < y.len() ==> y[i] != c,
    ensures
        last_index_of(x.push(c) + y, c) == Some(x.len() as int),
    decreases y.len(),
{
    let s = x.push(c) + y;
    if y.len() == 0 {
        assert(s =~= x.push(c));
    } else {
        assert(s.drop_last() =~= x.push(c) + y.drop_last());
        assert(s.last() == y.last());
        lemma_last_index_before_tail(x, c, y.drop_last());
    }
}

/// The name of a package is what comes before its version and release: for
/// any name `n`, version `v` and release `r` that start with a digit and hold
/// no `-`, and any known architecture, the NEVRA
/// `n-v-r.arch` gives back `n`, also when `n` itself holds `-` or digits.
pub proof fn law_nevra_name_is_the_name(n: Seq<char>, v: Seq<char>, r: Seq<char>, k: int)
    requires
        0 <= k < ARCH_SUFFIXES@.len(),
        v.len() > 0 && is_digit(v[0]),
        r.len() > 0 && is_digit(r[0]),
        forall|i: int| 0 <= i < v.len() ==> v[i] != '-',
        forall|i: int| 0 <= i < r.len() ==> r[i] != '-',
    ensures
        nevra_name(n + seq!['-'] + v + seq!['-'] + r + ARCH_SUFFIXES@[k]@) == n,
{
    let a = ARCH_SUFFIXES@[k]@;
    lemma_arch_suffixes_shaped();
    let nv = n.push('-') + v;
    let w = nv.push('-') + r;
    let s = n + seq!['-'] + v + seq!['-'] + r + a;
    let rest = a.skip(1);
    assert(s =~= w.push('.') + rest);
    assert forall|i: int| 0 <= i < rest.len() implies rest[i] != '.' by {
        assert(rest[i] == a[i + 1]);
    }
    lemma_last_index_before_tail(w, '.', rest);
    assert(s.skip(w.len() as int) =~= a);
    assert(s.take(w.len() as int) =~= w);
    assert(strip_arch(s) == w);
    lemma_last_index_before_tail(nv, '-', r);
    assert(w.skip(nv.len() + 1int) =~= r);
    assert(w.take(nv.len() as int) =~= nv);
    lemma_last_index_before_tail(n, '-', v);
    assert(nv.skip(n.len() + 1int) =~= v);
    assert(nv.take(n.len() as int) =~= n);
}

} // verus!
