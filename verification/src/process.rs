//! Decisions behind spawning child processes and repairing `PATH`: which
//! program name to run on Windows, which environment variables to set, and
//! which directories to prepend to a `PATH` value.
use vstd::prelude::*;

use crate::text;
use crate::text::{join_strings, push_char, split_str, str_eq, to_ascii_lowercase};

verus! {

// ---------------------------------------------------------------------------
// Windows `.cmd` shims
// ---------------------------------------------------------------------------

/// Package-manager launchers that Windows installs as `.cmd` shims.
pub open spec fn needs_cmd_shim(lower: Seq<char>) -> bool {
    ||| lower == "npm"@
    ||| lower == "npx"@
    ||| lower == "pnpm"@
    ||| lower == "pnpx"@
    ||| lower == "yarn"@
    ||| lower == "yarnpkg"@
    ||| lower == "corepack"@
}

/// The shim name for a program given as one path component without
/// extension: the name with `.cmd` appended when its ASCII lowercase is one
/// of the package-manager launchers.
pub open spec fn cmd_shim_spec(program: Seq<char>, component_count: nat, has_extension: bool) -> Option<
    Seq<char>,
> {
    if component_count != 1 || has_extension {
        None
    } else if needs_cmd_shim(text::ascii_lowercase(program)) {
        Some(program + ".cmd"@)
    } else {
        None
    }
}

/// Decide the `.cmd` shim from the program name and what its path looks
/// like (how many components it has, whether it has an extension).
pub fn cmd_shim_for(program: &str, component_count: usize, has_extension: bool) -> (r: Option<String>)
    ensures
        match cmd_shim_spec(program@, component_count as nat, has_extension) {
            Some(v) => r matches Some(s) && s@ == v,
            None => r is None,
        },
{
    if component_count != 1 || has_extension {
        return None;
    }
    let normalized = to_ascii_lowercase(program);
    let n = normalized.as_str();
    let needs = str_eq(n, "npm") || str_eq(n, "npx") || str_eq(n, "pnpm") || str_eq(n, "pnpx")
        || str_eq(n, "yarn") || str_eq(n, "yarnpkg") || str_eq(n, "corepack");
    if needs {
        let mut s = String::from_str(program);
        s.append(".cmd");
        Some(s)
    } else {
        None
    }
}

/// A non-empty word of ASCII letters and digits: no separator, no drive
/// prefix, no `.`, so on every platform it is a path of one plain component.
pub open spec fn is_plain_word(s: Seq<char>) -> bool {
    &&& s.len() > 0
    &&& forall|i: int|
        0 <= i < s.len() ==> text::is_ascii_alpha(#[trigger] s[i]) || text::is_ascii_digit(s[i])
}

/// `Path::components().count()` of the program name. Claimed only for a
/// non-empty word of ASCII letters and digits: such a path has no separator,
/// no prefix and no `.`, so it is one normal component, as the documentation
/// of `Path::components` describes the parsing. Other names depend on the
/// platform's path syntax and nothing is claimed of them.
#[verifier::external_body]
fn path_component_count(program: &str) -> (r: usize)
    ensures
        is_plain_word(program@) ==> r == 1,
{
    std::path::Path::new(program).components().count()
}

/// Whether `Path::extension()` finds an extension in the program name.
/// Claimed only that a name without any `.` has none, as the documentation
/// of `Path::extension` says (no embedded `.` means no extension); other
/// names depend on the platform's path syntax.
#[verifier::external_body]
fn path_has_extension(program: &str) -> (r: bool)
    ensures
        !program@.contains('.') ==> !r,
{
    std::path::Path::new(program).extension().is_some()
}

/// A name whose ASCII lowercase is a launcher name is a plain word.
proof fn lemma_launcher_is_plain_word(program: Seq<char>)
    requires
        needs_cmd_shim(text::ascii_lowercase(program)),
    ensures
        is_plain_word(program),
        !program.contains('.'),
{
    reveal_strlit("npm");
    reveal_strlit("npx");
    reveal_strlit("pnpm");
    reveal_strlit("pnpx");
    reveal_strlit("yarn");
    reveal_strlit("yarnpkg");
    reveal_strlit("corepack");
    let l = text::ascii_lowercase(program);
    assert(l.len() == program.len());
    assert(l.len() > 0);
    assert forall|i: int| 0 <= i < l.len() implies text::is_ascii_lower(#[trigger] l[i]) by {}
    assert forall|i: int| 0 <= i < program.len() implies text::is_ascii_alpha(
        #[trigger] program[i],
    ) by {
        assert(l[i] == text::ascii_lower_char(program[i]));
        assert(text::is_ascii_lower(l[i]));
    }
    assert(!program.contains('.')) by {
        if program.contains('.') {
            let k = choose|k: int| 0 <= k < program.len() && program[k] == '.';
            assert(text::is_ascii_alpha(program[k]));
        }
    }
}

/// The launcher names that get a `.cmd` shim: npm, npx, pnpm, pnpx, yarn,
/// yarnpkg and corepack, in any ASCII case. A bare such name gets the name
/// with `.cmd` appended; any other name, and any name with more than one path
/// component or with an extension, is run as given.
pub proof fn law_launchers_get_cmd_shim(program: Seq<char>, component_count: nat, has_extension: bool)
    ensures
        ({
            let l = text::ascii_lowercase(program);
            let launcher = {
                ||| l == seq!['n', 'p', 'm']
                ||| l == seq!['n', 'p', 'x']
                ||| l == seq!['p', 'n', 'p', 'm']
                ||| l == seq!['p', 'n', 'p', 'x']
                ||| l == seq!['y', 'a', 'r', 'n']
                ||| l == seq!['y', 'a', 'r', 'n', 'p', 'k', 'g']
                ||| l == seq!['c', 'o', 'r', 'e', 'p', 'a', 'c', 'k']
            };
            cmd_shim_spec(program, component_count, has_extension) == if launcher
                && component_count == 1 && !has_extension {
                Some(program + seq!['.', 'c', 'm', 'd'])
            } else {
                None
            }
        }),
{
    reveal_strlit("npm");
    reveal_strlit("npx");
    reveal_strlit("pnpm");
    reveal_strlit("pnpx");
    reveal_strlit("yarn");
    reveal_strlit("yarnpkg");
    reveal_strlit("corepack");
    reveal_strlit(".cmd");
    assert("npm"@ =~= seq!['n', 'p', 'm']);
    assert("npx"@ =~= seq!['n', 'p', 'x']);
    assert("pnpm"@ =~= seq!['p', 'n', 'p', 'm']);
    assert("pnpx"@ =~= seq!['p', 'n', 'p', 'x']);
    assert("yarn"@ =~= seq!['y', 'a', 'r', 'n']);
    assert("yarnpkg"@ =~= seq!['y', 'a', 'r', 'n', 'p', 'k', 'g']);
    assert("corepack"@ =~= seq!['c', 'o', 'r', 'e', 'p', 'a', 'c', 'k']);
    assert(".cmd"@ =~= seq!['.', 'c', 'm', 'd']);
}

/// On Windows, package managers such as npm are installed as `.cmd` shims
/// that `CreateProcess` does not find by bare name: return the shim name for
/// a bare launcher name, or `None` to run the program as given.
pub fn maybe_windows_cmd_shim(program: &str) -> (r: Option<String>)
    ensures
        r matches Some(s) ==> s@ == program@ + ".cmd"@ && needs_cmd_shim(
            text::ascii_lowercase(program@),
        ),
        !needs_cmd_shim(text::ascii_lowercase(program@)) ==> r is None,
        needs_cmd_shim(text::ascii_lowercase(program@)) ==> (r matches Some(s) && s@ == program@
            + ".cmd"@),
{
    let count = path_component_count(program);
    let ext = path_has_extension(program);
    proof {
        if needs_cmd_shim(text::ascii_lowercase(program@)) {
            lemma_launcher_is_plain_word(program@);
        }
    }
    cmd_shim_for(program, count, ext)
}

// ---------------------------------------------------------------------------
// Environment of child processes
// ---------------------------------------------------------------------------

/// The environment variables to set on a command, in the order they are set;
/// a later setting of the same key overrides an earlier one.
pub struct CommandEnv {
    pub vars: Vec<(String, String)>,
}

impl View for CommandEnv {
    type V = Seq<(Seq<char>, Seq<char>)>;

    open spec fn view(&self) -> Seq<(Seq<char>, Seq<char>)> {
        self.vars@.map_values(|p: (String, String)| (p.0@, p.1@))
    }
}

/// The value each key ends up with after applying the settings in order.
pub open spec fn effective_env(settings: Seq<(Seq<char>, Seq<char>)>) -> Map<Seq<char>, Seq<char>>
    decreases settings.len(),
{
    if settings.len() == 0 {
        Map::empty()
    } else {
        effective_env(settings.drop_last()).insert(settings.last().0, settings.last().1)
    }
}

impl CommandEnv {
    pub fn new() -> (r: CommandEnv)
        ensures
            r@ == Seq::<(Seq<char>, Seq<char>)>::empty(),
    {
        let r = CommandEnv { vars: Vec::new() };
        assert(r@ =~= Seq::<(Seq<char>, Seq<char>)>::empty());
        r
    }

    /// Set `key` to `val`, as `Command::env` does.
    pub fn env(&mut self, key: &str, val: &str)
        ensures
            final(self)@ == old(self)@.push((key@, val@)),
    {
        let ghost before = self@;
        self.vars.push((String::from_str(key), String::from_str(val)));
        assert(self@ =~= before.push((key@, val@)));
    }
}

/// The variables that ask common runtimes for UTF-8 output.
pub open spec fn utf8_env_settings() -> Seq<(Seq<char>, Seq<char>)> {
    seq![
        ("PYTHONUTF8"@, "1"@),
        ("PYTHONIOENCODING"@, "utf-8"@),
        ("LANG"@, "C.UTF-8"@),
        ("LC_ALL"@, "C.UTF-8"@),
    ]
}

/// Hint child processes to produce UTF-8 output on Windows.
///
/// Sets environment variables recognised by common runtimes (Python, MSYS2/Git
/// Bash, .NET console apps).  Not all programs honour these, but they cover the
/// most frequent sources of mojibake in practice.
pub fn set_utf8_env(command: &mut CommandEnv)
    ensures
        final(command)@ == old(command)@ + utf8_env_settings(),
        effective_env(final(command)@) == effective_env(old(command)@).insert(
            "PYTHONUTF8"@,
            "1"@,
        ).insert("PYTHONIOENCODING"@, "utf-8"@).insert("LANG"@, "C.UTF-8"@).insert(
            "LC_ALL"@,
            "C.UTF-8"@,
        ),
{
    let ghost before = command@;
    // Python
    command.env("PYTHONUTF8", "1");
    command.env("PYTHONIOENCODING", "utf-8");
    // MSYS2 / Git-for-Windows / POSIX-layer tools
    command.env("LANG", "C.UTF-8");
    command.env("LC_ALL", "C.UTF-8");
    let ghost s = utf8_env_settings();
    assert(command@ =~= before + s);
    proof {
        let s1 = before.push(s[0]);
        let s2 = s1.push(s[1]);
        let s3 = s2.push(s[2]);
        assert(command@ =~= s3.push(s[3]));
        assert(s3.push(s[3]).drop_last() =~= s3);
        assert(s3.drop_last() =~= s2);
        assert(s2.drop_last() =~= s1);
        assert(s1.drop_last() =~= before);
        assert(s1.last() == s[0] && s2.last() == s[1] && s3.last() == s[2]);
        assert(s3.push(s[3]).last() == s[3]);
        let e0 = effective_env(before);
        assert(effective_env(s1) == e0.insert(s[0].0, s[0].1));
        assert(effective_env(s2) == effective_env(s1).insert(s[1].0, s[1].1));
        assert(effective_env(s3) == effective_env(s2).insert(s[2].0, s[2].1));
        assert(effective_env(s3.push(s[3])) == effective_env(s3).insert(s[3].0, s[3].1));
    }
}

// ---------------------------------------------------------------------------
// PATH values
// ---------------------------------------------------------------------------

/// Whether `entry` is one of the `sep`-separated entries of a `PATH` value.
pub fn path_list_contains(path_value: &str, sep: char, entry: &str) -> (r: bool)
    ensures
        r == text::split_on(path_value@, sep).contains(entry@),
{
    let parts = split_str(path_value, sep);
    let n = parts.len();
    let mut i: usize = 0;
    while i < n
        invariant
            i <= n,
            n == parts@.len(),
            text::views(parts@) == text::split_on(path_value@, sep),
            forall|k: int| 0 <= k < i ==> text::split_on(path_value@, sep)[k] != entry@,
        decreases n - i,
    {
        assert(text::views(parts@)[i as int] == parts@[i as int]@);
        if str_eq(parts[i].as_str(), entry) {
            assert(text::split_on(path_value@, sep)[i as int] == entry@);
            return true;
        }
        i = i + 1;
    }
    false
}

/// The Homebrew prefixes whose directories belong on `PATH`: the one that
/// `HOMEBREW_PREFIX` names when it is set, used instead of the well-known
/// defaults; otherwise Apple Silicon's `/opt/homebrew`, then Intel's
/// `/usr/local`.
pub fn homebrew_prefixes(env_prefix: Option<String>) -> (r: Vec<String>)
    ensures
        text::views(r@) == (match env_prefix {
            Some(p) => seq![p@],
            None => seq!["/opt/homebrew"@, "/usr/local"@],
        }),
{
    let mut r: Vec<String> = Vec::new();
    match env_prefix {
        Some(p) => {
            r.push(p);
        },
        None => {
            r.push(String::from_str("/opt/homebrew"));
            r.push(String::from_str("/usr/local"));
        },
    }
    assert(text::views(r@) =~= (match env_prefix {
        Some(p) => seq![p@],
        None => seq!["/opt/homebrew"@, "/usr/local"@],
    }));
    r
}

/// The subdirectories of a Homebrew prefix that hold executables.
pub fn homebrew_subdirs() -> (r: Vec<String>)
    ensures
        text::views(r@) == seq!["bin"@, "sbin"@],
{
    let mut r: Vec<String> = Vec::new();
    r.push(String::from_str("bin"));
    r.push(String::from_str("sbin"));
    assert(text::views(r@) =~= seq!["bin"@, "sbin"@]);
    r
}

/// The indices below `n` of the candidate directories to prepend: those that
/// exist and are not already entries of the `PATH` value, in order.
pub open spec fn prepend_indices(
    path_entries: Seq<Seq<char>>,
    dirs: Seq<Seq<char>>,
    is_dir: Seq<bool>,
    n: int,
) -> Seq<usize>
    decreases n,
{
    if n <= 0 {
        Seq::<usize>::empty()
    } else {
        let prev = prepend_indices(path_entries, dirs, is_dir, n - 1);
        if is_dir[n - 1] && !path_entries.contains(dirs[n - 1]) {
            prev.push((n - 1) as usize)
        } else {
            prev
        }
    }
}

/// Which candidate directories to prepend to `PATH`, given the value that
/// `PATH` had before any was prepended and which candidates are directories.
pub fn dirs_to_prepend(current_path: &str, sep: char, dirs: &Vec<String>, is_dir: &Vec<bool>) -> (r:
    Vec<usize>)
    requires
        dirs@.len() == is_dir@.len(),
    ensures
        r@ == prepend_indices(
            text::split_on(current_path@, sep),
            text::views(dirs@),
            is_dir@,
            dirs@.len() as int,
        ),
{
    let n = dirs.len();
    let mut r: Vec<usize> = Vec::new();
    let mut i: usize = 0;
    while i < n
        invariant
            i <= n,
            n == dirs@.len(),
            n == is_dir@.len(),
            r@ == prepend_indices(
                text::split_on(current_path@, sep),
                text::views(dirs@),
                is_dir@,
                i as int,
            ),
        decreases n - i,
    {
        assert(text::views(dirs@)[i as int] == dirs@[i as int]@);
        if is_dir[i] && !path_list_contains(current_path, sep, dirs[i].as_str()) {
            r.push(i);
        }
        i = i + 1;
    }
    r
}

// ---------------------------------------------------------------------------
// Repairing PATH twice changes nothing
// ---------------------------------------------------------------------------

/// The `PATH` value after prepending `dir`: `dir`, the separator, then the
/// value before.
pub open spec fn prepend_entry(dir: Seq<char>, sep: char, current: Seq<char>) -> Seq<char> {
    dir + seq![sep] + current
}

/// The `PATH` value after prepending the chosen candidates, in order.
pub open spec fn prepend_all(
    current: Seq<char>,
    sep: char,
    dirs: Seq<Seq<char>>,
    chosen: Seq<usize>,
) -> Seq<char>
    decreases chosen.len(),
{
    if chosen.len() == 0 {
        current
    } else {
        prepend_entry(
            dirs[chosen.last() as int],
            sep,
            prepend_all(current, sep, dirs, chosen.drop_last()),
        )
    }
}

/// After a directory without the separator is prepended, it is an entry of
/// `PATH`, in front of the entries that were there; so a second repair that
/// checks for it adds nothing.
pub proof fn law_prepended_dir_is_entry(dir: Seq<char>, sep: char, current: Seq<char>)
    requires
        !dir.contains(sep),
    ensures
        text::split_on(prepend_entry(dir, sep, current), sep) == seq![dir] + text::split_on(
            current,
            sep,
        ),
        text::split_on(prepend_entry(dir, sep, current), sep).contains(dir),
{
    text::lemma_split_concat(dir, current, sep);
    text::lemma_split_plain(dir, sep);
    assert((seq![dir] + text::split_on(current, sep))[0] == dir);
}

proof fn lemma_prepend_indices_members(
    entries: Seq<Seq<char>>,
    dirs: Seq<Seq<char>>,
    is_dir: Seq<bool>,
    n: int,
)
    requires
        0 <= n <= dirs.len(),
        dirs.len() == is_dir.len(),
    ensures
        forall|i: int|
            0 <= i < n && is_dir[i] && !entries.contains(dirs[i]) ==> prepend_indices(
                entries,
                dirs,
                is_dir,
                n,
            ).contains(i as usize),
        forall|k: int|
            0 <= k < prepend_indices(entries, dirs, is_dir, n).len() ==> #[trigger] prepend_indices(
                entries,
                dirs,
                is_dir,
                n,
            )[k] < n,
    decreases n,
{
    if n > 0 {
        lemma_prepend_indices_members(entries, dirs, is_dir, n - 1);
        let prev = prepend_indices(entries, dirs, is_dir, n - 1);
        let cur = prepend_indices(entries, dirs, is_dir, n);
        assert forall|i: int|
            0 <= i < n && is_dir[i] && !entries.contains(dirs[i]) implies cur.contains(
            i as usize,
        ) by {
            if i < n - 1 {
                let k = choose|k: int| 0 <= k < prev.len() && prev[k] == i as usize;
                assert(cur[k] == prev[k]);
            } else {
                assert(cur[cur.len() - 1] == i as usize);
            }
        }
        assert forall|k: int| 0 <= k < cur.len() implies #[trigger] cur[k] < n by {
            if k < prev.len() {
                assert(cur[k] == prev[k]);
            }
        }
    }
}

proof fn lemma_prepend_all_entries(
    current: Seq<char>,
    sep: char,
    dirs: Seq<Seq<char>>,
    chosen: Seq<usize>,
)
    requires
        forall|k: int| 0 <= k < chosen.len() ==> #[trigger] chosen[k] < dirs.len(),
        forall|i: int| 0 <= i < dirs.len() ==> !(#[trigger] dirs[i]).contains(sep),
    ensures
        forall|e: Seq<char>|
            text::split_on(current, sep).contains(e) ==> #[trigger] text::split_on(
                prepend_all(current, sep, dirs, chosen),
                sep,
            ).contains(e),
        forall|k: int|
            0 <= k < chosen.len() ==> text::split_on(
                prepend_all(current, sep, dirs, chosen),
                sep,
            ).contains(dirs[#[trigger] chosen[k] as int]),
    decreases chosen.len(),
{
    if chosen.len() > 0 {
        let init = chosen.drop_last();
        lemma_prepend_all_entries(current, sep, dirs, init);
        let prev = prepend_all(current, sep, dirs, init);
        let d = dirs[chosen.last() as int];
        assert(chosen[chosen.len() - 1] < dirs.len());
        law_prepended_dir_is_entry(d, sep, prev);
        let ps = text::split_on(prev, sep);
        let ns = text::split_on(prepend_all(current, sep, dirs, chosen), sep);
        assert(ns == seq![d] + ps);
        assert forall|e: Seq<char>| text::split_on(current, sep).contains(e) implies #[trigger] ns.contains(e) by {
            assert(ps.contains(e));
            let k = choose|k: int| 0 <= k < ps.len() && ps[k] == e;
            assert(ns[k + 1] == e);
        }
        assert forall|k: int| 0 <= k < chosen.len() implies ns.contains(dirs[#[trigger] chosen[k] as int]) by {
            if k < chosen.len() - 1 {
                assert(init[k] == chosen[k]);
                let e = dirs[init[k] as int];
                assert(ps.contains(e));
                let j = choose|j: int| 0 <= j < ps.len() && ps[j] == e;
                assert(ns[j + 1] == e);
            } else {
                assert(ns[0] == d);
            }
        }
    }
}

proof fn lemma_prepend_indices_empty(
    entries: Seq<Seq<char>>,
    dirs: Seq<Seq<char>>,
    is_dir: Seq<bool>,
    n: int,
)
    requires
        0 <= n <= dirs.len(),
        dirs.len() == is_dir.len(),
        forall|i: int| 0 <= i < n && #[trigger] is_dir[i] ==> entries.contains(dirs[i]),
    ensures
        prepend_indices(entries, dirs, is_dir, n) == Seq::<usize>::empty(),
    decreases n,
{
    if n > 0 {
        lemma_prepend_indices_empty(entries, dirs, is_dir, n - 1);
        if is_dir[n - 1] {
            assert(entries.contains(dirs[n - 1]));
        }
    }
}

/// Repairing `PATH` a second time, with the same candidates found on disk,
/// prepends nothing: every candidate chosen the first time, and every one
/// already on `PATH`, is then an entry of `PATH`.
pub proof fn law_path_repair_idempotent(
    current: Seq<char>,
    sep: char,
    dirs: Seq<Seq<char>>,
    is_dir: Seq<bool>,
)
    requires
        dirs.len() == is_dir.len(),
        dirs.len() <= usize::MAX,
        forall|i: int| 0 <= i < dirs.len() ==> !(#[trigger] dirs[i]).contains(sep),
    ensures
        ({
            let n = dirs.len() as int;
            let chosen = prepend_indices(text::split_on(current, sep), dirs, is_dir, n);
            let repaired = prepend_all(current, sep, dirs, chosen);
            prepend_indices(text::split_on(repaired, sep), dirs, is_dir, n) == Seq::<usize>::empty()
        }),
{
    let n = dirs.len() as int;
    let entries = text::split_on(current, sep);
    let chosen = prepend_indices(entries, dirs, is_dir, n);
    let repaired = prepend_all(current, sep, dirs, chosen);
    lemma_prepend_indices_members(entries, dirs, is_dir, n);
    lemma_prepend_all_entries(current, sep, dirs, chosen);
    let rs = text::split_on(repaired, sep);
    assert forall|i: int| 0 <= i < n && #[trigger] is_dir[i] implies rs.contains(dirs[i]) by {
        if entries.contains(dirs[i]) {
            assert(text::split_on(prepend_all(current, sep, dirs, chosen), sep).contains(dirs[i]));
        } else {
            assert(chosen.contains(i as usize));
            let k = choose|k: int| 0 <= k < chosen.len() && chosen[k] == i as usize;
            assert(rs.contains(dirs[chosen[k] as int]));
            assert((chosen[k] as int) == i);
        }
    }
    lemma_prepend_indices_empty(rs, dirs, is_dir, n);
}

} // verus!
