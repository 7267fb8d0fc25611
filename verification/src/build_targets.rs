//! The release builds: the supported targets, which of them the command line
//! selects, the cargo command that builds one, and the names of its artifacts.

use vstd::prelude::*;
use crate::text::{
    chars_of, concat_chars, contains_chars, find_char, first_index_of, has_infix, has_prefix, lower,
    split_chars, split_on, starts_with_chars,
    string_of, sub_chars, lower_case,
};

verus! {

broadcast use vstd::string::group_string_axioms;

/// One platform that the release is built for.
#[derive(Clone, Copy)]
pub struct TargetConfig {
    /// Name used on the command line to pick the target (`windows-x86_64`).
    pub alias: &'static str,
    /// Directory under `dist/` (`windows/x86_64`).
    pub os_dir: &'static str,
    /// Target triple handed to cargo (`x86_64-pc-windows-msvc`).
    pub triple: &'static str,
    /// Extension of the executable (`exe`, or empty).
    pub exe_ext: &'static str,
    /// Prefix of dynamic libraries (`lib`, or empty).
    pub lib_prefix: &'static str,
    /// Extension of dynamic libraries (`dll`, `dylib`, `so`).
    pub lib_suffix: &'static str,
}

/// `t` has exactly these fields.
pub open spec fn target_is(
    t: TargetConfig,
    alias: Seq<char>,
    os_dir: Seq<char>,
    triple: Seq<char>,
    exe_ext: Seq<char>,
    lib_prefix: Seq<char>,
    lib_suffix: Seq<char>,
) -> bool {
    &&& t.alias@ == alias
    &&& t.os_dir@ == os_dir
    &&& t.triple@ == triple
    &&& t.exe_ext@ == exe_ext
    &&& t.lib_prefix@ == lib_prefix
    &&& t.lib_suffix@ == lib_suffix
}

/// The macOS SDK that builds for Apple targets use.
pub const MACOS_SDK_PATH: &'static str = "C:\\sdks\\MacOSX11.3.sdk";

/// Every supported target, in build order.
pub fn all_targets() -> (r: Vec<TargetConfig>)
    ensures
        r@.len() == 9,
        target_is(r@[0], "windows-x86_64"@, "windows/x86_64"@, "x86_64-pc-windows-msvc"@, "exe"@, ""@, "dll"@),
        target_is(r@[1], "windows-x86"@, "windows/x86"@, "i686-pc-windows-msvc"@, "exe"@, ""@, "dll"@),
        target_is(r@[2], "windows-arm64"@, "windows/arm64"@, "aarch64-pc-windows-msvc"@, "exe"@, ""@, "dll"@),
        target_is(r@[3], "darwin-x86_64"@, "darwin/x86_64"@, "x86_64-apple-darwin"@, ""@, "lib"@, "dylib"@),
        target_is(r@[4], "darwin-arm64"@, "darwin/arm64"@, "aarch64-apple-darwin"@, ""@, "lib"@, "dylib"@),
        target_is(r@[5], "linux-x86_64"@, "linux/x86_64"@, "x86_64-unknown-linux-gnu"@, ""@, "lib"@, "so"@),
        target_is(r@[6], "linux-x86"@, "linux/x86"@, "i686-unknown-linux-gnu"@, ""@, "lib"@, "so"@),
        target_is(r@[7], "linux-arm64"@, "linux/arm64"@, "aarch64-unknown-linux-gnu"@, ""@, "lib"@, "so"@),
        target_is(r@[8], "linux-arm32"@, "linux/arm32"@, "armv7-unknown-linux-gnueabihf"@, ""@, "lib"@, "so"@),
{
    vec![
        TargetConfig {
            alias: "windows-x86_64",
            os_dir: "windows/x86_64",
            triple: "x86_64-pc-windows-msvc",
            exe_ext: "exe",
            lib_prefix: "",
            lib_suffix: "dll",
        },
        TargetConfig {
            alias: "windows-x86",
            os_dir: "windows/x86",
            triple: "i686-pc-windows-msvc",
            exe_ext: "exe",
            lib_prefix: "",
            lib_suffix: "dll",
        },
        TargetConfig {
            alias: "windows-arm64",
            os_dir: "windows/arm64",
            triple: "aarch64-pc-windows-msvc",
            exe_ext: "exe",
            lib_prefix: "",
            lib_suffix: "dll",
        },
        TargetConfig {
            alias: "darwin-x86_64",
            os_dir: "darwin/x86_64",
            triple: "x86_64-apple-darwin",
            exe_ext: "",
            lib_prefix: "lib",
            lib_suffix: "dylib",
        },
        TargetConfig {
            alias: "darwin-arm64",
            os_dir: "darwin/arm64",
            triple: "aarch64-apple-darwin",
            exe_ext: "",
            lib_prefix: "lib",
            lib_suffix: "dylib",
        },
        TargetConfig {
            alias: "linux-x86_64",
            os_dir: "linux/x86_64",
            triple: "x86_64-unknown-linux-gnu",
            exe_ext: "",
            lib_prefix: "lib",
            lib_suffix: "so",
        },
        TargetConfig {
            alias: "linux-x86",
            os_dir: "linux/x86",
            triple: "i686-unknown-linux-gnu",
            exe_ext: "",
            lib_prefix: "lib",
            lib_suffix: "so",
        },
        TargetConfig {
            alias: "linux-arm64",
            os_dir: "linux/arm64",
            triple: "aarch64-unknown-linux-gnu",
            exe_ext: "",
            lib_prefix: "lib",
            lib_suffix: "so",
        },
        TargetConfig {
            alias: "linux-arm32",
            os_dir: "linux/arm32",
            triple: "armv7-unknown-linux-gnueabihf",
            exe_ext: "",
            lib_prefix: "lib",
            lib_suffix: "so",
        },
    ]
}

/// A command-line argument that excludes targets: it starts with `!` or `^`.
pub open spec fn is_exclusion(arg: Seq<char>) -> bool {
    arg.len() > 0 && (arg[0] == '!' || arg[0] == '^')
}

/// The exclusion patterns of the arguments: each excluding argument without
/// its first character, lower-cased, in argument order.
pub open spec fn exclude_patterns(args: Seq<Seq<char>>) -> Seq<Seq<char>>
    decreases args.len(),
{
    if args.len() == 0 {
        Seq::empty()
    } else if is_exclusion(args.last()) {
        exclude_patterns(args.drop_last()).push(lower(args.last().drop_first()))
    } else {
        exclude_patterns(args.drop_last())
    }
}

/// The inclusion patterns of the arguments: every other argument, lower-cased,
/// in argument order.
pub open spec fn include_patterns(args: Seq<Seq<char>>) -> Seq<Seq<char>>
    decreases args.len(),
{
    if args.len() == 0 {
        Seq::empty()
    } else if is_exclusion(args.last()) {
        include_patterns(args.drop_last())
    } else {
        include_patterns(args.drop_last()).push(lower(args.last()))
    }
}

/// The parts of the pattern, taken in order, begin the parts of the name from
/// position `j` on.
pub open spec fn parts_match_at(name_parts: Seq<Seq<char>>, pattern_parts: Seq<Seq<char>>, j: int) -> bool {
    &&& 0 <= j
    &&& j + pattern_parts.len() <= name_parts.len()
    &&& forall|t: int| 0 <= t < pattern_parts.len() ==> has_prefix(name_parts[j + t], #[trigger] pattern_parts[t])
}

/// A pattern matches a name when its `-`-separated parts begin, in order,
/// consecutive `-`-separated parts of the name: `win` matches `windows-x86_64`,
/// so does `win-x86_64`, and `arm` matches `linux-arm64`; `win` does not match
/// `darwin-arm64`.
pub open spec fn pattern_matches(name: Seq<char>, pattern: Seq<char>) -> bool {
    exists|j: int| parts_match_at(split_on(name, '-'), split_on(pattern, '-'), j)
}

/// Some pattern matches `name`.
pub open spec fn matches_any(name: Seq<char>, patterns: Seq<Seq<char>>) -> bool {
    exists|k: int| 0 <= k < patterns.len() && pattern_matches(name, #[trigger] patterns[k])
}

/// A target is built when no exclusion pattern matches its lower-cased alias
/// and, if there are inclusion patterns, one of them does.
pub open spec fn target_selected(alias: Seq<char>, excludes: Seq<Seq<char>>, includes: Seq<Seq<char>>) -> bool {
    passes_filter(lower(alias), excludes, includes)
}

/// A (lower-cased) name passes the filter: no exclusion pattern matches it
/// and, if there are inclusion patterns, one of them does.
pub open spec fn passes_filter(name: Seq<char>, excludes: Seq<Seq<char>>, includes: Seq<Seq<char>>) -> bool {
    !matches_any(name, excludes) && (includes.len() == 0 || matches_any(name, includes))
}

/// The targets that are built, in the order of `targets`.
pub open spec fn selected_targets(
    targets: Seq<TargetConfig>,
    excludes: Seq<Seq<char>>,
    includes: Seq<Seq<char>>,
) -> Seq<TargetConfig>
    decreases targets.len(),
{
    if targets.len() == 0 {
        Seq::empty()
    } else if target_selected(targets.last().alias@, excludes, includes) {
        selected_targets(targets.drop_last(), excludes, includes).push(targets.last())
    } else {
        selected_targets(targets.drop_last(), excludes, includes)
    }
}

/// The characters of each string.
pub open spec fn views(v: Seq<String>) -> Seq<Seq<char>> {
    v.map_values(|s: String| s@)
}

/// Splits the command-line arguments into exclusion and inclusion patterns.
pub fn filter_patterns(args: &Vec<String>) -> (r: (Vec<String>, Vec<String>))
    ensures
        views(r.0@) == exclude_patterns(views(args@)),
        views(r.1@) == include_patterns(views(args@)),
{
    let mut excludes: Vec<String> = Vec::new();
    let mut includes: Vec<String> = Vec::new();
    let n = args.len();
    for i in 0..n
        invariant
            n == args@.len(),
            views(excludes@) == exclude_patterns(views(args@).take(i as int)),
            views(includes@) == include_patterns(views(args@).take(i as int)),
    {
        let ghost before = views(args@).take(i as int);
        assert(views(args@).take(i + 1).drop_last() == before);
        assert(views(args@).take(i + 1).last() == args@[i as int]@);
        let a = chars_of(args[i].as_str());
        if a.len() > 0 && (a[0] == '!' || a[0] == '^') {
            let rest = string_of(&sub_chars(&a, 1, a.len()));
            assert(a@.subrange(1, a@.len() as int) == a@.drop_first());
            excludes.push(lower_case(rest.as_str()));
            assert(views(excludes@) =~= exclude_patterns(before).push(lower(args@[i as int]@.drop_first())));
        } else {
            includes.push(lower_case(args[i].as_str()));
            assert(views(includes@) =~= include_patterns(before).push(lower(args@[i as int]@)));
        }
    }
    assert(views(args@).take(n as int) == views(args@));
    (excludes, includes)
}

/// The pieces of `v` between `-`, as sequences.
fn dash_parts(v: &[char]) -> (r: Vec<Vec<char>>)
    ensures
        r@.map_values(|w: Vec<char>| w@) == split_on(v@, '-'),
{
    let r = split_chars(v, '-');
    assert(r@.map_values(|w: Vec<char>| w@) =~= split_on(v@, '-'));
    r
}

/// Whether the pattern parts begin the name parts from position `j` on.
fn parts_match_at_exec(name_parts: &Vec<Vec<char>>, pattern_parts: &Vec<Vec<char>>, j: usize) -> (r: bool)
    requires
        j + pattern_parts@.len() <= name_parts@.len(),
    ensures
        r == parts_match_at(
            name_parts@.map_values(|w: Vec<char>| w@),
            pattern_parts@.map_values(|w: Vec<char>| w@),
            j as int,
        ),
{
    let ghost np = name_parts@.map_values(|w: Vec<char>| w@);
    let ghost pp = pattern_parts@.map_values(|w: Vec<char>| w@);
    let k = pattern_parts.len();
    let nl = name_parts.len();
    for t in 0..k
        invariant
            k == pattern_parts@.len(),
            nl == name_parts@.len(),
            j + k <= name_parts@.len(),
            np == name_parts@.map_values(|w: Vec<char>| w@),
            pp == pattern_parts@.map_values(|w: Vec<char>| w@),
            forall|x: int| 0 <= x < t ==> has_prefix(np[j + x], #[trigger] pp[x]),
    {
        if !starts_with_chars(&name_parts[j + t], &pattern_parts[t]) {
            assert(!has_prefix(np[j + t], pp[t as int]));
            return false;
        }
    }
    true
}

/// Whether `pattern` matches `name` (see `pattern_matches`).
pub fn pattern_matches_exec(name: &[char], pattern: &[char]) -> (r: bool)
    ensures
        r == pattern_matches(name@, pattern@),
{
    let np = dash_parts(name);
    let pp = dash_parts(pattern);
    let ghost nps = split_on(name@, '-');
    let ghost pps = split_on(pattern@, '-');
    if pp.len() > np.len() {
        assert forall|j: int| !parts_match_at(nps, pps, j) by {}
        return false;
    }
    let last = np.len() - pp.len();
    let mut j: usize = 0;
    loop
        invariant
            pp@.len() <= np@.len(),
            last == np@.len() - pp@.len(),
            j <= last,
            nps == np@.map_values(|w: Vec<char>| w@),
            pps == pp@.map_values(|w: Vec<char>| w@),
            nps == split_on(name@, '-'),
            pps == split_on(pattern@, '-'),
            forall|x: int| 0 <= x < j ==> !#[trigger] parts_match_at(nps, pps, x),
        decreases last - j,
    {
        if parts_match_at_exec(&np, &pp, j) {
            assert(parts_match_at(nps, pps, j as int));
            return true;
        }
        if j == last {
            assert forall|x: int| !#[trigger] parts_match_at(nps, pps, x) by {
                if 0 <= x && x < j {
                } else if x > j {
                    assert(x + pps.len() > nps.len());
                }
            }
            return false;
        }
        j = j + 1;
    }
}

/// Whether some pattern matches `name`.
pub fn matches_any_pattern(name: &[char], patterns: &Vec<String>) -> (r: bool)
    ensures
        r == matches_any(name@, views(patterns@)),
{
    let n = patterns.len();
    for k in 0..n
        invariant
            n == patterns@.len(),
            forall|x: int| 0 <= x < k ==> !pattern_matches(name@, #[trigger] views(patterns@)[x]),
    {
        if pattern_matches_exec(name, &chars_of(patterns[k].as_str())) {
            assert(pattern_matches(name@, views(patterns@)[k as int]));
            return true;
        }
    }
    false
}

/// Whether the lower-cased alias `name` passes the filter given by the
/// exclusion and inclusion patterns.
pub fn passes(name: &str, excludes: &Vec<String>, includes: &Vec<String>) -> (r: bool)
    ensures
        r == passes_filter(name@, views(excludes@), views(includes@)),
{
    let n = chars_of(name);
    !matches_any_pattern(&n, excludes) && (includes.len() == 0 || matches_any_pattern(&n, includes))
}

/// The targets that the command-line arguments select, in the order of `targets`:
/// `!x` or `^x` excludes every target whose alias `x` matches, any other
/// argument includes the targets whose alias it matches, and with no
/// inclusion argument every target not excluded is built. A pattern matches
/// an alias when its `-`-separated parts begin consecutive parts of the alias
/// (`win` stands for the Windows targets, `!win` builds all others). Case is
/// ignored.
pub fn select_targets(targets: &Vec<TargetConfig>, args: &Vec<String>) -> (r: Vec<TargetConfig>)
    ensures
        r@ == selected_targets(targets@, exclude_patterns(views(args@)), include_patterns(views(args@))),
{
    let (excludes, includes) = filter_patterns(args);
    let ghost ex = exclude_patterns(views(args@));
    let ghost inc = include_patterns(views(args@));
    let mut r: Vec<TargetConfig> = Vec::new();
    let n = targets.len();
    for i in 0..n
        invariant
            n == targets@.len(),
            views(excludes@) == ex,
            views(includes@) == inc,
            r@ == selected_targets(targets@.take(i as int), ex, inc),
    {
        let t = targets[i];
        let name = lower_case(t.alias);
        let keep = passes(name.as_str(), &excludes, &includes);
        assert(targets@.take(i + 1).drop_last() == targets@.take(i as int));
        assert(targets@.take(i + 1).last() == t);
        if keep {
            r.push(t);
        }
    }
    assert(targets@.take(n as int) == targets@);
    r
}

/// The target is built with the MSVC toolchain.
pub open spec fn is_msvc(triple: Seq<char>) -> bool {
    has_infix(triple, "-msvc"@)
}

/// The target is an Apple one, which needs the macOS SDK.
pub open spec fn is_apple(triple: Seq<char>) -> bool {
    has_infix(triple, "apple-darwin"@)
}

/// The arguments of the cargo command that builds `triple`: `build` for MSVC
/// targets, `zigbuild` for the others.
pub open spec fn build_args(triple: Seq<char>) -> Seq<Seq<char>> {
    seq![
        if is_msvc(triple) { "build"@ } else { "zigbuild"@ },
        "--workspace"@,
        "--release"@,
        "--target"@,
        triple,
    ]
}

/// The environment of that command: zig as C and C++ compiler for non-MSVC
/// targets, then the SDK root for Apple targets.
pub open spec fn build_envs(triple: Seq<char>, sdk: Seq<char>) -> Seq<(Seq<char>, Seq<char>)> {
    (if is_msvc(triple) {
        Seq::empty()
    } else {
        seq![("CC"@, "zig cc -w"@), ("CXX"@, "zig c++ -w"@)]
    }) + (if is_apple(triple) {
        seq![("SDKROOT"@, sdk)]
    } else {
        Seq::empty()
    })
}

/// A command to run: program, arguments and environment variables to set.
pub struct BuildCommand {
    pub program: String,
    pub args: Vec<String>,
    pub envs: Vec<(String, String)>,
}

/// The names and values of environment variables.
pub open spec fn env_views(v: Seq<(String, String)>) -> Seq<(Seq<char>, Seq<char>)> {
    v.map_values(|e: (String, String)| (e.0@, e.1@))
}

/// The cargo command that builds the whole workspace in release mode for `target`.
pub fn build_command(target: &TargetConfig, macos_sdk_path: &str) -> (r: BuildCommand)
    ensures
        r.program@ == "cargo"@,
        views(r.args@) == build_args(target.triple@),
        env_views(r.envs@) == build_envs(target.triple@, macos_sdk_path@),
{
    let triple = chars_of(target.triple);
    let msvc = contains_chars(&triple, &chars_of("-msvc"));
    let apple = contains_chars(&triple, &chars_of("apple-darwin"));
    let first = if msvc { "build".to_string() } else { "zigbuild".to_string() };
    let args = vec![
        first,
        "--workspace".to_string(),
        "--release".to_string(),
        "--target".to_string(),
        target.triple.to_string(),
    ];
    let mut envs: Vec<(String, String)> = Vec::new();
    if !msvc {
        envs.push(("CC".to_string(), "zig cc -w".to_string()));
        envs.push(("CXX".to_string(), "zig c++ -w".to_string()));
    }
    if apple {
        envs.push(("SDKROOT".to_string(), macos_sdk_path.to_string()));
    }
    assert(views(args@) =~= build_args(target.triple@));
    assert(env_views(envs@) =~= build_envs(target.triple@, macos_sdk_path@));
    BuildCommand { program: "cargo".to_string(), args, envs }
}

/// The file name of the main executable: `main`, with `.` and the extension
/// when there is one.
pub open spec fn main_exe_name_of(exe_ext: Seq<char>) -> Seq<char> {
    if exe_ext.len() == 0 {
        "main"@
    } else {
        "main."@ + exe_ext
    }
}

/// The file name of the main executable for a target.
pub fn main_exe_name(exe_ext: &str) -> (r: String)
    ensures
        r@ == main_exe_name_of(exe_ext@),
{
    let e = chars_of(exe_ext);
    if e.len() == 0 {
        "main".to_string()
    } else {
        string_of(&concat_chars(&chars_of("main."), &e))
    }
}

/// The file name of the dynamic library built from the crate in `folder`:
/// prefix, folder name, `.`, extension (`libcore.so`, `core.dll`).
pub fn library_file_name(lib_prefix: &str, folder: &str, lib_suffix: &str) -> (r: String)
    ensures
        r@ == lib_prefix@ + folder@ + "."@ + lib_suffix@,
{
    let a = concat_chars(&chars_of(lib_prefix), &chars_of(folder));
    let b = concat_chars(&a, &chars_of("."));
    string_of(&concat_chars(&b, &chars_of(lib_suffix)))
}

/// The part of a triple before its first `.`: the directory name cargo gives
/// the target's build output.
pub open spec fn triple_base_of(triple: Seq<char>) -> Seq<char> {
    match first_index_of(triple, '.') {
        Some(i) => triple.take(i),
        None => triple,
    }
}

/// The directory name of a target's build output under `target/`.
pub fn triple_base(triple: &str) -> (r: String)
    ensures
        r@ == triple_base_of(triple@),
{
    let t = chars_of(triple);
    match find_char(&t, '.') {
        Some(i) => string_of(&sub_chars(&t, 0, i)),
        None => triple.to_string(),
    }
}

/// The selection keeps exactly the targets that pass the filter, and keeps
/// them in order: every kept target passes and is one of the targets, every
/// target that passes is kept, and no more are kept than there were.
pub proof fn lemma_selection_exact(
    targets: Seq<TargetConfig>,
    excludes: Seq<Seq<char>>,
    includes: Seq<Seq<char>>,
)
    ensures
        selected_targets(targets, excludes, includes).len() <= targets.len(),
        forall|j: int|
            #![trigger selected_targets(targets, excludes, includes)[j]]
            0 <= j < selected_targets(targets, excludes, includes).len() ==> target_selected(
                selected_targets(targets, excludes, includes)[j].alias@,
                excludes,
                includes,
            ) && targets.contains(selected_targets(targets, excludes, includes)[j]),
        forall|i: int|
            0 <= i < targets.len() && target_selected(#[trigger] targets[i].alias@, excludes, includes)
                ==> selected_targets(targets, excludes, includes).contains(targets[i]),
    decreases targets.len(),
{
    if targets.len() > 0 {
        let init = targets.drop_last();
        lemma_selection_exact(init, excludes, includes);
        let r0 = selected_targets(init, excludes, includes);
        let r = selected_targets(targets, excludes, includes);
        assert forall|j: int| #![trigger r[j]] 0 <= j < r.len() implies target_selected(
            r[j].alias@,
            excludes,
            includes,
        ) && targets.contains(r[j]) by {
            if j < r0.len() {
                assert(r[j] == r0[j]);
                assert(target_selected(r0[j].alias@, excludes, includes) && init.contains(r0[j]));
                let k = choose|k: int| 0 <= k < init.len() && init[k] == r0[j];
                assert(targets[k] == init[k]);
            } else {
                assert(r[j] == targets.last());
                assert(targets[targets.len() - 1] == targets.last());
            }
        }
        assert forall|i: int|
            0 <= i < targets.len() && target_selected(#[trigger] targets[i].alias@, excludes, includes)
            implies r.contains(targets[i]) by {
            if i < targets.len() - 1 {
                assert(init[i] == targets[i]);
                assert(target_selected(init[i].alias@, excludes, includes));
                assert(r0.contains(init[i]));
                let k = choose|k: int| 0 <= k < r0.len() && r0[k] == init[i];
                assert(r[k] == r0[k]);
            } else {
                assert(r[r.len() - 1] == targets[i]);
            }
        }
    }
}

/// With no command-line arguments every target is built, in order.
pub proof fn lemma_no_arguments_builds_all(targets: Seq<TargetConfig>)
    ensures
        selected_targets(
            targets,
            exclude_patterns(Seq::<Seq<char>>::empty()),
            include_patterns(Seq::<Seq<char>>::empty()),
        ) == targets,
    decreases targets.len(),
{
    let none = Seq::<Seq<char>>::empty();
    if targets.len() > 0 {
        lemma_no_arguments_builds_all(targets.drop_last());
        assert(!matches_any(lower(targets.last().alias@), exclude_patterns(none)));
        assert(targets.drop_last().push(targets.last()) == targets);
    }
}

/// A target whose alias holds an exclusion pattern is never built, whatever
/// the inclusion arguments say.
pub proof fn lemma_exclusion_wins(
    targets: Seq<TargetConfig>,
    excludes: Seq<Seq<char>>,
    includes: Seq<Seq<char>>,
    t: TargetConfig,
    k: int,
)
    requires
        0 <= k < excludes.len(),
        pattern_matches(lower(t.alias@), excludes[k]),
    ensures
        !selected_targets(targets, excludes, includes).contains(t),
{
    lemma_selection_exact(targets, excludes, includes);
    let r = selected_targets(targets, excludes, includes);
    if r.contains(t) {
        let j = choose|j: int| 0 <= j < r.len() && r[j] == t;
        assert(target_selected(r[j].alias@, excludes, includes));
    }
}

/// The build command for a triple: MSVC triples (those holding `-msvc`) are
/// built with `cargo build`, all others with `cargo zigbuild`; the last argument
/// is the triple. Non-MSVC builds get zig as C and C++ compiler, and every
/// triple holding `apple-darwin` gets the SDK as `SDKROOT`, as the last
/// variable; no other triple does.
pub proof fn lemma_build_command_shape(triple: Seq<char>, sdk: Seq<char>)
    ensures
        build_args(triple).len() == 5,
        build_args(triple)[0] == (if has_infix(triple, "-msvc"@) { "build"@ } else { "zigbuild"@ }),
        build_args(triple)[4] == triple,
        !has_infix(triple, "-msvc"@) ==> build_envs(triple, sdk).contains(("CC"@, "zig cc -w"@))
            && build_envs(triple, sdk).contains(("CXX"@, "zig c++ -w"@)),
        has_infix(triple, "apple-darwin"@) ==> build_envs(triple, sdk).len() > 0 && build_envs(
            triple,
            sdk,
        ).last() == ("SDKROOT"@, sdk) && build_envs(triple, sdk).contains(("SDKROOT"@, sdk)),
        !has_infix(triple, "apple-darwin"@) ==> forall|i: int|
            0 <= i < build_envs(triple, sdk).len() ==> (#[trigger] build_envs(triple, sdk)[i]).0
                != "SDKROOT"@,
{
    reveal_strlit("SDKROOT");
    reveal_strlit("CC");
    reveal_strlit("CXX");
    let e = build_envs(triple, sdk);
    let z = seq![("CC"@, "zig cc -w"@), ("CXX"@, "zig c++ -w"@)];
    if !has_infix(triple, "-msvc"@) {
        assert(e[0] == z[0]);
        assert(e[1] == z[1]);
    }
    if has_infix(triple, "apple-darwin"@) {
        assert(e[e.len() - 1] == ("SDKROOT"@, sdk));
    } else {
        assert forall|i: int| 0 <= i < e.len() implies (#[trigger] e[i]).0 != "SDKROOT"@ by {
            if !has_infix(triple, "-msvc"@) {
                assert(e == z);
                if i == 0 {
                    assert("CC"@.len() != "SDKROOT"@.len());
                } else {
                    assert("CXX"@.len() != "SDKROOT"@.len());
                }
            }
        }
    }
}

} // verus!
