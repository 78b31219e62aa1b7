use vstd::prelude::*;
use vstd::string::*;
use crate::build_path::{BuildPath, dot_dot, has_prefix, join_normalized, str_eq};

verus! {

/// Why a build step could not be planned.
#[derive(Clone, Copy, Debug, PartialEq, Eq, Structural)]
pub enum BuildError {
    /// The path names no file (it is empty or ends in `..`).
    NoFileName,
    /// A source file does not lie under the folder it was scanned from.
    NotUnderFolder,
    /// A patch file is not a `.diff` file under the patches folder.
    NoPatchTarget,
    /// The path has no parent folder.
    NoParent,
    /// The build profile is not known.
    MissingProfile,
    /// The target triple could not be parsed.
    InvalidTriple,
    /// The target architecture has no MSBuild platform.
    UnsupportedArchitecture,
    /// A Visual Studio instance reported by vswhere lacks a field.
    MissingInstanceField,
    /// vswhere reported no Visual Studio instance.
    NoVisualStudio,
}

/// Where a scanned file comes from, which decides what is done with it.
#[derive(Clone, Copy, Debug, PartialEq, Eq, Structural)]
pub enum FileSource {
    /// Copied into the build tree when it changed.
    StaticSource,
    /// A `.diff` applied to a file of the build tree.
    SourcePatches,
    /// Copied into the build tree when it changed.
    ExtraSource,
}

/// A name for what `str::to_lowercase` returns.
pub uninterp spec fn lower_of(s: Seq<char>) -> Seq<char>;

/// Relies on `str::to_lowercase`: the lower-case form of `s`, which depends
/// on its characters alone.
#[verifier::external_body]
fn lowercase(s: &str) -> (r: String)
    ensures
        r@ == lower_of(s@),
{
    s.to_lowercase()
}

/// The last component of `p`, when it names a file.
pub open spec fn file_name_of(p: Seq<Seq<char>>) -> Option<Seq<char>> {
    if p.len() == 0 || p.last() == dot_dot() { None } else { Some(p.last()) }
}

/// Folder names that the scan skips, in lower case.
pub open spec fn is_ignored_name_spec(lowered: Seq<char>) -> bool {
    lowered == ".vs"@ || lowered == ".git"@
}

/// Whether the lower-case file name `lowered` is one the scan skips.
pub fn is_ignored_name(lowered: &str) -> (r: bool)
    ensures
        r == is_ignored_name_spec(lowered@),
{
    str_eq(lowered, ".vs") || str_eq(lowered, ".git")
}

/// Whether the scan skips `path`: its file name, in lower case, is one of
/// the ignored names. A path without a file name is an error.
pub fn is_ignored_path(path: &BuildPath) -> (r: Result<bool, BuildError>)
    ensures
        match file_name_of(path@) {
            None => r == Err::<bool, BuildError>(BuildError::NoFileName),
            Some(n) => r == Ok::<bool, BuildError>(is_ignored_name_spec(lower_of(n))),
        },
{
    match path.file_name() {
        None => Err(BuildError::NoFileName),
        Some(name) => {
            let lowered = lowercase(name);
            Ok(is_ignored_name(lowered.as_str()))
        },
    }
}

/// The path of the Restyle checkout, relative to the crate folder.
pub open spec fn restyle_root() -> Seq<Seq<char>> {
    seq![dot_dot(), "restyle"@]
}

fn restyle_relative(leaf: Option<&str>) -> (r: BuildPath)
    ensures
        leaf is None ==> r@ == restyle_root(),
        leaf matches Some(l) ==> r@ == restyle_root().push(l@),
{
    proof {
        reveal_strlit("..");
        assert(".."@ =~= dot_dot());
    }
    let p = BuildPath::new().join("..").join("restyle");
    assert(p@ =~= restyle_root());
    match leaf {
        None => p,
        Some(l) => p.join(l),
    }
}

/// The Restyle checkout as an absolute folder, from the crate folder
/// `current_dir`.
pub fn get_restyle_folder(current_dir: &BuildPath) -> (r: BuildPath)
    ensures
        r@ == join_normalized(current_dir@, restyle_root()),
{
    current_dir.join_normalized(&restyle_relative(None))
}

/// The folder of the checkout that holds patch files, from the crate folder.
pub fn get_patches_folder(current_dir: &BuildPath) -> (r: BuildPath)
    ensures
        r@ == join_normalized(current_dir@, restyle_root().push("srcpatches"@)),
{
    current_dir.join_normalized(&restyle_relative(Some("srcpatches")))
}

/// The four folders that are scanned, in order, each with its source kind:
/// the stub, the main sources, the patches and the extensions.
pub fn scan_roots(current_dir: &BuildPath) -> (r: Vec<(BuildPath, FileSource)>)
    ensures
        r@.len() == 4,
        r@[0].0@ == join_normalized(current_dir@, restyle_root().push("stub"@)),
        r@[0].1 == FileSource::StaticSource,
        r@[1].0@ == join_normalized(current_dir@, restyle_root().push("src"@)),
        r@[1].1 == FileSource::StaticSource,
        r@[2].0@ == join_normalized(current_dir@, restyle_root().push("srcpatches"@)),
        r@[2].1 == FileSource::SourcePatches,
        r@[3].0@ == join_normalized(current_dir@, restyle_root().push("kanayacpp"@)),
        r@[3].1 == FileSource::ExtraSource,
{
    let mut r: Vec<(BuildPath, FileSource)> = Vec::new();
    r.push((current_dir.join_normalized(&restyle_relative(Some("stub"))), FileSource::StaticSource));
    r.push((current_dir.join_normalized(&restyle_relative(Some("src"))), FileSource::StaticSource));
    r.push((current_dir.join_normalized(&restyle_relative(Some("srcpatches"))), FileSource::SourcePatches));
    r.push((current_dir.join_normalized(&restyle_relative(Some("kanayacpp"))), FileSource::ExtraSource));
    r
}

/// The folder under the build output folder `out_dir` where the Restyle
/// tree is assembled.
pub fn get_build_directory(out_dir: &BuildPath) -> (r: BuildPath)
    ensures
        r@ == out_dir@.push("restyle_build"@),
{
    out_dir.join("restyle_build")
}

/// The main sources' folder of the build tree.
pub fn get_build_src_path(out_dir: &BuildPath) -> (r: BuildPath)
    ensures
        r@ == out_dir@.push("restyle_build"@).push("src"@),
{
    get_build_directory(out_dir).join("src")
}

/// The extensions' folder of the build tree.
pub fn get_build_extra_path(out_dir: &BuildPath) -> (r: BuildPath)
    ensures
        r@ == out_dir@.push("restyle_build"@).push("kanayacpp"@),
{
    get_build_directory(out_dir).join("kanayacpp")
}

/// The stub's folder of the build tree.
pub fn get_build_stub_path(out_dir: &BuildPath) -> (r: BuildPath)
    ensures
        r@ == out_dir@.push("restyle_build"@).push("stub"@),
{
    get_build_directory(out_dir).join("stub")
}

/// The folder above the crate folder: the workspace root.
pub fn get_root_folder(current_dir: &BuildPath) -> (r: Result<BuildPath, BuildError>)
    ensures
        current_dir@.len() == 0 ==> r == Err::<BuildPath, BuildError>(BuildError::NoParent),
        current_dir@.len() > 0 ==> (r matches Ok(p) && p@ == current_dir@.drop_last()),
{
    match current_dir.parent() {
        None => Err(BuildError::NoParent),
        Some(p) => Ok(p),
    }
}

/// Whether `s` ends with `suffix`.
pub open spec fn ends_with(s: Seq<char>, suffix: Seq<char>) -> bool {
    suffix.len() <= s.len() && s.subrange(s.len() - suffix.len(), s.len() as int) == suffix
}

/// Where the patch `diff` applies, relative to the build folder: its path
/// under the patches folder, below `src`, without the `.diff` ending.
pub open spec fn patch_target_of(diff: Seq<Seq<char>>, patches: Seq<Seq<char>>) -> Option<Seq<Seq<char>>> {
    if !has_prefix(diff, patches) || diff.len() == patches.len() {
        None
    } else {
        let rest = diff.subrange(patches.len() as int, diff.len() as int);
        let last = rest.last();
        if !ends_with(last, ".diff"@) {
            None
        } else {
            Some(seq!["src"@] + rest.drop_last().push(last.subrange(0, last.len() - 5)))
        }
    }
}

/// The file of the build tree that the patch file `diff_file_path` applies
/// to, relative to the build folder; `None` when the path is not a `.diff`
/// file under the patches folder of the crate folder `current_dir`.
pub fn find_patch_file_target_relative_path(diff_file_path: &BuildPath, current_dir: &BuildPath)
    -> (r: Option<BuildPath>)
    ensures
        match patch_target_of(diff_file_path@, join_normalized(current_dir@, restyle_root().push("srcpatches"@))) {
            None => r is None,
            Some(t) => r matches Some(p) && p@ == t,
        },
{
    let patches = get_patches_folder(current_dir);
    patch_target_in(diff_file_path, &patches)
}

/// `find_patch_file_target_relative_path` for a given patches folder.
pub fn patch_target_in(diff_file_path: &BuildPath, patches: &BuildPath) -> (r: Option<BuildPath>)
    ensures
        match patch_target_of(diff_file_path@, patches@) {
            None => r is None,
            Some(t) => r matches Some(p) && p@ == t,
        },
{
    proof { reveal_strlit(".diff"); }
    let rest = match diff_file_path.strip_prefix(patches) {
        None => { return None; },
        Some(rest) => rest,
    };
    let n = rest.components.len();
    if n == 0 {
        return None;
    }
    let last = rest.components[n - 1].as_str();
    let len = last.unicode_len();
    if len < 5 || !str_eq(last.substring_char(len - 5, len), ".diff") {
        return None;
    }
    let stem = last.substring_char(0, len - 5);
    let mut out = BuildPath::new().join("src");
    let mut i: usize = 0;
    while i + 1 < n
        invariant
            n == rest@.len(),
            n >= 1,
            0 <= i < n,
            out@ == seq!["src"@] + rest@.subrange(0, i as int),
        decreases n - i,
    {
        out = out.join(rest.components[i].as_str());
        assert(seq!["src"@] + rest@.subrange(0, i + 1) =~= (seq!["src"@] + rest@.subrange(0, i as int)).push(rest@[i as int]));
        i = i + 1;
    }
    let out = out.join(stem);
    assert(rest@.drop_last() =~= rest@.subrange(0, i as int));
    assert(out@ =~= seq!["src"@] + rest@.drop_last().push(rest@.last().subrange(0, rest@.last().len() - 5)));
    Some(out)
}

/// The MSBuild configuration for a Cargo build profile: `Debug` for the
/// `debug` profile and `Release` for any other.
pub open spec fn configuration_for(profile: Seq<char>) -> Seq<char> {
    if profile == "debug"@ { "Debug"@ } else { "Release"@ }
}

/// The MSBuild configuration for the build profile `profile`, which is
/// `None` when the profile is not known.
pub fn get_msbuild_configuration(profile: Option<&str>) -> (r: Result<&'static str, BuildError>)
    ensures
        profile is None ==> r == Err::<&str, BuildError>(BuildError::MissingProfile),
        profile matches Some(p) ==> (r matches Ok(c) && c@ == configuration_for(p@)),
{
    match profile {
        None => Err(BuildError::MissingProfile),
        Some(p) => if str_eq(p, "debug") { Ok("Debug") } else { Ok("Release") },
    }
}

/// The processor architectures that the build tells apart.
#[derive(Clone, Copy, Debug, PartialEq, Eq, Structural)]
pub enum TargetArch {
    X86_64,
    X86_32,
    Aarch64,
    Other,
}

/// A name for the architecture that target-lexicon reads from a target
/// triple; `None` when the triple does not parse.
pub uninterp spec fn architecture_of(triple: Seq<char>) -> Option<TargetArch>;

/// Relies on target-lexicon's `Triple::from_str` and its `architecture`
/// field: the triple's architecture family, which depends on the text alone.
#[verifier::external_body]
fn parse_architecture(triple: &str) -> (r: Option<TargetArch>)
    ensures
        r == architecture_of(triple@),
{
    match <target_lexicon::Triple as std::str::FromStr>::from_str(triple) {
        Err(_) => None,
        Ok(t) => Some(match t.architecture {
            target_lexicon::Architecture::X86_64 => TargetArch::X86_64,
            target_lexicon::Architecture::X86_32(_) => TargetArch::X86_32,
            target_lexicon::Architecture::Aarch64(_) => TargetArch::Aarch64,
            _ => TargetArch::Other,
        }),
    }
}

/// The MSBuild platform name of an architecture, or why there is none.
pub open spec fn platform_for(arch: Option<TargetArch>) -> Result<Seq<char>, BuildError> {
    match arch {
        None => Err(BuildError::InvalidTriple),
        Some(TargetArch::X86_64) => Ok("x64"@),
        Some(TargetArch::X86_32) => Ok("Win32"@),
        Some(TargetArch::Aarch64) => Ok("ARM64"@),
        Some(TargetArch::Other) => Err(BuildError::UnsupportedArchitecture),
    }
}

/// The MSBuild platform name for a parsed architecture.
pub fn msbuild_platform_for(arch: Option<TargetArch>) -> (r: Result<&'static str, BuildError>)
    ensures
        match platform_for(arch) {
            Ok(p) => r matches Ok(x) && x@ == p,
            Err(e) => r == Err::<&str, BuildError>(e),
        },
{
    match arch {
        None => Err(BuildError::InvalidTriple),
        Some(TargetArch::X86_64) => Ok("x64"),
        Some(TargetArch::X86_32) => Ok("Win32"),
        Some(TargetArch::Aarch64) => Ok("ARM64"),
        Some(TargetArch::Other) => Err(BuildError::UnsupportedArchitecture),
    }
}

/// The MSBuild platform name for the target triple `target`.
pub fn get_msbuild_platform(target: &str) -> (r: Result<&'static str, BuildError>)
    ensures
        match platform_for(architecture_of(target@)) {
            Ok(p) => r matches Ok(x) && x@ == p,
            Err(e) => r == Err::<&str, BuildError>(e),
        },
{
    msbuild_platform_for(parse_architecture(target))
}

/// Where Cargo puts this build's artifacts: `target/<profile>` under the
/// workspace root, the parent of the crate folder `current_dir`.
pub fn get_rust_artifacts_path(current_dir: &BuildPath, profile: &str) -> (r: Result<BuildPath, BuildError>)
    ensures
        current_dir@.len() == 0 ==> r == Err::<BuildPath, BuildError>(BuildError::NoParent),
        current_dir@.len() > 0 ==> (r matches Ok(p) && p@ == current_dir@.drop_last().push("target"@).push(profile@)),
{
    let root = get_root_folder(current_dir)?;
    Ok(root.join("target").join(profile))
}

/// A file that MSBuild produced, and where it is moved to.
pub struct ArtifactMove {
    pub from: BuildPath,
    pub to: BuildPath,
}

/// One MSBuild run: the project folder it runs in and the artifacts that
/// are moved afterwards.
pub struct MsbuildStep {
    pub project: BuildPath,
    pub moves: Vec<ArtifactMove>,
}

/// Where MSBuild leaves a project's outputs: `<platform>/<configuration>`
/// under the project folder.
pub open spec fn artifacts_of(project: Seq<Seq<char>>, platform: Seq<char>, configuration: Seq<char>) -> Seq<Seq<char>> {
    project.push(platform).push(configuration)
}

/// The build of the Restyle stub executable: its project folder in the
/// build tree, and the executable and its symbols moved to `rust_artifacts`.
pub fn build_restyle_stub(out_dir: &BuildPath, rust_artifacts: &BuildPath, platform: &str, configuration: &str)
    -> (r: MsbuildStep)
    ensures
        r.project@ == out_dir@.push("restyle_build"@).push("stub"@),
        r.moves@.len() == 2,
        r.moves@[0].from@ == artifacts_of(r.project@, platform@, configuration@).push("restyle.exe"@),
        r.moves@[0].to@ == rust_artifacts@.push("restyle.exe"@),
        r.moves@[1].from@ == artifacts_of(r.project@, platform@, configuration@).push("restyle.pdb"@),
        r.moves@[1].to@ == rust_artifacts@.push("restyle.pdb"@),
{
    let project = get_build_stub_path(out_dir);
    let artifacts = project.join(platform).join(configuration);
    let mut moves: Vec<ArtifactMove> = Vec::new();
    moves.push(ArtifactMove { from: artifacts.join("restyle.exe"), to: rust_artifacts.join("restyle.exe") });
    moves.push(ArtifactMove { from: artifacts.join("restyle.pdb"), to: rust_artifacts.join("restyle.pdb") });
    MsbuildStep { project, moves }
}

/// The build of the Restyle library: its project folder in the build tree,
/// the import library moved to `out_dir` for linking, and the library and
/// its symbols moved to `rust_artifacts`.
pub fn build_restyle_vcxproj(out_dir: &BuildPath, rust_artifacts: &BuildPath, platform: &str, configuration: &str)
    -> (r: MsbuildStep)
    ensures
        r.project@ == out_dir@.push("restyle_build"@).push("src"@),
        r.moves@.len() == 3,
        r.moves@[0].from@ == artifacts_of(r.project@, platform@, configuration@).push("rstylkan.lib"@),
        r.moves@[0].to@ == out_dir@.push("rstylkan.lib"@),
        r.moves@[1].from@ == artifacts_of(r.project@, platform@, configuration@).push("rstylkan.dll"@),
        r.moves@[1].to@ == rust_artifacts@.push("rstylkan.dll"@),
        r.moves@[2].from@ == artifacts_of(r.project@, platform@, configuration@).push("rstylkan.pdb"@),
        r.moves@[2].to@ == rust_artifacts@.push("rstylkan.pdb"@),
{
    let project = get_build_src_path(out_dir);
    let artifacts = project.join(platform).join(configuration);
    let mut moves: Vec<ArtifactMove> = Vec::new();
    moves.push(ArtifactMove { from: artifacts.join("rstylkan.lib"), to: out_dir.join("rstylkan.lib") });
    moves.push(ArtifactMove { from: artifacts.join("rstylkan.dll"), to: rust_artifacts.join("rstylkan.dll") });
    moves.push(ArtifactMove { from: artifacts.join("rstylkan.pdb"), to: rust_artifacts.join("rstylkan.pdb") });
    MsbuildStep { project, moves }
}

/// Integer division rounded toward zero, as Rust's `/` on integers.
pub open spec fn div_toward_zero(a: int, b: int) -> int {
    if a >= 0 { a / b } else { -((-a) / b) }
}

/// The build number at the instant `now_secs` seconds and `now_nanos`
/// nanoseconds after the Unix epoch, counted from the instant `base_secs`:
/// the whole days between them, rounded toward zero.
pub open spec fn build_number_spec(now_secs: int, now_nanos: int, base_secs: int) -> int {
    div_toward_zero(div_toward_zero((now_secs - base_secs) * 1_000_000_000 + now_nanos, 1_000_000_000), 86400)
}

/// The build number at a given instant: whole days since `base_secs`.
pub fn build_number_at(now_secs: i64, now_nanos: u32, base_secs: i64) -> (r: i64)
    requires
        now_nanos < 2_000_000_000,
    ensures
        r as int == build_number_spec(now_secs as int, now_nanos as int, base_secs as int),
{
    let total: i128 = (now_secs as i128 - base_secs as i128) * 1_000_000_000 + now_nanos as i128;
    let secs: i128 = if total >= 0 { total / 1_000_000_000 } else { -((-total) / 1_000_000_000) };
    let days: i128 = if secs >= 0 { secs / 86400 } else { -((-secs) / 86400) };
    assert(-0x1_0000_0000_0000_0000 <= secs <= 0x1_0000_0000_0000_0000) by (nonlinear_arith)
        requires
            total == (now_secs as int - base_secs as int) * 1_000_000_000 + now_nanos as int,
            secs == div_toward_zero(total as int, 1_000_000_000),
            -0x1_0000_0000_0000_0000 <= now_secs as int - base_secs as int <= 0x1_0000_0000_0000_0000,
            0 <= now_nanos < 2_000_000_000;
    days as i64
}

/// Whether `year` is a leap year of the Gregorian calendar.
pub open spec fn is_leap_year(year: int) -> bool {
    (year % 4 == 0 && year % 100 != 0) || year % 400 == 0
}

/// The number of days of month `month` of `year`.
pub open spec fn days_in_month(year: int, month: int) -> int {
    if month == 2 {
        if is_leap_year(year) { 29 } else { 28 }
    } else if month == 4 || month == 6 || month == 9 || month == 11 {
        30
    } else {
        31
    }
}

/// The days from 1 January 1970 to the given date of the proleptic
/// Gregorian calendar, counted in 400-year eras that start on 1 March.
pub open spec fn days_from_civil(year: int, month: int, day: int) -> int {
    let y = if month <= 2 { year - 1 } else { year };
    let era = y / 400;
    let yoe = y - era * 400;
    let mp = if month > 2 { month - 3 } else { month + 9 };
    let doy = (153 * mp + 2) / 5 + day - 1;
    let doe = yoe * 365 + yoe / 4 - yoe / 100 + doy;
    era * 146097 + doe - 719468
}

/// A date that chrono can represent: a real day of the proleptic
/// Gregorian calendar, well inside chrono's range of years.
pub open spec fn valid_date(year: int, month: int, day: int) -> bool {
    1 <= month <= 12 && 1 <= day <= days_in_month(year, month) && -262_000 <= year <= 262_000
}

/// The timestamp of midnight UTC of a valid date; for another date,
/// whatever `other` is.
pub open spec fn midnight_if_valid(year: int, month: int, day: int, other: Option<i64>) -> Option<i64> {
    if valid_date(year, month, day) { Some((days_from_civil(year, month, day) * 86400) as i64) } else { other }
}

/// Relies on chrono's `TimeZone::with_ymd_and_hms` for `Utc` and on
/// `DateTime::timestamp`: for a valid date within chrono's range of years,
/// the seconds from the Unix epoch to midnight UTC of that date.
#[verifier::external_body]
fn utc_midnight(year: i32, month: u32, day: u32) -> (r: Option<i64>)
    ensures
        r == midnight_if_valid(year as int, month as int, day as int, r),
{
    match chrono::TimeZone::with_ymd_and_hms(&chrono::Utc, year, month, day, 0, 0, 0).single() {
        Some(t) => Some(t.timestamp()),
        None => None,
    }
}

/// std's clock reading, carried through opaquely.
#[verifier::external_type_specification]
#[verifier::external_body]
pub struct ExSystemTime(std::time::SystemTime);

/// Relies on std's `SystemTime::now`: the clock's current reading. Nothing
/// is promised of its value.
#[verifier::external_body]
fn clock_now() -> (r: std::time::SystemTime) {
    std::time::SystemTime::now()
}

/// Relies on std's `SystemTime::duration_since` with `UNIX_EPOCH`: the
/// time since the epoch as whole seconds and the nanoseconds past them
/// (`Duration::subsec_nanos` is under one billion); `None` for a reading
/// before the epoch, where chrono's `Utc::now` would panic.
#[verifier::external_body]
fn since_epoch(t: &std::time::SystemTime) -> (r: Option<(u64, u32)>)
    ensures
        r matches Some(d) ==> d.1 < 1_000_000_000,
{
    match t.duration_since(std::time::UNIX_EPOCH) {
        Ok(d) => Some((d.as_secs(), d.subsec_nanos())),
        Err(_) => None,
    }
}

/// The Unix timestamp of midnight UTC on 17 January 2025, the day
/// development began.
pub open spec fn build_epoch() -> int {
    days_from_civil(2025, 1, 17) * 86400
}

/// The build number now: the days since development began on 17 January
/// 2025. `None` when the clock reads before the Unix epoch or past the
/// range of `i64` seconds.
pub fn get_build_number() -> (r: Option<i64>)
    ensures
        build_epoch() == 1_737_072_000,
        r matches Some(n) ==> exists|secs: int, nanos: int| 0 <= secs && 0 <= nanos < 1_000_000_000
            && n as int == #[trigger] build_number_spec(secs, nanos, build_epoch()),
{
    assert(days_from_civil(2025, 1, 17) == 20105);
    let base = match utc_midnight(2025, 1, 17) {
        None => { return None; },
        Some(b) => b,
    };
    let (secs, nanos) = match since_epoch(&clock_now()) {
        None => { return None; },
        Some(d) => d,
    };
    if secs > i64::MAX as u64 {
        return None;
    }
    let n = build_number_at(secs as i64, nanos, base);
    let ghost (gs, gn) = (secs as int, nanos as int);
    assert(0 <= gs && 0 <= gn < 1_000_000_000 && n as int == build_number_spec(gs, gn, build_epoch()));
    Some(n)
}

/// A file found while scanning one of the roots, with the modification
/// times read from disk: its own, and its copy's in the build tree if that
/// exists. `nested` marks a file found below a subfolder of its root.
pub struct ScannedFile {
    pub path: BuildPath,
    pub source: FileSource,
    pub modified: u64,
    pub dest_modified: Option<u64>,
    pub nested: bool,
}

/// What is done with a scanned file.
#[derive(Clone, Copy, Debug, PartialEq, Eq, Structural)]
pub enum ActionKind {
    /// Copy `from` over `to`, keeping its modification time.
    Copy,
    /// Apply the patch `from` to the file `to`.
    Patch,
}

/// One step of the plan.
pub struct PlannedAction {
    pub kind: ActionKind,
    pub from: BuildPath,
    pub to: BuildPath,
}

/// The work a scan found: the steps in scan order, and whether MSBuild
/// has to run again.
pub struct ScanPlan {
    pub actions: Vec<PlannedAction>,
    pub needs_msbuild_rerun: bool,
}

/// The decision for one file at `path` under the Restyle folder `restyle`:
/// skip an ignored file, copy a changed source into the build folder
/// `build` at the same place, and apply a patch to its target there.
pub open spec fn file_plan(path: Seq<Seq<char>>, source: FileSource, modified: u64, dest_modified: Option<u64>,
    restyle: Seq<Seq<char>>, patches: Seq<Seq<char>>, build: Seq<Seq<char>>)
    -> Result<Option<(ActionKind, Seq<Seq<char>>, Seq<Seq<char>>)>, BuildError> {
    match file_name_of(path) {
        None => Err(BuildError::NoFileName),
        Some(n) => if is_ignored_name_spec(lower_of(n)) {
            Ok(None)
        } else if !has_prefix(path, restyle) {
            Err(BuildError::NotUnderFolder)
        } else if source == FileSource::SourcePatches {
            match patch_target_of(path, patches) {
                None => Err(BuildError::NoPatchTarget),
                Some(rel) => Ok(Some((ActionKind::Patch, path, build + rel))),
            }
        } else if dest_modified == Some(modified) {
            Ok(None)
        } else {
            Ok(Some((ActionKind::Copy, path, build + path.subrange(restyle.len() as int, path.len() as int))))
        },
    }
}

/// The plan for the first `k` files, or the first error among them. A
/// copy schedules a rebuild unless its file was found below a subfolder.
pub open spec fn plan_prefix(files: Seq<ScannedFile>, k: int, restyle: Seq<Seq<char>>, patches: Seq<Seq<char>>,
    build: Seq<Seq<char>>) -> Result<(Seq<(ActionKind, Seq<Seq<char>>, Seq<Seq<char>>)>, bool), BuildError>
    decreases k,
{
    if k <= 0 {
        Ok((Seq::empty(), false))
    } else {
        match plan_prefix(files, k - 1, restyle, patches, build) {
            Err(e) => Err(e),
            Ok((acts, rerun)) => {
                let f = files[k - 1];
                match file_plan(f.path@, f.source, f.modified, f.dest_modified, restyle, patches, build) {
                    Err(e) => Err(e),
                    Ok(None) => Ok((acts, rerun)),
                    Ok(Some(a)) => Ok((acts.push(a), rerun || (a.0 == ActionKind::Copy && !f.nested))),
                }
            },
        }
    }
}

proof fn lemma_plan_error_stays(files: Seq<ScannedFile>, k: int, m: int, restyle: Seq<Seq<char>>,
    patches: Seq<Seq<char>>, build: Seq<Seq<char>>)
    requires
        0 < k <= m,
        plan_prefix(files, k, restyle, patches, build) is Err,
    ensures
        plan_prefix(files, m, restyle, patches, build) == plan_prefix(files, k, restyle, patches, build),
    decreases m - k,
{
    if k < m {
        lemma_plan_error_stays(files, k, m - 1, restyle, patches, build);
    }
}

/// The view of a planned step.
pub open spec fn action_view(a: PlannedAction) -> (ActionKind, Seq<Seq<char>>, Seq<Seq<char>>) {
    (a.kind, a.from@, a.to@)
}

/// Where the file at `path` under the Restyle folder `restyle` is copied to
/// in the build folder `build`; `None` when it lies elsewhere.
pub fn destination_of(path: &BuildPath, restyle: &BuildPath, build: &BuildPath) -> (r: Option<BuildPath>)
    ensures
        has_prefix(path@, restyle@) ==> (r matches Some(d)
            && d@ == build@ + path@.subrange(restyle@.len() as int, path@.len() as int)),
        !has_prefix(path@, restyle@) ==> r is None,
{
    match path.strip_prefix(restyle) {
        None => None,
        Some(base) => Some(build.concat(&base)),
    }
}

/// Decides what to do with one scanned file.
pub fn handle_file(file: &ScannedFile, restyle: &BuildPath, patches: &BuildPath, build: &BuildPath)
    -> (r: Result<Option<PlannedAction>, BuildError>)
    ensures
        match file_plan(file.path@, file.source, file.modified, file.dest_modified, restyle@, patches@, build@) {
            Err(e) => r matches Err(e2) && e2 == e,
            Ok(None) => r matches Ok(None),
            Ok(Some(a)) => r matches Ok(Some(x)) && action_view(x) == a,
        },
{
    if is_ignored_path(&file.path)? {
        return Ok(None);
    }
    let base = match file.path.strip_prefix(restyle) {
        None => { return Err(BuildError::NotUnderFolder); },
        Some(b) => b,
    };
    match file.source {
        FileSource::SourcePatches => match patch_target_in(&file.path, patches) {
            None => Err(BuildError::NoPatchTarget),
            Some(rel) => Ok(Some(PlannedAction { kind: ActionKind::Patch, from: file.path.clone_path(), to: build.concat(&rel) })),
        },
        _ => {
            let up_to_date = match file.dest_modified {
                Some(d) => d == file.modified,
                None => false,
            };
            if up_to_date {
                Ok(None)
            } else {
                Ok(Some(PlannedAction { kind: ActionKind::Copy, from: file.path.clone_path(), to: build.concat(&base) }))
            }
        },
    }
}

/// Plans the assembly of the build tree from the files scanned under the
/// four roots (see `scan_roots`), for the crate folder `current_dir` and
/// the build output folder `out_dir`. Stops at the first file that cannot
/// be planned.
pub fn iterate_files(files: &Vec<ScannedFile>, current_dir: &BuildPath, out_dir: &BuildPath) -> (r: Result<ScanPlan, BuildError>)
    ensures
        match plan_prefix(files@, files@.len() as int, join_normalized(current_dir@, restyle_root()),
            join_normalized(current_dir@, restyle_root().push("srcpatches"@)), out_dir@.push("restyle_build"@)) {
            Err(e) => r matches Err(e2) && e2 == e,
            Ok((acts, rerun)) => r matches Ok(p) && p.needs_msbuild_rerun == rerun
                && p.actions@.map_values(|a: PlannedAction| action_view(a)) == acts,
        },
{
    let restyle = get_restyle_folder(current_dir);
    let patches = get_patches_folder(current_dir);
    let build = get_build_directory(out_dir);
    let mut actions: Vec<PlannedAction> = Vec::new();
    let mut rerun = false;
    let mut k: usize = 0;
    assert(actions@.map_values(|a: PlannedAction| action_view(a)) =~= Seq::empty());
    while k < files.len()
        invariant
            0 <= k <= files@.len(),
            restyle@ == join_normalized(current_dir@, restyle_root()),
            patches@ == join_normalized(current_dir@, restyle_root().push("srcpatches"@)),
            build@ == out_dir@.push("restyle_build"@),
            plan_prefix(files@, k as int, restyle@, patches@, build@)
                == Ok::<(Seq<(ActionKind, Seq<Seq<char>>, Seq<Seq<char>>)>, bool), BuildError>(
                (actions@.map_values(|a: PlannedAction| action_view(a)), rerun)),
        decreases files@.len() - k,
    {
        let f = &files[k];
        match handle_file(f, &restyle, &patches, &build) {
            Err(e) => {
                assert(*f == files@[k as int]);
                assert(plan_prefix(files@, (k + 1) as int, restyle@, patches@, build@) == Err::<(Seq<(ActionKind, Seq<Seq<char>>, Seq<Seq<char>>)>, bool), BuildError>(e));
                proof { lemma_plan_error_stays(files@, (k + 1) as int, files@.len() as int, restyle@, patches@, build@); }
                return Err(e);
            },
            Ok(None) => {},
            Ok(Some(a)) => {
                if a.kind == ActionKind::Copy && !f.nested {
                    rerun = true;
                }
                let ghost before = actions@;
                actions.push(a);
                proof {
                    assert(actions@.map_values(|a: PlannedAction| action_view(a))
                        =~= before.map_values(|a: PlannedAction| action_view(a)).push(action_view(a)));
                }
            },
        }
        k = k + 1;
    }
    Ok(ScanPlan { actions, needs_msbuild_rerun: rerun })
}

/// Where vswhere may be installed, in the order they are tried: the fixed
/// path of the Visual Studio installer, then Chocolatey's package folder.
/// Environment variables in them are still to be expanded.
pub fn vswhere_candidates() -> (r: Vec<&'static str>)
    ensures
        r@.len() == 2,
        r@[0]@ == "%ProgramFiles(x86)%\\Microsoft Visual Studio\\Installer\\vswhere.exe"@,
        r@[1]@ == "%ProgramData%\\chocolatey\\lib\\vswhere\\tools\\vswhere.exe"@,
{
    let mut r: Vec<&'static str> = Vec::new();
    r.push("%ProgramFiles(x86)%\\Microsoft Visual Studio\\Installer\\vswhere.exe");
    r.push("%ProgramData%\\chocolatey\\lib\\vswhere\\tools\\vswhere.exe");
    r
}

/// What vswhere reports of one Visual Studio instance: whether it has a
/// `catalog` object holding a `productLineVersion`, and its
/// `installationPath` when that is present as a string.
pub struct VswhereInstance {
    pub has_catalog: bool,
    pub has_product_line_version: bool,
    pub installation_path: Option<String>,
}

/// The installation folder that vswhere's report gives: that of the first
/// instance, which must carry all of its fields.
pub open spec fn installation_spec(instances: Seq<VswhereInstance>) -> Result<Seq<char>, BuildError> {
    if instances.len() == 0 {
        Err(BuildError::NoVisualStudio)
    } else {
        let i = instances[0];
        if !i.has_catalog || !i.has_product_line_version {
            Err(BuildError::MissingInstanceField)
        } else {
            match i.installation_path {
                None => Err(BuildError::MissingInstanceField),
                Some(p) => Ok(p@),
            }
        }
    }
}

/// The Visual Studio installation folder from vswhere's instances.
pub fn installation_path_of(instances: &Vec<VswhereInstance>) -> (r: Result<BuildPath, BuildError>)
    ensures
        match installation_spec(instances@) {
            Err(e) => r matches Err(e2) && e2 == e,
            Ok(p) => r matches Ok(b) && b@ == seq![p],
        },
{
    if instances.len() == 0 {
        return Err(BuildError::NoVisualStudio);
    }
    let i = &instances[0];
    if !i.has_catalog || !i.has_product_line_version {
        return Err(BuildError::MissingInstanceField);
    }
    match &i.installation_path {
        None => Err(BuildError::MissingInstanceField),
        Some(p) => {
            let b = BuildPath::new().join(p.as_str());
            assert(b@ =~= seq![p@]);
            Ok(b)
        },
    }
}

} // verus!
