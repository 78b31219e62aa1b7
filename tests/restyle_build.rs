use kanaya_hook::build_path::BuildPath;
use kanaya_hook::restyle_build::{
    build_number_at, build_restyle_stub, build_restyle_vcxproj, find_patch_file_target_relative_path,
    get_build_extra_path, get_build_number, get_build_src_path, get_build_stub_path, get_msbuild_configuration,
    get_msbuild_platform, get_restyle_folder, get_root_folder, get_rust_artifacts_path, handle_file, is_ignored_name,
    is_ignored_path, iterate_files, msbuild_platform_for, scan_roots, ActionKind, BuildError, FileSource, ScannedFile,
    TargetArch, destination_of, installation_path_of, vswhere_candidates, VswhereInstance,
};

fn p(parts: &[&str]) -> BuildPath {
    BuildPath::from_components(&parts.iter().map(|s| s.to_string()).collect())
}

fn parts(b: &BuildPath) -> Vec<String> {
    b.components.clone()
}

fn cwd() -> BuildPath {
    p(&["C:", "work", "kanaya", "main_gui"])
}

fn out_dir() -> BuildPath {
    p(&["C:", "work", "kanaya", "target", "debug", "build", "out"])
}

#[test]
fn ignored_paths_are_matched_in_lower_case() {
    assert_eq!(is_ignored_path(&p(&["a", ".git"])), Ok(true));
    assert_eq!(is_ignored_path(&p(&["a", ".GIT"])), Ok(true));
    assert_eq!(is_ignored_path(&p(&["a", ".Vs"])), Ok(true));
    assert_eq!(is_ignored_path(&p(&["a", "src"])), Ok(false));
    assert_eq!(is_ignored_path(&p(&["a", ".github"])), Ok(false));
    assert_eq!(is_ignored_path(&p(&[])), Err(BuildError::NoFileName));
    assert_eq!(is_ignored_path(&p(&["a", ".."])), Err(BuildError::NoFileName));
    assert!(is_ignored_name(".vs"));
    assert!(!is_ignored_name(".VS"));
}

#[test]
fn folders_of_the_build() {
    assert_eq!(parts(&get_restyle_folder(&cwd())), vec!["C:", "work", "kanaya", "restyle"]);
    assert_eq!(parts(&get_restyle_folder(&p(&["x", "y"]))), vec!["x", "restyle"]);
    assert_eq!(parts(&get_restyle_folder(&p(&[]))), vec!["restyle"]);
    let o = out_dir();
    let mut expected = parts(&o);
    expected.push("restyle_build".to_string());
    expected.push("src".to_string());
    assert_eq!(parts(&get_build_src_path(&o)), expected);
    expected.pop();
    expected.push("kanayacpp".to_string());
    assert_eq!(parts(&get_build_extra_path(&o)), expected);
    expected.pop();
    expected.push("stub".to_string());
    assert_eq!(parts(&get_build_stub_path(&o)), expected);
    assert_eq!(get_root_folder(&p(&[])).err(), Some(BuildError::NoParent));
    assert_eq!(parts(&get_root_folder(&cwd()).unwrap()), vec!["C:", "work", "kanaya"]);
    assert_eq!(parts(&get_rust_artifacts_path(&cwd(), "release").unwrap()), vec!["C:", "work", "kanaya", "target", "release"]);
}

#[test]
fn scan_roots_in_order() {
    let roots = scan_roots(&cwd());
    let names: Vec<(Vec<String>, FileSource)> = roots.iter().map(|(b, s)| (parts(b), *s)).collect();
    assert_eq!(names, vec![
        (vec!["C:", "work", "kanaya", "restyle", "stub"].iter().map(|s| s.to_string()).collect(), FileSource::StaticSource),
        (vec!["C:", "work", "kanaya", "restyle", "src"].iter().map(|s| s.to_string()).collect(), FileSource::StaticSource),
        (vec!["C:", "work", "kanaya", "restyle", "srcpatches"].iter().map(|s| s.to_string()).collect(), FileSource::SourcePatches),
        (vec!["C:", "work", "kanaya", "restyle", "kanayacpp"].iter().map(|s| s.to_string()).collect(), FileSource::ExtraSource),
    ]);
}

#[test]
fn patch_targets() {
    let diff = p(&["C:", "work", "kanaya", "restyle", "srcpatches", "ui", "theme.cpp.diff"]);
    assert_eq!(parts(&find_patch_file_target_relative_path(&diff, &cwd()).unwrap()), vec!["src", "ui", "theme.cpp"]);
    let not_diff = p(&["C:", "work", "kanaya", "restyle", "srcpatches", "theme.cpp"]);
    assert!(find_patch_file_target_relative_path(&not_diff, &cwd()).is_none());
    let elsewhere = p(&["C:", "work", "other", "theme.cpp.diff"]);
    assert!(find_patch_file_target_relative_path(&elsewhere, &cwd()).is_none());
}

#[test]
fn msbuild_steps() {
    let o = out_dir();
    let fin = p(&["C:", "work", "kanaya", "target", "debug"]);
    let step = build_restyle_stub(&o, &fin, "x64", "Debug");
    let mut project = parts(&o);
    project.extend(["restyle_build", "stub"].iter().map(|s| s.to_string()));
    assert_eq!(parts(&step.project), project);
    let mut exe = project.clone();
    exe.extend(["x64", "Debug", "restyle.exe"].iter().map(|s| s.to_string()));
    assert_eq!(parts(&step.moves[0].from), exe);
    assert_eq!(parts(&step.moves[0].to), vec!["C:", "work", "kanaya", "target", "debug", "restyle.exe"]);
    assert_eq!(parts(&step.moves[1].to), vec!["C:", "work", "kanaya", "target", "debug", "restyle.pdb"]);
    let lib = build_restyle_vcxproj(&o, &fin, "Win32", "Release");
    assert_eq!(lib.moves.len(), 3);
    let mut lib_to = parts(&o);
    lib_to.push("rstylkan.lib".to_string());
    assert_eq!(parts(&lib.moves[0].to), lib_to);
    assert_eq!(parts(&lib.moves[1].to), vec!["C:", "work", "kanaya", "target", "debug", "rstylkan.dll"]);
}

#[test]
fn msbuild_configuration_and_platform() {
    assert_eq!(get_msbuild_configuration(Some("debug")), Ok("Debug"));
    assert_eq!(get_msbuild_configuration(Some("release")), Ok("Release"));
    assert_eq!(get_msbuild_configuration(Some("Debug")), Ok("Release"));
    assert_eq!(get_msbuild_configuration(None), Err(BuildError::MissingProfile));
    assert_eq!(get_msbuild_platform("x86_64-pc-windows-msvc"), Ok("x64"));
    assert_eq!(get_msbuild_platform("i686-pc-windows-msvc"), Ok("Win32"));
    assert_eq!(get_msbuild_platform("aarch64-pc-windows-msvc"), Ok("ARM64"));
    assert_eq!(get_msbuild_platform("riscv64gc-unknown-linux-gnu"), Err(BuildError::UnsupportedArchitecture));
    assert_eq!(msbuild_platform_for(None), Err(BuildError::InvalidTriple));
    assert_eq!(msbuild_platform_for(Some(TargetArch::Other)), Err(BuildError::UnsupportedArchitecture));
}

#[test]
fn build_numbers() {
    let base = 1_737_072_000i64;
    assert_eq!(build_number_at(base + 3 * 86400 + 5, 0, base), 3);
    assert_eq!(build_number_at(base + 86399, 999_999_999, base), 0);
    assert_eq!(build_number_at(base - 86401, 0, base), -1);
    assert_eq!(build_number_at(base - 10, 500_000_000, base), 0);
    let before = std::time::SystemTime::now().duration_since(std::time::UNIX_EPOCH).unwrap().as_secs() as i64;
    let n = get_build_number().unwrap();
    let after = std::time::SystemTime::now().duration_since(std::time::UNIX_EPOCH).unwrap().as_secs() as i64;
    let days = |secs: i64| (secs - 1_737_072_000) / 86400;
    assert!(n == days(before) || n == days(after));
}

#[test]
fn scan_plans_copies_and_patches() {
    let root = |rest: &[&str]| {
        let mut v = vec!["C:", "work", "kanaya", "restyle"];
        v.extend_from_slice(rest);
        p(&v)
    };
    let files = vec![
        ScannedFile { path: root(&["stub", "main.cpp"]), source: FileSource::StaticSource, modified: 5, dest_modified: None, nested: false },
        ScannedFile { path: root(&["src", "x", "y.h"]), source: FileSource::StaticSource, modified: 7, dest_modified: Some(7), nested: true },
        ScannedFile { path: root(&["srcpatches", "z.cpp.diff"]), source: FileSource::SourcePatches, modified: 1, dest_modified: None, nested: false },
        ScannedFile { path: root(&["kanayacpp", ".git"]), source: FileSource::ExtraSource, modified: 1, dest_modified: None, nested: false },
    ];
    let plan = iterate_files(&files, &cwd(), &out_dir()).unwrap();
    assert!(plan.needs_msbuild_rerun);
    assert_eq!(plan.actions.len(), 2);
    let mut build = parts(&out_dir());
    build.push("restyle_build".to_string());
    assert_eq!(plan.actions[0].kind, ActionKind::Copy);
    let mut to = build.clone();
    to.extend(["stub", "main.cpp"].iter().map(|s| s.to_string()));
    assert_eq!(parts(&plan.actions[0].to), to);
    assert_eq!(plan.actions[1].kind, ActionKind::Patch);
    let mut to = build.clone();
    to.extend(["src", "z.cpp"].iter().map(|s| s.to_string()));
    assert_eq!(parts(&plan.actions[1].to), to);
}

#[test]
fn scan_changes_in_subfolders_copy_without_rebuild() {
    let f = ScannedFile {
        path: p(&["C:", "work", "kanaya", "restyle", "src", "x", "y.h"]),
        source: FileSource::StaticSource, modified: 8, dest_modified: Some(7), nested: true,
    };
    let plan = iterate_files(&vec![f], &cwd(), &out_dir()).unwrap();
    assert_eq!(plan.actions.len(), 1);
    assert!(!plan.needs_msbuild_rerun);
}

#[test]
fn scan_errors() {
    let outside = ScannedFile { path: p(&["C:", "elsewhere", "a.cpp"]), source: FileSource::StaticSource, modified: 1, dest_modified: None, nested: false };
    let restyle = get_restyle_folder(&cwd());
    let patches = p(&["C:", "work", "kanaya", "restyle", "srcpatches"]);
    assert_eq!(handle_file(&outside, &restyle, &patches, &out_dir()).err(), Some(BuildError::NotUnderFolder));
    let bad_patch = ScannedFile { path: p(&["C:", "work", "kanaya", "restyle", "srcpatches", "notes.txt"]), source: FileSource::SourcePatches, modified: 1, dest_modified: None, nested: false };
    assert_eq!(iterate_files(&vec![bad_patch], &cwd(), &out_dir()).err(), Some(BuildError::NoPatchTarget));
    let no_name = ScannedFile { path: p(&[]), source: FileSource::StaticSource, modified: 1, dest_modified: None, nested: false };
    assert_eq!(iterate_files(&vec![no_name], &cwd(), &out_dir()).err(), Some(BuildError::NoFileName));
}

#[test]
fn vswhere_instances() {
    assert_eq!(installation_path_of(&vec![]).err(), Some(BuildError::NoVisualStudio));
    let full = VswhereInstance {
        has_catalog: true,
        has_product_line_version: true,
        installation_path: Some("C:\\VS\\2022".to_string()),
    };
    assert_eq!(parts(&installation_path_of(&vec![full]).unwrap()), vec!["C:\\VS\\2022"]);
    let no_version = VswhereInstance { has_catalog: true, has_product_line_version: false, installation_path: Some("x".to_string()) };
    assert_eq!(installation_path_of(&vec![no_version]).err(), Some(BuildError::MissingInstanceField));
    let no_path = VswhereInstance { has_catalog: true, has_product_line_version: true, installation_path: None };
    let later = VswhereInstance { has_catalog: true, has_product_line_version: true, installation_path: Some("y".to_string()) };
    assert_eq!(installation_path_of(&vec![no_path, later]).err(), Some(BuildError::MissingInstanceField));
    let c = vswhere_candidates();
    assert_eq!(c.len(), 2);
    assert!(c[0].ends_with("Installer\\vswhere.exe"));
    assert!(c[1].starts_with("%ProgramData%"));
}

#[test]
fn destinations_in_the_build_tree() {
    let restyle = get_restyle_folder(&cwd());
    let build = p(&["out", "restyle_build"]);
    let d = destination_of(&p(&["C:", "work", "kanaya", "restyle", "src", "a.cpp"]), &restyle, &build).unwrap();
    assert_eq!(parts(&d), vec!["out", "restyle_build", "src", "a.cpp"]);
    assert!(destination_of(&p(&["C:", "other", "a.cpp"]), &restyle, &build).is_none());
}
