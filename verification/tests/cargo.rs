use assert_cmd::cargo::cargo_bin;
use assert_cmd::cargo::CargoError;

#[test]
fn cargo_bin_from_deps_directory() {
    let path = cargo_bin("bin_fixture", "/work/target/debug/deps/itest-1234", "");
    assert_eq!("/work/target/debug/bin_fixture", path);
}

#[test]
fn cargo_bin_from_plain_directory() {
    let path = cargo_bin("bin_fixture", "/work/target/debug/itest-1234", "");
    assert_eq!("/work/target/debug/bin_fixture", path);
}

#[test]
fn cargo_bin_applies_exe_suffix() {
    let path = cargo_bin("tool", "/t/debug/deps/runner", ".exe");
    assert_eq!("/t/debug/tool.exe", path);
}

#[test]
fn cargo_bin_without_separator() {
    let path = cargo_bin("tool", "bare", "");
    assert_eq!("tool", path);
}

#[test]
fn cargo_error_rendering() {
    let err = CargoError::with_cause(String::from("Cargo command not found: /x/tool"));
    assert_eq!("Cause: Cargo command not found: /x/tool\n", err.render());
    let bare = CargoError { cause: None };
    assert_eq!("", bare.render());
}
