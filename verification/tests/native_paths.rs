use rsscript_compiler::native::{check_native_rust_path, native_path_escapes_package, NativePathError};

#[test]
fn native_path_rejects_root_and_parent_components() {
    assert!(native_path_escapes_package("/native/rust"));
    assert!(native_path_escapes_package("native/../outside"));
    assert!(!native_path_escapes_package("native/rust"));
}

#[test]
fn native_path_rejects_windows_prefix_components() {
    assert!(native_path_escapes_package(r"C:\native\rust"));
    assert!(native_path_escapes_package(r"C:native\rust"));
    assert!(native_path_escapes_package(r"\\server\share\native"));
}

#[test]
fn dots_inside_names_do_not_escape() {
    assert!(!native_path_escapes_package("native/./rust"));
    assert!(!native_path_escapes_package("native/..rust"));
    assert!(!native_path_escapes_package("native/rust.."));
    assert!(native_path_escapes_package(".."));
    assert!(native_path_escapes_package("native/.."));
}

#[test]
fn configured_paths_must_be_present_and_confined() {
    assert_eq!(check_native_rust_path("  "), Err(NativePathError::Empty));
    assert_eq!(check_native_rust_path("../x"), Err(NativePathError::EscapesPackage));
    assert_eq!(check_native_rust_path("native/rust"), Ok(()));
    assert_eq!(
        NativePathError::EscapesPackage.message("../x"),
        "native Rust wrapper path `../x` escapes the package root"
    );
    assert_eq!(NativePathError::Empty.message(""), "native Rust wrapper path must not be empty");
}
