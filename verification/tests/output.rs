use botscript::default_output;
use botscript::output::{java_file_name, EXTENSION};
use std::path::{Path, PathBuf};

fn by_path(input: &Path) -> PathBuf {
    let mut output = input.to_path_buf();
    if let Some(stem) = input.file_stem() {
        output.set_file_name(format!("{}.java", stem.to_string_lossy()));
    }
    output
}

#[test]
fn extension_of_a_program() {
    assert_eq!(EXTENSION, ".java");
    assert_eq!(java_file_name("auto"), "auto.java");
    assert_eq!(java_file_name(""), ".java");
}

#[test]
fn script_beside_its_program() {
    assert_eq!(default_output("auto.bs"), "auto.java");
    assert_eq!(default_output("scripts/auto.bs"), "scripts/auto.java");
    assert_eq!(default_output("/home/robot/auto.bs"), "/home/robot/auto.java");
}

#[test]
fn script_without_extension() {
    assert_eq!(default_output("auto"), "auto.java");
}

#[test]
fn only_the_last_extension_goes() {
    assert_eq!(default_output("auto.v2.bs"), "auto.v2.java");
}

#[test]
fn path_without_file_name_stays() {
    assert_eq!(default_output(""), "");
    assert_eq!(default_output(".."), "..");
    assert_eq!(default_output("/"), "/");
}

#[test]
fn output_is_that_of_the_path_functions() {
    let samples = [
        "", "a", "a.bs", "a.b.c", ".hidden", ".hidden.bs", "dir/a.bs", "dir/", "dir/.", "dir/..",
        "/", "/a.bs", "./a.bs", "../a.bs", "a.bs/", "dir//a.bs", "dir/sub/a", "a.", "..", ".",
        "sp ace.bs", "h\u{e9}.bs",
    ];
    for sample in samples {
        let expected = by_path(Path::new(sample));
        assert_eq!(PathBuf::from(default_output(sample)), expected, "{:?}", sample);
        assert_eq!(default_output(sample), expected.to_string_lossy(), "{:?}", sample);
    }
}
