use cordl::generate::config::GenerationConfig;
use std::path::PathBuf;

fn config() -> GenerationConfig {
    GenerationConfig {
        source_path: PathBuf::from("./codegen/src"),
        header_path: PathBuf::from("./codegen/include"),
    }
}

#[test]
fn namespace_cpp_turns_dots_into_scopes() {
    let c = config();
    assert_eq!(
        c.namespace_cpp("System.Collections.Generic".to_string()),
        "System::Collections::Generic"
    );
}

#[test]
fn name_cpp_replaces_markers() {
    let c = config();
    assert_eq!(c.name_cpp("List`1".to_string()), "List_1");
    assert_eq!(c.name_cpp("<>c__DisplayClass4_0`1".to_string()), "__c__DisplayClass4_0_1");
    assert_eq!(c.name_cpp("A.B/C".to_string()), "A_B_C");
}

#[test]
fn namespace_path_turns_dots_into_directories() {
    let c = config();
    assert_eq!(c.namespace_path("UnityEngine.XR".to_string()), "UnityEngine/XR");
    assert_eq!(c.namespace_path("a/b.c".to_string()), "a_b/c");
}

#[test]
fn path_name_agrees_with_name_cpp() {
    let c = config();
    for raw in ["List`1", "A.B", "x/y", "<T>", "plain", ""] {
        assert_eq!(c.path_name(raw.to_string()), c.name_cpp(raw.to_string()));
    }
}
