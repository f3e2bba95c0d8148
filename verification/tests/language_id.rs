use echolysis::language_id::{
    file_extension_to_language_id, get_language_id_by_file_extentsion, get_language_id_by_path,
    language_id_of_lowercase,
};
use echolysis::languages::SupportedLanguage;

#[test]
fn extensions_map_to_language_identifiers() {
    assert_eq!(get_language_id_by_file_extentsion("rs"), "rust");
    assert_eq!(get_language_id_by_file_extentsion("py"), "python");
    assert_eq!(get_language_id_by_file_extentsion("hpp"), "cpp");
    assert_eq!(get_language_id_by_file_extentsion("cs"), "c_sharp");
    assert_eq!(get_language_id_by_file_extentsion("yml"), "yaml");
    assert_eq!(get_language_id_by_file_extentsion("tsx"), "typescript");
    assert_eq!(get_language_id_by_file_extentsion("zig"), "zig");
    assert_eq!(get_language_id_by_file_extentsion("agda"), "agda");
    assert_eq!(get_language_id_by_file_extentsion("f08"), "fortran");
}

#[test]
fn extensions_are_looked_up_in_lowercase() {
    assert_eq!(get_language_id_by_file_extentsion("RS"), "rust");
    assert_eq!(get_language_id_by_file_extentsion("Py"), "python");
    assert_eq!(get_language_id_by_file_extentsion("JSON"), "json");
    // The table itself knows lowercase entries only.
    assert_eq!(language_id_of_lowercase("RS"), "");
    assert_eq!(language_id_of_lowercase("rs"), "rust");
}

#[test]
fn unknown_extensions_map_to_the_empty_identifier() {
    assert_eq!(get_language_id_by_file_extentsion(""), "");
    assert_eq!(get_language_id_by_file_extentsion("xyz"), "");
    assert_eq!(get_language_id_by_file_extentsion("rust"), "");
    assert_eq!(get_language_id_by_file_extentsion(".rs"), "");
}

#[test]
fn paths_map_by_their_extension() {
    assert_eq!(get_language_id_by_path("/work/src/main.rs", true), "rust");
    assert_eq!(get_language_id_by_path("script.PY", true), "python");
    assert_eq!(get_language_id_by_path("archive.tar.gz", true), "");
    assert_eq!(get_language_id_by_path("/work/Makefile", true), "");
    assert_eq!(get_language_id_by_path("/work/.rs", true), "");
}

#[test]
fn what_is_no_file_maps_to_the_empty_identifier() {
    assert_eq!(get_language_id_by_path("/work/src/main.rs", false), "");
    assert_eq!(file_extension_to_language_id("/work/src/main.rs", false), "");
}

#[test]
fn a_file_without_extension_is_looked_up_by_its_name() {
    assert_eq!(file_extension_to_language_id("/work/Dockerfile", true), "dockerfile");
    assert_eq!(file_extension_to_language_id("/work/cmake", true), "cmake");
    assert_eq!(file_extension_to_language_id("/work/main.rs", true), "rust");
    assert_eq!(file_extension_to_language_id("/work/README", true), "");
    assert_eq!(get_language_id_by_path("/work/Dockerfile", true), "");
}

#[test]
fn two_languages_have_a_profile() {
    assert_eq!(SupportedLanguage::supported_languages(), vec!["python", "rust"]);
    assert!(SupportedLanguage::support("python"));
    assert!(SupportedLanguage::support("rust"));
    assert!(!SupportedLanguage::support("go"));
    assert!(!SupportedLanguage::support(""));
    assert!(SupportedLanguage::from_language_id("go").is_none());
    assert!(SupportedLanguage::from_language_id("").is_none());
    let rust = SupportedLanguage::from_language_id("rust").unwrap();
    assert_eq!(rust.language_id(), "rust");
    assert_eq!(rust.complexity_threshold(), 20);
    let python = SupportedLanguage::from_language_id("python").unwrap();
    assert_eq!(python.language_id(), "python");
    assert_eq!(python.with_complexity_threshold(4).complexity_threshold(), 4);
}
