//! The fixed table from file extensions to language identifiers, and the
//! identifier of a path.

use vstd::prelude::*;
use crate::text::{
    extension_of_path, file_name_of_path, lowercased, path_extension, path_file_name, str_eq,
    to_lowercase,
};

verus! {

/// The language identifier that the table gives to a lowercase extension;
/// the empty string for an extension that the table lacks.
pub open spec fn language_of_extension(extension: Seq<char>) -> Seq<char> {
    if extension == "agda"@ {
        "agda"@
    } else if extension == "bash"@ || extension == "sh"@ || extension == "zsh"@ {
        "bash"@
    } else if extension == "c"@ || extension == "h"@ {
        "c"@
    } else if extension == "clj"@ || extension == "cljs"@ || extension == "cljc"@ {
        "clojure"@
    } else if extension == "cmake"@ {
        "cmake"@
    } else if extension == "cpp"@ || extension == "hpp"@ || extension == "cc"@ || extension == "cxx"@ {
        "cpp"@
    } else if extension == "cs"@ {
        "c_sharp"@
    } else if extension == "css"@ {
        "css"@
    } else if extension == "d"@ {
        "d"@
    } else if extension == "dart"@ {
        "dart"@
    } else if extension == "dockerfile"@ {
        "dockerfile"@
    } else if extension == "el"@ || extension == "elc"@ {
        "elisp"@
    } else if extension == "ex"@ || extension == "exs"@ {
        "elixir"@
    } else if extension == "elm"@ {
        "elm"@
    } else if extension == "erl"@ || extension == "hrl"@ {
        "erlang"@
    } else if extension == "fs"@ || extension == "fsx"@ {
        "fsharp"@
    } else if extension == "fish"@ {
        "fish"@
    } else if extension == "f90"@ || extension == "f95"@ || extension == "f03"@ || extension == "f08"@ {
        "fortran"@
    } else if extension == "glsl"@ || extension == "vert"@ || extension == "frag"@ {
        "glsl"@
    } else if extension == "go"@ {
        "go"@
    } else if extension == "graphql"@ || extension == "gql"@ {
        "graphql"@
    } else if extension == "hack"@ || extension == "hh"@ {
        "hack"@
    } else if extension == "hs"@ || extension == "lhs"@ {
        "haskell"@
    } else if extension == "hcl"@ || extension == "tf"@ {
        "hcl"@
    } else if extension == "html"@ {
        "html"@
    } else if extension == "java"@ {
        "java"@
    } else if extension == "jl"@ {
        "julia"@
    } else if extension == "js"@ || extension == "jsx"@ {
        "javascript"@
    } else if extension == "json"@ {
        "json"@
    } else if extension == "kt"@ || extension == "kts"@ {
        "kotlin"@
    } else if extension == "lua"@ {
        "lua"@
    } else if extension == "m"@ || extension == "mat"@ {
        "matlab"@
    } else if extension == "md"@ || extension == "markdown"@ {
        "markdown"@
    } else if extension == "nix"@ {
        "nix"@
    } else if extension == "ml"@ || extension == "mli"@ {
        "ocaml"@
    } else if extension == "pas"@ || extension == "pp"@ {
        "pascal"@
    } else if extension == "perl"@ || extension == "pl"@ || extension == "pm"@ {
        "perl"@
    } else if extension == "php"@ {
        "php"@
    } else if extension == "proto"@ {
        "protobuf"@
    } else if extension == "ps1"@ || extension == "psm1"@ || extension == "psd1"@ {
        "powershell"@
    } else if extension == "py"@ {
        "python"@
    } else if extension == "r"@ {
        "r"@
    } else if extension == "rb"@ {
        "ruby"@
    } else if extension == "rkt"@ {
        "racket"@
    } else if extension == "rs"@ {
        "rust"@
    } else if extension == "scala"@ {
        "scala"@
    } else if extension == "scss"@ {
        "scss"@
    } else if extension == "scm"@ {
        "scheme"@
    } else if extension == "sql"@ {
        "sql"@
    } else if extension == "svelte"@ {
        "svelte"@
    } else if extension == "swift"@ {
        "swift"@
    } else if extension == "toml"@ {
        "toml"@
    } else if extension == "ts"@ || extension == "tsx"@ {
        "typescript"@
    } else if extension == "vue"@ {
        "vue"@
    } else if extension == "yaml"@ || extension == "yml"@ {
        "yaml"@
    } else if extension == "zig"@ {
        "zig"@
    } else {
        ""@
    }
}

/// The characters of an optional string; none where there is no string.
pub open spec fn text_or_empty(text: Option<Seq<char>>) -> Seq<char> {
    match text {
        Some(t) => t,
        None => ""@,
    }
}

/// The identifier of a path by its extension: that of the lowercase
/// extension for a file, the empty string for anything else.
pub open spec fn language_of_path(path: Seq<char>, is_file: bool) -> Seq<char> {
    if is_file {
        language_of_extension(lowercased(text_or_empty(extension_of_path(path))))
    } else {
        ""@
    }
}

/// The identifier of a path by its extension or, where it has none, by its
/// last component (so that `Dockerfile` is found); the empty string for
/// anything but a file.
pub open spec fn language_of_path_or_name(path: Seq<char>, is_file: bool) -> Seq<char> {
    if is_file {
        language_of_extension(
            lowercased(
                match extension_of_path(path) {
                    Some(e) => e,
                    None => text_or_empty(file_name_of_path(path)),
                },
            ),
        )
    } else {
        ""@
    }
}

/// Looks an extension up in the table. The extension is taken as it is: the
/// table holds lowercase entries only.
pub fn language_id_of_lowercase(extension: &str) -> (id: &'static str)
    ensures
        id@ == language_of_extension(extension@),
{
    if str_eq(extension, "agda") {
        "agda"
    } else if str_eq(extension, "bash") || str_eq(extension, "sh") || str_eq(extension, "zsh") {
        "bash"
    } else if str_eq(extension, "c") || str_eq(extension, "h") {
        "c"
    } else if str_eq(extension, "clj") || str_eq(extension, "cljs") || str_eq(extension, "cljc") {
        "clojure"
    } else if str_eq(extension, "cmake") {
        "cmake"
    } else if str_eq(extension, "cpp") || str_eq(extension, "hpp") || str_eq(extension, "cc") || str_eq(extension, "cxx") {
        "cpp"
    } else if str_eq(extension, "cs") {
        "c_sharp"
    } else if str_eq(extension, "css") {
        "css"
    } else if str_eq(extension, "d") {
        "d"
    } else if str_eq(extension, "dart") {
        "dart"
    } else if str_eq(extension, "dockerfile") {
        "dockerfile"
    } else if str_eq(extension, "el") || str_eq(extension, "elc") {
        "elisp"
    } else if str_eq(extension, "ex") || str_eq(extension, "exs") {
        "elixir"
    } else if str_eq(extension, "elm") {
        "elm"
    } else if str_eq(extension, "erl") || str_eq(extension, "hrl") {
        "erlang"
    } else if str_eq(extension, "fs") || str_eq(extension, "fsx") {
        "fsharp"
    } else if str_eq(extension, "fish") {
        "fish"
    } else if str_eq(extension, "f90") || str_eq(extension, "f95") || str_eq(extension, "f03") || str_eq(extension, "f08") {
        "fortran"
    } else if str_eq(extension, "glsl") || str_eq(extension, "vert") || str_eq(extension, "frag") {
        "glsl"
    } else if str_eq(extension, "go") {
        "go"
    } else if str_eq(extension, "graphql") || str_eq(extension, "gql") {
        "graphql"
    } else if str_eq(extension, "hack") || str_eq(extension, "hh") {
        "hack"
    } else if str_eq(extension, "hs") || str_eq(extension, "lhs") {
        "haskell"
    } else if str_eq(extension, "hcl") || str_eq(extension, "tf") {
        "hcl"
    } else if str_eq(extension, "html") {
        "html"
    } else if str_eq(extension, "java") {
        "java"
    } else if str_eq(extension, "jl") {
        "julia"
    } else if str_eq(extension, "js") || str_eq(extension, "jsx") {
        "javascript"
    } else if str_eq(extension, "json") {
        "json"
    } else if str_eq(extension, "kt") || str_eq(extension, "kts") {
        "kotlin"
    } else if str_eq(extension, "lua") {
        "lua"
    } else if str_eq(extension, "m") || str_eq(extension, "mat") {
        "matlab"
    } else if str_eq(extension, "md") || str_eq(extension, "markdown") {
        "markdown"
    } else if str_eq(extension, "nix") {
        "nix"
    } else if str_eq(extension, "ml") || str_eq(extension, "mli") {
        "ocaml"
    } else if str_eq(extension, "pas") || str_eq(extension, "pp") {
        "pascal"
    } else if str_eq(extension, "perl") || str_eq(extension, "pl") || str_eq(extension, "pm") {
        "perl"
    } else if str_eq(extension, "php") {
        "php"
    } else if str_eq(extension, "proto") {
        "protobuf"
    } else if str_eq(extension, "ps1") || str_eq(extension, "psm1") || str_eq(extension, "psd1") {
        "powershell"
    } else if str_eq(extension, "py") {
        "python"
    } else if str_eq(extension, "r") {
        "r"
    } else if str_eq(extension, "rb") {
        "ruby"
    } else if str_eq(extension, "rkt") {
        "racket"
    } else if str_eq(extension, "rs") {
        "rust"
    } else if str_eq(extension, "scala") {
        "scala"
    } else if str_eq(extension, "scss") {
        "scss"
    } else if str_eq(extension, "scm") {
        "scheme"
    } else if str_eq(extension, "sql") {
        "sql"
    } else if str_eq(extension, "svelte") {
        "svelte"
    } else if str_eq(extension, "swift") {
        "swift"
    } else if str_eq(extension, "toml") {
        "toml"
    } else if str_eq(extension, "ts") || str_eq(extension, "tsx") {
        "typescript"
    } else if str_eq(extension, "vue") {
        "vue"
    } else if str_eq(extension, "yaml") || str_eq(extension, "yml") {
        "yaml"
    } else if str_eq(extension, "zig") {
        "zig"
    } else {
        ""
    }
}

/// The language identifier of a file extension, whatever its case; the empty
/// string for an extension that the table lacks.
pub fn get_language_id_by_file_extentsion(extension: &str) -> (id: &'static str)
    ensures
        id@ == language_of_extension(lowercased(extension@)),
{
    let lower = to_lowercase(extension);
    language_id_of_lowercase(lower.as_str())
}

/// The language identifier of the path `path`, of which the caller knows
/// whether it names an existing file (`is_file`).
pub fn get_language_id_by_path(path: &str, is_file: bool) -> (id: &'static str)
    ensures
        id@ == language_of_path(path@, is_file),
{
    if !is_file {
        return "";
    }
    match path_extension(path) {
        Some(extension) => get_language_id_by_file_extentsion(extension.as_str()),
        None => {
            get_language_id_by_file_extentsion("")
        },
    }
}

/// As `get_language_id_by_path`, but a file without an extension is looked up
/// by its name.
pub fn file_extension_to_language_id(path: &str, is_file: bool) -> (id: &'static str)
    ensures
        id@ == language_of_path_or_name(path@, is_file),
{
    if !is_file {
        return "";
    }
    match path_extension(path) {
        Some(extension) => get_language_id_by_file_extentsion(extension.as_str()),
        None => match path_file_name(path) {
            Some(name) => get_language_id_by_file_extentsion(name.as_str()),
            None => {
                get_language_id_by_file_extentsion("")
            },
        },
    }
}

} // verus!
