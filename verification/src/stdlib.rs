//! Modules that ship with the machine, written in the language itself.
use vstd::prelude::*;
use crate::modules::is_built_in;
use crate::text::{join3, same_text};

verus! {

/// The sources of the modules that ship with the machine.
#[derive(Debug)]
pub struct Shipped {
    pub io: String,
    pub json: String,
    pub http: String,
    pub base64: String,
    pub html: String,
}

/// Whether the module `path` ships with the machine.
pub open spec fn ships(path: Seq<char>) -> bool {
    path == "io"@ || path == "json"@ || path == "http"@ || path == "base64"@ || path == "html"@
}

/// The source of the shipped module `path`.
pub open spec fn shipped_source(sources: Shipped, path: Seq<char>) -> Option<Seq<char>> {
    if path == "io"@ {
        Some(sources.io@)
    } else if path == "json"@ {
        Some(sources.json@)
    } else if path == "http"@ {
        Some(sources.http@)
    } else if path == "base64"@ {
        Some(sources.base64@)
    } else if path == "html"@ {
        Some(sources.html@)
    } else {
        None
    }
}

/// The source of the shipped module `path`.
pub fn source_for<'a>(sources: &'a Shipped, path: &str) -> (r: Option<&'a str>)
    ensures
        r is Some <==> ships(path@),
        match shipped_source(*sources, path@) {
            Some(t) => r matches Some(s) && s@ == t,
            None => r is None,
        },
{
    if same_text(path, "io") {
        Some(sources.io.as_str())
    } else if same_text(path, "json") {
        Some(sources.json.as_str())
    } else if same_text(path, "http") {
        Some(sources.http.as_str())
    } else if same_text(path, "base64") {
        Some(sources.base64.as_str())
    } else if same_text(path, "html") {
        Some(sources.html.as_str())
    } else {
        None
    }
}

/// No module is both built in and shipped as source.
pub proof fn shipped_modules_are_not_built_in(path: Seq<char>)
    ensures !(ships(path) && is_built_in(path)),
{
    reveal_strlit("io");
    reveal_strlit("json");
    reveal_strlit("http");
    reveal_strlit("base64");
    reveal_strlit("html");
    reveal_strlit("sys");
    reveal_strlit("os");
    reveal_strlit("time");
    reveal_strlit("re");
    reveal_strlit("proc");
    reveal_strlit("net");
    reveal_strlit("_io");
    reveal_strlit("_json");
    if ships(path) && is_built_in(path) {
        assert(path[0] == 'i' || path[0] == 'j' || path[0] == 'h' || path[0] == 'b');
        assert(path[0] == 's' || path[0] == 'o' || path[0] == 't' || path[0] == 'r' || path[0] == 'p' || path[0] == 'n' || path[0] == '_');
    }
}

/// How a diagnostic names code of the shipped module `path`: a name, and not a
/// file to open.
pub fn display_name(path: &str) -> (r: String)
    ensures r@ == "<std/"@ + path@ + ".oro>"@,
{
    join3("<std/", path, ".oro>")
}

} // verus!
