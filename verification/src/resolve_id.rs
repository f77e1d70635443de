//! Resolution: what a specifier in an importer names. A bare specifier
//! names a module outside the bundle; any other names a file, seen from the
//! importer's directory or, without an importer, from the working directory.

use vstd::prelude::*;
use vstd::string::*;
use crate::path::{
    dirname, dirname_of, extname, extname_of, is_absolute, is_absolute_path, join_of, join_paths,
    relative_of, relative_path, resolve_of, resolve_paths, MAX_PATH_LEN,
};
use crate::text::{has_prefix, same_text, starts_with};
use crate::types::ResolvedId;

verus! {

/// The specifier names a file relative to the importer.
pub open spec fn is_relative_specifier(source: Seq<char>) -> bool {
    ||| has_prefix(source, "./"@)
    ||| has_prefix(source, "../"@)
    ||| source == "."@
    ||| source == ".."@
}

/// The specifier names a package or a module of the host: it is neither
/// absolute nor relative.
pub open spec fn is_bare_specifier(source: Seq<char>) -> bool {
    !is_absolute_path(source) && !is_relative_specifier(source)
}

/// The specifier without a leading `node:`.
pub open spec fn without_node_prefix(source: Seq<char>) -> Seq<char> {
    if has_prefix(source, "node:"@) {
        source.subrange(5, source.len() as int)
    } else {
        source
    }
}

/// The modules that the host brings along.
pub open spec fn is_builtin_module(name: Seq<char>) -> bool {
    ||| name == "assert"@
    ||| name == "buffer"@
    ||| name == "child_process"@
    ||| name == "cluster"@
    ||| name == "console"@
    ||| name == "constants"@
    ||| name == "crypto"@
    ||| name == "dgram"@
    ||| name == "dns"@
    ||| name == "domain"@
    ||| name == "events"@
    ||| name == "fs"@
    ||| name == "http"@
    ||| name == "http2"@
    ||| name == "https"@
    ||| name == "module"@
    ||| name == "net"@
    ||| name == "os"@
    ||| name == "path"@
    ||| name == "perf_hooks"@
    ||| name == "process"@
    ||| name == "punycode"@
    ||| name == "querystring"@
    ||| name == "readline"@
    ||| name == "repl"@
    ||| name == "stream"@
    ||| name == "string_decoder"@
    ||| name == "timers"@
    ||| name == "tls"@
    ||| name == "tty"@
    ||| name == "url"@
    ||| name == "util"@
    ||| name == "v8"@
    ||| name == "vm"@
    ||| name == "worker_threads"@
    ||| name == "zlib"@
}

/// Whether the host brings the module along.
pub fn is_builtin(name: &str) -> (r: bool)
    ensures
        r == is_builtin_module(name@),
{
    same_text(name, "assert") || same_text(name, "buffer") || same_text(name, "child_process")
        || same_text(name, "cluster") || same_text(name, "console") || same_text(
        name,
        "constants",
    ) || same_text(name, "crypto") || same_text(name, "dgram") || same_text(name, "dns")
        || same_text(name, "domain") || same_text(name, "events") || same_text(name, "fs")
        || same_text(name, "http") || same_text(name, "http2") || same_text(name, "https")
        || same_text(name, "module") || same_text(name, "net") || same_text(name, "os")
        || same_text(name, "path") || same_text(name, "perf_hooks") || same_text(name, "process")
        || same_text(name, "punycode") || same_text(name, "querystring") || same_text(
        name,
        "readline",
    ) || same_text(name, "repl") || same_text(name, "stream") || same_text(
        name,
        "string_decoder",
    ) || same_text(name, "timers") || same_text(name, "tls") || same_text(name, "tty")
        || same_text(name, "url") || same_text(name, "util") || same_text(name, "v8")
        || same_text(name, "vm") || same_text(name, "worker_threads") || same_text(name, "zlib")
}

/// Whether the specifier names a file relative to the importer.
pub fn is_relative(source: &str) -> (r: bool)
    ensures
        r == is_relative_specifier(source@),
{
    starts_with(source, "./") || starts_with(source, "../") || same_text(source, ".") || same_text(
        source,
        "..",
    )
}

/// Whether the specifier names a module outside the bundle by its looks:
/// it begins with `node:`, or is neither absolute nor begins with a dot.
pub fn is_external_module(source: &str) -> (r: bool)
    ensures
        r == (has_prefix(source@, "node:"@) || (!is_absolute_path(source@) && !has_prefix(
            source@,
            "."@,
        ))),
{
    starts_with(source, "node:") || (!is_absolute(source) && !starts_with(source, "."))
}

/// The file with `.js` behind it where it has no extension. A path too long
/// to be asked about is left as it is.
pub open spec fn with_js_extension(file: Seq<char>) -> Seq<char> {
    if file.len() <= MAX_PATH_LEN && extname_of(file).len() == 0 {
        file + ".js"@
    } else {
        file
    }
}

/// Puts `.js` behind a file that has no extension.
pub fn add_js_extension_if_necessary(file: String, _preserve_symlinks: bool) -> (r: String)
    ensures
        r@ == with_js_extension(file@),
{
    let mut file = file;
    if file.as_str().unicode_len() <= MAX_PATH_LEN {
        let ext = extname(file.as_str());
        if ext.as_str().unicode_len() == 0 {
            file.append(".js");
        }
    }
    file
}

/// Puts `.js` behind a file that does not end in it.
pub fn fast_add_js_extension_if_necessary(file: String, _preserve_symlinks: bool) -> (r: String)
    ensures
        r@ == (if crate::text::has_suffix(file@, ".js"@) {
            file@
        } else {
            file@ + ".js"@
        }),
{
    let mut file = file;
    if !crate::text::ends_with(file.as_str(), ".js") {
        file.append(".js");
    }
    file
}

/// Whether the three texts together are short enough to be handed on as paths.
pub open spec fn fits(source: Seq<char>, importer: Option<Seq<char>>, cwd: Seq<char>) -> bool {
    source.len() <= MAX_PATH_LEN / 4 && cwd.len() <= MAX_PATH_LEN / 4 && (match importer {
        Some(i) => i.len() <= MAX_PATH_LEN / 4,
        None => true,
    })
}

/// The file that a specifier names, before its extension is seen to: an
/// absolute specifier names itself, another is seen from the importer's
/// directory or, without an importer, from the working directory given: it
/// is resolved against that directory where the directory is absolute, and
/// joined to it where it is not. Texts too long to be handed on as paths
/// leave the specifier as it is.
pub open spec fn located(source: Seq<char>, importer: Option<Seq<char>>, cwd: Seq<char>) -> Seq<
    char,
> {
    if is_absolute_path(source) || !fits(source, importer, cwd) {
        source
    } else {
        match importer {
            None => if is_absolute_path(cwd) {
                resolve_of(cwd, source)
            } else {
                join_of(cwd, source)
            },
            Some(i) => if dirname_of(i).len() <= MAX_PATH_LEN / 2 {
                join_of(dirname_of(i), source)
            } else {
                source
            },
        }
    }
}

/// The file that a specifier names.
fn default_resolve_id(source: &str, importer: Option<&str>, preserve_symlinks: bool, cwd: &str) -> (r:
    String)
    ensures
        r@ == with_js_extension(located(source@, importer.deep_view(), cwd@)),
{
    let quarter = MAX_PATH_LEN / 4;
    let short = source.unicode_len() <= quarter && cwd.unicode_len() <= quarter && (match importer {
        Some(i) => i.unicode_len() <= quarter,
        None => true,
    });
    let id = if is_absolute(source) || !short {
        String::from_str(source)
    } else {
        match importer {
            None => {
                if is_absolute(cwd) {
                    resolve_paths(cwd, source)
                } else {
                    join_paths(cwd, source)
                }
            },
            Some(i) => {
                let dir = dirname(i);
                if dir.as_str().unicode_len() <= MAX_PATH_LEN / 2 {
                    join_paths(dir.as_str(), source)
                } else {
                    String::from_str(source)
                }
            },
        }
    };
    add_js_extension_if_necessary(id, preserve_symlinks)
}

/// What a specifier resolves to: a bare specifier in an importer names a
/// module outside the bundle, a module of the host by its name without
/// `node:`; any other names a file inside the bundle.
pub open spec fn resolved(source: Seq<char>, importer: Option<Seq<char>>, cwd: Seq<char>) -> crate::types::ResolvedIdView {
    if importer is Some && is_bare_specifier(source) {
        crate::types::ResolvedIdView {
            id: if is_builtin_module(without_node_prefix(source)) {
                without_node_prefix(source)
            } else {
                source
            },
            external: true,
        }
    } else {
        crate::types::ResolvedIdView {
            id: with_js_extension(located(source, importer, cwd)),
            external: false,
        }
    }
}

/// Resolves a specifier by the rules of the bundler itself.
pub fn resolve_id(source: &str, importer: Option<&str>, preserve_symlinks: bool, cwd: &str) -> (r:
    ResolvedId)
    ensures
        r.deep_view() == resolved(source@, importer.deep_view(), cwd@),
{
    if importer.is_some() && !is_absolute(source) && !is_relative(source) {
        proof {
            reveal_strlit("node:");
        }
        let name = if starts_with(source, "node:") {
            source.substring_char(5, source.unicode_len())
        } else {
            source
        };
        if is_builtin(name) {
            ResolvedId::new(String::from_str(name), true)
        } else {
            ResolvedId::new(String::from_str(source), true)
        }
    } else {
        ResolvedId::new(default_resolve_id(source, importer, preserve_symlinks, cwd), false)
    }
}

/// The id as it is shown: an absolute id as seen from the working
/// directory, where that is absolute too and both are short enough to be
/// taken apart; any other as it is.
pub open spec fn shown_id(id: Seq<char>, cwd: Seq<char>) -> Seq<char> {
    if is_absolute_path(id) && is_absolute_path(cwd) && id.len() <= MAX_PATH_LEN && cwd.len()
        <= MAX_PATH_LEN {
        relative_of(cwd, id)
    } else {
        id
    }
}

/// The id as it is shown in reports.
pub fn relative_id(id: String, cwd: &str) -> (r: String)
    ensures
        r@ == shown_id(id@, cwd@),
{
    if is_absolute(id.as_str()) && is_absolute(cwd) && id.as_str().unicode_len() <= MAX_PATH_LEN
        && cwd.unicode_len() <= MAX_PATH_LEN {
        relative_path(cwd, id.as_str())
    } else {
        id
    }
}

} // verus!
