//! Resolution as the built-in hook does it.

use vstd::prelude::*;
use vstd::string::*;
use crate::nodejs::{appended, join, normalized, resolve};
use crate::path::{dirname, dirname_of, is_absolute, is_absolute_path, MAX_PATH_LEN};
use crate::resolve_id::{
    add_js_extension_if_necessary, is_relative, is_relative_specifier, with_js_extension,
};

verus! {

/// The file that a specifier names: an absolute specifier names itself, one
/// without an importer is seen from the working directory, a relative one
/// from the importer's directory; `.js` comes behind a file without an
/// extension. Any other specifier names a module outside the bundle. An
/// importer too long to be asked for its directory counts as its own directory.
pub open spec fn resolved_file(source: Seq<char>, importer: Option<Seq<char>>, cwd: Seq<char>) -> Option<
    Seq<char>,
> {
    if is_absolute_path(source) {
        Some(with_js_extension(source))
    } else {
        match importer {
            None => Some(with_js_extension(normalized(appended(cwd, source)))),
            Some(i) => if is_relative_specifier(source) {
                let dir = if i.len() <= MAX_PATH_LEN {
                    dirname_of(i)
                } else {
                    i
                };
                Some(with_js_extension(normalized(appended(dir, source))))
            } else {
                None
            },
        }
    }
}

/// The file that a specifier names; `None` for a module outside the bundle.
pub fn resolve_id(source: &str, importer: Option<&str>, cwd: &str) -> (r: Option<String>)
    ensures
        r.deep_view() == resolved_file(source@, importer.deep_view(), cwd@),
{
    let id = if is_absolute(source) {
        String::from_str(source)
    } else {
        match importer {
            None => resolve(cwd, source),
            Some(i) => {
                if !is_relative(source) {
                    return None;
                }
                let dir = if i.unicode_len() <= MAX_PATH_LEN {
                    dirname(i)
                } else {
                    String::from_str(i)
                };
                join(dir.as_str(), source)
            },
        }
    };
    Some(add_js_extension_if_necessary(id, false))
}

} // verus!
