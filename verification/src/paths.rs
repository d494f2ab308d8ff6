//! File locations inside the configuration directory.

use vstd::prelude::*;

verus! {

/// The platform's main path separator (std `std::path::MAIN_SEPARATOR`),
/// which its documentation gives as `/` on Unix and `\` on Windows.
#[verifier::external_body]
fn main_separator() -> (c: char)
    ensures
        c == '/' || c == '\\',
{
    std::path::MAIN_SEPARATOR
}

/// `name` placed inside the directory `dir`, `sep` being the platform's main
/// separator: a separator is put between them unless `dir` is empty or already
/// ends with one. This is what `PathBuf::push` does with a relative,
/// single-component name on a directory given as an absolute path or a plain
/// relative one; on Windows a bare drive prefix such as `C:` gets no
/// separator from `push`, a case that the configuration directory, always an
/// absolute path, does not present.
pub open spec fn path_join(dir: Seq<char>, name: Seq<char>, sep: char) -> Seq<char> {
    if dir.len() == 0 || dir.last() == '/' || dir.last() == sep {
        dir + name
    } else {
        dir + seq![sep] + name
    }
}

/// `name` placed inside the directory `dir`, joined with the separator `sep`.
pub fn join_path_with(dir: &str, name: &str, sep: char) -> (r: String)
    ensures
        r@ == path_join(dir@, name@, sep),
{
    let n = dir.unicode_len();
    let mut r = String::from_str(dir);
    if n > 0 {
        let last = dir.get_char(n - 1);
        if last != '/' && last != sep {
            let sep_text = crate::text::string_from_chars(&[sep]);
            r.append(sep_text.as_str());
        }
    }
    r.append(name);
    assert(r@ =~= path_join(dir@, name@, sep));
    r
}

/// `name` placed inside the directory `dir`, with the separator of the
/// platform the program runs on, which is one of `/` and `\`.
pub fn join_path(dir: &str, name: &str) -> (r: String)
    ensures
        r@ == path_join(dir@, name@, '/') || r@ == path_join(dir@, name@, '\\'),
{
    join_path_with(dir, name, main_separator())
}

} // verus!
