//! File-name logic shared by the vault, the asset store and the export
//! engine: extension handling, the fixed store names, and decimal rendering
//! for collision suffixes.

use crate::errors::VaultError;
use crate::text::{lower, lower_str, str_eq};
use vstd::prelude::*;
use vstd::seq_lib::*;
use vstd::string::*;

verus! {

/// The final path component: everything after the last `/`, or the whole
/// path when it holds no `/`.
pub open spec fn file_name_of(s: Seq<char>) -> Seq<char> {
    match s.index_of_last('/') {
        Some(i) => s.subrange(i + 1, s.len() as int),
        None => s,
    }
}

/// The extension of a file name: everything after the last `.`, provided
/// that dot is preceded by at least one character (a name that starts with
/// its only dot is a hidden file without an extension).
pub open spec fn ext_of(f: Seq<char>) -> Option<Seq<char>> {
    match f.index_of_last('.') {
        Some(i) => if i >= 1 {
            Some(f.subrange(i + 1, f.len() as int))
        } else {
            None
        },
        None => None,
    }
}

/// The stem of a file name: everything before the extension dot, or the
/// whole name when there is no extension.
pub open spec fn stem_of(f: Seq<char>) -> Seq<char> {
    match f.index_of_last('.') {
        Some(i) => if i >= 1 {
            f.subrange(0, i)
        } else {
            f
        },
        None => f,
    }
}

/// The extension of a path's final component.
pub open spec fn path_ext(s: Seq<char>) -> Option<Seq<char>> {
    ext_of(file_name_of(s))
}

/// Whether a path may be opened as a markdown document: its extension,
/// compared without regard to ASCII case, is `md`, `markdown` or `txt`.
pub open spec fn markdown_ext_ok(s: Seq<char>) -> bool {
    match path_ext(s) {
        Some(e) => lower(e) == "md"@ || lower(e) == "markdown"@ || lower(e) == "txt"@,
        None => false,
    }
}

/// Finds the last occurrence of `c` in `s`.
pub fn find_last(s: &str, c: char) -> (r: Option<usize>)
    ensures
        match s@.index_of_last(c) {
            Some(i) => r is Some && r->0 as int == i,
            None => r is None,
        },
{
    let n = s.unicode_len();
    let mut i: usize = n;
    while i > 0
        invariant
            0 <= i <= n,
            n == s@.len(),
            forall|k: int| i <= k < n ==> s@[k] != c,
        decreases i,
    {
        i = i - 1;
        if s.get_char(i) == c {
            proof {
                s@.index_of_last_ensures(c);
                assert(s@.contains(c)) by {
                    assert(0 <= i as int && (i as int) < s@.len() && s@[i as int] == c);
                }
                if s@.index_of_last(c) is None {
                    assert(!s@.contains(c));
                } else {
                    let j = s@.index_of_last(c)->0;
                    if j < i as int {
                        assert(s@[i as int] != c);
                    }
                    if j > i as int {
                        assert(s@[j] != c);
                    }
                }
            }
            return Some(i);
        }
    }
    proof {
        s@.index_of_last_ensures(c);
        if s@.index_of_last(c) is Some {
            let j = s@.index_of_last(c)->0;
            assert(s@[j] != c);
            assert(false);
        }
    }
    None
}

/// The final path component, executable form.
pub fn path_file_name(path: &str) -> (r: String)
    ensures
        r@ == file_name_of(path@),
{
    proof {
        path@.index_of_last_ensures('/');
    }
    let n = path.unicode_len();
    match find_last(path, '/') {
        Some(i) => String::from_str(path.substring_char(i + 1, n)),
        None => String::from_str(path),
    }
}

/// The extension of a path's final component, executable form.
pub fn path_extension(path: &str) -> (r: Option<String>)
    ensures
        match path_ext(path@) {
            Some(e) => r is Some && r->0@ == e,
            None => r is None,
        },
{
    let fname = path_file_name(path);
    let f = fname.as_str();
    proof {
        f@.index_of_last_ensures('.');
    }
    let n = f.unicode_len();
    match find_last(f, '.') {
        Some(i) => if i >= 1 {
            Some(String::from_str(f.substring_char(i + 1, n)))
        } else {
            None
        },
        None => None,
    }
}

/// The stem of a file name, executable form.
pub fn file_stem(name: &str) -> (r: String)
    ensures
        r@ == stem_of(name@),
{
    proof {
        name@.index_of_last_ensures('.');
    }
    let n = name.unicode_len();
    match find_last(name, '.') {
        Some(i) => if i >= 1 {
            String::from_str(name.substring_char(0, i))
        } else {
            String::from_str(name)
        },
        None => String::from_str(name),
    }
}

/// Accepts a path only when its extension (case-insensitive) is `md`,
/// `markdown` or `txt`; the guard runs before any file system call.
pub fn validate_markdown_path(path: &str) -> (r: Result<(), VaultError>)
    ensures
        r is Ok <==> markdown_ext_ok(path@),
        r is Err ==> r == Err::<(), VaultError>(VaultError::Validation),
{
    match path_extension(path) {
        Some(e) => {
            let le = lower_str(e.as_str());
            if str_eq(le.as_str(), "md") || str_eq(le.as_str(), "markdown") || str_eq(
                le.as_str(),
                "txt",
            ) {
                Ok(())
            } else {
                Err(VaultError::Validation)
            }
        },
        None => Err(VaultError::Validation),
    }
}

/// The single index document of a vault folder.
pub fn vault_file_name() -> (r: String)
    ensures
        r@ == "vault.json"@,
{
    String::from_str("vault.json")
}

/// The assets subdirectory of a vault folder.
pub fn assets_dir_name() -> (r: String)
    ensures
        r@ == "vault-assets"@,
{
    String::from_str("vault-assets")
}

/// The on-disk name of an asset: `<id>.enc`.
pub open spec fn enc_name(id: Seq<char>) -> Seq<char> {
    id + ".enc"@
}

/// Executable form of [`enc_name`].
pub fn asset_file_name(id: &str) -> (r: String)
    ensures
        r@ == enc_name(id@),
{
    String::from_str(id).concat(".enc")
}

/// The sibling temporary name an atomic write goes through: `<name>.tmp`.
pub open spec fn tmp_name(name: Seq<char>) -> Seq<char> {
    name + ".tmp"@
}

/// Executable form of [`tmp_name`].
pub fn tmp_file_name(name: &str) -> (r: String)
    ensures
        r@ == tmp_name(name@),
{
    String::from_str(name).concat(".tmp")
}

/// The on-disk name of an exported note: `<stem>.md`.
pub open spec fn md_name(stem: Seq<char>) -> Seq<char> {
    stem + ".md"@
}

/// Executable form of [`md_name`].
pub fn md_file_name(stem: &str) -> (r: String)
    ensures
        r@ == md_name(stem@),
{
    String::from_str(stem).concat(".md")
}

/// A temporary name never collides with the name it serves: it is longer.
pub proof fn lemma_tmp_name_distinct(name: Seq<char>)
    ensures
        tmp_name(name) != name,
{
    reveal_strlit(".tmp");
    assert(tmp_name(name).len() == name.len() + 4);
}

} // verus!
