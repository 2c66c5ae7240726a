//! Paths as lists of components, and the rules that map a source path to
//! the path of its JSON output.
//!
//! A path is held as the sequence of its components (`["data", "a.toml"]`);
//! the caller splits and joins them with its platform's separator.

use vstd::prelude::*;

verus! {

/// The components of a path, as text.
pub open spec fn parts_view(p: Vec<String>) -> Seq<Seq<char>> {
    p.deep_view()
}

/// Index of the last `.` in `n`, or -1 where it holds none.
pub open spec fn last_dot(n: Seq<char>) -> int
    decreases n.len(),
{
    if n.len() == 0 {
        -1
    } else if n.last() == '.' {
        n.len() - 1
    } else {
        last_dot(n.drop_last())
    }
}

/// The extension of a file name: what follows its last `.`, where that `.`
/// is not the name's first character.
pub open spec fn file_extension(n: Seq<char>) -> Option<Seq<char>> {
    if last_dot(n) > 0 {
        Some(n.subrange(last_dot(n) + 1, n.len() as int))
    } else {
        None
    }
}

/// A file name without its extension.
pub open spec fn file_stem(n: Seq<char>) -> Seq<char> {
    if last_dot(n) > 0 {
        n.subrange(0, last_dot(n))
    } else {
        n
    }
}

pub open spec fn toml_extension() -> Seq<char> {
    seq!['t', 'o', 'm', 'l']
}

pub open spec fn json_suffix() -> Seq<char> {
    seq!['.', 'j', 's', 'o', 'n']
}

/// The name of the JSON file made from a file named `n`: its extension,
/// if any, replaced by `json`.
pub open spec fn json_name(n: Seq<char>) -> Seq<char> {
    file_stem(n) + json_suffix()
}

/// A component that names an entry: not empty, not `.` or `..`, and
/// holding no separator.
pub open spec fn is_name(c: Seq<char>) -> bool {
    &&& c.len() > 0
    &&& c != seq!['.']
    &&& c != seq!['.', '.']
    &&& forall|i: int| 0 <= i < c.len() ==> #[trigger] c[i] != '/' && c[i] != '\\'
}

/// The last component of a path, where it names an entry.
pub open spec fn file_name(p: Seq<Seq<char>>) -> Option<Seq<char>> {
    if p.len() > 0 && is_name(p.last()) {
        Some(p.last())
    } else {
        None
    }
}

/// A path with the extension of its file name replaced by `json`; a path
/// that ends in no file name stays as it is.
pub open spec fn with_json_extension(p: Seq<Seq<char>>) -> Seq<Seq<char>> {
    match file_name(p) {
        Some(n) => p.drop_last().push(json_name(n)),
        None => p,
    }
}

proof fn lemma_last_dot_prefix(n: Seq<char>, j: int)
    requires
        0 < j <= n.len(),
        n[j - 1] != '.',
    ensures
        last_dot(n.subrange(0, j)) == last_dot(n.subrange(0, j - 1)),
{
    assert(n.subrange(0, j).drop_last() =~= n.subrange(0, j - 1));
}

fn last_dot_index(n: &str) -> (r: Option<usize>)
    ensures
        match r {
            Some(i) => last_dot(n@) == i as int && i < n@.len(),
            None => last_dot(n@) == -1,
        },
{
    let len = n.unicode_len();
    let mut j: usize = len;
    assert(n@.subrange(0, len as int) =~= n@);
    while j > 0
        invariant
            len == n@.len(),
            j <= len,
            last_dot(n@) == last_dot(n@.subrange(0, j as int)),
        decreases j,
    {
        if n.get_char(j - 1) == '.' {
            return Some(j - 1);
        }
        proof {
            lemma_last_dot_prefix(n@, j as int);
        }
        j = j - 1;
    }
    None
}

/// Whether a file name has the extension `toml` (compared exactly, case
/// included).
pub fn is_toml_name(n: &str) -> (r: bool)
    ensures
        r == (file_extension(n@) == Some(toml_extension())),
{
    let len = n.unicode_len();
    match last_dot_index(n) {
        Some(i) => {
            if i == 0 || len - i != 5 {
                proof {
                    if i > 0 {
                        assert(n@.subrange(i + 1, len as int).len() != 4);
                    }
                }
                return false;
            }
            let ext = n.substring_char(i + 1, len);
            let r = ext.get_char(0) == 't' && ext.get_char(1) == 'o' && ext.get_char(2) == 'm'
                && ext.get_char(3) == 'l';
            proof {
                if r {
                    assert(ext@ =~= toml_extension());
                } else {
                    assert(ext@ != toml_extension());
                }
            }
            r
        },
        None => false,
    }
}

/// The JSON file name for a file named `n`: `a.toml` gives `a.json`,
/// `a` gives `a.json`, `.cfg` gives `.cfg.json`.
pub fn json_file_name(n: &str) -> (r: String)
    ensures
        r@ == json_name(n@),
{
    let stem = match last_dot_index(n) {
        Some(i) => {
            if i > 0 {
                n.substring_char(0, i)
            } else {
                n
            }
        },
        None => n,
    };
    let mut r = String::from_str(stem);
    r.append(".json");
    proof {
        reveal_strlit(".json");
        assert(".json"@ =~= json_suffix());
    }
    r
}

fn is_name_exec(c: &str) -> (r: bool)
    ensures
        r == is_name(c@),
{
    let len = c.unicode_len();
    if len == 0 {
        return false;
    }
    if c.get_char(0) == '.' && (len == 1 || (len == 2 && c.get_char(1) == '.')) {
        proof {
            if len == 1 {
                assert(c@ =~= seq!['.']);
            } else {
                assert(c@ =~= seq!['.', '.']);
            }
        }
        return false;
    }
    let mut i: usize = 0;
    while i < len
        invariant
            len == c@.len(),
            i <= len,
            forall|k: int| 0 <= k < i ==> #[trigger] c@[k] != '/' && c@[k] != '\\',
        decreases len - i,
    {
        let ch = c.get_char(i);
        if ch == '/' || ch == '\\' {
            return false;
        }
        i = i + 1;
    }
    proof {
        if c@ == seq!['.'] {
            assert(c@[0] == '.');
        }
        if c@ == seq!['.', '.'] {
            assert(c@[0] == '.' && c@[1] == '.');
        }
    }
    true
}

/// A copy of the first `n` components of a path.
fn prefix_parts(p: &Vec<String>, n: usize) -> (r: Vec<String>)
    requires
        n <= p.len(),
    ensures
        r.deep_view() == p.deep_view().subrange(0, n as int),
        n == p.len() ==> r.deep_view() == p.deep_view(),
{
    let mut r: Vec<String> = Vec::new();
    let mut i: usize = 0;
    while i < n
        invariant
            n <= p.len(),
            i <= n,
            r.deep_view() =~= p.deep_view().subrange(0, i as int),
        decreases n - i,
    {
        let ghost before = r.deep_view();
        r.push(p[i].clone());
        assert(r.deep_view() =~= before.push(p.deep_view()[i as int]));
        i = i + 1;
    }
    assert(n == p.len() ==> p.deep_view().subrange(0, n as int) =~= p.deep_view());
    r
}

/// The path made of the components of `a` followed by those of `b`.
pub fn join(a: &Vec<String>, b: &Vec<String>) -> (r: Vec<String>)
    ensures
        r.deep_view() == a.deep_view() + b.deep_view(),
{
    let mut r = prefix_parts(a, a.len());
    let mut i: usize = 0;
    while i < b.len()
        invariant
            r.deep_view() =~= a.deep_view() + b.deep_view().subrange(0, i as int),
            i <= b.len(),
        decreases b.len() - i,
    {
        let ghost before = r.deep_view();
        r.push(b[i].clone());
        assert(r.deep_view() =~= before.push(b.deep_view()[i as int]));
        i = i + 1;
    }
    r
}

/// `p` with its file name's extension replaced by `json`
/// (`dir/config.toml` gives `dir/config.json`).
pub fn set_json_extension(p: &Vec<String>) -> (r: Vec<String>)
    ensures
        r.deep_view() == with_json_extension(p.deep_view()),
{
    let n = p.len();
    if n == 0 || !is_name_exec(p[n - 1].as_str()) {
        return prefix_parts(p, n);
    }
    let mut r = prefix_parts(p, n - 1);
    r.push(json_file_name(p[n - 1].as_str()));
    r
}

/// What a `<SOURCE>` or `[TARGET]` path turned out to be on disk.
#[derive(Debug, Clone, Copy, PartialEq, Eq, Structural)]
pub enum PathType {
    File,
    Folder,
    /// Nothing exists at the path (yet).
    Absent,
}

/// Why a source / target pair was refused before any conversion.
#[derive(Debug, Clone, Copy, PartialEq, Eq)]
pub enum PathError {
    /// The source is neither a file nor a folder.
    SourceNotFound,
    /// A folder source was given an existing file as its target.
    KindMismatch,
    /// A file source whose path ends in no file name.
    NoFileName,
}

/// Classifies the `<SOURCE>` argument from what the file system reports of it.
pub fn parse_source(is_file: bool, is_dir: bool) -> (r: Result<PathType, PathError>)
    ensures
        r == if is_file {
            Ok(PathType::File)
        } else if is_dir {
            Ok(PathType::Folder)
        } else {
            Err(PathError::SourceNotFound)
        },
{
    if is_file {
        Ok(PathType::File)
    } else if is_dir {
        Ok(PathType::Folder)
    } else {
        Err(PathError::SourceNotFound)
    }
}

/// Where the output goes for a source path of kind `source_type`, given the
/// optional target path and what exists at it.
pub open spec fn resolved_target(
    source: Seq<Seq<char>>,
    source_type: PathType,
    target: Option<Seq<Seq<char>>>,
    target_type: PathType,
) -> Result<Seq<Seq<char>>, PathError> {
    match (source_type, target) {
        (PathType::Absent, _) => Err(PathError::SourceNotFound),
        (PathType::File, None) => Ok(with_json_extension(source)),
        (PathType::Folder, None) => Ok(source),
        (PathType::File, Some(t)) => if target_type == PathType::Folder {
            match file_name(source) {
                Some(n) => Ok(t.push(json_name(n))),
                None => Err(PathError::NoFileName),
            }
        } else {
            Ok(t)
        },
        (PathType::Folder, Some(t)) => if target_type == PathType::File {
            Err(PathError::KindMismatch)
        } else {
            Ok(t)
        },
    }
}

/// Resolves the `[TARGET]` argument against the source.
///
/// With no target, a file source is written beside itself with the `json`
/// extension and a folder source into itself. A file source with an existing
/// folder as target is written into that folder under its JSON name. A
/// folder source with an existing file as target is refused. Any other
/// target is taken as it is; a folder target that does not exist yet is
/// created by the caller.
pub fn parse_target(
    source: &Vec<String>,
    source_type: PathType,
    target: Option<&Vec<String>>,
    target_type: PathType,
) -> (r: Result<Vec<String>, PathError>)
    ensures
        match r {
            Ok(p) => resolved_target(
                source.deep_view(),
                source_type,
                match target {
                    Some(t) => Some(t.deep_view()),
                    None => None,
                },
                target_type,
            ) == Ok::<Seq<Seq<char>>, PathError>(p.deep_view()),
            Err(e) => resolved_target(
                source.deep_view(),
                source_type,
                match target {
                    Some(t) => Some(t.deep_view()),
                    None => None,
                },
                target_type,
            ) == Err::<Seq<Seq<char>>, PathError>(e),
        },
{
    match (source_type, target) {
        (PathType::Absent, _) => Err(PathError::SourceNotFound),
        (PathType::File, None) => Ok(set_json_extension(source)),
        (PathType::Folder, None) => Ok(prefix_parts(source, source.len())),
        (PathType::File, Some(t)) => {
            if target_type == PathType::Folder {
                let n = source.len();
                if n == 0 || !is_name_exec(source[n - 1].as_str()) {
                    return Err(PathError::NoFileName);
                }
                let mut r = prefix_parts(t, t.len());
                let ghost before = r.deep_view();
                r.push(json_file_name(source[n - 1].as_str()));
                assert(r.deep_view() =~= before.push(json_name(source.deep_view().last())));
                Ok(r)
            } else {
                Ok(prefix_parts(t, t.len()))
            }
        },
        (PathType::Folder, Some(t)) => {
            if target_type == PathType::File {
                Err(PathError::KindMismatch)
            } else {
                Ok(prefix_parts(t, t.len()))
            }
        },
    }
}

} // verus!
