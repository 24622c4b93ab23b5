//! How the output path is chosen when the user names none.

use vstd::prelude::*;
use vstd::string::StrSliceExecFns;
use vstd::string::StringExecFns;

verus! {

/// The index of the first `.` of `name` at or after `from`, or the length of
/// `name` where there is none.
pub open spec fn first_dot_from(name: Seq<char>, from: int) -> int
    decreases name.len() - from,
{
    if from < 0 || from >= name.len() {
        name.len() as int
    } else if name[from] == '.' {
        from
    } else {
        first_dot_from(name, from + 1)
    }
}

/// The index of the last `.` of `name` before `end` that is not its first
/// character, or 0 where there is none.
pub open spec fn last_dot_before(name: Seq<char>, end: int) -> int
    decreases end,
{
    if end <= 1 || end > name.len() {
        0
    } else if name[end - 1] == '.' {
        end - 1
    } else {
        last_dot_before(name, end - 1)
    }
}

/// The stem of a file name: what stands before its first `.`. A `.` at the
/// very front belongs to the stem, as in `.profile`.
pub open spec fn stem_of(name: Seq<char>) -> Seq<char> {
    name.take(first_dot_from(name, 1))
}

/// The extension of a file name: what follows its last `.`, if it has one
/// that is not its first character.
pub open spec fn extension_of(name: Seq<char>) -> Option<Seq<char>> {
    let dot = last_dot_before(name, name.len() as int);
    if dot == 0 {
        None
    } else {
        Some(name.skip(dot + 1))
    }
}

/// The name under which the file called `name` is decompressed: its stem,
/// then `_decompressed`, then its extension behind a `.` if it has one.
///
/// The extension kept is that of the compressed file, so `notes.txt.gz`
/// becomes `notes_decompressed.gz`.
pub open spec fn decompressed_name(name: Seq<char>) -> Seq<char> {
    let suffix = match extension_of(name) {
        Some(ext) => "."@ + ext,
        None => Seq::empty(),
    };
    stem_of(name) + "_decompressed"@ + suffix
}

/// The path to which `input` is compressed: `input` with `.gz` behind it.
pub open spec fn compressed_path(input: Seq<char>) -> Seq<char> {
    input + ".gz"@
}

/// The first `.` at or after `from` is where the definition says: nothing
/// between `from` and it is a `.`, and it is one unless the name ran out.
pub proof fn lemma_first_dot(name: Seq<char>, from: int)
    requires
        0 <= from <= name.len(),
    ensures
        from <= first_dot_from(name, from) <= name.len(),
        first_dot_from(name, from) < name.len() ==> name[first_dot_from(name, from)] == '.',
        forall|i: int| from <= i < first_dot_from(name, from) ==> name[i] != '.',
    decreases name.len() - from,
{
    if from < name.len() && name[from] != '.' {
        lemma_first_dot(name, from + 1);
    }
}

/// The last `.` before `end` is where the definition says: nothing between
/// it and `end` is a `.`, and it is one unless it is 0, which says that only
/// the first character, if any, is a `.`.
pub proof fn lemma_last_dot(name: Seq<char>, end: int)
    requires
        0 <= end <= name.len(),
    ensures
        0 <= last_dot_before(name, end),
        last_dot_before(name, end) > 0 ==> last_dot_before(name, end) < end && name[last_dot_before(
            name,
            end,
        )] == '.',
        forall|i: int| last_dot_before(name, end) < i < end && i >= 1 ==> name[i] != '.',
    decreases end,
{
    if end > 1 && name[end - 1] != '.' {
        lemma_last_dot(name, end - 1);
    }
}

/// The path to which `input` is compressed when the user names none.
pub fn default_compressed_path(input: &str) -> (path: String)
    ensures
        path@ == compressed_path(input@),
{
    let mut path = String::from_str(input);
    path.append(".gz");
    path
}

/// The name under which the file called `name` is decompressed when the user
/// names none.
pub fn decompressed_file_name(name: &str) -> (out: String)
    ensures
        out@ == decompressed_name(name@),
{
    let n: usize = name.unicode_len();
    let mut first: usize = if n < 1 {
        n
    } else {
        1
    };
    while first < n && name.get_char(first) != '.'
        invariant
            n == name@.len(),
            1 <= first <= n || (n == 0 && first == 0),
            first_dot_from(name@, 1) == first_dot_from(name@, first as int),
        decreases n - first,
    {
        first = first + 1;
    }
    let mut end: usize = n;
    while end > 1 && name.get_char(end - 1) != '.'
        invariant
            n == name@.len(),
            end <= n,
            last_dot_before(name@, n as int) == last_dot_before(name@, end as int),
        decreases end,
    {
        end = end - 1;
    }
    let mut out = String::from_str(name.substring_char(0, first));
    out.append("_decompressed");
    if end > 1 {
        out.append(".");
        out.append(name.substring_char(end, n));
    }
    proof {
        assert(name@.subrange(0, first as int) == name@.take(first as int));
        if end > 1 {
            assert(name@.subrange(end as int, n as int) == name@.skip(end as int));
            assert(out@ == stem_of(name@) + "_decompressed"@ + ("."@ + name@.skip(end as int)));
        } else {
            assert(out@ == stem_of(name@) + "_decompressed"@ + Seq::<char>::empty());
        }
    }
    out
}

/// Whether `path` is a bare file name: it is not empty, it is neither `.` nor
/// `..`, and it holds none of `/`, `\` and `:`. Such a path is its own final
/// component on every platform.
pub open spec fn plain_name(path: Seq<char>) -> bool {
    &&& path.len() > 0
    &&& path != seq!['.']
    &&& path != seq!['.', '.']
    &&& forall|i: int| 0 <= i < path.len() ==> path[i] != '/' && path[i] != '\\' && path[i] != ':'
}

/// Whether `path` is one of the paths that have no final component on any
/// platform: the empty path, `.`, `..` and `/`.
pub open spec fn no_component(path: Seq<char>) -> bool {
    ||| path.len() == 0
    ||| path == seq!['.']
    ||| path == seq!['.', '.']
    ||| path == seq!['/']
}

/// Where the text after the last `/` before `end` begins: behind that `/`,
/// or at 0 where there is none.
pub open spec fn tail_start(path: Seq<char>, end: int) -> int
    decreases end,
{
    if end <= 0 || end > path.len() {
        0
    } else if path[end - 1] == '/' {
        end
    } else {
        tail_start(path, end - 1)
    }
}

/// The text after the last `/` of `path`: all of it where it holds none.
pub open spec fn tail_of(path: Seq<char>) -> Seq<char> {
    path.skip(tail_start(path, path.len() as int))
}

/// Whether `path` ends in a bare file name that every platform takes for
/// its final component: the text after its last `/` is a bare file name, it
/// holds no `\` and no `:`, and it does not begin with `//`.
pub open spec fn named_tail(path: Seq<char>) -> bool {
    &&& plain_name(tail_of(path))
    &&& forall|i: int| 0 <= i < path.len() ==> path[i] != '\\' && path[i] != ':'
    &&& !(path.len() >= 2 && path[0] == '/' && path[1] == '/')
}

/// A bare file name is its own tail.
pub proof fn lemma_plain_name_is_tail(path: Seq<char>)
    requires
        plain_name(path),
    ensures
        named_tail(path),
        tail_of(path) == path,
{
    lemma_no_slash_no_tail(path, path.len() as int);
    assert(path.skip(0) == path);
}

proof fn lemma_no_slash_no_tail(path: Seq<char>, end: int)
    requires
        0 <= end <= path.len(),
        forall|i: int| 0 <= i < path.len() ==> path[i] != '/',
    ensures
        tail_start(path, end) == 0,
    decreases end,
{
    if end > 0 {
        lemma_no_slash_no_tail(path, end - 1);
    }
}

/// Calls `std::path::Path::file_name` on `path` and hands the name back as a
/// string.
///
/// Trusted: where the text after the last `/` is a bare file name, and the
/// path holds neither `\` nor `:` and does not begin with `//`, that text
/// is the final component. The empty path, `.`, `..` and `/` have none. Of
/// every other path nothing is claimed: what counts as its final component
/// depends on the platform.
#[verifier::external_body]
fn final_component(path: &str) -> (name: Option<String>)
    ensures
        name matches Some(n) ==> (named_tail(path@) ==> n@ == tail_of(path@)),
        name is None ==> !named_tail(path@),
        name is Some ==> !no_component(path@),
{
    match std::path::Path::new(path).file_name() {
        Some(name) => match name.to_str() {
            Some(text) => Some(text.to_owned()),
            None => None,
        },
        None => None,
    }
}

/// The name under which a file is decompressed, given the final component
/// of its path: `None` where the path has no final component.
pub fn decompressed_name_for(component: Option<String>) -> (out: Option<String>)
    ensures
        match component {
            Some(name) => out matches Some(o) && o@ == decompressed_name(name@),
            None => out is None,
        },
{
    match component {
        Some(name) => Some(decompressed_file_name(name.as_str())),
        None => None,
    }
}

/// The path to which `input` is decompressed when the user names none: the
/// decompressed name of the final component of `input`, without its
/// directory. `None` where `input` has no final component, as `/` and `..`
/// have none.
///
/// Where `input` ends in a bare file name behind its last `/`, the result is
/// the decompressed name of that file name. Where `\` or `:` stands in the
/// path, which part is the final component is for the platform to say.
pub fn default_decompressed_path(input: &str) -> (path: Option<String>)
    ensures
        named_tail(input@) ==> (path matches Some(p) && p@ == decompressed_name(tail_of(input@))),
        plain_name(input@) ==> (path matches Some(p) && p@ == decompressed_name(input@)),
        no_component(input@) ==> path is None,
        path matches Some(p) ==> exists|name: Seq<char>| p@ == decompressed_name(name),
{
    proof {
        if plain_name(input@) {
            lemma_plain_name_is_tail(input@);
        }
    }
    decompressed_name_for(final_component(input))
}

/// The path to which `input` is compressed: the one the user named, or else
/// the default.
pub fn compress_output_path(input: &str, output: Option<String>) -> (path: String)
    ensures
        path@ == match output {
            Some(named) => named@,
            None => compressed_path(input@),
        },
{
    match output {
        Some(named) => named,
        None => default_compressed_path(input),
    }
}

/// The path to which `input` is decompressed: the one the user named, or
/// else the default, which exists only where `input` has a final component.
pub fn decompress_output_path(input: &str, output: Option<String>) -> (path: Option<String>)
    ensures
        output matches Some(named) ==> (path matches Some(p) && p@ == named@),
        output is None && named_tail(input@) ==> (path matches Some(p) && p@ == decompressed_name(
            tail_of(input@),
        )),
        output is None && plain_name(input@) ==> (path matches Some(p) && p@ == decompressed_name(
            input@,
        )),
        output is None && no_component(input@) ==> path is None,
        output is None && path is Some ==> exists|name: Seq<char>|
            path.unwrap()@ == decompressed_name(name),
{
    match output {
        Some(named) => Some(named),
        None => default_decompressed_path(input),
    }
}

} // verus!
