//! The markdown files among the paths of a directory tree, in order.
use vstd::prelude::*;
use crate::picker::strings_view;

verus! {

/// The extension of the path `path` (`Path::extension`), if it has one.
pub uninterp spec fn path_extension(path: Seq<char>) -> Option<Seq<char>>;

/// `Path::extension`: the part of the file name after its last `.`, `None`
/// where the file name has no `.` past its first character or the path has
/// no file name. `Path` reads the text of the path by the separator rules of
/// the platform the program is built for, and by nothing else.
#[verifier::external_body]
fn extension(path: &str) -> (r: Option<String>)
    ensures
        r matches Some(e) ==> path_extension(path@) == Some(e@),
        r is None ==> path_extension(path@) is None,
{
    match std::path::Path::new(path).extension() {
        Some(e) => Some(e.to_string_lossy().to_string()),
        None => None,
    }
}

/// Whether the text `a` comes before the text `b`: at the first character
/// where they differ, `a` has the smaller one, or `a` is a beginning of `b`
/// (the order of `String`, by UTF-8 bytes, which orders characters as their
/// code points).
pub open spec fn text_lt(a: Seq<char>, b: Seq<char>) -> bool
    decreases a.len(),
{
    if a.len() == 0 {
        b.len() > 0
    } else if b.len() == 0 {
        false
    } else if a[0] != b[0] {
        (a[0] as u32) < (b[0] as u32)
    } else {
        text_lt(a.drop_first(), b.drop_first())
    }
}

/// `slice::sort` of `String`s: the same strings, each as often, in the
/// order of `String` (lexicographic by bytes, a total order, so no string
/// comes after one that orders before it).
#[verifier::external_body]
fn sort_strings(v: &mut Vec<String>)
    ensures
        strings_view(final(v)@).to_multiset() == strings_view(old(v)@).to_multiset(),
        forall|i: int, j: int|
            0 <= i < j < final(v)@.len() ==> !text_lt(
                #[trigger] final(v)@[j]@,
                #[trigger] final(v)@[i]@,
            ),
{
    v.sort();
}

/// A markdown file: its extension is `md` or `markdown`.
pub open spec fn is_markdown_path(p: Seq<char>) -> bool {
    match path_extension(p) {
        Some(e) => e == seq!['m', 'd'] || e == seq!['m', 'a', 'r', 'k', 'd', 'o', 'w', 'n'],
        None => false,
    }
}

/// The markdown files among `paths`, in the order given.
pub open spec fn markdown_paths(paths: Seq<Seq<char>>) -> Seq<Seq<char>> {
    paths.filter(|p: Seq<char>| is_markdown_path(p))
}

/// The markdown files among `paths` (see `is_markdown_path`), each as often
/// as it is given, sorted as texts (see `text_lt`).
pub fn markdown_files(paths: Vec<String>) -> (r: Vec<String>)
    ensures
        strings_view(r@).to_multiset() == markdown_paths(strings_view(paths@)).to_multiset(),
        forall|i: int, j: int| 0 <= i < j < r@.len() ==> !text_lt(#[trigger] r@[j]@, #[trigger] r@[i]@),
{
    let ghost sv = strings_view(paths@);
    let mut out: Vec<String> = Vec::new();
    let mut i: usize = 0;
    proof {
        assert(sv.take(0) =~= Seq::<Seq<char>>::empty());
        reveal(Seq::filter);
        assert(markdown_paths(sv.take(0)) =~= Seq::<Seq<char>>::empty());
        assert(strings_view(out@) =~= Seq::<Seq<char>>::empty());
    }
    while i < paths.len()
        invariant
            i <= paths.len(),
            sv == strings_view(paths@),
            strings_view(out@) == markdown_paths(sv.take(i as int)),
        decreases paths.len() - i,
    {
        let keep = match extension(paths[i].as_str()) {
            Some(e) => crate::text::str_eq(e.as_str(), "md") || crate::text::str_eq(
                e.as_str(),
                "markdown",
            ),
            None => false,
        };
        proof {
            reveal_strlit("md");
            reveal_strlit("markdown");
            assert("md"@ =~= seq!['m', 'd']);
            assert("markdown"@ =~= seq!['m', 'a', 'r', 'k', 'd', 'o', 'w', 'n']);
            assert(sv.take(i + 1).drop_last() =~= sv.take(i as int));
            assert(sv.take(i + 1).last() == paths@[i as int]@);
            assert(keep == is_markdown_path(paths@[i as int]@));
            reveal(Seq::filter);
            assert(markdown_paths(sv.take(i + 1)) == if is_markdown_path(paths@[i as int]@) {
                markdown_paths(sv.take(i as int)).push(paths@[i as int]@)
            } else {
                markdown_paths(sv.take(i as int))
            });
        }
        if keep {
            let ghost before = out@;
            out.push(paths[i].clone());
            proof {
                assert(out@[out@.len() - 1]@ == paths@[i as int]@);
                assert(strings_view(out@) =~= strings_view(before).push(paths@[i as int]@));
            }
        }
        i = i + 1;
    }
    proof {
        assert(sv.take(paths.len() as int) =~= sv);
    }
    sort_strings(&mut out);
    out
}

} // verus!
