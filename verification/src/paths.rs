//! WebDAV paths and file names: a note `title` with syntax `syntax` is the
//! file `title.syntax`; a path is a `/`-separated list of percent-encoded
//! folder names ending in a folder or a file name.

use vstd::prelude::*;
use crate::text::{
    trim_both,
    split_by,
    last_index_of,
    lemma_last_index_of,
    chars_of,
    string_of,
    rfind_char,
    trim_matches,
    split_by_chars,
    push_char,
};

verus! {

/// What a file name stands for: the title before its last `.` and the
/// syntax after it; `None` for a name without a `.`.
pub open spec fn spec_parse_filename(name: Seq<char>) -> Option<(Seq<char>, Seq<char>)> {
    match last_index_of(name, '.') {
        Some(i) => Some((name.take(i), name.skip(i + 1))),
        None => None,
    }
}

/// The file name under which a note is listed: `title.syntax`.
pub open spec fn note_file_name_of(title: Seq<char>, syntax: Seq<char>) -> Seq<char> {
    title + seq!['.'] + syntax
}

/// Splits a file name like `note.md` into its title `note` and syntax `md`,
/// at the last `.`; `None` for a name without a `.`.
pub fn parse_filename(name: &str) -> (r: Option<(String, String)>)
    ensures
        r is None <==> spec_parse_filename(name@) is None,
        r matches Some((t, x)) ==> spec_parse_filename(name@) == Some((t@, x@)),
{
    let v = chars_of(name);
    match rfind_char(&v, '.') {
        Some(i) => {
            proof {
                lemma_last_index_of(v@, '.');
            }
            let title = string_of(&v, 0, i);
            let syntax = string_of(&v, i + 1, v.len());
            proof {
                assert(v@.take(i as int) =~= v@.subrange(0, i as int));
                assert(v@.skip(i + 1) =~= v@.subrange(i + 1, v@.len() as int));
            }
            Some((title, syntax))
        },
        None => None,
    }
}

/// The name under which a note is listed in its folder: `title.syntax`.
pub fn note_file_name(title: &str, syntax: &str) -> (r: String)
    ensures
        r@ == note_file_name_of(title@, syntax@),
{
    let t = chars_of(title);
    let x = chars_of(syntax);
    let mut r = string_of(&t, 0, t.len());
    push_char(&mut r, '.');
    let mut i: usize = 0;
    assert(t@.subrange(0, t@.len() as int) =~= t@);
    while i < x.len()
        invariant
            i <= x@.len(),
            x@ == syntax@,
            r@ == title@ + seq!['.'] + x@.take(i as int),
        decreases x@.len() - i,
    {
        push_char(&mut r, x[i]);
        i = i + 1;
        assert(r@ =~= title@ + seq!['.'] + x@.take(i as int));
    }
    assert(x@.take(x@.len() as int) =~= x@);
    r
}

/// A listed note name reads back as the note it was made from: parsing
/// `title.syntax` gives `title` and `syntax` again, provided the syntax holds
/// no `.` (the title may hold any).
pub proof fn lemma_note_file_name_round_trip(title: Seq<char>, syntax: Seq<char>)
    requires
        !syntax.contains('.'),
    ensures
        spec_parse_filename(note_file_name_of(title, syntax)) == Some((title, syntax)),
{
    let n = note_file_name_of(title, syntax);
    let i = title.len() as int;
    assert(n[i] == '.');
    lemma_last_index_of(n, '.');
    match last_index_of(n, '.') {
        Some(j) => {
            if j > i {
                assert(n[j] == syntax[j - i - 1]);
                assert(syntax.contains('.'));
            }
            if j < i {
                assert(i < n.len());
            }
            assert(j == i);
            assert(n.take(i) =~= title);
            assert(n.skip(i + 1) =~= syntax);
        },
        None => {},
    }
}

/// A file name that parses is the listing name of what it parses to, and its
/// syntax holds no `.`.
pub proof fn lemma_parse_filename_inverse(name: Seq<char>)
    ensures
        spec_parse_filename(name) matches Some((t, x)) ==> {
            &&& note_file_name_of(t, x) == name
            &&& !x.contains('.')
        },
{
    lemma_last_index_of(name, '.');
    if let Some(i) = last_index_of(name, '.') {
        let t = name.take(i);
        let x = name.skip(i + 1);
        assert(note_file_name_of(t, x) =~= name);
        if x.contains('.') {
            let k = choose|k: int| 0 <= k < x.len() && x[k] == '.';
            assert(name[i + 1 + k] == '.');
        }
    }
}

/// What `percent_encoding::percent_decode_str(s).decode_utf8_lossy()` gives
/// for `s`: every `%` followed by two hexadecimal digits replaced by the byte
/// they encode, and byte sequences that are not UTF-8 replaced by U+FFFD.
pub uninterp spec fn percent_decoded(s: Seq<char>) -> Seq<char>;

/// `percent_encoding::percent_decode_str(s).decode_utf8_lossy()`, as an owned
/// string. Its result is named by `percent_decoded`; a text without `%` comes
/// back unchanged, as the crate's source shows.
#[verifier::external_body]
fn percent_decode(s: &str) -> (r: String)
    ensures
        r@ == percent_decoded(s@),
        !s@.contains('%') ==> r@ == s@,
{
    percent_encoding::percent_decode_str(s).decode_utf8_lossy().to_string()
}

/// The folder and file names of a URL path: the path without leading and
/// trailing `/`, split at each `/`, each piece percent-decoded; `None` for
/// the root (a path of `/`s only, or the empty path).
pub open spec fn spec_path_components(path: Seq<char>) -> Option<Seq<Seq<char>>> {
    let trimmed = trim_both(path, '/');
    if trimmed.len() == 0 {
        None
    } else {
        Some(split_by(trimmed, seq!['/']).map_values(|c: Seq<char>| percent_decoded(c)))
    }
}

/// The percent-decoded names along a URL path, or `None` for the root.
pub fn url_path_components(path: &str) -> (r: Option<Vec<String>>)
    ensures
        r is None <==> spec_path_components(path@) is None,
        r matches Some(v) ==> {
            &&& spec_path_components(path@) matches Some(c)
            &&& v@.len() == c.len()
            &&& forall|k: int| 0 <= k < v@.len() ==> #[trigger] v@[k]@ == c[k]
        },
        r matches Some(v) ==> v@.len() >= 1,
{
    let trimmed = trim_matches(path, '/');
    if trimmed.as_str().unicode_len() == 0 {
        return None;
    }
    let seps = vec!['/'];
    assert(seps@ =~= seq!['/']);
    let raw = split_by_chars(trimmed.as_str(), &seps);
    let ghost pieces = split_by(trim_both(path@, '/'), seq!['/']);
    proof {
        lemma_split_by_nonempty(trim_both(path@, '/'), seq!['/']);
    }
    let mut out: Vec<String> = Vec::new();
    let mut i: usize = 0;
    while i < raw.len()
        invariant
            raw@.len() == pieces.len(),
            forall|k: int| 0 <= k < raw@.len() ==> #[trigger] raw@[k]@ == pieces[k],
            i <= raw@.len(),
            out@.len() == i,
            forall|k: int| 0 <= k < i ==> #[trigger] out@[k]@ == percent_decoded(pieces[k]),
        decreases raw@.len() - i,
    {
        let d = percent_decode(raw[i].as_str());
        out.push(d);
        i = i + 1;
    }
    Some(out)
}

/// Splitting gives at least one piece.
pub proof fn lemma_split_by_nonempty(s: Seq<char>, seps: Seq<char>)
    ensures
        split_by(s, seps).len() >= 1,
    decreases s.len(),
{
    if s.len() > 0 {
        lemma_split_by_nonempty(s.drop_last(), seps);
    }
}

} // verus!
