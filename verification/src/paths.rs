//! Where notes are kept: from names to file names and paths.
use crate::text::{chars_of, copy_of, fit, fit_len, joined, text_between};
use vstd::prelude::*;

verus! {

/// How many bytes a note key may take: a file name holds at most 255, and `.md` is added.
pub const MAX_KEY_BYTES: usize = 252;

/// The character that stands in a file name for `c`. A separator would start a new path
/// component, and a control character would break the one-line-per-file listing.
pub open spec fn flat_char(c: char) -> char {
    if c == '/' || (c as u32) < 0x20 || c as u32 == 0x7f {
        '-'
    } else {
        c
    }
}

/// The name as a single visible path component. It is not empty and does not begin with a dot,
/// because listings skip hidden files.
pub open spec fn flat_name(name: Seq<char>) -> Seq<char> {
    if name.len() == 0 {
        seq!['-']
    } else {
        let flat = name.map_values(|c: char| flat_char(c));
        if name[0] == '.' {
            flat.update(0, '-')
        } else {
            flat
        }
    }
}

/// The note key of a name: the name of its note file without the extension.
pub open spec fn note_key(name: Seq<char>) -> Seq<char> {
    fit(flat_name(name), MAX_KEY_BYTES as nat)
}

/// The directory that holds the notes of a session.
pub open spec fn session_path(notes_dir: Seq<char>, session: Seq<char>) -> Seq<char> {
    notes_dir.push('/') + note_key(session)
}

/// The extension of note files.
pub open spec fn extension() -> Seq<char> {
    seq!['.', 'm', 'd']
}

/// The file that holds the note with the given key.
pub open spec fn key_path(notes_dir: Seq<char>, session: Seq<char>, key: Seq<char>) -> Seq<char> {
    session_path(notes_dir, session).push('/') + key + extension()
}

fn flat(c: char) -> (r: char)
    ensures
        r == flat_char(c),
{
    if c == '/' || (c as u32) < 0x20 || c as u32 == 0x7f {
        '-'
    } else {
        c
    }
}

/// The note key of a tab or session name.
pub fn sanitize_tab_name(name: &str) -> (key: String)
    ensures
        key@ == note_key(name@),
{
    let v = chars_of(name);
    let mut out: Vec<char> = Vec::new();
    if v.len() == 0 {
        out.push('-');
    } else {
        let mut i: usize = 0;
        while i < v.len()
            invariant
                i <= v@.len(),
                out@ == v@.map_values(|c: char| flat_char(c)).take(i as int),
            decreases v@.len() - i,
        {
            out.push(flat(v[i]));
            i += 1;
            assert(out@ =~= v@.map_values(|c: char| flat_char(c)).take(i as int));
        }
        assert(out@ =~= v@.map_values(|c: char| flat_char(c)));
        if v[0] == '.' {
            out.set(0, '-');
        }
    }
    assert(out@ =~= flat_name(name@));
    let n: usize = fit_len(&out, MAX_KEY_BYTES);
    let key = text_between(&out, 0, n);
    assert(key@ =~= out@.take(n as int));
    key
}

/// The directory that holds the notes of a session.
pub fn session_dir(notes_dir: &str, session: &str) -> (dir: String)
    ensures
        dir@ == session_path(notes_dir@, session@),
{
    let mut dir = copy_of(notes_dir);
    dir.push('/');
    joined(dir.as_str(), sanitize_tab_name(session).as_str())
}

/// The file that holds the note with the given key. The key is used as it is: it has been
/// sanitized once, and must not be sanitized again.
pub fn note_path_from_key(notes_dir: &str, session: &str, key: &str) -> (path: String)
    ensures
        path@ == key_path(notes_dir@, session@, key@),
{
    let mut path = session_dir(notes_dir, session);
    path.push('/');
    let mut path = joined(path.as_str(), key);
    path.push('.');
    path.push('m');
    path.push('d');
    assert(path@ =~= key_path(notes_dir@, session@, key@));
    path
}

/// The file that holds the note of the tab with the given clean name.
pub fn note_path(notes_dir: &str, session: &str, tab: &str) -> (path: String)
    ensures
        path@ == key_path(notes_dir@, session@, note_key(tab@)),
{
    note_path_from_key(notes_dir, session, sanitize_tab_name(tab).as_str())
}

} // verus!
