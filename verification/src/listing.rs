//! Reading the listing of a notes directory.
use crate::note_set::NoteSet;
use crate::paths::{extension, flat_name, key_path, note_key, session_path, MAX_KEY_BYTES};
use crate::text::{byte_len, chars_of, lemma_byte_len_push, lemma_fit, text_between};
use vstd::prelude::*;

verus! {

/// The tag of a line that names a file.
pub const FILE_TAG: char = 'P';

/// The tag of a line that names a file which counts as a note.
pub const NOTE_TAG: char = 'N';

/// What a listing says: which keys have a file, and which of those count as notes.
#[derive(Debug)]
pub struct Listing {
    pub occupied: NoteSet,
    pub notes: NoteSet,
}

/// The lines of a text.
pub open spec fn lines(text: Seq<char>) -> Seq<Seq<char>>
    decreases text.len(),
{
    if text.len() == 0 {
        seq![Seq::empty()]
    } else {
        let front = lines(text.drop_last());
        if text.last() == '\n' {
            front.push(Seq::empty())
        } else {
            front.drop_last().push(front.last().push(text.last()))
        }
    }
}

/// The last component of a path.
pub open spec fn file_name(path: Seq<char>) -> Seq<char>
    decreases path.len(),
{
    if path.len() == 0 || path.last() == '/' {
        Seq::empty()
    } else {
        file_name(path.drop_last()).push(path.last())
    }
}

/// The note key of a file, if it is a note file.
pub open spec fn path_key(path: Seq<char>) -> Option<Seq<char>> {
    let name = file_name(path);
    let n = name.len() - extension().len();
    if n >= 0 && name.skip(n) == extension() {
        Some(name.take(n))
    } else {
        None
    }
}

/// The note key that a line names under the given tag.
pub open spec fn line_key(line: Seq<char>, tag: char) -> Option<Seq<char>> {
    if line.len() > 0 && line[0] == tag {
        path_key(line.skip(1))
    } else {
        None
    }
}

/// The note keys that a listing names under the given tag.
pub open spec fn listed_keys(text: Seq<char>, tag: char) -> Set<Seq<char>> {
    Set::new(
        |key: Seq<char>|
            exists|i: int|
                0 <= i < lines(text).len() && line_key(#[trigger] lines(text)[i], tag) == Some(key),
    )
}

/// Where the last component of the first `end` characters begins.
fn name_start(v: &Vec<char>, from: usize, end: usize) -> (start: usize)
    requires
        from <= end <= v@.len(),
    ensures
        from <= start <= end,
        v@.subrange(start as int, end as int) == file_name(
            v@.subrange(from as int, end as int),
        ),
{
    let mut start: usize = end;
    let ghost path = v@.subrange(from as int, end as int);
    assert(v@.subrange(end as int, end as int) =~= Seq::<char>::empty());
    assert(path.take(end - from) =~= path);
    assert(file_name(path) =~= file_name(path) + Seq::<char>::empty());
    while start > from && v[start - 1] != '/'
        invariant
            from <= start <= end <= v@.len(),
            path == v@.subrange(from as int, end as int),
            file_name(path) == file_name(path.take(start - from)) + v@.subrange(
                start as int,
                end as int,
            ),
        ensures
            start == from || v@[start - 1] == '/',
        decreases start,
    {
        proof {
            let front = path.take(start - from);
            assert(front.last() == v@[start - 1]);
            assert(front.drop_last() =~= path.take(start - from - 1));
            assert(v@.subrange(start - 1, end as int) =~= seq![v@[start - 1]] + v@.subrange(
                start as int,
                end as int,
            ));
            assert(file_name(front) + v@.subrange(start as int, end as int) =~= file_name(
                front.drop_last(),
            ) + v@.subrange(start - 1, end as int));
        }
        start -= 1;
    }
    proof {
        let front = path.take(start - from);
        if start > from {
            assert(front.last() == v@[start - 1]);
        }
        assert(file_name(front) =~= Seq::<char>::empty());
        assert(file_name(path) =~= v@.subrange(start as int, end as int));
    }
    start
}

/// The note key of the path that stands between two positions.
fn key_between(v: &Vec<char>, from: usize, end: usize) -> (key: Option<String>)
    requires
        from <= end <= v@.len(),
    ensures
        match key {
            Some(k) => path_key(v@.subrange(from as int, end as int)) == Some(k@),
            None => path_key(v@.subrange(from as int, end as int)) is None,
        },
{
    let start: usize = name_start(v, from, end);
    let ghost name = v@.subrange(start as int, end as int);
    if end - start < 3 {
        return None;
    }
    let stop: usize = end - 3;
    let ghost rest = name.skip(name.len() - 3);
    assert(rest[0] == v@[stop as int] && rest[1] == v@[stop + 1] && rest[2] == v@[stop + 2]);
    if v[stop] == '.' && v[stop + 1] == 'm' && v[stop + 2] == 'd' {
        assert(rest =~= extension());
        let key = text_between(v, start, stop);
        assert(key@ =~= name.take(name.len() - 3));
        Some(key)
    } else {
        assert(rest != extension());
        None
    }
}

/// Puts the key that a line names under a tag into the set.
fn take_line(set: &mut NoteSet, tag: char, v: &Vec<char>, from: usize, end: usize)
    requires
        from <= end <= v@.len(),
    ensures
        final(set)@ == match line_key(v@.subrange(from as int, end as int), tag) {
            Some(key) => old(set)@.insert(key),
            None => old(set)@,
        },
{
    let ghost line = v@.subrange(from as int, end as int);
    if from < end && v[from] == tag {
        assert(line[0] == tag);
        assert(line.skip(1) =~= v@.subrange(from + 1, end as int));
        if let Some(key) = key_between(v, from + 1, end) {
            let _ = set.insert(key.as_str());
        }
    } else {
        assert(line.len() > 0 ==> line[0] == v@[from as int]);
    }
}

/// The keys that the lines before the last one name.
spec fn keys_before_last(text: Seq<char>, tag: char) -> Set<Seq<char>> {
    Set::new(
        |key: Seq<char>|
            exists|i: int|
                0 <= i < lines(text).len() - 1 && line_key(#[trigger] lines(text)[i], tag) == Some(
                    key,
                ),
    )
}

proof fn lemma_lines_end(text: Seq<char>)
    ensures
        lines(text).len() > 0,
    decreases text.len(),
{
    if text.len() > 0 {
        lemma_lines_end(text.drop_last());
    }
}

/// The lines before the last one stay when a character is added to the last line.
proof fn lemma_same_line(text: Seq<char>, tag: char)
    requires
        text.len() > 0,
        text.last() != '\n',
    ensures
        keys_before_last(text, tag) == keys_before_last(text.drop_last(), tag),
{
    let front = lines(text.drop_last());
    lemma_lines_end(text.drop_last());
    assert(lines(text).len() == front.len());
    assert forall|i: int| 0 <= i < front.len() - 1 implies #[trigger] lines(text)[i]
        == front[i] by {}
    assert forall|key: Seq<char>| #[trigger] keys_before_last(text, tag).contains(key)
        <==> keys_before_last(text.drop_last(), tag).contains(key) by {
        if keys_before_last(text, tag).contains(key) {
            let i = choose|i: int|
                0 <= i < lines(text).len() - 1 && line_key(#[trigger] lines(text)[i], tag) == Some(
                    key,
                );
            assert(line_key(front[i], tag) == Some(key));
        }
        if keys_before_last(text.drop_last(), tag).contains(key) {
            let i = choose|i: int|
                0 <= i < front.len() - 1 && line_key(#[trigger] front[i], tag) == Some(key);
            assert(line_key(lines(text)[i], tag) == Some(key));
        }
    }
    assert(keys_before_last(text, tag) =~= keys_before_last(text.drop_last(), tag));
}

/// When a line ends, its key joins those of the lines before it.
proof fn lemma_line_ends(front: Seq<Seq<char>>, all: Seq<Seq<char>>, tag: char)
    requires
        front.len() > 0,
        all.len() >= front.len(),
        forall|i: int| 0 <= i < front.len() ==> #[trigger] all[i] == front[i],
    ensures
        Set::new(
            |key: Seq<char>|
                exists|i: int|
                    0 <= i < front.len() && line_key(#[trigger] all[i], tag) == Some(key),
        ) == match line_key(front.last(), tag) {
            Some(key) => Set::new(
                |key: Seq<char>|
                    exists|i: int|
                        0 <= i < front.len() - 1 && line_key(#[trigger] front[i], tag) == Some(key),
            ).insert(key),
            None => Set::new(
                |key: Seq<char>|
                    exists|i: int|
                        0 <= i < front.len() - 1 && line_key(#[trigger] front[i], tag) == Some(key),
            ),
        },
{
    let n = front.len() - 1;
    let a = Set::new(
        |key: Seq<char>|
            exists|i: int| 0 <= i < front.len() && line_key(#[trigger] all[i], tag) == Some(key),
    );
    let b = Set::new(
        |key: Seq<char>|
            exists|i: int|
                0 <= i < front.len() - 1 && line_key(#[trigger] front[i], tag) == Some(key),
    );
    assert(front.last() == front[n] && all[n] == front[n]);
    assert forall|key: Seq<char>| #[trigger] a.contains(key) <==> b.contains(key) || line_key(
        front.last(),
        tag,
    ) == Some(key) by {
        if a.contains(key) {
            let i = choose|i: int|
                0 <= i < front.len() && line_key(#[trigger] all[i], tag) == Some(key);
            assert(line_key(front[i], tag) == Some(key));
        }
        if b.contains(key) {
            let i = choose|i: int|
                0 <= i < front.len() - 1 && line_key(#[trigger] front[i], tag) == Some(key);
            assert(line_key(all[i], tag) == Some(key));
        }
        if line_key(front.last(), tag) == Some(key) {
            assert(line_key(all[n], tag) == Some(key));
        }
    }
    match line_key(front.last(), tag) {
        Some(key) => {
            assert(a =~= b.insert(key));
        },
        None => {
            assert(a =~= b);
        },
    }
}

/// What the listing says about the keys.
pub fn parse_note_listing(text: &str) -> (listing: Listing)
    ensures
        listing.occupied@ == listed_keys(text@, FILE_TAG),
        listing.notes@ == listed_keys(text@, NOTE_TAG),
{
    let v = chars_of(text);
    let mut occupied = NoteSet::new();
    let mut notes = NoteSet::new();
    let mut from: usize = 0;
    let mut i: usize = 0;
    proof {
        assert(v@.take(0) =~= Seq::<char>::empty());
        assert(lines(v@.take(0)).last() =~= v@.subrange(0, 0));
        assert(occupied@ =~= keys_before_last(v@.take(0), FILE_TAG));
        assert(notes@ =~= keys_before_last(v@.take(0), NOTE_TAG));
    }
    while i < v.len()
        invariant
            from <= i <= v@.len(),
            v@ == text@,
            lines(v@.take(i as int)).len() > 0,
            lines(v@.take(i as int)).last() == v@.subrange(from as int, i as int),
            occupied@ == keys_before_last(v@.take(i as int), FILE_TAG),
            notes@ == keys_before_last(v@.take(i as int), NOTE_TAG),
        decreases v@.len() - i,
    {
        let ghost before = v@.take(i as int);
        let ghost after = v@.take(i + 1);
        proof {
            assert(after.drop_last() =~= before);
            assert(after.last() == v@[i as int]);
        }
        if v[i] == '\n' {
            take_line(&mut occupied, FILE_TAG, &v, from, i);
            take_line(&mut notes, NOTE_TAG, &v, from, i);
            proof {
                lemma_line_ends(lines(before), lines(after), FILE_TAG);
                lemma_line_ends(lines(before), lines(after), NOTE_TAG);
                assert(lines(after).len() == lines(before).len() + 1);
                assert(occupied@ =~= keys_before_last(after, FILE_TAG));
                assert(notes@ =~= keys_before_last(after, NOTE_TAG));
            }
            from = i + 1;
            assert(v@.subrange(i + 1, i + 1) =~= Seq::<char>::empty());
        } else {
            proof {
                lemma_same_line(after, FILE_TAG);
                lemma_same_line(after, NOTE_TAG);
                assert(v@.subrange(from as int, i + 1) =~= v@.subrange(
                    from as int,
                    i as int,
                ).push(v@[i as int]));
            }
        }
        i += 1;
    }
    take_line(&mut occupied, FILE_TAG, &v, from, i);
    take_line(&mut notes, NOTE_TAG, &v, from, i);
    proof {
        assert(v@.take(i as int) =~= text@);
        let all = lines(text@);
        lemma_line_ends(all, all, FILE_TAG);
        lemma_line_ends(all, all, NOTE_TAG);
        assert(occupied@ =~= listed_keys(text@, FILE_TAG));
        assert(notes@ =~= listed_keys(text@, NOTE_TAG));
    }
    Listing { occupied, notes }
}

/// A note key can be used as a visible file name: it is not empty, has no separator and no
/// control character, does not begin with a dot, and is short enough.
pub proof fn law_keys_are_file_names(name: Seq<char>)
    ensures
        note_key(name).len() > 0,
        note_key(name)[0] != '.',
        forall|i: int|
            0 <= i < note_key(name).len() ==> #[trigger] note_key(name)[i] != '/' && (note_key(
                name,
            )[i] as u32) >= 0x20 && note_key(name)[i] as u32 != 0x7f,
        byte_len(note_key(name)) <= MAX_KEY_BYTES,
{
    let flat = flat_name(name);
    let key = note_key(name);
    lemma_fit(flat, MAX_KEY_BYTES as nat);
    assert(flat.len() > 0);
    if key.len() == 0 {
        assert(flat.take(1) =~= Seq::<char>::empty().push(flat[0]));
        lemma_byte_len_push(Seq::empty(), flat[0]);
    }
    assert forall|i: int| 0 <= i < key.len() implies #[trigger] key[i] == flat[i] by {
        assert(flat.take(key.len() as int)[i] == flat[i]);
    }
    assert forall|i: int| 0 <= i < key.len() implies #[trigger] key[i] != '/' && (key[i] as u32)
        >= 0x20 && key[i] as u32 != 0x7f by {
        assert(key[i] == flat[i]);
    }
}

/// The last component of a path that ends in a separator and a name is that name.
proof fn lemma_file_name(dir: Seq<char>, name: Seq<char>)
    requires
        forall|i: int| 0 <= i < name.len() ==> #[trigger] name[i] != '/',
    ensures
        file_name(dir.push('/') + name) == name,
    decreases name.len(),
{
    let path = dir.push('/') + name;
    if name.len() == 0 {
        assert(path.last() == '/');
        assert(file_name(path) =~= name);
    } else {
        let shorter = name.drop_last();
        assert(path.drop_last() =~= dir.push('/') + shorter);
        assert(path.last() == name[name.len() - 1]);
        lemma_file_name(dir, shorter);
        assert(name =~= shorter.push(name.last()));
    }
}

/// The file that a note is kept in is listed under the note's key again.
pub proof fn law_listed_file_has_its_key(
    notes_dir: Seq<char>,
    session: Seq<char>,
    name: Seq<char>,
    tag: char,
)
    ensures
        line_key(seq![tag] + key_path(notes_dir, session, note_key(name)), tag) == Some(
            note_key(name),
        ),
{
    let key = note_key(name);
    let dir = session_path(notes_dir, session);
    let path = key_path(notes_dir, session, key);
    law_keys_are_file_names(name);
    let file = key + extension();
    assert(path =~= dir.push('/') + file);
    lemma_file_name(dir, file);
    assert(file.skip(file.len() - 3) =~= extension());
    assert(file.take(file.len() - 3) =~= key);
    let line = seq![tag] + path;
    assert(line.skip(1) =~= path);
}

} // verus!
