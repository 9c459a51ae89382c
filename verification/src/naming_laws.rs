//! What names of tabs, keys of notes and names of files have to do with each other.
use crate::icon::{clean_name, decorated, lemma_clean_name_is_clean, starts_with};
use crate::listing::{file_name, law_keys_are_file_names, line_key, lines, listed_keys};
use crate::numbering::lemma_flat_name_bytes;
use crate::paths::{extension, flat_name, key_path, note_key, session_path};
use crate::plan::{number_base, numbered};
use crate::text::{
    byte_len, decimal, digit_char, fit, is_blank, is_space, lemma_fit, lemma_trim_end,
};
use vstd::prelude::*;

verus! {

/// White space is what Unicode calls so: tab, the line breaks, the spaces of all widths and the
/// separators of lines and paragraphs. No visible character is.
pub proof fn law_white_space(c: char)
    ensures
        is_space(c) <==> seq![
            0x9u32,
            0xa,
            0xb,
            0xc,
            0xd,
            0x20,
            0x85,
            0xa0,
            0x1680,
            0x2000,
            0x2001,
            0x2002,
            0x2003,
            0x2004,
            0x2005,
            0x2006,
            0x2007,
            0x2008,
            0x2009,
            0x200a,
            0x2028,
            0x2029,
            0x202f,
            0x205f,
            0x3000,
        ].contains(c as u32),
        '!' <= c <= '~' ==> !is_space(c),
{
    let all = seq![
        0x9u32,
        0xa,
        0xb,
        0xc,
        0xd,
        0x20,
        0x85,
        0xa0,
        0x1680,
        0x2000,
        0x2001,
        0x2002,
        0x2003,
        0x2004,
        0x2005,
        0x2006,
        0x2007,
        0x2008,
        0x2009,
        0x200a,
        0x2028,
        0x2029,
        0x202f,
        0x205f,
        0x3000,
    ];
    assert(all[0] == 0x9 && all[1] == 0xa && all[2] == 0xb && all[3] == 0xc && all[4] == 0xd
        && all[5] == 0x20 && all[6] == 0x85 && all[7] == 0xa0 && all[8] == 0x1680);
    assert(all[9] == 0x2000 && all[10] == 0x2001 && all[11] == 0x2002 && all[12] == 0x2003
        && all[13] == 0x2004 && all[14] == 0x2005 && all[15] == 0x2006 && all[16] == 0x2007);
    assert(all[17] == 0x2008 && all[18] == 0x2009 && all[19] == 0x200a && all[20] == 0x2028
        && all[21] == 0x2029 && all[22] == 0x202f && all[23] == 0x205f && all[24] == 0x3000);
}

/// A text is blank exactly if none of its characters is visible.
pub proof fn law_blank_text_is_all_white_space(text: Seq<char>)
    ensures
        is_blank(text) <==> forall|i: int| 0 <= i < text.len() ==> is_space(#[trigger] text[i]),
{
}

/// Some copies of a text, one behind the other.
pub open spec fn copies(text: Seq<char>, n: nat) -> Seq<char>
    decreases n,
{
    if n == 0 {
        Seq::empty()
    } else {
        text + copies(text, (n - 1) as nat)
    }
}

/// A name without its markers is what is left of it when every icon with a space behind it is taken
/// off at the front, and nothing else is.
pub proof fn law_only_markers_are_taken_off(name: Seq<char>, icon: Seq<char>)
    ensures
        exists|n: nat| name == #[trigger] copies(icon.push(' '), n) + clean_name(name, icon),
        !(clean_name(name, icon).len() > icon.len() && clean_name(name, icon).take(
            icon.len() as int + 1,
        ) == icon.push(' ')),
    decreases name.len(),
{
    let mark = icon.push(' ');
    let clean = clean_name(name, icon);
    lemma_clean_name_is_clean(name, icon);
    if starts_with(name, mark) {
        let rest = name.skip(mark.len() as int);
        law_only_markers_are_taken_off(rest, icon);
        let n = choose|n: nat| rest == #[trigger] copies(mark, n) + clean_name(rest, icon);
        assert(name =~= mark + rest);
        assert(copies(mark, n + 1) == mark + copies(mark, n));
        assert(name =~= copies(mark, n + 1) + clean);
    } else {
        assert(name =~= copies(mark, 0) + clean);
    }
}

/// A tab with a note is shown with the icon and a space in front of its name, one without a note
/// under its bare name.
pub proof fn law_icon_stands_in_front(clean: Seq<char>, icon: Seq<char>)
    ensures
        decorated(clean, icon, true) == icon + seq![' '] + clean,
        decorated(clean, icon, false) == clean,
{
    assert(decorated(clean, icon, true) =~= icon + seq![' '] + clean);
}

/// A key keeps every character of the name that a file name can have, in its place; only
/// separators, control characters and a dot at the front become dashes. It is cut only if it would
/// be too long, and then by no more than needed.
pub proof fn law_key_keeps_the_name(name: Seq<char>)
    ensures
        name.len() == 0 ==> note_key(name) == seq!['-'],
        note_key(name).len() <= name.len() || name.len() == 0,
        forall|i: int|
            0 <= i < note_key(name).len() && name.len() > 0 ==> #[trigger] note_key(name)[i] == (
            if name[i] == '/' || (name[i] as u32) < 0x20 || name[i] as u32 == 0x7f || (i == 0
                && name[i] == '.') {
                '-'
            } else {
                name[i]
            }),
        name.len() > 0 && byte_len(name) <= 252 ==> note_key(name).len() == name.len(),
        name.len() > 0 && note_key(name).len() < name.len() ==> byte_len(
            name.take(note_key(name).len() as int + 1),
        ) > 252,
{
    let flat = flat_name(name);
    let key = note_key(name);
    lemma_fit(flat, 252);
    if name.len() > 0 {
        lemma_flat_name_bytes(name);
        assert forall|i: int| 0 <= i < key.len() implies #[trigger] key[i] == flat[i] by {
            assert(flat.take(key.len() as int)[i] == flat[i]);
        }
        if key.len() < name.len() {
            let k = key.len() as int + 1;
            assert(flat.take(k) =~= flat_name(name.take(k)));
            lemma_flat_name_bytes(name.take(k));
        }
    } else {
        assert(flat =~= Seq::<char>::empty().push('-'));
        crate::text::lemma_byte_len_push(Seq::empty(), '-');
    }
}

/// A name that can be a file name already is its own key.
pub proof fn law_file_names_are_their_own_keys(name: Seq<char>)
    requires
        name.len() > 0,
        name[0] != '.',
        forall|i: int|
            0 <= i < name.len() ==> #[trigger] name[i] != '/' && (name[i] as u32) >= 0x20
                && name[i] as u32 != 0x7f,
        byte_len(name) <= 252,
    ensures
        note_key(name) == name,
{
    law_key_keeps_the_name(name);
    assert(note_key(name) =~= name);
}

/// The notes of a session are the files `<key>.md` in the directory of the session below the notes
/// directory. Two keys have two files.
pub proof fn law_files_of_notes(
    notes_dir: Seq<char>,
    session: Seq<char>,
    a: Seq<char>,
    b: Seq<char>,
)
    ensures
        session_path(notes_dir, session) == notes_dir + seq!['/'] + note_key(session),
        key_path(notes_dir, session, a) == notes_dir + seq!['/'] + note_key(session) + seq!['/'] + a
            + seq!['.', 'm', 'd'],
        key_path(notes_dir, session, a) == key_path(notes_dir, session, b) ==> a == b,
{
    let dir = session_path(notes_dir, session);
    assert(dir =~= notes_dir + seq!['/'] + note_key(session));
    let path = key_path(notes_dir, session, a);
    assert(path =~= notes_dir + seq!['/'] + note_key(session) + seq!['/'] + a + seq![
        '.',
        'm',
        'd',
    ]);
    let other = key_path(notes_dir, session, b);
    let n = dir.len() as int + 1;
    if path == other {
        assert(path.len() == n + a.len() + 3);
        assert(other.len() == n + b.len() + 3);
        assert(path.subrange(n, n + a.len()) =~= a);
        assert(other.subrange(n, n + b.len()) =~= b);
    }
}

/// Sessions whose keys differ have different directories, and no note of one is a note of the
/// other.
pub proof fn law_sessions_are_kept_apart(
    notes_dir: Seq<char>,
    a: Seq<char>,
    b: Seq<char>,
    x: Seq<char>,
    y: Seq<char>,
)
    requires
        note_key(a) != note_key(b),
    ensures
        session_path(notes_dir, a) != session_path(notes_dir, b),
        key_path(notes_dir, a, note_key(x)) != key_path(notes_dir, b, note_key(y)),
{
    let n = notes_dir.len() as int + 1;
    let p = session_path(notes_dir, a);
    let q = session_path(notes_dir, b);
    assert(p.skip(n) =~= note_key(a));
    assert(q.skip(n) =~= note_key(b));
    law_keys_are_file_names(a);
    law_keys_are_file_names(b);
    let f = key_path(notes_dir, a, note_key(x));
    let g = key_path(notes_dir, b, note_key(y));
    if f == g {
        let k = note_key(a).len() as int;
        let l = note_key(b).len() as int;
        if k < l {
            assert(f[n + k] == '/');
            assert(g[n + k] == note_key(b)[k]);
        } else if l < k {
            assert(g[n + l] == '/');
            assert(f[n + l] == note_key(a)[l]);
        } else {
            assert(f.subrange(n, n + k) =~= note_key(a));
            assert(g.subrange(n, n + l) =~= note_key(b));
        }
    }
}

proof fn lemma_lines_not_empty(text: Seq<char>)
    ensures
        lines(text).len() > 0,
    decreases text.len(),
{
    if text.len() > 0 {
        lemma_lines_not_empty(text.drop_last());
    }
}

/// A text without a line break is one line, and a line break ends a line and does nothing else.
pub proof fn law_lines_end_at_line_breaks(a: Seq<char>, b: Seq<char>)
    ensures
        !a.contains('\n') ==> lines(a) == seq![a],
        lines(a.push('\n') + b) == lines(a) + lines(b),
    decreases a.len() + b.len(),
{
    if !a.contains('\n') {
        if a.len() > 0 {
            let front = a.drop_last();
            assert(a[a.len() - 1] != '\n');
            assert(!front.contains('\n')) by {
                if front.contains('\n') {
                    let i = choose|i: int| 0 <= i < front.len() && front[i] == '\n';
                    assert(a[i] == '\n');
                }
            }
            law_lines_end_at_line_breaks(front, Seq::empty());
            assert(front.push(a.last()) =~= a);
            assert(lines(a) =~= seq![a]);
        } else {
            assert(a =~= Seq::<char>::empty());
            assert(lines(a) =~= seq![a]);
        }
    }
    let all = a.push('\n') + b;
    if b.len() == 0 {
        assert(all.drop_last() =~= a);
        assert(lines(all) =~= lines(a) + lines(b));
    } else {
        let shorter = b.drop_last();
        law_lines_end_at_line_breaks(a, shorter);
        lemma_lines_not_empty(shorter);
        assert(all.drop_last() =~= a.push('\n') + shorter);
        assert(all.last() == b.last());
        assert(lines(all) =~= lines(a) + lines(b));
    }
}

/// A listing of lines that are told apart by line breaks names what its lines name.
pub proof fn law_listing_is_read_line_by_line(a: Seq<char>, b: Seq<char>, tag: char)
    ensures
        listed_keys(a.push('\n') + b, tag) == listed_keys(a, tag).union(listed_keys(b, tag)),
{
    law_lines_end_at_line_breaks(a, b);
    let x = lines(a);
    let y = lines(b);
    let all = x + y;
    let found = listed_keys(a.push('\n') + b, tag);
    assert forall|key: Seq<char>| #[trigger] found.contains(key) <==> listed_keys(
        a,
        tag,
    ).union(listed_keys(b, tag)).contains(key) by {
        if found.contains(key) {
            let i = choose|i: int|
                0 <= i < all.len() && line_key(#[trigger] all[i], tag) == Some(key);
            if i < x.len() {
                assert(x[i] == all[i]);
            } else {
                assert(y[i - x.len()] == all[i]);
            }
        }
        if listed_keys(a, tag).contains(key) {
            let i = choose|i: int| 0 <= i < x.len() && line_key(#[trigger] x[i], tag) == Some(key);
            assert(all[i] == x[i]);
        }
        if listed_keys(b, tag).contains(key) {
            let i = choose|i: int| 0 <= i < y.len() && line_key(#[trigger] y[i], tag) == Some(key);
            assert(all[x.len() + i] == y[i]);
        }
    }
    assert(found =~= listed_keys(a, tag).union(listed_keys(b, tag)));
}

/// A single line names a key exactly if it begins with the tag and goes on with a path whose last
/// part is the key and `.md`.
pub proof fn law_line_names_a_key(line: Seq<char>, tag: char, key: Seq<char>)
    requires
        !line.contains('\n'),
    ensures
        listed_keys(line, tag).contains(key) <==> line.len() > 0 && line[0] == tag && !key.contains(
            '/',
        ) && exists|dir: Seq<char>|
            line.skip(1) == #[trigger] in_dir(dir, key.push('.').push('m').push('d')),
{
    law_lines_end_at_line_breaks(line, Seq::empty());
    assert(lines(line)[0] == line);
    let path = line.skip(1);
    let file = key.push('.').push('m').push('d');
    assert(file =~= key + extension());
    if listed_keys(line, tag).contains(key) {
        let i = choose|i: int|
            0 <= i < lines(line).len() && line_key(#[trigger] lines(line)[i], tag) == Some(key);
        assert(i == 0);
        let name = file_name(path);
        let n = name.len() - 3;
        assert(name =~= name.take(n) + name.skip(n));
        assert(name == file);
        lemma_file_name_is_last(path);
        assert(!key.contains('/')) by {
            if key.contains('/') {
                let k = choose|k: int| 0 <= k < key.len() && key[k] == '/';
                assert(name[k] == '/');
            }
        }
    }
    if line.len() > 0 && line[0] == tag && !key.contains('/') && exists|dir: Seq<char>|
        path == #[trigger] in_dir(dir, file) {
        let dir = choose|dir: Seq<char>| path == #[trigger] in_dir(dir, file);
        assert forall|i: int| 0 <= i < file.len() implies #[trigger] file[i] != '/' by {
            if i < key.len() {
                assert(file[i] == key[i]);
                assert(key.contains(key[i]));
            }
        }
        lemma_file_name_of(dir, file);
        assert(file.skip(file.len() - 3) =~= extension());
        assert(file.take(file.len() - 3) =~= key);
        assert(line_key(lines(line)[0], tag) == Some(key));
    }
}

/// A file in a directory; the directory is empty or ends in a separator.
pub open spec fn in_dir(dir: Seq<char>, file: Seq<char>) -> Seq<char> {
    if dir.len() == 0 || dir.last() == '/' {
        dir + file
    } else {
        dir + seq!['/'] + file
    }
}

/// The last part of a path holds no separator, and what stands before it is a directory.
proof fn lemma_file_name_is_last(path: Seq<char>)
    ensures
        forall|i: int| 0 <= i < file_name(path).len() ==> #[trigger] file_name(path)[i] != '/',
        exists|dir: Seq<char>|
            path == #[trigger] in_dir(dir, file_name(path)) && (dir.len() == 0 || dir.last()
                == '/'),
    decreases path.len(),
{
    if path.len() == 0 || path.last() == '/' {
        assert(path =~= in_dir(path, file_name(path)));
    } else {
        let front = path.drop_last();
        lemma_file_name_is_last(front);
        let dir = choose|dir: Seq<char>|
            front == #[trigger] in_dir(dir, file_name(front)) && (dir.len() == 0 || dir.last()
                == '/');
        assert(path =~= front.push(path.last()));
        assert(path =~= in_dir(dir, file_name(path)));
    }
}

proof fn lemma_file_name_of(dir: Seq<char>, file: Seq<char>)
    requires
        forall|i: int| 0 <= i < file.len() ==> #[trigger] file[i] != '/',
    ensures
        file_name(in_dir(dir, file)) == file,
    decreases file.len(),
{
    let path = in_dir(dir, file);
    if file.len() > 0 {
        let shorter = file.drop_last();
        assert(path.drop_last() =~= in_dir(dir, shorter));
        assert(path.last() == file[file.len() - 1]);
        lemma_file_name_of(dir, shorter);
        assert(file =~= shorter.push(file.last()));
    } else {
        assert(path.len() == 0 || path.last() == '/');
        assert(file_name(path) =~= file);
    }
}

/// What is kept of a name in front of a number begins the name, does not end in white space, and is
/// all of the name up to white space at its end if the name is short. A longer name is cut by no
/// more than needed.
pub proof fn law_number_stands_behind_the_name(clean: Seq<char>, n: nat)
    ensures
        numbered(number_base(clean), n) == number_base(clean) + seq![' ', '('] + decimal(n) + seq![
            ')',
        ],
        number_base(clean).len() <= clean.len(),
        number_base(clean) == clean.take(number_base(clean).len() as int),
        byte_len(number_base(clean)) <= 180,
        number_base(clean).len() > 0 ==> !is_space(number_base(clean).last()),
        byte_len(clean) <= 180 ==> forall|i: int|
            number_base(clean).len() <= i < clean.len() ==> is_space(#[trigger] clean[i]),
        byte_len(clean) <= 180 && clean.len() > 0 && !is_space(clean.last()) ==> number_base(clean)
            == clean,
        forall|k: int|
            number_base(clean).len() < k <= clean.len() && byte_len(#[trigger] clean.take(k))
                <= 180 ==> is_space(clean[k - 1]),
{
    let cut = fit(clean, 180);
    let base = number_base(clean);
    crate::numbering::lemma_number_base(clean);
    lemma_fit(clean, 180);
    lemma_trim_end(cut);
    assert(numbered(base, n) =~= base + seq![' ', '('] + decimal(n) + seq![')']);
    assert forall|k: int|
        base.len() < k <= clean.len() && byte_len(#[trigger] clean.take(k)) <= 180 implies is_space(
        clean[k - 1],
    ) by {
        assert(k <= cut.len());
        assert(cut[k - 1] == clean[k - 1]);
        assert(is_space(cut[k - 1]));
    }
    if byte_len(clean) <= 180 {
        assert(cut == clean);
        if clean.len() > 0 && !is_space(clean.last()) {
            if base.len() < clean.len() {
                assert(is_space(cut[clean.len() - 1]));
            }
            assert(clean.take(clean.len() as int) =~= clean);
        }
    }
}

/// The value of a digit.
pub open spec fn digit_number(c: char) -> int {
    c as u32 - '0' as u32
}

/// The number that some digits write.
pub open spec fn number_written(digits: Seq<char>) -> int
    decreases digits.len(),
{
    if digits.len() == 0 {
        0
    } else {
        10 * number_written(digits.drop_last()) + digit_number(digits.last())
    }
}

/// A number is written in decimal digits, without a zero in front unless it is zero.
pub proof fn law_numbers_are_decimal(n: nat)
    ensures
        number_written(decimal(n)) == n,
        decimal(n).len() > 0,
        forall|i: int| 0 <= i < decimal(n).len() ==> '0' <= #[trigger] decimal(n)[i] <= '9',
        decimal(n).len() > 1 ==> decimal(n)[0] != '0',
    decreases n,
{
    crate::text::lemma_decimal_digits(n);
    assert forall|d: nat| d < 10 implies digit_number(#[trigger] digit_char(d)) == d by {}
    if n >= 10 {
        let front = decimal(n / 10);
        law_numbers_are_decimal(n / 10);
        assert(decimal(n).drop_last() =~= front);
        assert(decimal(n).last() == digit_char(n % 10));
        assert(digit_number(decimal(n).last()) == n % 10);
        assert(decimal(n)[0] == front[0]);
        if n / 10 < 10 {
            assert(front[0] == digit_char(n / 10));
            assert(digit_number(front[0]) == n / 10);
        } else {
            assert(front.len() > 1) by {
                crate::text::lemma_decimal_digits(n / 10 / 10);
            }
        }
    } else {
        assert(decimal(n).drop_last() =~= Seq::<char>::empty());
        assert(decimal(n).last() == digit_char(n));
        assert(number_written(decimal(n).drop_last()) == 0);
        assert(digit_number(decimal(n).last()) == n);
    }
}

} // verus!
