//! The complete filesystem-command interface: which commands are run on notes, and the context
//! by which a result finds its way back.
use crate::note_set::texts;
use crate::session::MIGRATE_NOTES;
use crate::text::{
    copy_of, decimal, decimal_text, is_number, lemma_decimal_injective, number_of, same_text,
};
use vstd::prelude::*;

verus! {

pub const OP_KEY: &'static str = "tab_notes_op";

pub const TAB_KEY: &'static str = "tab_notes_tab";

pub const SESSION_KEY: &'static str = "tab_notes_session";

pub const FROM_KEY: &'static str = "from_key";

pub const OP_LIST: &'static str = "list";

pub const OP_ENSURE_DIR: &'static str = "ensure_dir";

pub const OP_READ: &'static str = "read";

pub const OP_DELETE: &'static str = "delete";

pub const OP_MOVE: &'static str = "move";

pub const OP_CLEANUP: &'static str = "cleanup";

pub const OP_MIGRATE: &'static str = "migrate_session";

pub const OP_EDIT: &'static str = "edit";

pub const SESSION_FAILED: &'static str = "tab-notes:session-failed";

pub const SESSION_READY: &'static str = "tab-notes:session-ready";

pub const NOTES_CHANGED: &'static str = "tab-notes:notes-changed";

/// Lists every note file, and marks those that count as notes. The inventory includes empty
/// files, symlinks and directories as reserved names.
pub const LIST_NOTES: &'static str = r#"
set -eu
[ -d "$1" ]
for note in "$1"/*.md; do
    [ -e "$note" ] || [ -L "$note" ] || continue
    printf 'P%s\n' "$note"
    if [ -f "$note" ] && [ ! -L "$note" ] && [ -s "$note" ]; then
        printf 'N%s\n' "$note"
    fi
done
"#;

/// Moves a note file, unless something is at the destination.
pub const MOVE_NOTE: &'static str = r#"
set -eu
[ ! -e "$2" ] && [ ! -L "$2" ] || exit 17
mv -n "$1" "$2"
[ ! -e "$1" ] && [ ! -L "$1" ] || exit 17
"#;

/// What is handed along with a command and comes back with its result: texts by name.
#[derive(Debug)]
pub struct Context {
    entries: Vec<(String, String)>,
}

/// The entries as a map. Of several entries with the same name the last one counts.
pub open spec fn entries_map(entries: Seq<(Seq<char>, Seq<char>)>) -> Map<Seq<char>, Seq<char>>
    decreases entries.len(),
{
    if entries.len() == 0 {
        Map::empty()
    } else {
        entries_map(entries.drop_last()).insert(entries.last().0, entries.last().1)
    }
}

impl View for Context {
    type V = Map<Seq<char>, Seq<char>>;

    open spec fn view(&self) -> Map<Seq<char>, Seq<char>> {
        entries_map(self.set_entries())
    }
}

/// What a map holds under a name.
pub open spec fn entry(context: Map<Seq<char>, Seq<char>>, name: Seq<char>) -> Option<Seq<char>> {
    if context.contains_key(name) {
        Some(context[name])
    } else {
        None
    }
}

/// An optional text as a plain value.
pub open spec fn text_of(s: Option<&str>) -> Option<Seq<char>> {
    match s {
        Some(t) => Some(t@),
        None => None,
    }
}

impl Context {
    /// No entries.
    pub fn new() -> (c: Context)
        ensures
            c@ == Map::<Seq<char>, Seq<char>>::empty(),
    {
        let c = Context { entries: Vec::new() };
        assert(c.set_entries() =~= Seq::<(Seq<char>, Seq<char>)>::empty());
        c
    }

    /// Sets one entry.
    pub fn insert(&mut self, name: &str, value: &str)
        ensures
            final(self)@ == old(self)@.insert(name@, value@),
            final(self).set_entries() == old(self).set_entries().push((name@, value@)),
    {
        let ghost before = self.set_entries();
        self.entries.push((copy_of(name), copy_of(value)));
        assert(self.set_entries() =~= before.push((name@, value@)));
        assert(self.set_entries().drop_last() =~= before);
    }

    /// The entry with this name.
    pub fn get(&self, name: &str) -> (value: Option<&str>)
        ensures
            text_of(value) == entry(self@, name@),
    {
        let mut i: usize = self.entries.len();
        let ghost all = self.set_entries();
        assert(all.take(i as int) =~= all);
        while i > 0
            invariant
                i <= self.entries@.len(),
                all == self.set_entries(),
                entry(entries_map(all.take(i as int)), name@) == entry(self@, name@),
            decreases i,
        {
            proof {
                let front = all.take(i as int);
                assert(front.drop_last() =~= all.take(i - 1));
                assert(front.last() == all[i - 1]);
            }
            i -= 1;
            if same_text(self.entries[i].0.as_str(), name) {
                return Some(self.entries[i].1.as_str());
            }
        }
        None
    }

    /// How many entries have been set, those that were set again counted once more.
    pub fn len(&self) -> (n: usize)
        ensures
            n == self.set_entries().len(),
    {
        self.entries.len()
    }

    /// The entries in the order in which they were set.
    pub closed spec fn set_entries(&self) -> Seq<(Seq<char>, Seq<char>)> {
        self.entries@.map_values(|e: (String, String)| (e.0@, e.1@))
    }

    /// The entry that was set at position `i`.
    pub fn at(&self, i: usize) -> (e: (&str, &str))
        requires
            i < self.set_entries().len(),
        ensures
            e.0@ == self.set_entries()[i as int].0,
            e.1@ == self.set_entries()[i as int].1,
    {
        (self.entries[i].0.as_str(), self.entries[i].1.as_str())
    }
}

/// A command to run on the host: the program, its arguments, and the context that comes back
/// with its result.
#[derive(Debug)]
pub struct Command {
    pub args: Vec<String>,
    pub context: Context,
}

/// A command as plain values.
pub struct Run {
    pub args: Seq<Seq<char>>,
    pub context: Map<Seq<char>, Seq<char>>,
}

impl View for Command {
    type V = Run;

    open spec fn view(&self) -> Run {
        Run { args: texts(self.args@), context: self.context@ }
    }
}

/// The texts of the words.
pub open spec fn word_texts(words: Seq<&str>) -> Seq<Seq<char>> {
    words.map_values(|w: &str| w@)
}

/// The words as arguments of a command.
fn argv(words: &[&str]) -> (args: Vec<String>)
    ensures
        texts(args@) == word_texts(words@),
{
    let mut args: Vec<String> = Vec::new();
    let mut i: usize = 0;
    while i < words.len()
        invariant
            i <= words@.len(),
            texts(args@) == word_texts(words@).take(i as int),
        decreases words@.len() - i,
    {
        let ghost before = texts(args@);
        args.push(copy_of(words[i]));
        assert(texts(args@) =~= before.push(words@[i as int]@));
        i += 1;
        assert(texts(args@) =~= word_texts(words@).take(i as int));
    }
    assert(texts(args@) =~= word_texts(words@));
    args
}

/// A context that names the operation.
pub open spec fn op_context(op: Seq<char>) -> Map<Seq<char>, Seq<char>> {
    Map::empty().insert(OP_KEY@, op)
}

pub fn context(op: &str) -> (c: Context)
    ensures
        c@ == op_context(op@),
{
    let mut c = Context::new();
    c.insert(OP_KEY, op);
    c
}

pub fn context_with_tab(op: &str, tab: &str) -> (c: Context)
    ensures
        c@ == op_context(op@).insert(TAB_KEY@, tab@),
{
    let mut c = context(op);
    c.insert(TAB_KEY, tab);
    c
}

pub fn session_context(op: &str, session: &str) -> (c: Context)
    ensures
        c@ == op_context(op@).insert(SESSION_KEY@, session@),
{
    let mut c = context(op);
    c.insert(SESSION_KEY, session);
    c
}

/// The operation that the context names.
pub fn op_of(context: &Context) -> (op: Option<&str>)
    ensures
        text_of(op) == entry(context@, OP_KEY@),
{
    context.get(OP_KEY)
}

/// Whether the operation is the named one.
pub fn is_op(op: &Option<&str>, name: &str) -> (r: bool)
    ensures
        r == (text_of(*op) == Some(name@)),
{
    match op {
        Some(t) => same_text(t, name),
        None => false,
    }
}

/// The command that makes sure a directory exists.
pub open spec fn ensure_dir_run(dir: Seq<char>) -> Run {
    Run { args: seq!["mkdir"@, "-p"@, dir], context: op_context(OP_ENSURE_DIR@) }
}

pub fn ensure_dir(dir: &str) -> (c: Command)
    ensures
        c@ == ensure_dir_run(dir@),
{
    let args = argv(&["mkdir", "-p", dir]);
    let c = Command { args, context: context(OP_ENSURE_DIR) };
    assert(c@.args =~= ensure_dir_run(dir@).args);
    c
}

/// The command that lists the notes of a session.
pub open spec fn list_run(dir: Seq<char>, session: Seq<char>) -> Run {
    Run {
        args: seq!["sh"@, "-c"@, LIST_NOTES@, "tab-notes-list"@, dir],
        context: op_context(OP_LIST@).insert(SESSION_KEY@, session),
    }
}

/// Inventory includes empty files, symlinks and directories as reserved names; only non-empty
/// regular files count as notes for the tab marker.
pub fn list_notes(dir: &str, session: &str) -> (c: Command)
    ensures
        c@ == list_run(dir@, session@),
{
    let args = argv(&["sh", "-c", LIST_NOTES, "tab-notes-list", dir]);
    let c = Command { args, context: session_context(OP_LIST, session) };
    assert(c@.args =~= list_run(dir@, session@).args);
    c
}

/// The command that reads a note.
pub open spec fn read_run(path: Seq<char>) -> Run {
    Run {
        args: seq!["head"@, "-c"@, "65536"@, path],
        context: op_context(OP_READ@).insert(TAB_KEY@, path),
    }
}

pub fn read_note(path: &str) -> (c: Command)
    ensures
        c@ == read_run(path@),
{
    let args = argv(&["head", "-c", "65536", path]);
    let c = Command { args, context: context_with_tab(OP_READ, path) };
    assert(c@.args =~= read_run(path@).args);
    c
}

/// The command that deletes a note.
pub open spec fn delete_run(path: Seq<char>) -> Run {
    Run { args: seq!["rm"@, "-f"@, path], context: op_context(OP_DELETE@) }
}

pub fn delete_note(path: &str) -> (c: Command)
    ensures
        c@ == delete_run(path@),
{
    let args = argv(&["rm", "-f", path]);
    let c = Command { args, context: context(OP_DELETE) };
    assert(c@.args =~= delete_run(path@).args);
    c
}

/// The command that moves a note. Its context says whose note it is and where it was, so that a
/// failed move can be taken back.
pub open spec fn move_run(
    from: Seq<char>,
    to: Seq<char>,
    id: usize,
    from_key: Seq<char>,
) -> Run {
    Run {
        args: seq!["sh"@, "-c"@, MOVE_NOTE@, "tab-notes-move"@, from, to],
        context: op_context(OP_MOVE@).insert(TAB_KEY@, decimal(id as nat)).insert(
            FROM_KEY@,
            from_key,
        ),
    }
}

/// Keep the original owner if a destination appeared after the last listing.
pub fn move_note(from: &str, to: &str, id: usize, from_key: &str) -> (c: Command)
    ensures
        c@ == move_run(from@, to@, id, from_key@),
{
    let args = argv(&["sh", "-c", MOVE_NOTE, "tab-notes-move", from, to]);
    let mut context = context_with_tab(OP_MOVE, decimal_text(id as u128).as_str());
    context.insert(FROM_KEY, from_key);
    let c = Command { args, context };
    assert(c@.args =~= move_run(from@, to@, id, from_key@).args);
    c
}

/// The command that deletes a file only if it is empty.
pub open spec fn cleanup_run(path: Seq<char>) -> Run {
    Run {
        args: seq!["find"@, path, "-maxdepth"@, "0"@, "-size"@, "0c"@, "-delete"@],
        context: op_context(OP_CLEANUP@),
    }
}

/// Deletes the file only if it is empty. `find -maxdepth 0` targets the file itself.
pub fn delete_if_empty(path: &str) -> (c: Command)
    ensures
        c@ == cleanup_run(path@),
{
    let args = argv(&["find", path, "-maxdepth", "0", "-size", "0c", "-delete"]);
    let c = Command { args, context: context(OP_CLEANUP) };
    assert(c@.args =~= cleanup_run(path@).args);
    c
}

/// The command that moves the notes of a session that was renamed.
pub open spec fn migrate_run(from: Seq<char>, to: Seq<char>, session: Seq<char>) -> Run {
    Run {
        args: seq!["sh"@, "-c"@, MIGRATE_NOTES@, "tab-notes-migrate"@, from, to],
        context: op_context(OP_MIGRATE@).insert(SESSION_KEY@, session),
    }
}

pub fn migrate_session(from: &str, to: &str, session: &str) -> (c: Command)
    ensures
        c@ == migrate_run(from@, to@, session@),
{
    let args = argv(&["sh", "-c", MIGRATE_NOTES, "tab-notes-migrate", from, to]);
    let c = Command { args, context: session_context(OP_MIGRATE, session) };
    assert(c@.args =~= migrate_run(from@, to@, session@).args);
    c
}

/// Whose note was moved, and from which key, as a context says it.
pub open spec fn moved_note(context: Map<Seq<char>, Seq<char>>) -> Option<(usize, Seq<char>)> {
    if context.contains_key(TAB_KEY@) && context.contains_key(FROM_KEY@) && exists|n: usize|
        is_number(context[TAB_KEY@], n) {
        Some((choose|n: usize| is_number(context[TAB_KEY@], n), context[FROM_KEY@]))
    } else {
        None
    }
}

/// The owner and the old key of the note that a move was about.
pub fn moved_note_of(context: &Context) -> (moved: Option<(usize, &str)>)
    ensures
        match moved {
            Some((id, from_key)) => moved_note(context@) == Some((id, from_key@)),
            None => moved_note(context@) is None,
        },
{
    match (context.get(TAB_KEY), context.get(FROM_KEY)) {
        (Some(id), Some(from_key)) => {
            match number_of(id) {
                Some(n) => {
                    proof {
                        let k = choose|k: usize| is_number(context@[TAB_KEY@], k);
                        lemma_decimal_injective(k as nat, n as nat);
                    }
                    Some((n, from_key))
                },
                None => None,
            }
        },
        _ => None,
    }
}

/// No two operations and no two names of entries are the same.
pub proof fn lemma_names_differ()
    ensures
        OP_LIST@ != OP_ENSURE_DIR@,
        OP_LIST@ != OP_READ@,
        OP_LIST@ != OP_DELETE@,
        OP_LIST@ != OP_MOVE@,
        OP_LIST@ != OP_CLEANUP@,
        OP_LIST@ != OP_MIGRATE@,
        OP_LIST@ != OP_EDIT@,
        OP_ENSURE_DIR@ != OP_READ@,
        OP_ENSURE_DIR@ != OP_DELETE@,
        OP_ENSURE_DIR@ != OP_MOVE@,
        OP_ENSURE_DIR@ != OP_CLEANUP@,
        OP_ENSURE_DIR@ != OP_MIGRATE@,
        OP_ENSURE_DIR@ != OP_EDIT@,
        OP_READ@ != OP_DELETE@,
        OP_READ@ != OP_MOVE@,
        OP_READ@ != OP_CLEANUP@,
        OP_READ@ != OP_MIGRATE@,
        OP_READ@ != OP_EDIT@,
        OP_DELETE@ != OP_MOVE@,
        OP_DELETE@ != OP_CLEANUP@,
        OP_DELETE@ != OP_MIGRATE@,
        OP_DELETE@ != OP_EDIT@,
        OP_MOVE@ != OP_CLEANUP@,
        OP_MOVE@ != OP_MIGRATE@,
        OP_MOVE@ != OP_EDIT@,
        OP_CLEANUP@ != OP_MIGRATE@,
        OP_CLEANUP@ != OP_EDIT@,
        OP_MIGRATE@ != OP_EDIT@,
        OP_KEY@ != TAB_KEY@,
        OP_KEY@ != SESSION_KEY@,
        OP_KEY@ != FROM_KEY@,
        TAB_KEY@ != FROM_KEY@,
{
    reveal_strlit("list");
    reveal_strlit("ensure_dir");
    reveal_strlit("read");
    reveal_strlit("delete");
    reveal_strlit("move");
    reveal_strlit("cleanup");
    reveal_strlit("migrate_session");
    reveal_strlit("edit");
    reveal_strlit("tab_notes_op");
    reveal_strlit("tab_notes_tab");
    reveal_strlit("tab_notes_session");
    reveal_strlit("from_key");
    assert(OP_KEY@.len() == 12 && OP_KEY@[0] == 't');
    assert(TAB_KEY@.len() == 13 && TAB_KEY@[0] == 't');
    assert(SESSION_KEY@.len() == 17 && SESSION_KEY@[0] == 't');
    assert(FROM_KEY@.len() == 8 && FROM_KEY@[0] == 'f');
    assert(OP_LIST@.len() == 4 && OP_LIST@[0] == 'l');
    assert(OP_ENSURE_DIR@.len() == 10 && OP_ENSURE_DIR@[0] == 'e');
    assert(OP_READ@.len() == 4 && OP_READ@[0] == 'r');
    assert(OP_DELETE@.len() == 6 && OP_DELETE@[0] == 'd');
    assert(OP_MOVE@.len() == 4 && OP_MOVE@[0] == 'm');
    assert(OP_CLEANUP@.len() == 7 && OP_CLEANUP@[0] == 'c');
    assert(OP_MIGRATE@.len() == 15 && OP_MIGRATE@[0] == 'm');
    assert(OP_EDIT@.len() == 4 && OP_EDIT@[0] == 'e');
}

/// The context of every command names the operation that its result is about.
pub proof fn law_results_are_recognised(
    a: Seq<char>,
    b: Seq<char>,
    id: usize,
    key: Seq<char>,
)
    ensures
        entry(ensure_dir_run(a).context, OP_KEY@) == Some(OP_ENSURE_DIR@),
        entry(list_run(a, b).context, OP_KEY@) == Some(OP_LIST@),
        entry(read_run(a).context, OP_KEY@) == Some(OP_READ@),
        entry(delete_run(a).context, OP_KEY@) == Some(OP_DELETE@),
        entry(move_run(a, b, id, key).context, OP_KEY@) == Some(OP_MOVE@),
        entry(cleanup_run(a).context, OP_KEY@) == Some(OP_CLEANUP@),
        entry(migrate_run(a, b, key).context, OP_KEY@) == Some(OP_MIGRATE@),
{
    lemma_names_differ();
}

/// The result of a listing or of a migration says which session it is about.
pub proof fn law_session_comes_back(from: Seq<char>, to: Seq<char>, session: Seq<char>)
    ensures
        entry(list_run(to, session).context, SESSION_KEY@) == Some(session),
        entry(migrate_run(from, to, session).context, SESSION_KEY@) == Some(session),
{
}

/// The result of a move says whose note it was and where it was.
pub proof fn law_moved_note_comes_back(from: Seq<char>, to: Seq<char>, id: usize, key: Seq<char>)
    ensures
        moved_note(move_run(from, to, id, key).context) == Some((id, key)),
{
    lemma_names_differ();
    let context = move_run(from, to, id, key).context;
    assert(is_number(context[TAB_KEY@], id));
    let n = choose|n: usize| is_number(context[TAB_KEY@], n);
    lemma_decimal_injective(n as nat, id as nat);
}

/// Each command runs this program with these arguments: what is data is an argument of its own and
/// never part of a script.
pub proof fn law_commands_take_paths_as_arguments(
    a: Seq<char>,
    b: Seq<char>,
    id: usize,
    key: Seq<char>,
)
    ensures
        ensure_dir_run(a).args == seq!["mkdir"@, "-p"@, a],
        read_run(a).args == seq!["head"@, "-c"@, "65536"@, a],
        delete_run(a).args == seq!["rm"@, "-f"@, a],
        cleanup_run(a).args == seq![
            "find"@,
            a,
            "-maxdepth"@,
            "0"@,
            "-size"@,
            "0c"@,
            "-delete"@,
        ],
        list_run(a, key).args == seq!["sh"@, "-c"@, LIST_NOTES@, "tab-notes-list"@, a],
        move_run(a, b, id, key).args == seq![
            "sh"@,
            "-c"@,
            MOVE_NOTE@,
            "tab-notes-move"@,
            a,
            b,
        ],
        migrate_run(a, b, key).args == seq![
            "sh"@,
            "-c"@,
            MIGRATE_NOTES@,
            "tab-notes-migrate"@,
            a,
            b,
        ],
        read_run(a).context.dom().contains(TAB_KEY@) && read_run(a).context[TAB_KEY@] == a,
{
}

} // verus!
