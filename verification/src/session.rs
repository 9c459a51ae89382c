//! The session that the plugin runs in, and moving its notes when it is renamed.
use crate::finding::{first_where, lemma_first_where};
use crate::fs_ops::text_of;
use vstd::prelude::*;

verus! {

/// A fixed script: directory names are positional arguments, never shell source. Merge only
/// regular notes and never overwrite a destination. Keep the source directory (and any
/// collisions) so an editor still using its old path can save.
pub const MIGRATE_NOTES: &'static str = r#"
set -eu
[ "$1" != "$2" ] || exit 0
[ ! -L "$1" ] && [ ! -L "$2" ] || exit 1
mkdir -p "$2"
[ -d "$1" ] || exit 0
for note in "$1"/*.md; do
    [ -f "$note" ] && [ ! -L "$note" ] || continue
    target="$2/${note##*/}"
    [ ! -e "$target" ] && [ ! -L "$target" ] || continue
    mv -n "$note" "$2/"
done
"#;

/// A session that runs on the host.
#[derive(Debug)]
pub struct SessionView {
    pub name: String,
    pub is_current: bool,
}

/// A session that runs on the host, as plain values.
pub struct Session {
    pub name: Seq<char>,
    pub is_current: bool,
}

impl View for SessionView {
    type V = Session;

    open spec fn view(&self) -> Session {
        Session { name: self.name@, is_current: self.is_current }
    }
}

/// The sessions, as plain values.
pub open spec fn sessions_of(sessions: Seq<SessionView>) -> Seq<Session> {
    sessions.map_values(|s: SessionView| s@)
}

/// The name of the session that the plugin runs in.
pub open spec fn current_name(sessions: Seq<Session>) -> Option<Seq<char>> {
    match first_where(sessions, |s: Session| s.is_current) {
        Some(s) => Some(s.name),
        None => None,
    }
}

/// The name of the session that the plugin runs in.
pub fn current_session(sessions: &Vec<SessionView>) -> (name: Option<&str>)
    ensures
        text_of(name) == current_name(sessions_of(sessions@)),
{
    let ghost all = sessions_of(sessions@);
    let ghost f = |s: Session| s.is_current;
    let mut i: usize = 0;
    while i < sessions.len() && !sessions[i].is_current
        invariant
            i <= sessions@.len(),
            all == sessions_of(sessions@),
            f == (|s: Session| s.is_current),
            forall|j: int| 0 <= j < i ==> !f(#[trigger] all[j]),
        ensures
            i < sessions@.len() ==> sessions@[i as int].is_current,
        decreases sessions@.len() - i,
    {
        i += 1;
    }
    proof {
        lemma_first_where(all, f, i as int);
    }
    if i < sessions.len() {
        Some(sessions[i].name.as_str())
    } else {
        None
    }
}

} // verus!
