//! The marker in front of a tab's name: how it is put there and how it is taken off.
use crate::text::{chars_of, copy_of, joined};
use vstd::prelude::*;

verus! {

/// Whether `s` begins with `prefix`.
pub open spec fn starts_with(s: Seq<char>, prefix: Seq<char>) -> bool {
    s.len() >= prefix.len() && s.take(prefix.len() as int) == prefix
}

/// What stands in front of the name of a tab that has a note: the icon and one space.
pub open spec fn marker(icon: Seq<char>) -> Seq<char> {
    icon.push(' ')
}

/// The name without the markers in front of it.
pub open spec fn clean_name(name: Seq<char>, icon: Seq<char>) -> Seq<char>
    decreases name.len(),
{
    if starts_with(name, marker(icon)) {
        clean_name(name.skip(marker(icon).len() as int), icon)
    } else {
        name
    }
}

/// The name that a tab is shown under.
pub open spec fn decorated(clean: Seq<char>, icon: Seq<char>, has_note: bool) -> Seq<char> {
    if has_note {
        marker(icon) + clean
    } else {
        clean
    }
}

/// A clean name has no marker in front, and cleaning it again changes nothing.
pub proof fn lemma_clean_name_is_clean(name: Seq<char>, icon: Seq<char>)
    ensures
        !starts_with(clean_name(name, icon), marker(icon)),
        clean_name(clean_name(name, icon), icon) == clean_name(name, icon),
        clean_name(name, icon).len() <= name.len(),
    decreases name.len(),
{
    if starts_with(name, marker(icon)) {
        lemma_clean_name_is_clean(name.skip(marker(icon).len() as int), icon);
    }
}

/// Decorating a name, with a note or without, does not change what it is without markers.
pub proof fn law_decoration_is_undone(name: Seq<char>, icon: Seq<char>, has_note: bool)
    ensures
        clean_name(decorated(clean_name(name, icon), icon, has_note), icon) == clean_name(
            name,
            icon,
        ),
{
    lemma_clean_name_is_clean(name, icon);
    let clean = clean_name(name, icon);
    if has_note {
        let shown = decorated(clean, icon, true);
        assert(shown.take(marker(icon).len() as int) =~= marker(icon));
        assert(shown.skip(marker(icon).len() as int) =~= clean);
    }
}

/// The name without the markers in front of it.
pub fn strip_icon<'a>(name: &'a str, icon: &str) -> (r: &'a str)
    ensures
        r@ == clean_name(name@, icon@),
{
    let v = chars_of(name);
    let mut mark = chars_of(icon);
    mark.push(' ');
    let mut from: usize = 0;
    let end: usize = v.len();
    assert(v@.skip(0) =~= v@);
    while marked_at(&v, from, &mark)
        invariant
            v@ == name@,
            mark@ == marker(icon@),
            from <= end == v@.len(),
            clean_name(v@.skip(from as int), icon@) == clean_name(name@, icon@),
        decreases v@.len() - from,
    {
        proof {
            assert(v@.skip(from as int).skip(mark@.len() as int) =~= v@.skip(
                from + mark@.len(),
            ));
        }
        from += mark.len();
    }
    let r = name.substring_char(from, end);
    assert(r@ =~= v@.skip(from as int));
    r
}

/// Whether the marker stands at position `from`.
fn marked_at(v: &Vec<char>, from: usize, mark: &Vec<char>) -> (r: bool)
    requires
        from <= v@.len(),
    ensures
        r == starts_with(v@.skip(from as int), mark@),
{
    let ghost rest = v@.skip(from as int);
    let end: usize = v.len();
    if end - from < mark.len() {
        return false;
    }
    let mut i: usize = 0;
    while i < mark.len()
        invariant
            i <= mark@.len() <= end - from,
            from <= end == v@.len(),
            rest == v@.skip(from as int),
            forall|j: int| 0 <= j < i ==> rest[j] == mark@[j],
        decreases mark@.len() - i,
    {
        if v[from + i] != mark[i] {
            assert(rest.take(mark@.len() as int)[i as int] != mark@[i as int]);
            return false;
        }
        i += 1;
    }
    assert(rest.take(mark@.len() as int) =~= mark@);
    true
}

/// The name that a tab is shown under: the icon in front of it if the tab has a note.
pub fn decorate(clean: &str, icon: &str, has_note: bool) -> (r: String)
    ensures
        r@ == decorated(clean@, icon@, has_note),
{
    if has_note {
        let mut mark = copy_of(icon);
        mark.push(' ');
        joined(mark.as_str(), clean)
    } else {
        copy_of(clean)
    }
}

} // verus!
